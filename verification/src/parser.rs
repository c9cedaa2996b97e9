//! The textual assembly format: a tokenizer and a parser of functions.
//!
//! ```text
//! func name(Int Float) Int
//! {
//!     .locals 1
//!     .local 0 Int
//!     LDARG 0
//!     STLOC 0
//!     LDLOC 0
//!     RET
//! }
//! ```
use vstd::prelude::*;
use crate::text::{str_to_chars, string_from_chars, char_alphabetic, char_numeric, is_alphabetic, is_numeric, text_lowercase, to_lowercase};
use crate::model::typesystem::{TypeId, TypeIdView, parse_type_spec, option_type_view, types_view};
use crate::model::function::{Function, FunctionDeclaration, FunctionSignature, FunctionView, function_view};
use crate::model::instruction::{Instruction, InstructionView, instructions_view};
use crate::model::class::str_equal;

verus! {

#[derive(Debug, PartialEq)]
pub enum Token {
    LeftCurlyParentheses,
    RightCurlyParentheses,
    LeftParentheses,
    RightParentheses,
    Int32(i32),
    /// A float literal, as its decimal text.
    Float32(String),
    Identifier(String),
    DefineNumberOfLocals,
    DefineLocal,
    Function,
    Class,
    Colon,
    End,
}

/// The mathematical form of a [`Token`].
pub enum TokenView {
    LeftCurlyParentheses,
    RightCurlyParentheses,
    LeftParentheses,
    RightParentheses,
    Int32(i32),
    Float32(Seq<char>),
    Identifier(Seq<char>),
    DefineNumberOfLocals,
    DefineLocal,
    Function,
    Class,
    Colon,
    End,
}

impl View for Token {
    type V = TokenView;

    open spec fn view(&self) -> TokenView {
        match *self {
            Token::LeftCurlyParentheses => TokenView::LeftCurlyParentheses,
            Token::RightCurlyParentheses => TokenView::RightCurlyParentheses,
            Token::LeftParentheses => TokenView::LeftParentheses,
            Token::RightParentheses => TokenView::RightParentheses,
            Token::Int32(v) => TokenView::Int32(v),
            Token::Float32(t) => TokenView::Float32(t@),
            Token::Identifier(s) => TokenView::Identifier(s@),
            Token::DefineNumberOfLocals => TokenView::DefineNumberOfLocals,
            Token::DefineLocal => TokenView::DefineLocal,
            Token::Function => TokenView::Function,
            Token::Class => TokenView::Class,
            Token::Colon => TokenView::Colon,
            Token::End => TokenView::End,
        }
    }
}

pub open spec fn tokens_view(tokens: Seq<Token>) -> Seq<TokenView> {
    tokens.map_values(|t: Token| t@)
}

#[derive(Debug)]
pub enum ParserError {
    FloatConvertError,
    IntConvertError,
    AlreadyHasDot,
    ReachedEndOfTokens,
    ExpectedFunctionOrClass,
    ExpectedIdentifier,
    ExpectedInt32,
    ExpectedFloat32,
    ExpectedLeftParentheses,
    ExpectedRightParentheses,
    ExpectedLeftCurlyParentheses,
    ExpectedRightCurlyParentheses,
    NotDefinedType(String),
    NotDefinedInstruction(String),
    UndefinedModifier,
    UntypedLocal(u32),
    ExpectedColon,
}

/// The mathematical form of a [`ParserError`].
pub enum ParserErrorView {
    FloatConvertError,
    IntConvertError,
    AlreadyHasDot,
    ReachedEndOfTokens,
    ExpectedFunctionOrClass,
    ExpectedIdentifier,
    ExpectedInt32,
    ExpectedFloat32,
    ExpectedLeftParentheses,
    ExpectedRightParentheses,
    ExpectedLeftCurlyParentheses,
    ExpectedRightCurlyParentheses,
    NotDefinedType(Seq<char>),
    NotDefinedInstruction(Seq<char>),
    UndefinedModifier,
    UntypedLocal(u32),
    ExpectedColon,
}

impl View for ParserError {
    type V = ParserErrorView;

    open spec fn view(&self) -> ParserErrorView {
        match *self {
            ParserError::FloatConvertError => ParserErrorView::FloatConvertError,
            ParserError::IntConvertError => ParserErrorView::IntConvertError,
            ParserError::AlreadyHasDot => ParserErrorView::AlreadyHasDot,
            ParserError::ReachedEndOfTokens => ParserErrorView::ReachedEndOfTokens,
            ParserError::ExpectedFunctionOrClass => ParserErrorView::ExpectedFunctionOrClass,
            ParserError::ExpectedIdentifier => ParserErrorView::ExpectedIdentifier,
            ParserError::ExpectedInt32 => ParserErrorView::ExpectedInt32,
            ParserError::ExpectedFloat32 => ParserErrorView::ExpectedFloat32,
            ParserError::ExpectedLeftParentheses => ParserErrorView::ExpectedLeftParentheses,
            ParserError::ExpectedRightParentheses => ParserErrorView::ExpectedRightParentheses,
            ParserError::ExpectedLeftCurlyParentheses => ParserErrorView::ExpectedLeftCurlyParentheses,
            ParserError::ExpectedRightCurlyParentheses => ParserErrorView::ExpectedRightCurlyParentheses,
            ParserError::NotDefinedType(s) => ParserErrorView::NotDefinedType(s@),
            ParserError::NotDefinedInstruction(s) => ParserErrorView::NotDefinedInstruction(s@),
            ParserError::UndefinedModifier => ParserErrorView::UndefinedModifier,
            ParserError::UntypedLocal(i) => ParserErrorView::UntypedLocal(i),
            ParserError::ExpectedColon => ParserErrorView::ExpectedColon,
        }
    }
}

pub type ParserResult<T> = Result<T, ParserError>;

// ---------------------------------------------------------------------------
// Tokenizer
// ---------------------------------------------------------------------------

/// A character that continues an identifier or a modifier.
pub open spec fn is_word_char(c: char) -> bool {
    char_alphabetic(c) || char_numeric(c) || c == '_'
}

/// A character that continues a number.
pub open spec fn is_number_char(c: char) -> bool {
    char_numeric(c) || c == '.'
}

/// End of the run of word characters that starts at `pos`.
pub open spec fn word_end(text: Seq<char>, pos: int) -> int
    decreases text.len() - pos,
{
    if pos < 0 || pos >= text.len() || !is_word_char(text[pos]) {
        pos
    } else {
        word_end(text, pos + 1)
    }
}

/// End of the run of number characters that starts at `pos`.
pub open spec fn number_end(text: Seq<char>, pos: int) -> int
    decreases text.len() - pos,
{
    if pos < 0 || pos >= text.len() || !is_number_char(text[pos]) {
        pos
    } else {
        number_end(text, pos + 1)
    }
}

pub open spec fn count_dots(s: Seq<char>) -> nat
    decreases s.len(),
{
    if s.len() == 0 {
        0
    } else {
        count_dots(s.drop_last()) + if s.last() == '.' { 1nat } else { 0nat }
    }
}

pub open spec fn is_ascii_digit(c: char) -> bool {
    '0' <= c <= '9'
}

pub open spec fn digit_value(c: char) -> nat {
    (c as nat - '0' as nat) as nat
}

/// The value of a string of decimal digits.
pub open spec fn decimal_value(s: Seq<char>) -> nat
    decreases s.len(),
{
    if s.len() == 0 {
        0
    } else {
        decimal_value(s.drop_last()) * 10 + digit_value(s.last())
    }
}

pub open spec fn all_ascii_digits(s: Seq<char>) -> bool {
    forall|i: int| 0 <= i < s.len() ==> is_ascii_digit(#[trigger] s[i])
}

/// The token of a number literal: an `Int` literal is made of ASCII digits
/// and fits in an `i32`; a float literal has one decimal point and ASCII
/// digits otherwise (the text that `str::parse::<f32>` accepts among runs of
/// digits and points).
pub open spec fn number_token(s: Seq<char>) -> Result<TokenView, ParserErrorView> {
    if count_dots(s) >= 2 {
        Err(ParserErrorView::AlreadyHasDot)
    } else if count_dots(s) == 1 {
        if forall|i: int| 0 <= i < s.len() ==> (#[trigger] s[i] == '.' || is_ascii_digit(s[i])) {
            Ok(TokenView::Float32(s))
        } else {
            Err(ParserErrorView::FloatConvertError)
        }
    } else if all_ascii_digits(s) && decimal_value(s) <= i32::MAX {
        Ok(TokenView::Int32(decimal_value(s) as i32))
    } else {
        Err(ParserErrorView::IntConvertError)
    }
}

pub open spec fn word_token(w: Seq<char>) -> TokenView {
    if w == seq!['f', 'u', 'n', 'c'] {
        TokenView::Function
    } else if w == seq!['c', 'l', 'a', 's', 's'] {
        TokenView::Class
    } else {
        TokenView::Identifier(w)
    }
}

pub open spec fn modifier_token(w: Seq<char>) -> Result<TokenView, ParserErrorView> {
    if w == seq!['.', 'l', 'o', 'c', 'a', 'l', 's'] {
        Ok(TokenView::DefineNumberOfLocals)
    } else if w == seq!['.', 'l', 'o', 'c', 'a', 'l'] {
        Ok(TokenView::DefineLocal)
    } else {
        Err(ParserErrorView::UndefinedModifier)
    }
}

pub open spec fn prepend(t: TokenView, r: Result<Seq<TokenView>, ParserErrorView>) -> Result<Seq<TokenView>, ParserErrorView> {
    match r {
        Ok(rest) => Ok(seq![t] + rest),
        Err(e) => Err(e),
    }
}

pub open spec fn prefix_with(p: Seq<TokenView>, r: Result<Seq<TokenView>, ParserErrorView>) -> Result<Seq<TokenView>, ParserErrorView> {
    match r {
        Ok(rest) => Ok(p + rest),
        Err(e) => Err(e),
    }
}

/// The tokens of `text` from position `pos` on, ending with `End`, or the
/// first error. Words that start with a letter are identifiers (or the
/// keywords `func` and `class`), runs that start with a number character
/// are numbers, `.` starts a modifier (`.locals` or `.local`), the
/// brackets and `:` are tokens of their own, and anything else is skipped.
pub open spec fn scan_spec(text: Seq<char>, pos: int) -> Result<Seq<TokenView>, ParserErrorView>
    decreases text.len() - pos,
{
    if pos < 0 || pos >= text.len() {
        Ok(seq![TokenView::End])
    } else {
        let c = text[pos];
        if char_alphabetic(c) {
            let e = word_end(text, pos + 1);
            proof {
                lemma_word_end_bounds(text, pos + 1);
            }
            prepend(word_token(text.subrange(pos, e)), scan_spec(text, e))
        } else if char_numeric(c) {
            let e = number_end(text, pos + 1);
            proof {
                lemma_number_end_bounds(text, pos + 1);
            }
            match number_token(text.subrange(pos, e)) {
                Err(err) => Err(err),
                Ok(t) => prepend(t, scan_spec(text, e)),
            }
        } else if c == '.' {
            let e = word_end(text, pos + 1);
            proof {
                lemma_word_end_bounds(text, pos + 1);
            }
            match modifier_token(text.subrange(pos, e)) {
                Err(err) => Err(err),
                Ok(t) => prepend(t, scan_spec(text, e)),
            }
        } else if c == '(' {
            prepend(TokenView::LeftParentheses, scan_spec(text, pos + 1))
        } else if c == ')' {
            prepend(TokenView::RightParentheses, scan_spec(text, pos + 1))
        } else if c == '{' {
            prepend(TokenView::LeftCurlyParentheses, scan_spec(text, pos + 1))
        } else if c == '}' {
            prepend(TokenView::RightCurlyParentheses, scan_spec(text, pos + 1))
        } else if c == ':' {
            prepend(TokenView::Colon, scan_spec(text, pos + 1))
        } else {
            scan_spec(text, pos + 1)
        }
    }
}

pub open spec fn tokens_result_view(r: ParserResult<Vec<Token>>) -> Result<Seq<TokenView>, ParserErrorView> {
    match r {
        Ok(tokens) => Ok(tokens_view(tokens@)),
        Err(e) => Err(e@),
    }
}

pub proof fn lemma_word_end_bounds(text: Seq<char>, pos: int)
    requires
        0 <= pos <= text.len(),
    ensures
        pos <= word_end(text, pos) <= text.len(),
        forall|k: int| pos <= k < word_end(text, pos) ==> is_word_char(#[trigger] text[k]),
    decreases text.len() - pos,
{
    if pos < text.len() && is_word_char(text[pos]) {
        lemma_word_end_bounds(text, pos + 1);
    }
}

pub proof fn lemma_number_end_bounds(text: Seq<char>, pos: int)
    requires
        0 <= pos <= text.len(),
    ensures
        pos <= number_end(text, pos) <= text.len(),
        forall|k: int| pos <= k < number_end(text, pos) ==> is_number_char(#[trigger] text[k]),
    decreases text.len() - pos,
{
    if pos < text.len() && is_number_char(text[pos]) {
        lemma_number_end_bounds(text, pos + 1);
    }
}

fn word_run_end(text: &Vec<char>, start: usize) -> (e: usize)
    requires
        start <= text@.len(),
    ensures
        e == word_end(text@, start as int),
        start <= e <= text@.len(),
{
    let mut e = start;
    while e < text.len() && (is_alphabetic(text[e]) || is_numeric(text[e]) || text[e] == '_')
        invariant
            start <= e <= text@.len(),
            word_end(text@, start as int) == word_end(text@, e as int),
        decreases text@.len() - e,
    {
        e = e + 1;
    }
    e
}

fn number_run_end(text: &Vec<char>, start: usize) -> (e: usize)
    requires
        start <= text@.len(),
    ensures
        e == number_end(text@, start as int),
        start <= e <= text@.len(),
{
    let mut e = start;
    while e < text.len() && (is_numeric(text[e]) || text[e] == '.')
        invariant
            start <= e <= text@.len(),
            number_end(text@, start as int) == number_end(text@, e as int),
        decreases text@.len() - e,
    {
        e = e + 1;
    }
    e
}

fn equal_chars(a: &[char], b: &Vec<char>) -> (r: bool)
    ensures
        r == (a@ == b@),
{
    if a.len() != b.len() {
        return false;
    }
    let mut i: usize = 0;
    while i < a.len()
        invariant
            a@.len() == b@.len(),
            i <= a@.len(),
            forall|j: int| 0 <= j < i ==> a@[j] == b@[j],
        decreases a@.len() - i,
    {
        if a[i] != b[i] {
            return false;
        }
        i = i + 1;
    }
    assert(a@ =~= b@);
    true
}

proof fn lemma_decimal_prefix(s: Seq<char>, k: int)
    requires
        0 <= k <= s.len(),
    ensures
        decimal_value(s.take(k)) <= decimal_value(s),
    decreases s.len() - k,
{
    if k < s.len() {
        lemma_decimal_prefix(s, k + 1);
        assert(s.take(k + 1).drop_last() =~= s.take(k));
    } else {
        assert(s.take(k) =~= s);
    }
}

proof fn lemma_count_dots_take(s: Seq<char>, k: int)
    requires
        0 <= k < s.len(),
    ensures
        count_dots(s.take(k + 1)) == count_dots(s.take(k)) + if s[k] == '.' { 1nat } else { 0nat },
{
    assert(s.take(k + 1).drop_last() =~= s.take(k));
}

/// The token of a number literal, or its conversion error.
fn number_literal(word: &[char]) -> (r: ParserResult<Token>)
    ensures
        match number_token(word@) {
            Ok(t) => r is Ok && r->Ok_0@ == t,
            Err(e) => r is Err && r->Err_0@ == e,
        },
{
    let mut dots: usize = 0;
    let mut all_digits = true;
    let mut i: usize = 0;
    while i < word.len()
        invariant
            i <= word@.len(),
            dots <= 1,
            dots == count_dots(word@.take(i as int)),
            all_digits == forall|j: int| 0 <= j < i ==> (#[trigger] word@[j] == '.' || is_ascii_digit(word@[j])),
        decreases word@.len() - i,
    {
        proof {
            lemma_count_dots_take(word@, i as int);
        }
        if word[i] == '.' {
            dots = dots + 1;
            if dots >= 2 {
                proof {
                    lemma_count_dots_mono(word@, i + 1, word@.len() as int);
                    assert(word@.take(word@.len() as int) =~= word@);
                }
                return Err(ParserError::AlreadyHasDot);
            }
        } else if !('0' <= word[i] && word[i] <= '9') {
            all_digits = false;
        }
        i = i + 1;
    }
    assert(word@.take(word@.len() as int) =~= word@);
    if dots == 1 {
        if all_digits {
            return Ok(Token::Float32(string_from_chars(word)));
        } else {
            return Err(ParserError::FloatConvertError);
        }
    }
    assert(count_dots(word@) == 0);
    proof {
        if all_digits {
            assert forall|j: int| 0 <= j < word@.len() implies is_ascii_digit(#[trigger] word@[j]) by {
                lemma_no_dots(word@, j);
            }
        }
    }
    if !all_digits {
        proof {
            let j = choose|j: int| 0 <= j < word@.len() && !(#[trigger] word@[j] == '.' || is_ascii_digit(word@[j]));
            assert(!is_ascii_digit(word@[j]));
        }
        return Err(ParserError::IntConvertError);
    }
    let mut value: u64 = 0;
    let mut k: usize = 0;
    while k < word.len()
        invariant
            k <= word@.len(),
            all_ascii_digits(word@),
            count_dots(word@) == 0,
            value == decimal_value(word@.take(k as int)),
            value <= i32::MAX,
        decreases word@.len() - k,
    {
        let d = (word[k] as u32 - '0' as u32) as u64;
        assert(word@.take(k + 1).drop_last() =~= word@.take(k as int));
        assert(is_ascii_digit(word@[k as int]));
        value = value * 10 + d;
        assert(value == decimal_value(word@.take(k + 1)));
        if value > 2147483647 {
            proof {
                lemma_decimal_prefix(word@, k + 1);
            }
            return Err(ParserError::IntConvertError);
        }
        k = k + 1;
    }
    assert(word@.take(word@.len() as int) =~= word@);
    Ok(Token::Int32(value as i32))
}

proof fn lemma_count_dots_mono(s: Seq<char>, j: int, k: int)
    requires
        0 <= j <= k <= s.len(),
    ensures
        count_dots(s.take(j)) <= count_dots(s.take(k)),
    decreases k - j,
{
    if j < k {
        lemma_count_dots_mono(s, j, k - 1);
        lemma_count_dots_take(s, k - 1);
    }
}

proof fn lemma_no_dots(s: Seq<char>, j: int)
    requires
        count_dots(s) == 0,
        0 <= j < s.len(),
    ensures
        s[j] != '.',
    decreases s.len(),
{
    if j < s.len() - 1 {
        lemma_no_dots(s.drop_last(), j);
    }
}

proof fn lemma_prefix_prepend(p: Seq<TokenView>, t: TokenView, r: Result<Seq<TokenView>, ParserErrorView>)
    ensures
        prefix_with(p, prepend(t, r)) == prefix_with(p + seq![t], r),
{
    match r {
        Ok(rest) => {
            assert(p + (seq![t] + rest) =~= (p + seq![t]) + rest);
        },
        Err(_) => {},
    }
}

/// Splits the text into tokens; the last token is `End`.
pub fn tokenize(text: &str) -> (r: ParserResult<Vec<Token>>)
    ensures
        tokens_result_view(r) == scan_spec(text@, 0),
{
    let chars = str_to_chars(text);
    let n = chars.len();
    let mut tokens: Vec<Token> = Vec::new();
    let mut pos: usize = 0;
    while pos < n
        invariant
            n == chars@.len(),
            pos <= n,
            chars@ == text@,
            scan_spec(chars@, 0) == prefix_with(tokens_view(tokens@), scan_spec(chars@, pos as int)),
        decreases n - pos,
    {
        let ghost before = tokens_view(tokens@);
        let current = chars[pos];
        if is_alphabetic(current) {
            let end = word_run_end(&chars, pos + 1);
            let word = &chars.as_slice()[pos..end];
            assert(word@ == chars@.subrange(pos as int, end as int));
            let keyword_func = vec!['f', 'u', 'n', 'c'];
            let keyword_class = vec!['c', 'l', 'a', 's', 's'];
            assert(keyword_func@ =~= seq!['f', 'u', 'n', 'c']);
            assert(keyword_class@ =~= seq!['c', 'l', 'a', 's', 's']);
            let token = if equal_chars(word, &keyword_func) {
                Token::Function
            } else if equal_chars(word, &keyword_class) {
                Token::Class
            } else {
                Token::Identifier(string_from_chars(word))
            };
            tokens.push(token);
            proof {
                assert(tokens_view(tokens@) =~= before + seq![word_token(word@)]);
                lemma_word_end_bounds(chars@, pos + 1);
                assert(scan_spec(chars@, pos as int) == prepend(word_token(word@), scan_spec(chars@, end as int)));
                lemma_prefix_prepend(before, word_token(word@), scan_spec(chars@, end as int));
            }
            pos = end;
        } else if is_numeric(current) {
            let end = number_run_end(&chars, pos + 1);
            let word = &chars.as_slice()[pos..end];
            assert(word@ == chars@.subrange(pos as int, end as int));
            proof {
                lemma_number_end_bounds(chars@, pos + 1);
            }
            let token = match number_literal(word) {
                Ok(t) => t,
                Err(e) => {
                    proof {
                        assert(scan_spec(chars@, pos as int) == Err::<Seq<TokenView>, ParserErrorView>(e@));
                    }
                    return Err(e);
                },
            };
            tokens.push(token);
            proof {
                assert(tokens_view(tokens@) =~= before + seq![token@]);
                assert(scan_spec(chars@, pos as int) == prepend(token@, scan_spec(chars@, end as int)));
                lemma_prefix_prepend(before, token@, scan_spec(chars@, end as int));
            }
            pos = end;
        } else if current == '.' {
            let end = word_run_end(&chars, pos + 1);
            let word = &chars.as_slice()[pos..end];
            assert(word@ == chars@.subrange(pos as int, end as int));
            let locals_word = vec!['.', 'l', 'o', 'c', 'a', 'l', 's'];
            let local_word = vec!['.', 'l', 'o', 'c', 'a', 'l'];
            assert(locals_word@ =~= seq!['.', 'l', 'o', 'c', 'a', 'l', 's']);
            assert(local_word@ =~= seq!['.', 'l', 'o', 'c', 'a', 'l']);
            proof {
                lemma_word_end_bounds(chars@, pos + 1);
            }
            let token = if equal_chars(word, &locals_word) {
                Token::DefineNumberOfLocals
            } else if equal_chars(word, &local_word) {
                Token::DefineLocal
            } else {
                proof {
                    assert(scan_spec(chars@, pos as int) == Err::<Seq<TokenView>, ParserErrorView>(
                        ParserErrorView::UndefinedModifier,
                    ));
                }
                return Err(ParserError::UndefinedModifier);
            };
            tokens.push(token);
            proof {
                assert(tokens_view(tokens@) =~= before + seq![token@]);
                assert(scan_spec(chars@, pos as int) == prepend(token@, scan_spec(chars@, end as int)));
                lemma_prefix_prepend(before, token@, scan_spec(chars@, end as int));
            }
            pos = end;
        } else {
            let single = if current == '(' {
                Some(Token::LeftParentheses)
            } else if current == ')' {
                Some(Token::RightParentheses)
            } else if current == '{' {
                Some(Token::LeftCurlyParentheses)
            } else if current == '}' {
                Some(Token::RightCurlyParentheses)
            } else if current == ':' {
                Some(Token::Colon)
            } else {
                None
            };
            match single {
                Some(token) => {
                    tokens.push(token);
                    proof {
                        assert(tokens_view(tokens@) =~= before + seq![token@]);
                        assert(scan_spec(chars@, pos as int) == prepend(token@, scan_spec(chars@, pos + 1)));
                        lemma_prefix_prepend(before, token@, scan_spec(chars@, pos + 1));
                    }
                },
                None => {
                    assert(scan_spec(chars@, pos as int) == scan_spec(chars@, pos + 1));
                },
            }
            pos = pos + 1;
        }
    }
    let ghost before = tokens_view(tokens@);
    tokens.push(Token::End);
    proof {
        assert(tokens_view(tokens@) =~= before + seq![TokenView::End]);
    }
    Ok(tokens)
}

// ---------------------------------------------------------------------------
// Parser
// ---------------------------------------------------------------------------

/// The index after `idx`, or the end-of-tokens error.
pub open spec fn advance_spec(toks: Seq<TokenView>, idx: int) -> Result<int, ParserErrorView> {
    if idx + 1 >= toks.len() {
        Err(ParserErrorView::ReachedEndOfTokens)
    } else {
        Ok(idx + 1)
    }
}

pub open spec fn map_result<A, B>(r: Result<(A, int), ParserErrorView>, f: spec_fn(A) -> B) -> Result<(B, int), ParserErrorView> {
    match r {
        Ok((a, j)) => Ok((f(a), j)),
        Err(e) => Err(e),
    }
}

pub open spec fn next_identifier_spec(toks: Seq<TokenView>, idx: int) -> Result<(Seq<char>, int), ParserErrorView> {
    match toks[idx] {
        TokenView::Identifier(s) => match advance_spec(toks, idx) {
            Ok(j) => Ok((s, j)),
            Err(e) => Err(e),
        },
        _ => Err(ParserErrorView::ExpectedIdentifier),
    }
}

pub open spec fn next_i32_spec(toks: Seq<TokenView>, idx: int) -> Result<(i32, int), ParserErrorView> {
    match toks[idx] {
        TokenView::Int32(v) => match advance_spec(toks, idx) {
            Ok(j) => Ok((v, j)),
            Err(e) => Err(e),
        },
        _ => Err(ParserErrorView::ExpectedInt32),
    }
}

pub open spec fn next_f32_spec(toks: Seq<TokenView>, idx: int) -> Result<(Seq<char>, int), ParserErrorView> {
    match toks[idx] {
        TokenView::Float32(v) => match advance_spec(toks, idx) {
            Ok(j) => Ok((v, j)),
            Err(e) => Err(e),
        },
        _ => Err(ParserErrorView::ExpectedFloat32),
    }
}

/// The type named by `s`, or the error that it is not a type.
pub open spec fn type_of_spec(s: Seq<char>) -> Result<TypeIdView, ParserErrorView> {
    match parse_type_spec(s, 0) {
        Some(t) => Ok(t),
        None => Err(ParserErrorView::NotDefinedType(s)),
    }
}

pub open spec fn next_type_spec(toks: Seq<TokenView>, idx: int) -> Result<(TypeIdView, int), ParserErrorView> {
    match next_identifier_spec(toks, idx) {
        Ok((s, j)) => match type_of_spec(s) {
            Ok(t) => Ok((t, j)),
            Err(e) => Err(e),
        },
        Err(e) => Err(e),
    }
}

/// A number token read as an unsigned index (negative numbers wrap around).
pub open spec fn wrap_u32(v: i32) -> u32 {
    if v >= 0 {
        v as u32
    } else {
        (v + 4294967296) as u32
    }
}

/// The argument types of a `CALL` up to the closing `)`, appended to `acc`.
pub open spec fn call_arguments_spec(toks: Seq<TokenView>, idx: int, acc: Seq<TypeIdView>) -> Result<(Seq<TypeIdView>, int), ParserErrorView>
    decreases toks.len() - idx,
{
    if idx < 0 || idx >= toks.len() {
        Err(ParserErrorView::ReachedEndOfTokens)
    } else {
        match toks[idx] {
            TokenView::Identifier(s) => match type_of_spec(s) {
                Err(e) => Err(e),
                Ok(t) => match advance_spec(toks, idx) {
                    Err(e) => Err(e),
                    Ok(j) => call_arguments_spec(toks, j, acc.push(t)),
                },
            },
            TokenView::RightParentheses => match advance_spec(toks, idx) {
                Err(e) => Err(e),
                Ok(j) => Ok((acc, j)),
            },
            _ => Err(ParserErrorView::ExpectedIdentifier),
        }
    }
}

/// `CALL name(types...)`, with `idx` at the name.
pub open spec fn call_spec(toks: Seq<TokenView>, idx: int) -> Result<(InstructionView, int), ParserErrorView> {
    match next_identifier_spec(toks, idx) {
        Err(e) => Err(e),
        Ok((name, j)) => match toks[j] {
            TokenView::LeftParentheses => match advance_spec(toks, j) {
                Err(e) => Err(e),
                Ok(k) => map_result(call_arguments_spec(toks, k, seq![]), |args: Seq<TypeIdView>| InstructionView::Call((name, args))),
            },
            _ => Err(ParserErrorView::ExpectedLeftParentheses),
        },
    }
}

/// `class::field`, with `idx` at the class name.
pub open spec fn field_reference_spec(toks: Seq<TokenView>, idx: int) -> Result<((Seq<char>, Seq<char>), int), ParserErrorView> {
    match next_identifier_spec(toks, idx) {
        Err(e) => Err(e),
        Ok((class, j)) => match toks[j] {
            TokenView::Colon => match advance_spec(toks, j) {
                Err(e) => Err(e),
                Ok(k) => match toks[k] {
                    TokenView::Colon => match advance_spec(toks, k) {
                        Err(e) => Err(e),
                        Ok(m) => match next_identifier_spec(toks, m) {
                            Err(e) => Err(e),
                            Ok((field, q)) => Ok(((class, field), q)),
                        },
                    },
                    _ => Err(ParserErrorView::ExpectedColon),
                },
            },
            _ => Err(ParserErrorView::ExpectedColon),
        },
    }
}

/// The instruction named `name` (in any letter case) at `idx`, with its operands.
pub open spec fn parse_instruction_spec(toks: Seq<TokenView>, idx: int, name: Seq<char>) -> Result<(InstructionView, int), ParserErrorView> {
    match advance_spec(toks, idx) {
        Err(e) => Err(e),
        Ok(j) => {
            let lc = text_lowercase(name);
            if lc == "ldnull"@ {
                map_result(next_type_spec(toks, j), |t: TypeIdView| InstructionView::LoadNull(t))
            } else if lc == "ldint"@ {
                map_result(next_i32_spec(toks, j), |v: i32| InstructionView::LoadInt32(v))
            } else if lc == "ldfloat"@ {
                map_result(next_f32_spec(toks, j), |v: Seq<char>| InstructionView::LoadFloat32(v))
            } else if lc == "ldloc"@ {
                map_result(next_i32_spec(toks, j), |v: i32| InstructionView::LoadLocal(wrap_u32(v)))
            } else if lc == "stloc"@ {
                map_result(next_i32_spec(toks, j), |v: i32| InstructionView::StoreLocal(wrap_u32(v)))
            } else if lc == "newarr"@ {
                map_result(next_type_spec(toks, j), |t: TypeIdView| InstructionView::NewArray(t))
            } else if lc == "ldelem"@ {
                map_result(next_type_spec(toks, j), |t: TypeIdView| InstructionView::LoadElement(t))
            } else if lc == "stelem"@ {
                map_result(next_type_spec(toks, j), |t: TypeIdView| InstructionView::StoreElement(t))
            } else if lc == "ldlen"@ {
                Ok((InstructionView::LoadArrayLength, j))
            } else if lc == "add"@ {
                Ok((InstructionView::Add, j))
            } else if lc == "sub"@ {
                Ok((InstructionView::Sub, j))
            } else if lc == "ldarg"@ {
                map_result(next_i32_spec(toks, j), |v: i32| InstructionView::LoadArgument(wrap_u32(v)))
            } else if lc == "call"@ {
                call_spec(toks, j)
            } else if lc == "ret"@ {
                Ok((InstructionView::Return, j))
            } else if lc == "newobj"@ {
                map_result(next_identifier_spec(toks, j), |c: Seq<char>| InstructionView::NewObject(c))
            } else if lc == "ldfield"@ {
                map_result(field_reference_spec(toks, j), |cf: (Seq<char>, Seq<char>)| InstructionView::LoadField(cf.0, cf.1))
            } else if lc == "stfield"@ {
                map_result(field_reference_spec(toks, j), |cf: (Seq<char>, Seq<char>)| InstructionView::StoreField(cf.0, cf.1))
            } else if lc == "br"@ {
                map_result(next_i32_spec(toks, j), |v: i32| InstructionView::Branch(wrap_u32(v)))
            } else if lc == "beq"@ {
                map_result(next_i32_spec(toks, j), |v: i32| InstructionView::BranchEqual(wrap_u32(v)))
            } else if lc == "bne"@ {
                map_result(next_i32_spec(toks, j), |v: i32| InstructionView::BranchNotEqual(wrap_u32(v)))
            } else if lc == "bgt"@ {
                map_result(next_i32_spec(toks, j), |v: i32| InstructionView::BranchGreaterThan(wrap_u32(v)))
            } else if lc == "bge"@ {
                map_result(next_i32_spec(toks, j), |v: i32| InstructionView::BranchGreaterThanOrEqual(wrap_u32(v)))
            } else if lc == "blt"@ {
                map_result(next_i32_spec(toks, j), |v: i32| InstructionView::BranchLessThan(wrap_u32(v)))
            } else if lc == "ble"@ {
                map_result(next_i32_spec(toks, j), |v: i32| InstructionView::BranchLessThanOrEqual(wrap_u32(v)))
            } else {
                Err(ParserErrorView::NotDefinedInstruction(name))
            }
        },
    }
}

/// Mnemonics are compared by their lowercase form: two spellings with the
/// same lowercase form read the same instruction, and the error for an
/// unknown mnemonic is the only outcome that keeps the spelling as written.
pub proof fn lemma_mnemonic_case(toks: Seq<TokenView>, idx: int, a: Seq<char>, b: Seq<char>)
    requires
        text_lowercase(a) == text_lowercase(b),
    ensures
        parse_instruction_spec(toks, idx, a) == parse_instruction_spec(toks, idx, b) || (parse_instruction_spec(toks, idx, a)
            == Err::<(InstructionView, int), ParserErrorView>(ParserErrorView::NotDefinedInstruction(a))
            && parse_instruction_spec(toks, idx, b) == Err::<(InstructionView, int), ParserErrorView>(
            ParserErrorView::NotDefinedInstruction(b),
        )),
{
}

/// The parameter types of a function up to the closing `)`, appended to `acc`.
pub open spec fn parameters_spec(toks: Seq<TokenView>, idx: int, acc: Seq<TypeIdView>) -> Result<(Seq<TypeIdView>, int), ParserErrorView>
    decreases toks.len() - idx,
{
    if idx < 0 || idx >= toks.len() {
        Err(ParserErrorView::ReachedEndOfTokens)
    } else {
        match toks[idx] {
            TokenView::RightParentheses => match advance_spec(toks, idx) {
                Err(e) => Err(e),
                Ok(j) => Ok((acc, j)),
            },
            TokenView::Identifier(s) => match type_of_spec(s) {
                Err(e) => Err(e),
                Ok(t) => match advance_spec(toks, idx) {
                    Err(e) => Err(e),
                    Ok(j) => parameters_spec(toks, j, acc.push(t)),
                },
            },
            _ => Err(ParserErrorView::ExpectedRightParentheses),
        }
    }
}

/// The outcome of parsing part of a function body: the instructions and
/// the (possibly untyped) locals, the parse error, or an input on which
/// the parser panics (`.locals` with a negative count, or `.local` with an
/// index outside the declared locals).
pub enum BodyOutcome {
    Done(Seq<InstructionView>, Seq<Option<TypeIdView>>, int),
    Failed(ParserErrorView),
    Stuck,
}

/// The locals after `.locals n`: cut to `n` or extended with untyped locals.
pub open spec fn resize_locals(locals: Seq<Option<TypeIdView>>, n: int) -> Seq<Option<TypeIdView>> {
    if n <= locals.len() {
        locals.take(n)
    } else {
        locals + Seq::new((n - locals.len()) as nat, |k: int| None::<TypeIdView>)
    }
}

/// The body of a function from `idx` up to and including the closing `}`.
pub open spec fn body_spec(
    toks: Seq<TokenView>,
    idx: int,
    instructions: Seq<InstructionView>,
    locals: Seq<Option<TypeIdView>>,
) -> BodyOutcome
    decreases toks.len() - idx,
{
    if idx < 0 || idx >= toks.len() {
        BodyOutcome::Failed(ParserErrorView::ReachedEndOfTokens)
    } else {
        match toks[idx] {
            TokenView::RightCurlyParentheses => match advance_spec(toks, idx) {
                Err(e) => BodyOutcome::Failed(e),
                Ok(j) => BodyOutcome::Done(instructions, locals, j),
            },
            TokenView::DefineNumberOfLocals => match advance_spec(toks, idx) {
                Err(e) => BodyOutcome::Failed(e),
                Ok(j) => match next_i32_spec(toks, j) {
                    Err(e) => BodyOutcome::Failed(e),
                    Ok((n, k)) => if n < 0 {
                        BodyOutcome::Stuck
                    } else {
                        body_spec(toks, k, instructions, resize_locals(locals, n as int))
                    },
                },
            },
            TokenView::DefineLocal => match advance_spec(toks, idx) {
                Err(e) => BodyOutcome::Failed(e),
                Ok(j) => match next_i32_spec(toks, j) {
                    Err(e) => BodyOutcome::Failed(e),
                    Ok((index, k)) => match next_type_spec(toks, k) {
                        Err(e) => BodyOutcome::Failed(e),
                        Ok((t, m)) => if index < 0 || index >= locals.len() {
                            BodyOutcome::Stuck
                        } else {
                            body_spec(toks, m, instructions, locals.update(index as int, Some(t)))
                        },
                    },
                },
            },
            TokenView::Identifier(name) => match parse_instruction_spec(toks, idx, name) {
                Err(e) => BodyOutcome::Failed(e),
                Ok((instruction, j)) => if idx < j <= toks.len() {
                    body_spec(toks, j, instructions.push(instruction), locals)
                } else {
                    BodyOutcome::Stuck
                },
            },
            _ => BodyOutcome::Failed(ParserErrorView::ExpectedIdentifier),
        }
    }
}

/// The index of the first untyped local among the first `k`.
pub open spec fn first_untyped(locals: Seq<Option<TypeIdView>>, k: int) -> Option<int>
    decreases k,
{
    if k <= 0 {
        None
    } else {
        match first_untyped(locals, k - 1) {
            Some(i) => Some(i),
            None => if locals[k - 1] is None {
                Some(k - 1)
            } else {
                None
            },
        }
    }
}

pub enum FunctionOutcome {
    Parsed(FunctionView, int),
    Failed(ParserErrorView),
    Stuck,
}

/// `func name(parameters) return_type { body }`, with `idx` at `func`.
pub open spec fn parse_function_spec(toks: Seq<TokenView>, idx: int) -> FunctionOutcome {
    match advance_spec(toks, idx) {
        Err(e) => FunctionOutcome::Failed(e),
        Ok(j) => match next_identifier_spec(toks, j) {
            Err(e) => FunctionOutcome::Failed(e),
            Ok((name, k)) => match toks[k] {
                TokenView::LeftParentheses => match advance_spec(toks, k) {
                    Err(e) => FunctionOutcome::Failed(e),
                    Ok(k2) => match parameters_spec(toks, k2, seq![]) {
                        Err(e) => FunctionOutcome::Failed(e),
                        Ok((parameters, k3)) => match next_type_spec(toks, k3) {
                            Err(e) => FunctionOutcome::Failed(e),
                            Ok((return_type, k4)) => match toks[k4] {
                                TokenView::LeftCurlyParentheses => match advance_spec(toks, k4) {
                                    Err(e) => FunctionOutcome::Failed(e),
                                    Ok(k5) => match body_spec(toks, k5, seq![], seq![]) {
                                        BodyOutcome::Failed(e) => FunctionOutcome::Failed(e),
                                        BodyOutcome::Stuck => FunctionOutcome::Stuck,
                                        BodyOutcome::Done(instructions, locals, k6) => match first_untyped(
                                            locals,
                                            locals.len() as int,
                                        ) {
                                            Some(i) => FunctionOutcome::Failed(ParserErrorView::UntypedLocal(i as u32)),
                                            None => FunctionOutcome::Parsed(
                                                FunctionView {
                                                    name,
                                                    parameters,
                                                    return_type,
                                                    locals: locals.map_values(|l: Option<TypeIdView>| l->0),
                                                    instructions,
                                                },
                                                k6,
                                            ),
                                        },
                                    },
                                },
                                _ => FunctionOutcome::Failed(ParserErrorView::ExpectedLeftCurlyParentheses),
                            },
                        },
                    },
                },
                _ => FunctionOutcome::Failed(ParserErrorView::ExpectedLeftParentheses),
            },
        },
    }
}

pub enum ParseOutcome {
    Parsed(Seq<FunctionView>),
    Failed(ParserErrorView),
    Stuck,
}

/// Top-level items from the token after `idx` on, until the `End` token:
/// functions are collected (after `acc`); a `class` token is passed over.
pub open spec fn parse_spec(toks: Seq<TokenView>, idx: int, acc: Seq<FunctionView>) -> ParseOutcome
    decreases toks.len() - idx,
{
    match advance_spec(toks, idx) {
        Err(e) => ParseOutcome::Failed(e),
        Ok(j) => match toks[j] {
            TokenView::Function => match parse_function_spec(toks, j) {
                FunctionOutcome::Failed(e) => ParseOutcome::Failed(e),
                FunctionOutcome::Stuck => ParseOutcome::Stuck,
                FunctionOutcome::Parsed(f, k) => if 0 <= k < toks.len() && toks[k] is End {
                    ParseOutcome::Parsed(acc.push(f))
                } else if idx < k <= toks.len() {
                    parse_spec(toks, k, acc.push(f))
                } else {
                    ParseOutcome::Stuck
                },
            },
            TokenView::Class => if toks[j] is End {
                ParseOutcome::Parsed(acc)
            } else {
                parse_spec(toks, j, acc)
            },
            _ => ParseOutcome::Failed(ParserErrorView::ExpectedFunctionOrClass),
        },
    }
}

/// Whether `r` is the outcome `s`, values compared through `view`.
pub open spec fn matches_outcome<X, V>(r: ParserResult<(X, usize)>, s: Result<(V, int), ParserErrorView>, view: spec_fn(X) -> V) -> bool {
    match s {
        Ok((v, j)) => r is Ok && view(r->Ok_0.0) == v && r->Ok_0.1 == j,
        Err(e) => r is Err && r->Err_0@ == e,
    }
}

fn advance(tokens: &Vec<Token>, idx: usize) -> (r: ParserResult<usize>)
    ensures
        match advance_spec(tokens_view(tokens@), idx as int) {
            Ok(j) => r is Ok && r->Ok_0 == j,
            Err(e) => r is Err && r->Err_0@ == e,
        },
{
    if idx >= tokens.len() || idx + 1 >= tokens.len() {
        Err(ParserError::ReachedEndOfTokens)
    } else {
        Ok(idx + 1)
    }
}

fn next_identifier(tokens: &Vec<Token>, idx: usize) -> (r: ParserResult<(String, usize)>)
    requires
        idx < tokens@.len(),
    ensures
        r is Ok ==> r->Ok_0.1 < tokens@.len(),
        matches_outcome(r, next_identifier_spec(tokens_view(tokens@), idx as int), |s: String| s@),
{
    match &tokens[idx] {
        Token::Identifier(identifier) => {
            let j = advance(tokens, idx)?;
            Ok((identifier.clone(), j))
        },
        _ => Err(ParserError::ExpectedIdentifier),
    }
}

fn next_i32(tokens: &Vec<Token>, idx: usize) -> (r: ParserResult<(i32, usize)>)
    requires
        idx < tokens@.len(),
    ensures
        r is Ok ==> r->Ok_0.1 < tokens@.len(),
        matches_outcome(r, next_i32_spec(tokens_view(tokens@), idx as int), |v: i32| v),
{
    match &tokens[idx] {
        Token::Int32(value) => {
            let j = advance(tokens, idx)?;
            Ok((*value, j))
        },
        _ => Err(ParserError::ExpectedInt32),
    }
}

fn next_f32(tokens: &Vec<Token>, idx: usize) -> (r: ParserResult<(String, usize)>)
    requires
        idx < tokens@.len(),
    ensures
        r is Ok ==> r->Ok_0.1 < tokens@.len(),
        matches_outcome(r, next_f32_spec(tokens_view(tokens@), idx as int), |s: String| s@),
{
    match &tokens[idx] {
        Token::Float32(value) => {
            let j = advance(tokens, idx)?;
            Ok((value.clone(), j))
        },
        _ => Err(ParserError::ExpectedFloat32),
    }
}

/// The type named by `type_str`, or the error that no such type exists.
fn parse_type(type_str: &String) -> (r: ParserResult<TypeId>)
    ensures
        match type_of_spec(type_str@) {
            Ok(t) => r is Ok && r->Ok_0@ == t,
            Err(e) => r is Err && r->Err_0@ == e,
        },
{
    match TypeId::from_str(type_str.as_str()) {
        Some(t) => Ok(t),
        None => Err(ParserError::NotDefinedType(type_str.clone())),
    }
}

fn next_type_id(tokens: &Vec<Token>, idx: usize) -> (r: ParserResult<(TypeId, usize)>)
    requires
        idx < tokens@.len(),
    ensures
        r is Ok ==> r->Ok_0.1 < tokens@.len(),
        matches_outcome(r, next_type_spec(tokens_view(tokens@), idx as int), |t: TypeId| t@),
{
    let (name, j) = next_identifier(tokens, idx)?;
    let t = parse_type(&name)?;
    Ok((t, j))
}

fn index_from_i32(v: i32) -> (r: u32)
    ensures
        r == wrap_u32(v),
{
    if v >= 0 {
        v as u32
    } else {
        (v as i64 + 4294967296i64) as u32
    }
}

fn call_arguments(tokens: &Vec<Token>, start: usize) -> (r: ParserResult<(Vec<TypeId>, usize)>)
    requires
        start < tokens@.len(),
    ensures
        r is Ok ==> r->Ok_0.1 < tokens@.len(),
        matches_outcome(r, call_arguments_spec(tokens_view(tokens@), start as int, seq![]), |v: Vec<TypeId>| types_view(v@)),
{
    let ghost toks = tokens_view(tokens@);
    let mut arguments: Vec<TypeId> = Vec::new();
    let mut idx = start;
    assert(types_view(arguments@) =~= Seq::<TypeIdView>::empty());
    loop
        invariant
            idx < tokens@.len(),
            toks == tokens_view(tokens@),
            call_arguments_spec(toks, start as int, seq![]) == call_arguments_spec(toks, idx as int, types_view(arguments@)),
        decreases tokens@.len() - idx,
    {
        match &tokens[idx] {
            Token::Identifier(identifier) => {
                let t = parse_type(identifier)?;
                let j = advance(tokens, idx)?;
                let ghost before = types_view(arguments@);
                arguments.push(t);
                assert(types_view(arguments@) =~= before.push(t@));
                idx = j;
            },
            Token::RightParentheses => {
                let j = advance(tokens, idx)?;
                return Ok((arguments, j));
            },
            _ => {
                return Err(ParserError::ExpectedIdentifier);
            },
        }
    }
}

fn call_instruction(tokens: &Vec<Token>, idx: usize) -> (r: ParserResult<(Instruction, usize)>)
    requires
        idx < tokens@.len(),
    ensures
        r is Ok ==> r->Ok_0.1 < tokens@.len(),
        matches_outcome(r, call_spec(tokens_view(tokens@), idx as int), |i: Instruction| i@),
{
    let (call_name, j) = next_identifier(tokens, idx)?;
    match &tokens[j] {
        Token::LeftParentheses => {},
        _ => {
            return Err(ParserError::ExpectedLeftParentheses);
        },
    }
    let k = advance(tokens, j)?;
    let (arguments, m) = call_arguments(tokens, k)?;
    Ok((Instruction::Call(FunctionSignature::new(call_name, arguments)), m))
}

fn field_reference(tokens: &Vec<Token>, idx: usize) -> (r: ParserResult<((String, String), usize)>)
    requires
        idx < tokens@.len(),
    ensures
        r is Ok ==> r->Ok_0.1 < tokens@.len(),
        matches_outcome(r, field_reference_spec(tokens_view(tokens@), idx as int), |cf: (String, String)| (cf.0@, cf.1@)),
{
    let (class_name, j) = next_identifier(tokens, idx)?;
    match &tokens[j] {
        Token::Colon => {},
        _ => {
            return Err(ParserError::ExpectedColon);
        },
    }
    let k = advance(tokens, j)?;
    match &tokens[k] {
        Token::Colon => {},
        _ => {
            return Err(ParserError::ExpectedColon);
        },
    }
    let m = advance(tokens, k)?;
    let (field_name, q) = next_identifier(tokens, m)?;
    Ok(((class_name, field_name), q))
}

/// Reads the instruction whose mnemonic `identifier` is token `idx`,
/// comparing the mnemonic by its lowercase form, and gives the position of
/// its last token.
pub fn parse_instruction(tokens: &Vec<Token>, idx: usize, identifier: &String) -> (r: ParserResult<(Instruction, usize)>)
    requires
        idx < tokens@.len(),
    ensures
        r is Ok ==> r->Ok_0.1 < tokens@.len(),
        matches_outcome(r, parse_instruction_spec(tokens_view(tokens@), idx as int, identifier@), |i: Instruction| i@),
{
    let j = advance(tokens, idx)?;
    let lowercase = to_lowercase(identifier.as_str());
    let name = lowercase.as_str();
    if str_equal(name, "ldnull") {
        let (t, k) = next_type_id(tokens, j)?;
        Ok((Instruction::LoadNull(t), k))
    } else if str_equal(name, "ldint") {
        let (v, k) = next_i32(tokens, j)?;
        Ok((Instruction::LoadInt32(v), k))
    } else if str_equal(name, "ldfloat") {
        let (v, k) = next_f32(tokens, j)?;
        Ok((Instruction::LoadFloat32(v), k))
    } else if str_equal(name, "ldloc") {
        let (v, k) = next_i32(tokens, j)?;
        Ok((Instruction::LoadLocal(index_from_i32(v)), k))
    } else if str_equal(name, "stloc") {
        let (v, k) = next_i32(tokens, j)?;
        Ok((Instruction::StoreLocal(index_from_i32(v)), k))
    } else if str_equal(name, "newarr") {
        let (t, k) = next_type_id(tokens, j)?;
        Ok((Instruction::NewArray(t), k))
    } else if str_equal(name, "ldelem") {
        let (t, k) = next_type_id(tokens, j)?;
        Ok((Instruction::LoadElement(t), k))
    } else if str_equal(name, "stelem") {
        let (t, k) = next_type_id(tokens, j)?;
        Ok((Instruction::StoreElement(t), k))
    } else if str_equal(name, "ldlen") {
        Ok((Instruction::LoadArrayLength, j))
    } else if str_equal(name, "add") {
        Ok((Instruction::Add, j))
    } else if str_equal(name, "sub") {
        Ok((Instruction::Sub, j))
    } else if str_equal(name, "ldarg") {
        let (v, k) = next_i32(tokens, j)?;
        Ok((Instruction::LoadArgument(index_from_i32(v)), k))
    } else if str_equal(name, "call") {
        call_instruction(tokens, j)
    } else if str_equal(name, "ret") {
        Ok((Instruction::Return, j))
    } else if str_equal(name, "newobj") {
        let (class_type, k) = next_identifier(tokens, j)?;
        Ok((Instruction::NewObject(class_type), k))
    } else if str_equal(name, "ldfield") {
        let ((class_name, field_name), k) = field_reference(tokens, j)?;
        Ok((Instruction::LoadField(class_name, field_name), k))
    } else if str_equal(name, "stfield") {
        let ((class_name, field_name), k) = field_reference(tokens, j)?;
        Ok((Instruction::StoreField(class_name, field_name), k))
    } else if str_equal(name, "br") {
        let (v, k) = next_i32(tokens, j)?;
        Ok((Instruction::Branch(index_from_i32(v)), k))
    } else if str_equal(name, "beq") {
        let (v, k) = next_i32(tokens, j)?;
        Ok((Instruction::BranchEqual(index_from_i32(v)), k))
    } else if str_equal(name, "bne") {
        let (v, k) = next_i32(tokens, j)?;
        Ok((Instruction::BranchNotEqual(index_from_i32(v)), k))
    } else if str_equal(name, "bgt") {
        let (v, k) = next_i32(tokens, j)?;
        Ok((Instruction::BranchGreaterThan(index_from_i32(v)), k))
    } else if str_equal(name, "bge") {
        let (v, k) = next_i32(tokens, j)?;
        Ok((Instruction::BranchGreaterThanOrEqual(index_from_i32(v)), k))
    } else if str_equal(name, "blt") {
        let (v, k) = next_i32(tokens, j)?;
        Ok((Instruction::BranchLessThan(index_from_i32(v)), k))
    } else if str_equal(name, "ble") {
        let (v, k) = next_i32(tokens, j)?;
        Ok((Instruction::BranchLessThanOrEqual(index_from_i32(v)), k))
    } else {
        Err(ParserError::NotDefinedInstruction(identifier.clone()))
    }
}

fn parse_parameters(tokens: &Vec<Token>, start: usize) -> (r: ParserResult<(Vec<TypeId>, usize)>)
    requires
        start < tokens@.len(),
    ensures
        r is Ok ==> r->Ok_0.1 < tokens@.len(),
        matches_outcome(r, parameters_spec(tokens_view(tokens@), start as int, seq![]), |v: Vec<TypeId>| types_view(v@)),
{
    let ghost toks = tokens_view(tokens@);
    let mut parameters: Vec<TypeId> = Vec::new();
    let mut idx = start;
    assert(types_view(parameters@) =~= Seq::<TypeIdView>::empty());
    loop
        invariant
            idx < tokens@.len(),
            toks == tokens_view(tokens@),
            parameters_spec(toks, start as int, seq![]) == parameters_spec(toks, idx as int, types_view(parameters@)),
        decreases tokens@.len() - idx,
    {
        match &tokens[idx] {
            Token::RightParentheses => {
                let j = advance(tokens, idx)?;
                return Ok((parameters, j));
            },
            Token::Identifier(identifier) => {
                let t = parse_type(identifier)?;
                let j = advance(tokens, idx)?;
                let ghost before = types_view(parameters@);
                parameters.push(t);
                assert(types_view(parameters@) =~= before.push(t@));
                idx = j;
            },
            _ => {
                return Err(ParserError::ExpectedRightParentheses);
            },
        }
    }
}

pub open spec fn locals_view(locals: Seq<Option<TypeId>>) -> Seq<Option<TypeIdView>> {
    locals.map_values(|l: Option<TypeId>| option_type_view(l))
}

fn parse_body(tokens: &Vec<Token>, start: usize) -> (r: ParserResult<Option<(Vec<Instruction>, Vec<Option<TypeId>>, usize)>>)
    requires
        start < tokens@.len(),
    ensures
        r matches Ok(Some(b)) ==> b.2 < tokens@.len() && b.1@.len() <= i32::MAX,
        match body_spec(tokens_view(tokens@), start as int, seq![], seq![]) {
            BodyOutcome::Done(instructions, locals, j) => {
                &&& r matches Ok(Some(b))
                &&& instructions_view(b.0@) == instructions
                &&& locals_view(b.1@) == locals
                &&& b.2 == j
            },
            BodyOutcome::Failed(e) => r is Err && r->Err_0@ == e,
            BodyOutcome::Stuck => r matches Ok(None),
        },
{
    let ghost toks = tokens_view(tokens@);
    let mut instructions: Vec<Instruction> = Vec::new();
    let mut locals: Vec<Option<TypeId>> = Vec::new();
    let mut idx = start;
    assert(instructions_view(instructions@) =~= Seq::<InstructionView>::empty());
    assert(locals_view(locals@) =~= Seq::<Option<TypeIdView>>::empty());
    loop
        invariant
            idx < tokens@.len(),
            toks == tokens_view(tokens@),
            body_spec(toks, start as int, seq![], seq![]) == body_spec(
                toks,
                idx as int,
                instructions_view(instructions@),
                locals_view(locals@),
            ),
            locals@.len() <= i32::MAX,
        decreases tokens@.len() - idx,
    {
        let ghost iv = instructions_view(instructions@);
        let ghost lv = locals_view(locals@);
        match &tokens[idx] {
            Token::RightCurlyParentheses => {
                let j = advance(tokens, idx)?;
                return Ok(Some((instructions, locals, j)));
            },
            Token::DefineNumberOfLocals => {
                let j = advance(tokens, idx)?;
                let (num_locals, k) = next_i32(tokens, j)?;
                if num_locals < 0 {
                    return Ok(None);
                }
                let n = num_locals as usize;
                locals.resize(n, None);
                proof {
                    assert(locals_view(locals@) =~= resize_locals(lv, num_locals as int));
                }
                idx = k;
            },
            Token::DefineLocal => {
                let j = advance(tokens, idx)?;
                let (index, k) = next_i32(tokens, j)?;
                let (local_type, m) = next_type_id(tokens, k)?;
                if index < 0 || index as usize >= locals.len() {
                    return Ok(None);
                }
                let index = index as usize;
                let ghost t = local_type@;
                locals.set(index, Some(local_type));
                proof {
                    assert(locals_view(locals@) =~= lv.update(index as int, Some(t)));
                }
                idx = m;
            },
            Token::Identifier(instruction_name) => {
                let (instruction, j) = parse_instruction(tokens, idx, instruction_name)?;
                if j <= idx {
                    return Ok(None);
                }
                let ghost iw = instruction@;
                instructions.push(instruction);
                proof {
                    assert(instructions_view(instructions@) =~= iv.push(iw));
                }
                idx = j;
            },
            _ => {
                return Err(ParserError::ExpectedIdentifier);
            },
        }
    }
}

fn parse_function(tokens: &Vec<Token>, idx: usize) -> (r: ParserResult<Option<(Function, usize)>>)
    requires
        idx < tokens@.len(),
    ensures
        r matches Ok(Some(p)) ==> p.1 < tokens@.len(),
        match parse_function_spec(tokens_view(tokens@), idx as int) {
            FunctionOutcome::Parsed(f, j) => {
                &&& r matches Ok(Some(p))
                &&& function_view(p.0) == f
                &&& p.0.is_fresh_managed()
                &&& p.1 == j
            },
            FunctionOutcome::Failed(e) => r is Err && r->Err_0@ == e,
            FunctionOutcome::Stuck => r matches Ok(None),
        },
{
    let j = advance(tokens, idx)?;
    let (name, k) = next_identifier(tokens, j)?;
    match &tokens[k] {
        Token::LeftParentheses => {},
        _ => {
            return Err(ParserError::ExpectedLeftParentheses);
        },
    }
    let k2 = advance(tokens, k)?;
    let (parameters, k3) = parse_parameters(tokens, k2)?;
    let (return_type, k4) = next_type_id(tokens, k3)?;
    match &tokens[k4] {
        Token::LeftCurlyParentheses => {},
        _ => {
            return Err(ParserError::ExpectedLeftCurlyParentheses);
        },
    }
    let k5 = advance(tokens, k4)?;
    let (instructions, locals, k6) = match parse_body(tokens, k5)? {
        Some(body) => body,
        None => {
            return Ok(None);
        },
    };
    let ghost lv = locals_view(locals@);
    let mut locals_checked: Vec<TypeId> = Vec::new();
    let mut i: usize = 0;
    #[verifier::loop_isolation(false)]
    while i < locals.len()
        invariant
            i <= locals@.len(),
            locals@.len() <= i32::MAX,
            lv == locals_view(locals@),
            first_untyped(lv, i as int) is None,
            locals_checked@.len() == i,
            forall|q: int| 0 <= q < i ==> lv[q] == Some(#[trigger] locals_checked@[q]@),
        decreases locals@.len() - i,
    {
        match &locals[i] {
            Some(local) => {
                assert(lv[i as int] == Some(local@));
                locals_checked.push(local.clone());
                assert(first_untyped(lv, i + 1) is None);
            },
            None => {
                proof {
                    assert(lv[i as int] is None);
                    assert(first_untyped(lv, i + 1) == Some(i as int));
                    lemma_first_untyped_stable(lv, i + 1, lv.len() as int);
                }
                return Err(ParserError::UntypedLocal(i as u32));
            },
        }
        i = i + 1;
    }
    assert(types_view(locals_checked@) =~= lv.map_values(|l: Option<TypeIdView>| l->0));
    let function = Function::new(FunctionDeclaration::new_managed(name, parameters, return_type), locals_checked, instructions);
    Ok(Some((function, k6)))
}

proof fn lemma_first_untyped_stable(locals: Seq<Option<TypeIdView>>, j: int, m: int)
    requires
        0 <= j <= m,
        first_untyped(locals, j) is Some,
    ensures
        first_untyped(locals, m) == first_untyped(locals, j),
    decreases m - j,
{
    if j < m {
        lemma_first_untyped_stable(locals, j, m - 1);
    }
}

pub open spec fn functions_view(functions: Seq<Function>) -> Seq<FunctionView> {
    functions.map_values(|f: Function| function_view(f))
}

/// What one top-level step of the parser leads to: the position to go on
/// from, the end of the functions, or an input on which parsing cannot go
/// on.
enum TopLevelStep {
    Continue(usize),
    End,
    Stuck,
}

/// One top-level step of the parser: reads the next token and, for `func`,
/// the whole function.
fn parse_top_level(tokens: &Vec<Token>, functions: &mut Vec<Function>, position: usize) -> (r: ParserResult<TopLevelStep>)
    requires
        position <= tokens@.len(),
        forall|i: int| 0 <= i < old(functions)@.len() ==> (#[trigger] old(functions)@[i]).is_fresh_managed(),
    ensures
        forall|i: int| 0 <= i < final(functions)@.len() ==> (#[trigger] final(functions)@[i]).is_fresh_managed(),
        match r {
            Err(e) => parse_spec(tokens_view(tokens@), position - 1, functions_view(old(functions)@)) == ParseOutcome::Failed(e@),
            Ok(TopLevelStep::End) => parse_spec(tokens_view(tokens@), position - 1, functions_view(old(functions)@))
                == ParseOutcome::Parsed(functions_view(final(functions)@)),
            Ok(TopLevelStep::Continue(p)) => {
                &&& position < p <= tokens@.len()
                &&& parse_spec(tokens_view(tokens@), position - 1, functions_view(old(functions)@)) == parse_spec(
                    tokens_view(tokens@),
                    p - 1,
                    functions_view(final(functions)@),
                )
            },
            Ok(TopLevelStep::Stuck) => parse_spec(tokens_view(tokens@), position - 1, functions_view(old(functions)@)) is Stuck,
        },
{
    let ghost toks = tokens_view(tokens@);
    let ghost acc = functions_view(functions@);
    if position >= tokens.len() {
        return Err(ParserError::ReachedEndOfTokens);
    }
    let j = position;
    let is_function = match &tokens[j] {
        Token::Function => true,
        _ => false,
    };
    let is_class = match &tokens[j] {
        Token::Class => true,
        _ => false,
    };
    if is_function {
        let (function, k) = match parse_function(tokens, j)? {
            Some(parsed) => parsed,
            None => {
                return Ok(TopLevelStep::Stuck);
            },
        };
        let ghost fv = function_view(function);
        functions.push(function);
        proof {
            assert(functions_view(functions@) =~= acc.push(fv));
        }
        let at_end = match &tokens[k] {
            Token::End => true,
            _ => false,
        };
        if at_end {
            Ok(TopLevelStep::End)
        } else if k < position {
            Ok(TopLevelStep::Stuck)
        } else {
            Ok(TopLevelStep::Continue(k + 1))
        }
    } else if is_class {
        Ok(TopLevelStep::Continue(j + 1))
    } else {
        Err(ParserError::ExpectedFunctionOrClass)
    }
}

/// Parses the functions of a token stream.
pub struct Parser {
    tokens: Vec<Token>,
    position: usize,
    functions: Vec<Function>,
}

impl Parser {
    pub closed spec fn spec_tokens(&self) -> Seq<TokenView> {
        tokens_view(self.tokens@)
    }

    /// Index of the current token (`-1` before the first).
    pub closed spec fn spec_index(&self) -> int {
        self.position - 1
    }

    /// The functions parsed and not yet handed out.
    pub closed spec fn spec_functions(&self) -> Seq<Function> {
        self.functions@
    }

    /// The current token is within the stream, and every parsed function
    /// is an unverified managed function.
    pub open spec fn wf(&self) -> bool {
        &&& self.spec_index() < self.spec_tokens().len()
        &&& forall|i: int| 0 <= i < self.spec_functions().len() ==> (#[trigger] self.spec_functions()[i]).is_fresh_managed()
    }

    pub fn new(tokens: Vec<Token>) -> (r: Parser)
        ensures
            r.spec_tokens() == tokens_view(tokens@),
            r.spec_index() == -1,
            r.spec_functions().len() == 0,
            r.wf(),
    {
        Parser { tokens, position: 0, functions: Vec::new() }
    }

    /// Parses the functions up to the `End` token and hands them out, in order.
    pub fn parse(&mut self) -> (r: ParserResult<Vec<Function>>)
        requires
            old(self).wf(),
            !(parse_spec(old(self).spec_tokens(), old(self).spec_index(), functions_view(old(self).spec_functions())) is Stuck),
        ensures
            final(self).wf(),
            final(self).spec_tokens() == old(self).spec_tokens(),
            match parse_spec(old(self).spec_tokens(), old(self).spec_index(), functions_view(old(self).spec_functions())) {
                ParseOutcome::Parsed(functions) => {
                    &&& r is Ok
                    &&& functions_view(r->Ok_0@) == functions
                    &&& forall|i: int| 0 <= i < r->Ok_0@.len() ==> (#[trigger] r->Ok_0@[i]).is_fresh_managed()
                    &&& final(self).spec_functions().len() == 0
                },
                ParseOutcome::Failed(e) => r is Err && r->Err_0@ == e,
                ParseOutcome::Stuck => true,
            },
    {
        match self.parse_checked() {
            Some(r) => r,
            None => Ok(Vec::new()),
        }
    }

    /// Parses the functions up to the `End` token and hands them out, in
    /// order; `None` on an input that the parser cannot go on with (a
    /// negative `.locals` count or a `.local` index outside the locals).
    pub fn parse_checked(&mut self) -> (r: Option<ParserResult<Vec<Function>>>)
        requires
            old(self).wf(),
        ensures
            final(self).wf(),
            final(self).spec_tokens() == old(self).spec_tokens(),
            match parse_spec(old(self).spec_tokens(), old(self).spec_index(), functions_view(old(self).spec_functions())) {
                ParseOutcome::Parsed(functions) => {
                    &&& r matches Some(Ok(v))
                    &&& functions_view(v@) == functions
                    &&& forall|i: int| 0 <= i < v@.len() ==> (#[trigger] v@[i]).is_fresh_managed()
                    &&& final(self).spec_functions().len() == 0
                },
                ParseOutcome::Failed(e) => r matches Some(Err(x)) && x@ == e,
                ParseOutcome::Stuck => r is None,
            },
    {
        let ghost toks = tokens_view(self.tokens@);
        let ghost goal = parse_spec(toks, self.position - 1, functions_view(self.functions@));
        loop
            invariant
                toks == tokens_view(self.tokens@),
                toks == old(self).spec_tokens(),
                goal == parse_spec(old(self).spec_tokens(), old(self).spec_index(), functions_view(old(self).spec_functions())),
                self.wf(),
                self.position <= self.tokens@.len(),
                forall|i: int| 0 <= i < self.functions@.len() ==> (#[trigger] self.functions@[i]).is_fresh_managed(),
                goal == parse_spec(toks, self.position - 1, functions_view(self.functions@)),
            decreases self.tokens@.len() - self.position,
        {
            match parse_top_level(&self.tokens, &mut self.functions, self.position) {
                Err(e) => {
                    return Some(Err(e));
                },
                Ok(TopLevelStep::End) => {
                    let mut result: Vec<Function> = Vec::new();
                    std::mem::swap(&mut result, &mut self.functions);
                    return Some(Ok(result));
                },
                Ok(TopLevelStep::Stuck) => {
                    return None;
                },
                Ok(TopLevelStep::Continue(p)) => {
                    self.position = p;
                },
            }
        }
    }
}


/// Each mnemonic with a number operand reads its own instruction: at a
/// mnemonic followed by the number `v` (with a token after it), `ldint`
/// loads `v`, `ldloc`, `stloc` and `ldarg` name local or argument `v`, and
/// `br`, `beq`, `bne`, `bgt`, `bge`, `blt`, `ble` are the branch of that
/// name to instruction `v`; reading goes on after the number.
pub proof fn law_mnemonic_number_operand(toks: Seq<TokenView>, idx: int, name: Seq<char>, v: i32)
    requires
        0 <= idx,
        idx + 2 < toks.len(),
        toks[idx + 1] == TokenView::Int32(v),
    ensures
        text_lowercase(name) == "ldint"@ ==> parse_instruction_spec(toks, idx, name)
            == Ok::<(InstructionView, int), ParserErrorView>((InstructionView::LoadInt32(v), idx + 2)),
        text_lowercase(name) == "ldloc"@ ==> parse_instruction_spec(toks, idx, name)
            == Ok::<(InstructionView, int), ParserErrorView>((InstructionView::LoadLocal(wrap_u32(v)), idx + 2)),
        text_lowercase(name) == "stloc"@ ==> parse_instruction_spec(toks, idx, name)
            == Ok::<(InstructionView, int), ParserErrorView>((InstructionView::StoreLocal(wrap_u32(v)), idx + 2)),
        text_lowercase(name) == "ldarg"@ ==> parse_instruction_spec(toks, idx, name)
            == Ok::<(InstructionView, int), ParserErrorView>((InstructionView::LoadArgument(wrap_u32(v)), idx + 2)),
        text_lowercase(name) == "br"@ ==> parse_instruction_spec(toks, idx, name)
            == Ok::<(InstructionView, int), ParserErrorView>((InstructionView::Branch(wrap_u32(v)), idx + 2)),
        text_lowercase(name) == "beq"@ ==> parse_instruction_spec(toks, idx, name)
            == Ok::<(InstructionView, int), ParserErrorView>((InstructionView::BranchEqual(wrap_u32(v)), idx + 2)),
        text_lowercase(name) == "bne"@ ==> parse_instruction_spec(toks, idx, name)
            == Ok::<(InstructionView, int), ParserErrorView>((InstructionView::BranchNotEqual(wrap_u32(v)), idx + 2)),
        text_lowercase(name) == "bgt"@ ==> parse_instruction_spec(toks, idx, name)
            == Ok::<(InstructionView, int), ParserErrorView>((InstructionView::BranchGreaterThan(wrap_u32(v)), idx + 2)),
        text_lowercase(name) == "bge"@ ==> parse_instruction_spec(toks, idx, name)
            == Ok::<(InstructionView, int), ParserErrorView>((InstructionView::BranchGreaterThanOrEqual(wrap_u32(v)), idx + 2)),
        text_lowercase(name) == "blt"@ ==> parse_instruction_spec(toks, idx, name)
            == Ok::<(InstructionView, int), ParserErrorView>((InstructionView::BranchLessThan(wrap_u32(v)), idx + 2)),
        text_lowercase(name) == "ble"@ ==> parse_instruction_spec(toks, idx, name)
            == Ok::<(InstructionView, int), ParserErrorView>((InstructionView::BranchLessThanOrEqual(wrap_u32(v)), idx + 2)),
{
    lemma_mnemonic_texts();
}


/// Each mnemonic without operands reads its own instruction and nothing
/// more: `ldlen` reads the array length, `add` an addition, `sub` a
/// subtraction and `ret` a return.
pub proof fn law_mnemonic_without_operand(toks: Seq<TokenView>, idx: int, name: Seq<char>)
    requires
        0 <= idx,
        idx + 1 < toks.len(),
    ensures
        text_lowercase(name) == "ldlen"@ ==> parse_instruction_spec(toks, idx, name)
            == Ok::<(InstructionView, int), ParserErrorView>((InstructionView::LoadArrayLength, idx + 1)),
        text_lowercase(name) == "add"@ ==> parse_instruction_spec(toks, idx, name)
            == Ok::<(InstructionView, int), ParserErrorView>((InstructionView::Add, idx + 1)),
        text_lowercase(name) == "sub"@ ==> parse_instruction_spec(toks, idx, name)
            == Ok::<(InstructionView, int), ParserErrorView>((InstructionView::Sub, idx + 1)),
        text_lowercase(name) == "ret"@ ==> parse_instruction_spec(toks, idx, name)
            == Ok::<(InstructionView, int), ParserErrorView>((InstructionView::Return, idx + 1)),
{
    lemma_mnemonic_texts();
}

/// Each mnemonic with a type operand reads its own instruction: at a
/// mnemonic followed by the name of type `t` (with a token after it),
/// `ldnull` loads a null of type `t`, `newarr` makes an array of `t`,
/// `ldelem` and `stelem` load and store an element of type `t`; `newobj`
/// makes an object of the class so named.
pub proof fn law_mnemonic_type_operand(toks: Seq<TokenView>, idx: int, name: Seq<char>, text: Seq<char>, t: TypeIdView)
    requires
        0 <= idx,
        idx + 2 < toks.len(),
        toks[idx + 1] == TokenView::Identifier(text),
        parse_type_spec(text, 0) == Some(t),
    ensures
        text_lowercase(name) == "ldnull"@ ==> parse_instruction_spec(toks, idx, name)
            == Ok::<(InstructionView, int), ParserErrorView>((InstructionView::LoadNull(t), idx + 2)),
        text_lowercase(name) == "newarr"@ ==> parse_instruction_spec(toks, idx, name)
            == Ok::<(InstructionView, int), ParserErrorView>((InstructionView::NewArray(t), idx + 2)),
        text_lowercase(name) == "ldelem"@ ==> parse_instruction_spec(toks, idx, name)
            == Ok::<(InstructionView, int), ParserErrorView>((InstructionView::LoadElement(t), idx + 2)),
        text_lowercase(name) == "stelem"@ ==> parse_instruction_spec(toks, idx, name)
            == Ok::<(InstructionView, int), ParserErrorView>((InstructionView::StoreElement(t), idx + 2)),
        text_lowercase(name) == "newobj"@ ==> parse_instruction_spec(toks, idx, name)
            == Ok::<(InstructionView, int), ParserErrorView>((InstructionView::NewObject(text), idx + 2)),
{
    lemma_mnemonic_texts();
}

/// The remaining mnemonics read their own instructions: `ldfloat` followed
/// by a floating-point number loads that number; `ldfield` and `stfield`
/// followed by `class::field` load and store that field; `call` followed by
/// `name()` calls the function of that name without arguments.
pub proof fn law_mnemonic_other_operands(toks: Seq<TokenView>, idx: int, name: Seq<char>, a: Seq<char>, b: Seq<char>)
    requires
        0 <= idx,
        idx + 5 < toks.len(),
    ensures
        toks[idx + 1] == TokenView::Float32(a) && text_lowercase(name) == "ldfloat"@
            ==> parse_instruction_spec(toks, idx, name)
            == Ok::<(InstructionView, int), ParserErrorView>((InstructionView::LoadFloat32(a), idx + 2)),
        ({
            &&& toks[idx + 1] == TokenView::Identifier(a)
            &&& toks[idx + 2] == TokenView::Colon
            &&& toks[idx + 3] == TokenView::Colon
            &&& toks[idx + 4] == TokenView::Identifier(b)
        }) ==> {
            &&& text_lowercase(name) == "ldfield"@ ==> parse_instruction_spec(toks, idx, name)
                == Ok::<(InstructionView, int), ParserErrorView>((InstructionView::LoadField(a, b), idx + 5))
            &&& text_lowercase(name) == "stfield"@ ==> parse_instruction_spec(toks, idx, name)
                == Ok::<(InstructionView, int), ParserErrorView>((InstructionView::StoreField(a, b), idx + 5))
        },
        toks[idx + 1] == TokenView::Identifier(a) && toks[idx + 2] == TokenView::LeftParentheses && toks[idx + 3]
            == TokenView::RightParentheses && text_lowercase(name) == "call"@ ==> parse_instruction_spec(toks, idx, name)
            == Ok::<(InstructionView, int), ParserErrorView>((InstructionView::Call((a, Seq::empty())), idx + 4)),
{
    lemma_mnemonic_texts();
    if toks[idx + 1] == TokenView::Identifier(a) && toks[idx + 2] == TokenView::LeftParentheses && toks[idx + 3]
        == TokenView::RightParentheses {
        assert(call_arguments_spec(toks, idx + 3, seq![]) == Ok::<(Seq<TypeIdView>, int), ParserErrorView>((seq![], idx + 4)));
    }
}

/// The letters of the mnemonics.
proof fn lemma_mnemonic_texts()
    ensures
        "ldnull"@ == seq!['l', 'd', 'n', 'u', 'l', 'l'],
        "ldint"@ == seq!['l', 'd', 'i', 'n', 't'],
        "ldfloat"@ == seq!['l', 'd', 'f', 'l', 'o', 'a', 't'],
        "ldloc"@ == seq!['l', 'd', 'l', 'o', 'c'],
        "stloc"@ == seq!['s', 't', 'l', 'o', 'c'],
        "newarr"@ == seq!['n', 'e', 'w', 'a', 'r', 'r'],
        "ldelem"@ == seq!['l', 'd', 'e', 'l', 'e', 'm'],
        "stelem"@ == seq!['s', 't', 'e', 'l', 'e', 'm'],
        "ldlen"@ == seq!['l', 'd', 'l', 'e', 'n'],
        "add"@ == seq!['a', 'd', 'd'],
        "sub"@ == seq!['s', 'u', 'b'],
        "ldarg"@ == seq!['l', 'd', 'a', 'r', 'g'],
        "call"@ == seq!['c', 'a', 'l', 'l'],
        "ret"@ == seq!['r', 'e', 't'],
        "newobj"@ == seq!['n', 'e', 'w', 'o', 'b', 'j'],
        "ldfield"@ == seq!['l', 'd', 'f', 'i', 'e', 'l', 'd'],
        "stfield"@ == seq!['s', 't', 'f', 'i', 'e', 'l', 'd'],
        "br"@ == seq!['b', 'r'],
        "beq"@ == seq!['b', 'e', 'q'],
        "bne"@ == seq!['b', 'n', 'e'],
        "bgt"@ == seq!['b', 'g', 't'],
        "bge"@ == seq!['b', 'g', 'e'],
        "blt"@ == seq!['b', 'l', 't'],
        "ble"@ == seq!['b', 'l', 'e'],
{
    reveal_strlit("ldnull");
    reveal_strlit("ldint");
    reveal_strlit("ldfloat");
    reveal_strlit("ldloc");
    reveal_strlit("stloc");
    reveal_strlit("newarr");
    reveal_strlit("ldelem");
    reveal_strlit("stelem");
    reveal_strlit("ldlen");
    reveal_strlit("add");
    reveal_strlit("sub");
    reveal_strlit("ldarg");
    reveal_strlit("call");
    reveal_strlit("ret");
    reveal_strlit("newobj");
    reveal_strlit("ldfield");
    reveal_strlit("stfield");
    reveal_strlit("br");
    reveal_strlit("beq");
    reveal_strlit("bne");
    reveal_strlit("bgt");
    reveal_strlit("bge");
    reveal_strlit("blt");
    reveal_strlit("ble");
    assert("ldnull"@ =~= seq!['l', 'd', 'n', 'u', 'l', 'l']);
    assert("ldint"@ =~= seq!['l', 'd', 'i', 'n', 't']);
    assert("ldfloat"@ =~= seq!['l', 'd', 'f', 'l', 'o', 'a', 't']);
    assert("ldloc"@ =~= seq!['l', 'd', 'l', 'o', 'c']);
    assert("stloc"@ =~= seq!['s', 't', 'l', 'o', 'c']);
    assert("newarr"@ =~= seq!['n', 'e', 'w', 'a', 'r', 'r']);
    assert("ldelem"@ =~= seq!['l', 'd', 'e', 'l', 'e', 'm']);
    assert("stelem"@ =~= seq!['s', 't', 'e', 'l', 'e', 'm']);
    assert("ldlen"@ =~= seq!['l', 'd', 'l', 'e', 'n']);
    assert("add"@ =~= seq!['a', 'd', 'd']);
    assert("sub"@ =~= seq!['s', 'u', 'b']);
    assert("ldarg"@ =~= seq!['l', 'd', 'a', 'r', 'g']);
    assert("call"@ =~= seq!['c', 'a', 'l', 'l']);
    assert("ret"@ =~= seq!['r', 'e', 't']);
    assert("newobj"@ =~= seq!['n', 'e', 'w', 'o', 'b', 'j']);
    assert("ldfield"@ =~= seq!['l', 'd', 'f', 'i', 'e', 'l', 'd']);
    assert("stfield"@ =~= seq!['s', 't', 'f', 'i', 'e', 'l', 'd']);
    assert("br"@ =~= seq!['b', 'r']);
    assert("beq"@ =~= seq!['b', 'e', 'q']);
    assert("bne"@ =~= seq!['b', 'n', 'e']);
    assert("bgt"@ =~= seq!['b', 'g', 't']);
    assert("bge"@ =~= seq!['b', 'g', 'e']);
    assert("blt"@ =~= seq!['b', 'l', 't']);
    assert("ble"@ =~= seq!['b', 'l', 'e']);
}

} // verus!
