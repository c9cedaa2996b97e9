//! Linear-scan register allocation. Live intervals are visited by
//! increasing start; intervals that ended before the current one starts
//! give their register back; when every register of the current register
//! file is taken, the active interval of that file that ends last is
//! spilled to the stack frame if it ends after the current one, otherwise
//! the current one is spilled.
use vstd::prelude::*;
use crate::analysis::{VirtualRegister, VirtualRegisterType};
use crate::analysis::liveness::{LiveInterval, compute_liveness, liveness_holds, live_interval_spec};
use crate::analysis::basic_block::{BasicBlock, created_blocks, labels_placed, lemma_created_blocks_partition};
use crate::analysis::control_flow_graph::{ControlFlowGraph, is_graph_of, flow_targets_exist, lemma_graph_edges};
use crate::mir::{mir_view, registers_view};
use crate::mir::compiler::MIRCompilationResult;
use crate::optimization::register_allocation::{
    RegisterAllocation, AllocatedRegister, allocation_entries, allocated_entries, spilled_entries, insert_entry, entry_index,
    lemma_entry_index, lemma_insert_entry_distinct, distinct_entries, interval_of, hardware_register_of, hardware_register_for,
};

verus! {

/// How many hardware registers of each register file the allocator may use.
pub struct Settings {
    pub num_int_registers: usize,
    pub num_float_registers: usize,
}

/// A sorted set of register numbers, smallest first.
pub open spec fn strictly_sorted(s: Seq<u32>) -> bool {
    forall|i: int, j: int| 0 <= i < j < s.len() ==> #[trigger] s[i] < #[trigger] s[j]
}

/// `s` with `r` added, kept sorted; unchanged when `r` is already there.
pub open spec fn insert_number(s: Seq<u32>, r: u32) -> Seq<u32>
    decreases s.len(),
{
    if s.len() == 0 {
        seq![r]
    } else if s[0] < r {
        seq![s[0]] + insert_number(s.skip(1), r)
    } else if s[0] == r {
        s
    } else {
        seq![r] + s
    }
}

/// The numbers `0..n`.
pub open spec fn all_numbers(n: nat) -> Seq<u32> {
    Seq::new(n, |i: int| i as u32)
}

/// Adding a number to a sorted set keeps it sorted and adds nothing else.
pub proof fn lemma_insert_number_sorted(s: Seq<u32>, r: u32)
    requires
        strictly_sorted(s),
    ensures
        strictly_sorted(insert_number(s, r)),
        forall|k: int| 0 <= k < insert_number(s, r).len() ==> #[trigger] insert_number(s, r)[k] == r || s.contains(
            insert_number(s, r)[k],
        ),
        insert_number(s, r).contains(r),
    decreases s.len(),
{
    if s.len() > 0 && s[0] < r {
        let t = s.skip(1);
        assert(strictly_sorted(t)) by {
            assert forall|i: int, j: int| 0 <= i < j < t.len() implies #[trigger] t[i] < #[trigger] t[j] by {
                assert(s[i + 1] < s[j + 1]);
            }
        }
        lemma_insert_number_sorted(t, r);
        let u = insert_number(t, r);
        let w = insert_number(s, r);
        assert(w == seq![s[0]] + u);
        assert forall|k: int| 0 <= k < u.len() implies s[0] < #[trigger] u[k] by {
            if u[k] != r {
                let j = choose|j: int| 0 <= j < t.len() && t[j] == u[k];
                assert(s[0] < s[j + 1]);
            }
        }
        assert forall|i: int, j: int| 0 <= i < j < w.len() implies #[trigger] w[i] < #[trigger] w[j] by {
            if i > 0 {
                assert(w[i] == u[i - 1] && w[j] == u[j - 1]);
            } else {
                assert(w[j] == u[j - 1]);
            }
        }
        assert forall|k: int| 0 <= k < w.len() implies #[trigger] w[k] == r || s.contains(w[k]) by {
            if k == 0 {
                assert(s[0] == w[0]);
            } else {
                assert(w[k] == u[k - 1]);
                if u[k - 1] != r {
                    let j = choose|j: int| 0 <= j < t.len() && t[j] == u[k - 1];
                    assert(s[j + 1] == w[k]);
                }
            }
        }
        let q = choose|q: int| 0 <= q < u.len() && u[q] == r;
        assert(w[q + 1] == r);
    } else if s.len() > 0 && s[0] == r {
        assert(s[0] == r);
        assert forall|k: int| 0 <= k < s.len() implies #[trigger] s[k] == r || s.contains(s[k]) by {
            assert(s[k] == s[k]);
        }
    } else {
        let w = insert_number(s, r);
        assert(w[0] == r);
        assert forall|i: int, j: int| 0 <= i < j < w.len() implies #[trigger] w[i] < #[trigger] w[j] by {
            if i > 0 {
                assert(s[i - 1] < s[j - 1]);
            } else {
                assert(s[0] <= s[j - 1]);
            }
        }
        assert forall|k: int| 0 <= k < w.len() implies #[trigger] w[k] == r || s.contains(w[k]) by {
            if k > 0 {
                assert(s[k - 1] == w[k]);
            }
        }
    }
}

/// The free registers of both register files.
pub struct FreeRegisters {
    int_registers: Vec<u32>,
    max_int: usize,
    float_registers: Vec<u32>,
    max_float: usize,
}

impl FreeRegisters {
    /// The free registers of the file of `t`, smallest first.
    pub closed spec fn free(&self, t: VirtualRegisterType) -> Seq<u32> {
        match t {
            VirtualRegisterType::Int => self.int_registers@,
            VirtualRegisterType::Float => self.float_registers@,
        }
    }

    /// The number of registers of the file of `t`.
    pub closed spec fn max(&self, t: VirtualRegisterType) -> nat {
        match t {
            VirtualRegisterType::Int => self.max_int as nat,
            VirtualRegisterType::Float => self.max_float as nat,
        }
    }

    /// Each file's free registers form a set, kept smallest first.
    pub open spec fn wf(&self) -> bool {
        &&& strictly_sorted(self.free(VirtualRegisterType::Int))
        &&& strictly_sorted(self.free(VirtualRegisterType::Float))
    }

    /// All registers of both files are free.
    pub fn new(settings: &Settings) -> (r: FreeRegisters)
        requires
            settings.num_int_registers <= u32::MAX,
            settings.num_float_registers <= u32::MAX,
        ensures
            r.free(VirtualRegisterType::Int) == all_numbers(settings.num_int_registers as nat),
            r.free(VirtualRegisterType::Float) == all_numbers(settings.num_float_registers as nat),
            r.max(VirtualRegisterType::Int) == settings.num_int_registers,
            r.max(VirtualRegisterType::Float) == settings.num_float_registers,
            r.wf(),
    {
        FreeRegisters {
            int_registers: numbers_below(settings.num_int_registers),
            max_int: settings.num_int_registers,
            float_registers: numbers_below(settings.num_float_registers),
            max_float: settings.num_float_registers,
        }
    }

    pub fn max_for_type(&self, register_type: &VirtualRegisterType) -> (r: usize)
        ensures
            r == self.max(*register_type),
    {
        match register_type {
            VirtualRegisterType::Int => self.max_int,
            VirtualRegisterType::Float => self.max_float,
        }
    }

    pub fn for_type(&self, register_type: &VirtualRegisterType) -> (r: &Vec<u32>)
        ensures
            r@ == self.free(*register_type),
    {
        match register_type {
            VirtualRegisterType::Int => &self.int_registers,
            VirtualRegisterType::Float => &self.float_registers,
        }
    }

    pub fn for_type_mut(&mut self, register_type: &VirtualRegisterType) -> (r: &mut Vec<u32>)
        ensures
            r@ == old(self).free(*register_type),
            final(self).free(*register_type) == final(r)@,
            final(self).free(other_type(*register_type)) == old(self).free(other_type(*register_type)),
            final(self).max(VirtualRegisterType::Int) == old(self).max(VirtualRegisterType::Int),
            final(self).max(VirtualRegisterType::Float) == old(self).max(VirtualRegisterType::Float),
    {
        match register_type {
            VirtualRegisterType::Int => &mut self.int_registers,
            VirtualRegisterType::Float => &mut self.float_registers,
        }
    }

    /// Takes the smallest free register of the file of `register_type`.
    pub fn get_free_register(&mut self, register_type: &VirtualRegisterType) -> (r: u32)
        requires
            old(self).free(*register_type).len() > 0,
        ensures
            r == old(self).free(*register_type)[0],
            old(self).wf() ==> forall|k: int|
                1 <= k < old(self).free(*register_type).len() ==> r < #[trigger] old(self).free(*register_type)[k],
            old(self).wf() ==> final(self).wf(),
            final(self).free(*register_type) == old(self).free(*register_type).skip(1),
            final(self).free(other_type(*register_type)) == old(self).free(other_type(*register_type)),
            final(self).max(VirtualRegisterType::Int) == old(self).max(VirtualRegisterType::Int),
            final(self).max(VirtualRegisterType::Float) == old(self).max(VirtualRegisterType::Float),
    {
        let registers = self.for_type_mut(register_type);
        let free_register = registers.remove(0);
        assert(registers@ =~= old(self).free(*register_type).skip(1));
        proof {
            let s = old(self).free(*register_type);
            if old(self).wf() {
                assert(strictly_sorted(s)) by {
                    match *register_type {
                        VirtualRegisterType::Int => {},
                        VirtualRegisterType::Float => {},
                    }
                }
                assert forall|i: int, j: int| 0 <= i < j < s.skip(1).len() implies #[trigger] s.skip(1)[i] < #[trigger] s.skip(1)[j] by {
                    assert(s[i + 1] < s[j + 1]);
                }
                assert forall|k: int| 1 <= k < s.len() implies free_register < #[trigger] s[k] by {
                    assert(s[0] < s[k]);
                }
            }
        }
        free_register
    }

    /// Gives the register back to the file of `register_type`.
    fn give_back(&mut self, register_type: &VirtualRegisterType, register: u32)
        ensures
            final(self).free(*register_type) == insert_number(old(self).free(*register_type), register),
            old(self).wf() ==> final(self).wf(),
            final(self).free(other_type(*register_type)) == old(self).free(other_type(*register_type)),
            final(self).max(VirtualRegisterType::Int) == old(self).max(VirtualRegisterType::Int),
            final(self).max(VirtualRegisterType::Float) == old(self).max(VirtualRegisterType::Float),
    {
        proof {
            if old(self).wf() {
                match *register_type {
                    VirtualRegisterType::Int => lemma_insert_number_sorted(old(self).free(VirtualRegisterType::Int), register),
                    VirtualRegisterType::Float => lemma_insert_number_sorted(old(self).free(VirtualRegisterType::Float), register),
                }
            }
        }
        let registers = self.for_type_mut(register_type);
        insert_sorted_number(registers, register);
    }
}

pub open spec fn other_type(t: VirtualRegisterType) -> VirtualRegisterType {
    match t {
        VirtualRegisterType::Int => VirtualRegisterType::Float,
        VirtualRegisterType::Float => VirtualRegisterType::Int,
    }
}

fn numbers_below(n: usize) -> (r: Vec<u32>)
    requires
        n <= u32::MAX,
    ensures
        r@ == all_numbers(n as nat),
{
    let mut r: Vec<u32> = Vec::new();
    let mut i: usize = 0;
    while i < n
        invariant
            i <= n,
            n <= u32::MAX,
            r@ == all_numbers(i as nat),
        decreases n - i,
    {
        r.push(i as u32);
        i = i + 1;
        assert(r@ =~= all_numbers(i as nat));
    }
    r
}

proof fn lemma_insert_number_at(s: Seq<u32>, r: u32, p: int)
    requires
        0 <= p <= s.len(),
        forall|q: int| 0 <= q < p ==> s[q] < r,
        p < s.len() ==> s[p] >= r,
    ensures
        insert_number(s, r) == if p < s.len() && s[p] == r {
            s
        } else {
            s.take(p).push(r) + s.skip(p)
        },
    decreases p,
{
    if p == 0 {
        if s.len() == 0 {
            assert(s.take(0).push(r) + s.skip(0) =~= seq![r]);
        } else if s[0] == r {
        } else {
            assert(s.take(0).push(r) + s.skip(0) =~= seq![r] + s);
        }
    } else {
        lemma_insert_number_at(s.skip(1), r, p - 1);
        if p - 1 < s.skip(1).len() && s.skip(1)[p - 1] == r {
            assert(seq![s[0]] + s.skip(1) =~= s);
        } else {
            assert(seq![s[0]] + (s.skip(1).take(p - 1).push(r) + s.skip(1).skip(p - 1)) =~= s.take(p).push(r) + s.skip(p));
        }
    }
}

fn insert_sorted_number(v: &mut Vec<u32>, r: u32)
    ensures
        final(v)@ == insert_number(old(v)@, r),
{
    let mut p: usize = 0;
    while p < v.len() && v[p] < r
        invariant
            p <= v@.len(),
            v@ == old(v)@,
            forall|q: int| 0 <= q < p ==> v@[q] < r,
        decreases v@.len() - p,
    {
        p = p + 1;
    }
    proof {
        lemma_insert_number_at(v@, r, p as int);
    }
    if p < v.len() && v[p] == r {
        return;
    }
    v.insert(p, r);
    assert(v@ =~= old(v)@.take(p as int).push(r) + old(v)@.skip(p as int));
}


/// Inserts index `k` into `order` after every index whose interval starts
/// no later than interval `k` (so intervals with equal starts keep their order).
pub open spec fn insert_by_start(order: Seq<int>, intervals: Seq<LiveInterval>, k: int) -> Seq<int>
    decreases order.len(),
{
    if order.len() == 0 {
        seq![k]
    } else if intervals[order[0]].start <= intervals[k].start {
        seq![order[0]] + insert_by_start(order.skip(1), intervals, k)
    } else {
        seq![k] + order
    }
}

/// The indices of the first `n` intervals in order of start; a stable sort.
pub open spec fn order_by_start(intervals: Seq<LiveInterval>, n: int) -> Seq<int>
    decreases n,
{
    if n <= 0 {
        Seq::empty()
    } else {
        insert_by_start(order_by_start(intervals, n - 1), intervals, n - 1)
    }
}

/// The intervals sorted by start; intervals with equal starts keep their order.
pub open spec fn sorted_by_start(intervals: Seq<LiveInterval>) -> Seq<LiveInterval> {
    order_by_start(intervals, intervals.len() as int).map_values(|k: int| intervals[k])
}

proof fn lemma_insert_by_start_at(order: Seq<int>, intervals: Seq<LiveInterval>, k: int, p: int)
    requires
        0 <= p <= order.len(),
        forall|q: int| 0 <= q < p ==> intervals[order[q]].start <= intervals[k].start,
        p < order.len() ==> intervals[order[p]].start > intervals[k].start,
    ensures
        insert_by_start(order, intervals, k) == order.take(p).push(k) + order.skip(p),
    decreases p,
{
    if p == 0 {
        if order.len() == 0 {
            assert(order.take(0).push(k) + order.skip(0) =~= seq![k]);
        } else {
            assert(order.take(0).push(k) + order.skip(0) =~= seq![k] + order);
        }
    } else {
        lemma_insert_by_start_at(order.skip(1), intervals, k, p - 1);
        assert(seq![order[0]] + (order.skip(1).take(p - 1).push(k) + order.skip(1).skip(p - 1)) =~= order.take(p).push(k)
            + order.skip(p));
    }
}

/// The order is a permutation of `0..n`, sorted by start.
pub open spec fn is_start_order(order: Seq<int>, intervals: Seq<LiveInterval>, n: int) -> bool {
    &&& order.len() == n
    &&& forall|q: int| 0 <= q < n ==> 0 <= #[trigger] order[q] < n
    &&& forall|a: int, b: int| 0 <= a < b < n ==> #[trigger] order[a] != #[trigger] order[b]
    &&& forall|a: int, b: int| 0 <= a < b < n ==> intervals[#[trigger] order[a]].start <= intervals[#[trigger] order[b]].start
}

proof fn lemma_order_by_start(intervals: Seq<LiveInterval>, n: int)
    requires
        0 <= n <= intervals.len(),
    ensures
        is_start_order(order_by_start(intervals, n), intervals, n),
    decreases n,
{
    if n > 0 {
        lemma_order_by_start(intervals, n - 1);
        let order = order_by_start(intervals, n - 1);
        let k = n - 1;
        let p = choose_start_position(order, intervals, k);
        lemma_start_position(order, intervals, k);
        lemma_insert_by_start_at(order, intervals, k, p);
        let r = order.take(p).push(k) + order.skip(p);
        assert(r.len() == n);
        assert forall|q: int| 0 <= q < n implies #[trigger] r[q] == (if q < p {
            order[q]
        } else if q == p {
            k
        } else {
            order[q - 1]
        }) by {
            if q < p {
                assert(r[q] == order.take(p).push(k)[q]);
            } else if q == p {
                assert(r[q] == order.take(p).push(k)[q]);
            } else {
                assert(r[q] == order.skip(p)[q - p - 1]);
            }
        }
        assert forall|q: int| 0 <= q < n implies 0 <= #[trigger] r[q] < n by {
            if q < p {
                assert(r[q] == order[q]);
            } else if q > p {
                assert(r[q] == order[q - 1]);
            }
        }
        assert forall|a: int, b: int| 0 <= a < b < n implies #[trigger] r[a] != #[trigger] r[b] by {
            if a < p && b < p {
                assert(r[a] == order[a] && r[b] == order[b]);
            } else if a < p && b > p {
                assert(r[a] == order[a] && r[b] == order[b - 1]);
            } else if a > p {
                assert(r[a] == order[a - 1] && r[b] == order[b - 1]);
            } else if a == p {
                if b > p {
                    assert(r[b] == order[b - 1]);
                }
            } else {
                assert(r[a] == order[a]);
            }
        }
        assert forall|a: int, b: int| 0 <= a < b < n implies intervals[#[trigger] r[a]].start <= intervals[#[trigger] r[b]].start by {
            if a < p && b < p {
                assert(r[a] == order[a] && r[b] == order[b]);
            } else if a < p && b == p {
                assert(r[a] == order[a]);
            } else if a < p && b > p {
                assert(r[a] == order[a] && r[b] == order[b - 1]);
            } else if a == p {
                assert(r[b] == order[b - 1]);
                assert(intervals[order[p]].start > intervals[k].start);
                if b - 1 > p {
                    assert(intervals[order[p]].start <= intervals[order[b - 1]].start);
                }
            } else {
                assert(r[a] == order[a - 1] && r[b] == order[b - 1]);
            }
        }
    }
}

proof fn lemma_start_position(order: Seq<int>, intervals: Seq<LiveInterval>, k: int)
    ensures
        0 <= choose_start_position(order, intervals, k) <= order.len(),
        forall|q: int| 0 <= q < choose_start_position(order, intervals, k) ==> intervals[order[q]].start <= intervals[k].start,
        choose_start_position(order, intervals, k) < order.len() ==> intervals[order[choose_start_position(order, intervals, k)]].start
            > intervals[k].start,
    decreases order.len(),
{
    if order.len() > 0 && intervals[order[0]].start <= intervals[k].start {
        lemma_start_position(order.skip(1), intervals, k);
        let p = choose_start_position(order, intervals, k);
        assert forall|q: int| 0 <= q < p implies intervals[order[q]].start <= intervals[k].start by {
            if q > 0 {
                assert(order[q] == order.skip(1)[q - 1]);
            }
        }
        if p < order.len() {
            assert(order[p] == order.skip(1)[p - 1]);
        }
    }
}

/// The first position in `order` whose interval starts after interval `k`.
spec fn choose_start_position(order: Seq<int>, intervals: Seq<LiveInterval>, k: int) -> int
    decreases order.len(),
{
    if order.len() == 0 {
        0
    } else if intervals[order[0]].start <= intervals[k].start {
        1 + choose_start_position(order.skip(1), intervals, k)
    } else {
        0
    }
}


pub open spec fn type_rank(t: VirtualRegisterType) -> int {
    match t {
        VirtualRegisterType::Int => 0,
        VirtualRegisterType::Float => 1,
    }
}

/// The order of active intervals: by end, then start, then register.
pub open spec fn ends_before(a: LiveInterval, b: LiveInterval) -> bool {
    ||| a.end < b.end
    ||| a.end == b.end && a.start < b.start
    ||| a.end == b.end && a.start == b.start && a.register.number < b.register.number
    ||| a.end == b.end && a.start == b.start && a.register.number == b.register.number && type_rank(a.register.register_type)
        < type_rank(b.register.register_type)
}

/// `s` with `x` added in its place by [`ends_before`]; unchanged when `x` is already there.
pub open spec fn insert_active(s: Seq<LiveInterval>, x: LiveInterval) -> Seq<LiveInterval>
    decreases s.len(),
{
    if s.len() == 0 {
        seq![x]
    } else if ends_before(s[0], x) {
        seq![s[0]] + insert_active(s.skip(1), x)
    } else if s[0] == x {
        s
    } else {
        seq![x] + s
    }
}

/// The position of the last entry for `key` among the first `n` allocated intervals.
pub open spec fn allocated_index(allocated: Seq<(LiveInterval, u32)>, key: LiveInterval, n: int) -> Option<int>
    decreases n,
{
    if n <= 0 {
        None
    } else if allocated[n - 1].0 == key {
        Some(n - 1)
    } else {
        allocated_index(allocated, key, n - 1)
    }
}

pub open spec fn find_allocated(allocated: Seq<(LiveInterval, u32)>, key: LiveInterval) -> Option<int> {
    allocated_index(allocated, key, allocated.len() as int)
}

/// The register number allocated to `key`.
pub open spec fn allocated_register(allocated: Seq<(LiveInterval, u32)>, key: LiveInterval) -> u32 {
    allocated[find_allocated(allocated, key)->0].1
}

/// Allocates `number` to `key`, in place of an earlier number for it.
pub open spec fn allocated_insert(allocated: Seq<(LiveInterval, u32)>, key: LiveInterval, number: u32) -> Seq<(LiveInterval, u32)> {
    match find_allocated(allocated, key) {
        Some(k) => allocated.update(k, (key, number)),
        None => allocated.push((key, number)),
    }
}

/// Forgets the number allocated to `key`.
pub open spec fn allocated_remove(allocated: Seq<(LiveInterval, u32)>, key: LiveInterval) -> Seq<(LiveInterval, u32)> {
    match find_allocated(allocated, key) {
        Some(k) => allocated.remove(k),
        None => allocated,
    }
}

/// The state of the scan: the allocated intervals with their register
/// numbers, the spilled intervals, the active intervals in [`ends_before`]
/// order, and the free registers of each file, smallest first.
pub struct ScanState {
    pub allocated: Seq<(LiveInterval, u32)>,
    pub spilled: Seq<LiveInterval>,
    pub active: Seq<LiveInterval>,
    pub free_int: Seq<u32>,
    pub free_float: Seq<u32>,
}

pub open spec fn free_of(st: ScanState, t: VirtualRegisterType) -> Seq<u32> {
    match t {
        VirtualRegisterType::Int => st.free_int,
        VirtualRegisterType::Float => st.free_float,
    }
}

pub open spec fn with_free(st: ScanState, t: VirtualRegisterType, free: Seq<u32>) -> ScanState {
    match t {
        VirtualRegisterType::Int => ScanState { free_int: free, ..st },
        VirtualRegisterType::Float => ScanState { free_float: free, ..st },
    }
}

pub open spec fn max_of(settings: Settings, t: VirtualRegisterType) -> nat {
    match t {
        VirtualRegisterType::Int => settings.num_int_registers as nat,
        VirtualRegisterType::Float => settings.num_float_registers as nat,
    }
}

/// Ends the active intervals that end before `start`, giving their registers back.
pub open spec fn expire_spec(st: ScanState, start: usize) -> ScanState
    decreases st.active.len(),
{
    if st.active.len() > 0 && st.active[0].end < start {
        let a = st.active[0];
        let t = a.register.register_type;
        let freed = with_free(st, t, insert_number(free_of(st, t), allocated_register(st.allocated, a)));
        expire_spec(ScanState { active: st.active.skip(1), ..freed }, start)
    } else {
        st
    }
}

/// The number of intervals of `s` in the register file `t`.
pub open spec fn count_of_type(s: Seq<LiveInterval>, t: VirtualRegisterType) -> nat
    decreases s.len(),
{
    if s.len() == 0 {
        0
    } else {
        (if s[0].register.register_type == t {
            1nat
        } else {
            0nat
        }) + count_of_type(s.skip(1), t)
    }
}

/// The position of the last of the first `n` intervals of `s` in the register file `t`.
pub open spec fn last_of_type(s: Seq<LiveInterval>, t: VirtualRegisterType, n: int) -> Option<int>
    decreases n,
{
    if n <= 0 {
        None
    } else if s[n - 1].register.register_type == t {
        Some(n - 1)
    } else {
        last_of_type(s, t, n - 1)
    }
}

/// One step of the scan: expire, then allocate a free register to `x`, or
/// spill the active interval of its file that ends last when it ends after
/// `x` (giving its register to `x`), or else spill `x`.
pub open spec fn scan_step(st: ScanState, x: LiveInterval, settings: Settings) -> ScanState {
    let st1 = expire_spec(st, x.start);
    let t = x.register.register_type;
    if count_of_type(st1.active, t) == max_of(settings, t) {
        let k = last_of_type(st1.active, t, st1.active.len() as int)->0;
        let spill = st1.active[k];
        if spill.end > x.end {
            ScanState {
                allocated: allocated_remove(
                    allocated_insert(st1.allocated, x, allocated_register(st1.allocated, spill)),
                    spill,
                ),
                spilled: st1.spilled.push(spill),
                active: insert_active(st1.active.remove(k), x),
                ..st1
            }
        } else {
            ScanState { allocated: allocated_remove(st1.allocated, x), spilled: st1.spilled.push(x), ..st1 }
        }
    } else {
        let free = free_of(st1, t);
        let taken = with_free(st1, t, free.skip(1));
        ScanState { allocated: allocated_insert(st1.allocated, x, free[0]), active: insert_active(st1.active, x), ..taken }
    }
}

pub open spec fn initial_scan_state(settings: Settings) -> ScanState {
    ScanState {
        allocated: Seq::empty(),
        spilled: Seq::empty(),
        active: Seq::empty(),
        free_int: all_numbers(settings.num_int_registers as nat),
        free_float: all_numbers(settings.num_float_registers as nat),
    }
}

/// The state after scanning the first `n` intervals of `intervals`.
pub open spec fn scan_spec(intervals: Seq<LiveInterval>, settings: Settings, n: int) -> ScanState
    decreases n,
{
    if n <= 0 {
        initial_scan_state(settings)
    } else {
        scan_step(scan_spec(intervals, settings, n - 1), intervals[n - 1], settings)
    }
}

/// The allocation that linear scan makes for the intervals.
pub open spec fn allocate_spec(intervals: Seq<LiveInterval>, settings: Settings) -> Seq<(VirtualRegister, crate::optimization::register_allocation::AllocatedRegister)> {
    let sorted = sorted_by_start(intervals);
    let st = scan_spec(sorted, settings, sorted.len() as int);
    allocation_entries(st.allocated, st.spilled)
}


fn ends_before_exec(a: &LiveInterval, b: &LiveInterval) -> (r: bool)
    ensures
        r == ends_before(*a, *b),
{
    let rank_a: u8 = match a.register.register_type {
        VirtualRegisterType::Int => 0,
        VirtualRegisterType::Float => 1,
    };
    let rank_b: u8 = match b.register.register_type {
        VirtualRegisterType::Int => 0,
        VirtualRegisterType::Float => 1,
    };
    a.end < b.end || (a.end == b.end && a.start < b.start) || (a.end == b.end && a.start == b.start && a.register.number
        < b.register.number) || (a.end == b.end && a.start == b.start && a.register.number == b.register.number && rank_a
        < rank_b)
}

proof fn lemma_insert_active_at(s: Seq<LiveInterval>, x: LiveInterval, p: int)
    requires
        0 <= p <= s.len(),
        forall|q: int| 0 <= q < p ==> ends_before(#[trigger] s[q], x),
        p < s.len() ==> !ends_before(s[p], x),
    ensures
        insert_active(s, x) == if p < s.len() && s[p] == x {
            s
        } else {
            s.take(p).push(x) + s.skip(p)
        },
    decreases p,
{
    if p == 0 {
        if s.len() == 0 {
            assert(s.take(0).push(x) + s.skip(0) =~= seq![x]);
        } else if s[0] == x {
        } else {
            assert(s.take(0).push(x) + s.skip(0) =~= seq![x] + s);
        }
    } else {
        assert forall|q: int| 0 <= q < p - 1 implies ends_before(#[trigger] s.skip(1)[q], x) by {
            assert(s.skip(1)[q] == s[q + 1]);
        }
        lemma_insert_active_at(s.skip(1), x, p - 1);
        if p - 1 < s.skip(1).len() && s.skip(1)[p - 1] == x {
            assert(seq![s[0]] + s.skip(1) =~= s);
        } else {
            assert(seq![s[0]] + (s.skip(1).take(p - 1).push(x) + s.skip(1).skip(p - 1)) =~= s.take(p).push(x) + s.skip(p));
        }
    }
}

fn insert_active_exec(active: &mut Vec<LiveInterval>, x: LiveInterval)
    ensures
        final(active)@ == insert_active(old(active)@, x),
{
    let mut p: usize = 0;
    while p < active.len() && ends_before_exec(&active[p], &x)
        invariant
            p <= active@.len(),
            active@ == old(active)@,
            forall|q: int| 0 <= q < p ==> ends_before(#[trigger] active@[q], x),
        decreases active@.len() - p,
    {
        p = p + 1;
    }
    proof {
        lemma_insert_active_at(active@, x, p as int);
    }
    if p < active.len() && active[p] == x {
        return;
    }
    active.insert(p, x);
    assert(active@ =~= old(active)@.take(p as int).push(x) + old(active)@.skip(p as int));
}

fn find_allocated_exec(allocated: &Vec<(LiveInterval, u32)>, key: &LiveInterval) -> (r: Option<usize>)
    ensures
        match r {
            Some(k) => find_allocated(allocated@, *key) == Some(k as int),
            None => find_allocated(allocated@, *key) is None,
        },
{
    let mut i: usize = allocated.len();
    while i > 0
        invariant
            i <= allocated@.len(),
            find_allocated(allocated@, *key) == allocated_index(allocated@, *key, i as int),
        decreases i,
    {
        if allocated[i - 1].0 == *key {
            return Some(i - 1);
        }
        i = i - 1;
    }
    None
}

proof fn lemma_allocated_index(allocated: Seq<(LiveInterval, u32)>, key: LiveInterval, n: int)
    requires
        0 <= n <= allocated.len(),
    ensures
        match allocated_index(allocated, key, n) {
            Some(k) => 0 <= k < n && allocated[k].0 == key,
            None => forall|k: int| 0 <= k < n ==> allocated[k].0 != key,
        },
    decreases n,
{
    if n > 0 {
        lemma_allocated_index(allocated, key, n - 1);
    }
}

fn lookup_allocated(allocated: &Vec<(LiveInterval, u32)>, key: &LiveInterval) -> (r: u32)
    requires
        find_allocated(allocated@, *key) is Some,
    ensures
        r == allocated_register(allocated@, *key),
{
    proof {
        lemma_allocated_index(allocated@, *key, allocated@.len() as int);
    }
    match find_allocated_exec(allocated, key) {
        Some(k) => allocated[k].1,
        None => 0,
    }
}

fn insert_allocated(allocated: &mut Vec<(LiveInterval, u32)>, key: LiveInterval, number: u32)
    ensures
        final(allocated)@ == allocated_insert(old(allocated)@, key, number),
{
    proof {
        lemma_allocated_index(allocated@, key, allocated@.len() as int);
    }
    match find_allocated_exec(allocated, &key) {
        Some(k) => {
            allocated.set(k, (key, number));
        },
        None => {
            allocated.push((key, number));
        },
    }
}

fn remove_allocated(allocated: &mut Vec<(LiveInterval, u32)>, key: &LiveInterval)
    ensures
        final(allocated)@ == allocated_remove(old(allocated)@, *key),
{
    proof {
        lemma_allocated_index(allocated@, *key, allocated@.len() as int);
    }
    match find_allocated_exec(allocated, key) {
        Some(k) => {
            allocated.remove(k);
        },
        None => {},
    }
}

pub open spec fn free_state(free: FreeRegisters, allocated: Seq<(LiveInterval, u32)>, spilled: Seq<LiveInterval>, active: Seq<LiveInterval>) -> ScanState {
    ScanState {
        allocated,
        spilled,
        active,
        free_int: free.free(VirtualRegisterType::Int),
        free_float: free.free(VirtualRegisterType::Float),
    }
}

/// Every active interval has an allocated register.
pub open spec fn active_allocated(allocated: Seq<(LiveInterval, u32)>, active: Seq<LiveInterval>) -> bool {
    forall|i: int| 0 <= i < active.len() ==> #[trigger] find_allocated(allocated, active[i]) is Some
}

proof fn lemma_expire_keeps(st: ScanState, start: usize)
    ensures
        expire_spec(st, start).allocated == st.allocated,
        expire_spec(st, start).spilled == st.spilled,
    decreases st.active.len(),
{
    if st.active.len() > 0 && st.active[0].end < start {
        let a = st.active[0];
        let t = a.register.register_type;
        let freed = with_free(st, t, insert_number(free_of(st, t), allocated_register(st.allocated, a)));
        lemma_expire_keeps(ScanState { active: st.active.skip(1), ..freed }, start);
    }
}

/// Ends the active intervals that end before `current_interval` starts and
/// gives their registers back.
fn expire_old_intervals(
    allocated_registers: &Vec<(LiveInterval, u32)>,
    active: &mut Vec<LiveInterval>,
    free_registers: &mut FreeRegisters,
    current_interval: &LiveInterval,
)
    requires
        active_allocated(allocated_registers@, old(active)@),
    ensures
        free_state(*final(free_registers), allocated_registers@, Seq::empty(), final(active)@) == expire_spec(
            free_state(*old(free_registers), allocated_registers@, Seq::empty(), old(active)@),
            current_interval.start,
        ),
        final(free_registers).max(VirtualRegisterType::Int) == old(free_registers).max(VirtualRegisterType::Int),
        final(free_registers).max(VirtualRegisterType::Float) == old(free_registers).max(VirtualRegisterType::Float),
{
    let ghost goal = expire_spec(
        free_state(*free_registers, allocated_registers@, Seq::empty(), active@),
        current_interval.start,
    );
    while active.len() > 0 && active[0].end < current_interval.start
        invariant
            active_allocated(allocated_registers@, active@),
            goal == expire_spec(free_state(*free_registers, allocated_registers@, Seq::empty(), active@), current_interval.start),
            free_registers.max(VirtualRegisterType::Int) == old(free_registers).max(VirtualRegisterType::Int),
            free_registers.max(VirtualRegisterType::Float) == old(free_registers).max(VirtualRegisterType::Float),
        decreases active@.len(),
    {
        let ghost before = active@;
        let interval = active.remove(0);
        assert(active@ =~= before.skip(1));
        assert(find_allocated(allocated_registers@, before[0]) is Some);
        let register = lookup_allocated(allocated_registers, &interval);
        free_registers.give_back(&interval.register.register_type, register);
        proof {
            assert forall|i: int| 0 <= i < active@.len() implies #[trigger] find_allocated(allocated_registers@, active@[i]) is Some by {
                assert(active@[i] == before[i + 1]);
            }
        }
    }
}

/// When every register of the file of `current_interval` is taken: the
/// active interval of that file that ends last is spilled and its register
/// goes to `current_interval` when it ends after it; otherwise
/// `current_interval` is spilled.
fn split_at_interval(
    allocated_registers: &mut Vec<(LiveInterval, u32)>,
    spilled_registers: &mut Vec<LiveInterval>,
    active: &mut Vec<LiveInterval>,
    current_interval: &LiveInterval,
)
    requires
        last_of_type(old(active)@, current_interval.register.register_type, old(active)@.len() as int) is Some,
        active_allocated(old(allocated_registers)@, old(active)@),
    ensures
        ({
            let k = last_of_type(old(active)@, current_interval.register.register_type, old(active)@.len() as int)->0;
            let spill = old(active)@[k];
            if spill.end > current_interval.end {
                &&& final(allocated_registers)@ == allocated_remove(
                    allocated_insert(old(allocated_registers)@, *current_interval, allocated_register(old(allocated_registers)@, spill)),
                    spill,
                )
                &&& final(spilled_registers)@ == old(spilled_registers)@.push(spill)
                &&& final(active)@ == insert_active(old(active)@.remove(k), *current_interval)
            } else {
                &&& final(allocated_registers)@ == allocated_remove(old(allocated_registers)@, *current_interval)
                &&& final(spilled_registers)@ == old(spilled_registers)@.push(*current_interval)
                &&& final(active)@ == old(active)@
            }
        }),
{
    let ghost k_spec = last_of_type(active@, current_interval.register.register_type, active@.len() as int)->0;
    let mut k: usize = active.len();
    while k > 0 && active[k - 1].register.register_type != current_interval.register.register_type
        invariant
            k <= active@.len(),
            last_of_type(active@, current_interval.register.register_type, active@.len() as int) == last_of_type(
                active@,
                current_interval.register.register_type,
                k as int,
            ),
        decreases k,
    {
        k = k - 1;
    }
    let k = k - 1;
    let spill = active[k];
    if spill.end > current_interval.end {
        assert(find_allocated(allocated_registers@, active@[k as int]) is Some);
        let register = lookup_allocated(allocated_registers, &spill);
        insert_allocated(allocated_registers, *current_interval, register);
        spilled_registers.push(spill);
        remove_allocated(allocated_registers, &spill);
        active.remove(k);
        insert_active_exec(active, *current_interval);
    } else {
        spilled_registers.push(*current_interval);
        remove_allocated(allocated_registers, current_interval);
    }
}


/// Sorts the intervals by start; intervals with equal starts keep their order.
fn sort_by_start(intervals: &Vec<LiveInterval>) -> (r: Vec<LiveInterval>)
    ensures
        r@ == sorted_by_start(intervals@),
{
    let mut r: Vec<LiveInterval> = Vec::new();
    let mut k: usize = 0;
    assert(r@ =~= order_by_start(intervals@, 0).map_values(|i: int| intervals@[i]));
    while k < intervals.len()
        invariant
            k <= intervals@.len(),
            r@ == order_by_start(intervals@, k as int).map_values(|i: int| intervals@[i]),
        decreases intervals@.len() - k,
    {
        let ghost order = order_by_start(intervals@, k as int);
        proof {
            lemma_order_by_start(intervals@, k as int);
        }
        let x = intervals[k];
        let mut p: usize = 0;
        while p < r.len() && r[p].start <= x.start
            invariant
                p <= r@.len(),
                r@ == order.map_values(|i: int| intervals@[i]),
                x == intervals@[k as int],
                forall|q: int| 0 <= q < p ==> intervals@[order[q]].start <= x.start,
            decreases r@.len() - p,
        {
            assert(r@[p as int] == intervals@[order[p as int]]);
            p = p + 1;
        }
        proof {
            if p < r@.len() {
                assert(r@[p as int] == intervals@[order[p as int]]);
            }
            lemma_insert_by_start_at(order, intervals@, k as int, p as int);
        }
        let ghost before = r@;
        r.insert(p, x);
        proof {
            let order2 = order.take(p as int).push(k as int) + order.skip(p as int);
            assert(order_by_start(intervals@, k + 1) == order2);
            assert(r@ =~= order2.map_values(|i: int| intervals@[i]));
        }
        k = k + 1;
    }
    proof {
        lemma_order_by_start(intervals@, k as int);
    }
    r
}


pub open spec fn free_ok(free: Seq<u32>, max: nat) -> bool {
    &&& strictly_sorted(free)
    &&& forall|i: int| 0 <= i < free.len() ==> (#[trigger] free[i]) < max
}

pub open spec fn keys_distinct(allocated: Seq<(LiveInterval, u32)>) -> bool {
    forall|i: int, j: int| 0 <= i < j < allocated.len() ==> #[trigger] allocated[i].0 != #[trigger] allocated[j].0
}

/// No two intervals are for the same register.
pub open spec fn distinct_registers(s: Seq<LiveInterval>) -> bool {
    forall|a: int, b: int| 0 <= a < b < s.len() ==> #[trigger] s[a].register != #[trigger] s[b].register
}

pub open spec fn sorted_by_end(active: Seq<LiveInterval>) -> bool {
    forall|i: int, j: int| 0 <= i < j < active.len() ==> ends_before(#[trigger] active[i], #[trigger] active[j])
}

proof fn lemma_find_distinct(allocated: Seq<(LiveInterval, u32)>, key: LiveInterval, i: int)
    requires
        keys_distinct(allocated),
        0 <= i < allocated.len(),
        allocated[i].0 == key,
    ensures
        find_allocated(allocated, key) == Some(i),
{
    lemma_allocated_index(allocated, key, allocated.len() as int);
    let k = find_allocated(allocated, key)->0;
    if k < i {
        assert(allocated[k].0 != allocated[i].0);
    } else if k > i {
        assert(allocated[i].0 != allocated[k].0);
    }
}

proof fn lemma_insert_number_props(s: Seq<u32>, r: u32, max: nat)
    requires
        free_ok(s, max),
        !s.contains(r),
        r < max,
    ensures
        free_ok(insert_number(s, r), max),
        insert_number(s, r).len() == s.len() + 1,
        forall|y: u32| #[trigger] insert_number(s, r).contains(y) <==> (s.contains(y) || y == r),
    decreases s.len(),
{
    if s.len() == 0 {
        assert(insert_number(s, r) =~= seq![r]);
        assert forall|y: u32| #[trigger] insert_number(s, r).contains(y) <==> (s.contains(y) || y == r) by {
            if insert_number(s, r).contains(y) {
                assert(insert_number(s, r)[0] == r);
            }
            if y == r {
                assert(insert_number(s, r)[0] == r);
            }
        }
    } else if s[0] < r {
        let t = s.skip(1);
        assert forall|i: int, j: int| 0 <= i < j < t.len() implies #[trigger] t[i] < #[trigger] t[j] by {
            assert(s[i + 1] < s[j + 1]);
        }
        assert(!t.contains(r)) by {
            if t.contains(r) {
                let q = choose|q: int| 0 <= q < t.len() && t[q] == r;
                assert(s[q + 1] == r);
            }
        }
        assert forall|i: int| 0 <= i < t.len() implies (#[trigger] t[i]) < max by {
            assert(t[i] == s[i + 1]);
        }
        lemma_insert_number_props(t, r, max);
        let u = insert_number(t, r);
        let res = seq![s[0]] + u;
        assert(insert_number(s, r) == res);
        assert forall|y: u32| #[trigger] res.contains(y) <==> (s.contains(y) || y == r) by {
            if res.contains(y) {
                let q = choose|q: int| 0 <= q < res.len() && res[q] == y;
                if q > 0 {
                    assert(u[q - 1] == y);
                    assert(u.contains(y));
                    if t.contains(y) {
                        let w = choose|w: int| 0 <= w < t.len() && t[w] == y;
                        assert(s[w + 1] == y);
                    }
                }
            }
            if s.contains(y) {
                let q = choose|q: int| 0 <= q < s.len() && s[q] == y;
                if q == 0 {
                    assert(res[0] == y);
                } else {
                    assert(t[q - 1] == y);
                    assert(t.contains(y));
                    assert(u.contains(y));
                    let w = choose|w: int| 0 <= w < u.len() && u[w] == y;
                    assert(res[w + 1] == y);
                }
            }
            if y == r {
                assert(u.contains(r));
                let w = choose|w: int| 0 <= w < u.len() && u[w] == r;
                assert(res[w + 1] == r);
            }
        }
        assert forall|i: int, j: int| 0 <= i < j < res.len() implies #[trigger] res[i] < #[trigger] res[j] by {
            if i == 0 {
                assert(u.contains(res[j])) by {
                    assert(u[j - 1] == res[j]);
                }
                if t.contains(res[j]) {
                    let w = choose|w: int| 0 <= w < t.len() && t[w] == res[j];
                    assert(s[0] < s[w + 1]);
                }
            } else {
                assert(u[i - 1] < u[j - 1]);
            }
        }
        assert forall|i: int| 0 <= i < res.len() implies (#[trigger] res[i]) < max by {
            if i > 0 {
                assert(u[i - 1] < max);
            }
        }
    } else {
        assert(s[0] != r) by {
            assert(s[0] == s[0]);
            if s[0] == r {
                assert(s.contains(r));
            }
        }
        let res = seq![r] + s;
        assert(insert_number(s, r) == res);
        assert forall|y: u32| #[trigger] res.contains(y) <==> (s.contains(y) || y == r) by {
            if res.contains(y) {
                let q = choose|q: int| 0 <= q < res.len() && res[q] == y;
                if q > 0 {
                    assert(s[q - 1] == y);
                }
            }
            if s.contains(y) {
                let q = choose|q: int| 0 <= q < s.len() && s[q] == y;
                assert(res[q + 1] == y);
            }
            if y == r {
                assert(res[0] == r);
            }
        }
        assert forall|i: int, j: int| 0 <= i < j < res.len() implies #[trigger] res[i] < #[trigger] res[j] by {
            if i == 0 {
                if j - 1 > 0 {
                    assert(s[0] < s[j - 1]);
                }
            } else {
                assert(s[i - 1] < s[j - 1]);
            }
        }
    }
}

proof fn lemma_skip_first(f: Seq<u32>, max: nat)
    requires
        free_ok(f, max),
        f.len() > 0,
    ensures
        free_ok(f.skip(1), max),
        !f.skip(1).contains(f[0]),
        forall|y: u32| #[trigger] f.skip(1).contains(y) ==> f.contains(y),
{
    let t = f.skip(1);
    assert forall|i: int, j: int| 0 <= i < j < t.len() implies #[trigger] t[i] < #[trigger] t[j] by {
        assert(f[i + 1] < f[j + 1]);
    }
    assert forall|i: int| 0 <= i < t.len() implies (#[trigger] t[i]) < max by {
        assert(t[i] == f[i + 1]);
    }
    if t.contains(f[0]) {
        let q = choose|q: int| 0 <= q < t.len() && t[q] == f[0];
        assert(f[0] < f[q + 1]);
    }
    assert forall|y: u32| #[trigger] t.contains(y) implies f.contains(y) by {
        let q = choose|q: int| 0 <= q < t.len() && t[q] == y;
        assert(f[q + 1] == y);
    }
}

proof fn lemma_count_remove(s: Seq<LiveInterval>, k: int, t: VirtualRegisterType)
    requires
        0 <= k < s.len(),
    ensures
        count_of_type(s.remove(k), t) + (if s[k].register.register_type == t {
            1nat
        } else {
            0nat
        }) == count_of_type(s, t),
    decreases k,
{
    if k == 0 {
        assert(s.remove(0) =~= s.skip(1));
    } else {
        lemma_count_remove(s.skip(1), k - 1, t);
        assert(s.remove(k).skip(1) =~= s.skip(1).remove(k - 1));
        assert(s.remove(k)[0] == s[0]);
    }
}

proof fn lemma_count_positive(s: Seq<LiveInterval>, t: VirtualRegisterType)
    requires
        count_of_type(s, t) > 0,
    ensures
        last_of_type(s, t, s.len() as int) is Some,
    decreases s.len(),
{
    lemma_last_of_type(s, t, s.len() as int);
    if last_of_type(s, t, s.len() as int) is None {
        lemma_count_zero(s, t);
    }
}

proof fn lemma_count_zero(s: Seq<LiveInterval>, t: VirtualRegisterType)
    requires
        forall|k: int| 0 <= k < s.len() ==> (#[trigger] s[k]).register.register_type != t,
    ensures
        count_of_type(s, t) == 0,
    decreases s.len(),
{
    if s.len() > 0 {
        assert forall|k: int| 0 <= k < s.skip(1).len() implies (#[trigger] s.skip(1)[k]).register.register_type != t by {
            assert(s.skip(1)[k] == s[k + 1]);
        }
        lemma_count_zero(s.skip(1), t);
    }
}

proof fn lemma_last_of_type(s: Seq<LiveInterval>, t: VirtualRegisterType, n: int)
    requires
        0 <= n <= s.len(),
    ensures
        match last_of_type(s, t, n) {
            Some(k) => 0 <= k < n && s[k].register.register_type == t,
            None => forall|k: int| 0 <= k < n ==> (#[trigger] s[k]).register.register_type != t,
        },
    decreases n,
{
    if n > 0 {
        lemma_last_of_type(s, t, n - 1);
    }
}


proof fn lemma_ends_before_order(a: LiveInterval, b: LiveInterval, c: LiveInterval)
    ensures
        !ends_before(a, a),
        a != b ==> ends_before(a, b) || ends_before(b, a),
        ends_before(a, b) ==> !ends_before(b, a),
        ends_before(a, b) && ends_before(b, c) ==> ends_before(a, c),
{
    if a != b && !ends_before(a, b) && !ends_before(b, a) {
        assert(a.register.register_type == b.register.register_type) by {
            assert(type_rank(a.register.register_type) == type_rank(b.register.register_type));
        }
        assert(a.register == b.register);
    }
}

spec fn first_not_before(s: Seq<LiveInterval>, x: LiveInterval) -> int
    decreases s.len(),
{
    if s.len() == 0 {
        0
    } else if ends_before(s[0], x) {
        1 + first_not_before(s.skip(1), x)
    } else {
        0
    }
}

proof fn lemma_first_not_before(s: Seq<LiveInterval>, x: LiveInterval)
    ensures
        0 <= first_not_before(s, x) <= s.len(),
        forall|q: int| 0 <= q < first_not_before(s, x) ==> ends_before(#[trigger] s[q], x),
        first_not_before(s, x) < s.len() ==> !ends_before(s[first_not_before(s, x)], x),
    decreases s.len(),
{
    if s.len() > 0 && ends_before(s[0], x) {
        lemma_first_not_before(s.skip(1), x);
        let p = first_not_before(s, x);
        assert forall|q: int| 0 <= q < p implies ends_before(#[trigger] s[q], x) by {
            if q > 0 {
                assert(s[q] == s.skip(1)[q - 1]);
            }
        }
        if p < s.len() {
            assert(s[p] == s.skip(1)[p - 1]);
        }
    }
}

proof fn lemma_count_concat(a: Seq<LiveInterval>, b: Seq<LiveInterval>, t: VirtualRegisterType)
    ensures
        count_of_type(a + b, t) == count_of_type(a, t) + count_of_type(b, t),
    decreases a.len(),
{
    if a.len() > 0 {
        lemma_count_concat(a.skip(1), b, t);
        assert((a + b).skip(1) =~= a.skip(1) + b);
        assert((a + b)[0] == a[0]);
    } else {
        assert(a + b =~= b);
    }
}

proof fn lemma_insert_active_props(s: Seq<LiveInterval>, x: LiveInterval)
    requires
        sorted_by_end(s),
        !s.contains(x),
    ensures
        sorted_by_end(insert_active(s, x)),
        insert_active(s, x).len() == s.len() + 1,
        forall|y: LiveInterval| #[trigger] insert_active(s, x).contains(y) <==> (s.contains(y) || y == x),
        forall|t: VirtualRegisterType| #[trigger] count_of_type(insert_active(s, x), t) == count_of_type(s, t) + (if x.register.register_type
            == t {
            1nat
        } else {
            0nat
        }),
{
    lemma_first_not_before(s, x);
    let p = first_not_before(s, x);
    if p < s.len() {
        assert(s[p] != x) by {
            if s[p] == x {
                assert(s.contains(x));
            }
        }
    }
    lemma_insert_active_at(s, x, p);
    let r = s.take(p).push(x) + s.skip(p);
    assert(insert_active(s, x) == r);
    assert forall|q: int| 0 <= q < r.len() implies #[trigger] r[q] == (if q < p {
        s[q]
    } else if q == p {
        x
    } else {
        s[q - 1]
    }) by {
        if q <= p {
            assert(r[q] == s.take(p).push(x)[q]);
        } else {
            assert(r[q] == s.skip(p)[q - p - 1]);
        }
    }
    assert forall|q: int| p <= q < s.len() implies ends_before(x, #[trigger] s[q]) by {
        lemma_ends_before_order(s[p], x, s[q]);
        lemma_ends_before_order(x, s[p], s[q]);
        if q > p {
            assert(ends_before(s[p], s[q]));
        }
    }
    assert forall|i: int, j: int| 0 <= i < j < r.len() implies ends_before(#[trigger] r[i], #[trigger] r[j]) by {
        if i < p && j < p {
        } else if i < p && j == p {
        } else if i < p {
            lemma_ends_before_order(r[i], x, r[j]);
        } else if i == p {
        } else {
        }
    }
    assert forall|y: LiveInterval| #[trigger] r.contains(y) <==> (s.contains(y) || y == x) by {
        if r.contains(y) {
            let q = choose|q: int| 0 <= q < r.len() && r[q] == y;
            if q < p {
                assert(s[q] == y);
            } else if q > p {
                assert(s[q - 1] == y);
            }
        }
        if s.contains(y) {
            let q = choose|q: int| 0 <= q < s.len() && s[q] == y;
            if q < p {
                assert(r[q] == y);
            } else {
                assert(r[q + 1] == y);
            }
        }
        if y == x {
            assert(r[p] == x);
        }
    }
    assert forall|t: VirtualRegisterType| #[trigger] count_of_type(r, t) == count_of_type(s, t) + (if x.register.register_type
        == t {
        1nat
    } else {
        0nat
    }) by {
        lemma_count_concat(s.take(p).push(x), s.skip(p), t);
        lemma_count_concat(s.take(p), seq![x], t);
        lemma_count_concat(s.take(p), s.skip(p), t);
        assert(s.take(p).push(x) =~= s.take(p) + seq![x]);
        assert(s.take(p) + s.skip(p) =~= s);
        assert(seq![x].skip(1) =~= Seq::<LiveInterval>::empty());
        assert(count_of_type(Seq::<LiveInterval>::empty(), t) == 0);
        assert(count_of_type(seq![x], t) == (if x.register.register_type == t {
            1nat
        } else {
            0nat
        }) + count_of_type(seq![x].skip(1), t));
    }
}

proof fn lemma_remove_props(s: Seq<LiveInterval>, k: int)
    requires
        sorted_by_end(s),
        0 <= k < s.len(),
    ensures
        sorted_by_end(s.remove(k)),
        forall|y: LiveInterval| #[trigger] s.remove(k).contains(y) <==> (s.contains(y) && y != s[k]),
{
    let r = s.remove(k);
    assert forall|q: int| 0 <= q < r.len() implies #[trigger] r[q] == (if q < k {
        s[q]
    } else {
        s[q + 1]
    }) by {}
    assert forall|i: int, j: int| 0 <= i < j < r.len() implies ends_before(#[trigger] r[i], #[trigger] r[j]) by {
        if i < k && j >= k {
            assert(ends_before(s[i], s[j + 1]));
        } else if i >= k {
            assert(ends_before(s[i + 1], s[j + 1]));
        } else {
            assert(ends_before(s[i], s[j]));
        }
    }
    assert forall|y: LiveInterval| #[trigger] r.contains(y) <==> (s.contains(y) && y != s[k]) by {
        if r.contains(y) {
            let q = choose|q: int| 0 <= q < r.len() && r[q] == y;
            if q < k {
                assert(s[q] == y);
                assert(ends_before(s[q], s[k]));
                lemma_ends_before_order(s[q], s[k], s[k]);
            } else {
                assert(s[q + 1] == y);
                assert(ends_before(s[k], s[q + 1]));
                lemma_ends_before_order(s[k], s[q + 1], s[k]);
            }
        }
        if s.contains(y) && y != s[k] {
            let q = choose|q: int| 0 <= q < s.len() && s[q] == y;
            if q < k {
                assert(r[q] == y);
            } else {
                assert(q != k);
                assert(r[q - 1] == y);
            }
        }
    }
}


/// What holds of the scan state after the first `k` sorted intervals: the
/// free lists are sorted sets of valid register numbers; the active
/// intervals are sorted by end, each has an allocated register of its file
/// that is not free and that no other active interval of the file has;
/// active and free registers of a file add up to its size; and every
/// active or allocated interval is one of those scanned.
pub open spec fn scan_inv(st: ScanState, settings: Settings, sorted: Seq<LiveInterval>, k: int) -> bool {
    let active = st.active;
    &&& free_ok(st.free_int, settings.num_int_registers as nat)
    &&& free_ok(st.free_float, settings.num_float_registers as nat)
    &&& sorted_by_end(active)
    &&& active_allocated(st.allocated, active)
    &&& forall|i: int|
        0 <= i < active.len() ==> {
            &&& allocated_register(st.allocated, #[trigger] active[i]) < max_of(settings, active[i].register.register_type)
            &&& !free_of(st, active[i].register.register_type).contains(allocated_register(st.allocated, active[i]))
        }
    &&& forall|i: int, j: int|
        0 <= i < active.len() && 0 <= j < active.len() && i != j && (#[trigger] active[i]).register.register_type == (
        #[trigger] active[j]).register.register_type ==> allocated_register(st.allocated, active[i]) != allocated_register(
            st.allocated,
            active[j],
        )
    &&& count_of_type(active, VirtualRegisterType::Int) + st.free_int.len() == settings.num_int_registers
    &&& count_of_type(active, VirtualRegisterType::Float) + st.free_float.len() == settings.num_float_registers
    &&& keys_distinct(st.allocated)
    &&& forall|i: int| 0 <= i < active.len() ==> exists|j: int| 0 <= j < k && sorted[j] == #[trigger] active[i]
    &&& forall|e: int| 0 <= e < st.allocated.len() ==> exists|j: int| 0 <= j < k && sorted[j] == #[trigger] st.allocated[e].0
}

proof fn lemma_initial_inv(settings: Settings, sorted: Seq<LiveInterval>)
    requires
        settings.num_int_registers <= u32::MAX,
        settings.num_float_registers <= u32::MAX,
    ensures
        scan_inv(initial_scan_state(settings), settings, sorted, 0),
{
    let st = initial_scan_state(settings);
    assert(count_of_type(st.active, VirtualRegisterType::Int) == 0);
    assert(count_of_type(st.active, VirtualRegisterType::Float) == 0);
}

proof fn lemma_expire_inv(st: ScanState, settings: Settings, sorted: Seq<LiveInterval>, k: int, start: usize)
    requires
        scan_inv(st, settings, sorted, k),
    ensures
        scan_inv(expire_spec(st, start), settings, sorted, k),
    decreases st.active.len(),
{
    if st.active.len() > 0 && st.active[0].end < start {
        let active = st.active;
        let a = active[0];
        let t = a.register.register_type;
        let r = allocated_register(st.allocated, a);
        let free = free_of(st, t);
        lemma_insert_number_props(free, r, max_of(settings, t));
        let freed = with_free(st, t, insert_number(free, r));
        let rest = active.skip(1);
        let st2 = ScanState { active: rest, ..freed };
        assert forall|i: int| 0 <= i < rest.len() implies #[trigger] rest[i] == active[i + 1] by {}
        assert(sorted_by_end(rest)) by {
            assert forall|i: int, j: int| 0 <= i < j < rest.len() implies ends_before(#[trigger] rest[i], #[trigger] rest[j]) by {
                assert(ends_before(active[i + 1], active[j + 1]));
            }
        }
        assert(active_allocated(st2.allocated, rest)) by {
            assert forall|i: int| 0 <= i < rest.len() implies #[trigger] find_allocated(st2.allocated, rest[i]) is Some by {
                assert(find_allocated(st.allocated, active[i + 1]) is Some);
            }
        }
        assert forall|i: int| 0 <= i < rest.len() implies {
            &&& allocated_register(st2.allocated, #[trigger] rest[i]) < max_of(settings, rest[i].register.register_type)
            &&& !free_of(st2, rest[i].register.register_type).contains(allocated_register(st2.allocated, rest[i]))
        } by {
            let b = active[i + 1];
            assert(allocated_register(st.allocated, b) < max_of(settings, b.register.register_type));
            assert(!free_of(st, b.register.register_type).contains(allocated_register(st.allocated, b)));
            if b.register.register_type == t {
                assert(allocated_register(st.allocated, active[0]) != allocated_register(st.allocated, active[i + 1]));
            }
        }
        assert forall|i: int, j: int|
            0 <= i < rest.len() && 0 <= j < rest.len() && i != j && (#[trigger] rest[i]).register.register_type == (
            #[trigger] rest[j]).register.register_type implies allocated_register(st2.allocated, rest[i]) != allocated_register(
            st2.allocated,
            rest[j],
        ) by {
            assert(allocated_register(st.allocated, active[i + 1]) != allocated_register(st.allocated, active[j + 1]));
        }
        assert forall|i: int| 0 <= i < rest.len() implies exists|j: int| 0 <= j < k && sorted[j] == #[trigger] rest[i] by {
            assert(rest[i] == active[i + 1]);
        }
        lemma_expire_inv(st2, settings, sorted, k, start);
    }
}


proof fn lemma_push_new_key(a: Seq<(LiveInterval, u32)>, x: LiveInterval, v: u32)
    requires
        keys_distinct(a),
        find_allocated(a, x) is None,
    ensures
        keys_distinct(a.push((x, v))),
        find_allocated(a.push((x, v)), x) == Some(a.len() as int),
        allocated_register(a.push((x, v)), x) == v,
        forall|y: LiveInterval| y != x ==> #[trigger] find_allocated(a.push((x, v)), y) == find_allocated(a, y),
        forall|y: LiveInterval|
            y != x && find_allocated(a, y) is Some ==> #[trigger] allocated_register(a.push((x, v)), y) == allocated_register(a, y),
{
    lemma_allocated_index(a, x, a.len() as int);
    let b = a.push((x, v));
    assert forall|i: int, j: int| 0 <= i < j < b.len() implies #[trigger] b[i].0 != #[trigger] b[j].0 by {
        if j == a.len() {
            assert(a[i].0 != x);
        } else {
            assert(a[i].0 != a[j].0);
        }
    }
    assert forall|y: LiveInterval| y != x implies #[trigger] find_allocated(a.push((x, v)), y) == find_allocated(a, y) by {
        assert(allocated_index(b, y, a.len() as int) == allocated_index(a, y, a.len() as int)) by {
            lemma_allocated_index_prefix(b, a, y, a.len() as int);
        }
    }
    assert forall|y: LiveInterval|
        y != x && find_allocated(a, y) is Some implies #[trigger] allocated_register(a.push((x, v)), y) == allocated_register(a, y) by {
        lemma_allocated_index(a, y, a.len() as int);
        assert(find_allocated(b, y) == find_allocated(a, y));
    }
}

proof fn lemma_allocated_index_prefix(b: Seq<(LiveInterval, u32)>, a: Seq<(LiveInterval, u32)>, y: LiveInterval, n: int)
    requires
        0 <= n <= a.len(),
        n <= b.len(),
        forall|i: int| 0 <= i < n ==> b[i] == a[i],
    ensures
        allocated_index(b, y, n) == allocated_index(a, y, n),
    decreases n,
{
    if n > 0 {
        lemma_allocated_index_prefix(b, a, y, n - 1);
    }
}

proof fn lemma_remove_key(a: Seq<(LiveInterval, u32)>, e: int)
    requires
        keys_distinct(a),
        0 <= e < a.len(),
    ensures
        keys_distinct(a.remove(e)),
        forall|y: LiveInterval|
            y != a[e].0 && find_allocated(a, y) is Some ==> #[trigger] find_allocated(a.remove(e), y) is Some
                && allocated_register(a.remove(e), y) == allocated_register(a, y),
        forall|i: int| 0 <= i < a.remove(e).len() ==> #[trigger] a.remove(e)[i] == a[if i < e {
            i
        } else {
            i + 1
        }],
{
    let b = a.remove(e);
    assert forall|i: int| 0 <= i < b.len() implies #[trigger] b[i] == a[if i < e {
        i
    } else {
        i + 1
    }] by {}
    assert forall|i: int, j: int| 0 <= i < j < b.len() implies #[trigger] b[i].0 != #[trigger] b[j].0 by {
        let ii = if i < e { i } else { i + 1 };
        let jj = if j < e { j } else { j + 1 };
        assert(a[ii].0 != a[jj].0);
    }
    assert forall|y: LiveInterval|
        y != a[e].0 && find_allocated(a, y) is Some implies #[trigger] find_allocated(b, y) is Some && allocated_register(b, y)
        == allocated_register(a, y) by {
        lemma_allocated_index(a, y, a.len() as int);
        let q = find_allocated(a, y)->0;
        assert(q != e);
        let qq = if q < e { q } else { q - 1 };
        assert(b[qq] == a[q]);
        lemma_find_distinct(b, y, qq);
    }
}

proof fn lemma_not_scanned(st: ScanState, settings: Settings, sorted: Seq<LiveInterval>, k: int)
    requires
        scan_inv(st, settings, sorted, k),
        distinct_registers(sorted),
        0 <= k < sorted.len(),
    ensures
        !st.active.contains(sorted[k]),
        find_allocated(st.allocated, sorted[k]) is None,
{
    let x = sorted[k];
    if st.active.contains(x) {
        let i = choose|i: int| 0 <= i < st.active.len() && st.active[i] == x;
        let j = choose|j: int| 0 <= j < k && sorted[j] == #[trigger] st.active[i];
        assert(sorted[j].register != sorted[k].register);
    }
    lemma_allocated_index(st.allocated, x, st.allocated.len() as int);
    if find_allocated(st.allocated, x) is Some {
        let e = find_allocated(st.allocated, x)->0;
        let j = choose|j: int| 0 <= j < k && sorted[j] == #[trigger] st.allocated[e].0;
        assert(sorted[j].register != sorted[k].register);
    }
}


/// After the expiry for `sorted[k]`: when its register file is full, an
/// active interval of that file exists; otherwise a register of that file is free.
proof fn lemma_step_possible(st1: ScanState, settings: Settings, sorted: Seq<LiveInterval>, k: int)
    requires
        scan_inv(st1, settings, sorted, k),
        0 <= k < sorted.len(),
        max_of(settings, sorted[k].register.register_type) >= 1,
    ensures
        ({
            let t = sorted[k].register.register_type;
            if count_of_type(st1.active, t) == max_of(settings, t) {
                last_of_type(st1.active, t, st1.active.len() as int) is Some
            } else {
                free_of(st1, t).len() > 0
            }
        }),
{
    let t = sorted[k].register.register_type;
    if count_of_type(st1.active, t) == max_of(settings, t) {
        lemma_count_positive(st1.active, t);
    }
}

proof fn lemma_step_inv(st: ScanState, settings: Settings, sorted: Seq<LiveInterval>, k: int)
    requires
        scan_inv(st, settings, sorted, k),
        distinct_registers(sorted),
        0 <= k < sorted.len(),
        max_of(settings, sorted[k].register.register_type) >= 1,
    ensures
        scan_inv(scan_step(st, sorted[k], settings), settings, sorted, k + 1),
{
    let x = sorted[k];
    let t = x.register.register_type;
    let st1 = expire_spec(st, x.start);
    lemma_expire_inv(st, settings, sorted, k, x.start);
    lemma_not_scanned(st1, settings, sorted, k);
    lemma_step_possible(st1, settings, sorted, k);
    let active = st1.active;
    let alloc = st1.allocated;
    let r = scan_step(st, x, settings);
    assert forall|i: int| 0 <= i < active.len() implies exists|j: int| 0 <= j < k + 1 && sorted[j] == #[trigger] active[i] by {
        let j = choose|j: int| 0 <= j < k && sorted[j] == #[trigger] active[i];
    }
    assert forall|e: int| 0 <= e < alloc.len() implies exists|j: int| 0 <= j < k + 1 && sorted[j] == #[trigger] alloc[e].0 by {
        let j = choose|j: int| 0 <= j < k && sorted[j] == #[trigger] alloc[e].0;
    }
    if count_of_type(active, t) == max_of(settings, t) {
        let kk = last_of_type(active, t, active.len() as int)->0;
        lemma_last_of_type(active, t, active.len() as int);
        let spill = active[kk];
        if spill.end > x.end {
            let v = allocated_register(alloc, spill);
            assert(find_allocated(alloc, spill) is Some);
            lemma_push_new_key(alloc, x, v);
            let pushed = alloc.push((x, v));
            lemma_allocated_index(alloc, spill, alloc.len() as int);
            let e = find_allocated(alloc, spill)->0;
            assert(find_allocated(pushed, spill) == Some(e));
            lemma_remove_key(pushed, e);
            let alloc2 = pushed.remove(e);
            assert(allocated_insert(alloc, x, v) == pushed);
            assert(allocated_remove(pushed, spill) == alloc2);
            let removed = active.remove(kk);
            lemma_remove_props(active, kk);
            lemma_count_remove(active, kk, VirtualRegisterType::Int);
            lemma_count_remove(active, kk, VirtualRegisterType::Float);
            assert(!removed.contains(x));
            lemma_insert_active_props(removed, x);
            let active2 = insert_active(removed, x);
            assert(r.active == active2);
            assert(r.allocated == alloc2);
            // the register of each remaining active interval
            assert forall|y: LiveInterval| #[trigger] active2.contains(y) implies find_allocated(alloc2, y) is Some && allocated_register(
                alloc2,
                y,
            ) == (if y == x {
                v
            } else {
                allocated_register(alloc, y)
            }) && (y != x ==> active.contains(y) && y != spill) by {
                if y == x {
                    assert(x != spill) by {
                        assert(active.contains(spill));
                    }
                    assert(find_allocated(pushed, x) is Some);
                } else {
                    assert(removed.contains(y));
                    let q = choose|q: int| 0 <= q < active.len() && active[q] == y;
                    assert(find_allocated(alloc, y) is Some);
                }
            }
            assert(active_allocated(alloc2, active2)) by {
                assert forall|i: int| 0 <= i < active2.len() implies #[trigger] find_allocated(alloc2, active2[i]) is Some by {
                    assert(active2.contains(active2[i]));
                }
            }
            assert forall|i: int| 0 <= i < active2.len() implies {
                &&& allocated_register(alloc2, #[trigger] active2[i]) < max_of(settings, active2[i].register.register_type)
                &&& !free_of(r, active2[i].register.register_type).contains(allocated_register(alloc2, active2[i]))
            } by {
                let y = active2[i];
                assert(active2.contains(y));
                if y != x {
                    let q = choose|q: int| 0 <= q < active.len() && active[q] == y;
                }
            }
            assert forall|i: int, j: int|
                0 <= i < active2.len() && 0 <= j < active2.len() && i != j && (#[trigger] active2[i]).register.register_type == (
                #[trigger] active2[j]).register.register_type implies allocated_register(alloc2, active2[i]) != allocated_register(
                alloc2,
                active2[j],
            ) by {
                let y1 = active2[i];
                let y2 = active2[j];
                assert(active2.contains(y1));
                assert(active2.contains(y2));
                lemma_ends_before_order(y1, y2, y1);
                if i < j {
                    assert(ends_before(y1, y2));
                } else {
                    assert(ends_before(y2, y1));
                }
                if y1 != x && y2 != x {
                    let q1 = choose|q: int| 0 <= q < active.len() && active[q] == y1;
                    let q2 = choose|q: int| 0 <= q < active.len() && active[q] == y2;
                } else if y1 == x {
                    let q2 = choose|q: int| 0 <= q < active.len() && active[q] == y2;
                    assert(active[q2] != active[kk]);
                } else {
                    let q1 = choose|q: int| 0 <= q < active.len() && active[q] == y1;
                    assert(active[q1] != active[kk]);
                }
            }
            assert forall|i: int| 0 <= i < active2.len() implies exists|j: int| 0 <= j < k + 1 && sorted[j] == #[trigger] active2[i] by {
                let y = active2[i];
                assert(active2.contains(y));
                if y != x {
                    let q = choose|q: int| 0 <= q < active.len() && active[q] == y;
                    let j = choose|j: int| 0 <= j < k + 1 && sorted[j] == #[trigger] active[q];
                } else {
                    assert(sorted[k] == active2[i]);
                }
            }
            assert forall|ee: int| 0 <= ee < alloc2.len() implies exists|j: int| 0 <= j < k + 1 && sorted[j] == #[trigger] alloc2[ee].0 by {
                let src = if ee < e { ee } else { ee + 1 };
                assert(alloc2[ee] == pushed[src]);
                if src == alloc.len() {
                    assert(sorted[k] == alloc2[ee].0);
                } else {
                    assert(pushed[src] == alloc[src]);
                    let j = choose|j: int| 0 <= j < k + 1 && sorted[j] == #[trigger] alloc[src].0;
                }
            }
        } else {
            assert(allocated_remove(alloc, x) == alloc);
        }
    } else {
        let free = free_of(st1, t);
        let reg = free[0];
        lemma_skip_first(free, max_of(settings, t));
        lemma_push_new_key(alloc, x, reg);
        let alloc2 = alloc.push((x, reg));
        assert(allocated_insert(alloc, x, reg) == alloc2);
        lemma_insert_active_props(active, x);
        let active2 = insert_active(active, x);
        assert(r.active == active2);
        assert(r.allocated == alloc2);
        assert(free_of(r, t) == free.skip(1));
        assert(free_of(r, other_type(t)) == free_of(st1, other_type(t)));
        assert forall|y: LiveInterval| #[trigger] active2.contains(y) implies find_allocated(alloc2, y) is Some && allocated_register(
            alloc2,
            y,
        ) == (if y == x {
            reg
        } else {
            allocated_register(alloc, y)
        }) && (y != x ==> active.contains(y)) by {
            if y != x {
                let q = choose|q: int| 0 <= q < active.len() && active[q] == y;
                assert(find_allocated(alloc, y) is Some);
            }
        }
        assert(active_allocated(alloc2, active2)) by {
            assert forall|i: int| 0 <= i < active2.len() implies #[trigger] find_allocated(alloc2, active2[i]) is Some by {
                assert(active2.contains(active2[i]));
            }
        }
        assert forall|i: int| 0 <= i < active2.len() implies {
            &&& allocated_register(alloc2, #[trigger] active2[i]) < max_of(settings, active2[i].register.register_type)
            &&& !free_of(r, active2[i].register.register_type).contains(allocated_register(alloc2, active2[i]))
        } by {
            let y = active2[i];
            assert(active2.contains(y));
            if y != x {
                let q = choose|q: int| 0 <= q < active.len() && active[q] == y;
                if y.register.register_type == t {
                    if free.skip(1).contains(allocated_register(alloc, y)) {
                        assert(free.contains(allocated_register(alloc, y)));
                    }
                }
            } else {
                assert(free[0] < max_of(settings, t));
            }
        }
        assert forall|i: int, j: int|
            0 <= i < active2.len() && 0 <= j < active2.len() && i != j && (#[trigger] active2[i]).register.register_type == (
            #[trigger] active2[j]).register.register_type implies allocated_register(alloc2, active2[i]) != allocated_register(
            alloc2,
            active2[j],
        ) by {
            let y1 = active2[i];
            let y2 = active2[j];
            assert(active2.contains(y1));
            assert(active2.contains(y2));
            lemma_ends_before_order(y1, y2, y1);
            if i < j {
                assert(ends_before(y1, y2));
            } else {
                assert(ends_before(y2, y1));
            }
            assert(free.contains(reg)) by {
                assert(free[0] == reg);
            }
            if y1 != x && y2 != x {
                let q1 = choose|q: int| 0 <= q < active.len() && active[q] == y1;
                let q2 = choose|q: int| 0 <= q < active.len() && active[q] == y2;
            } else if y1 == x {
                let q2 = choose|q: int| 0 <= q < active.len() && active[q] == y2;
            } else {
                let q1 = choose|q: int| 0 <= q < active.len() && active[q] == y1;
            }
        }
        assert forall|i: int| 0 <= i < active2.len() implies exists|j: int| 0 <= j < k + 1 && sorted[j] == #[trigger] active2[i] by {
            let y = active2[i];
            assert(active2.contains(y));
            if y != x {
                let q = choose|q: int| 0 <= q < active.len() && active[q] == y;
                let j = choose|j: int| 0 <= j < k + 1 && sorted[j] == #[trigger] active[q];
            } else {
                assert(sorted[k] == active2[i]);
            }
        }
        assert forall|ee: int| 0 <= ee < alloc2.len() implies exists|j: int| 0 <= j < k + 1 && sorted[j] == #[trigger] alloc2[ee].0 by {
            if ee == alloc.len() {
                assert(sorted[k] == alloc2[ee].0);
            } else {
                assert(alloc2[ee] == alloc[ee]);
                let j = choose|j: int| 0 <= j < k + 1 && sorted[j] == #[trigger] alloc[ee].0;
            }
        }
    }
}


proof fn lemma_expire_spilled(st: ScanState, spilled: Seq<LiveInterval>, start: usize)
    ensures
        expire_spec((ScanState { spilled, ..st }), start) == (ScanState { spilled, ..expire_spec(st, start) }),
    decreases st.active.len(),
{
    if st.active.len() > 0 && st.active[0].end < start {
        let a = st.active[0];
        let t = a.register.register_type;
        let freed = with_free(st, t, insert_number(free_of(st, t), allocated_register(st.allocated, a)));
        lemma_expire_spilled(ScanState { active: st.active.skip(1), ..freed }, spilled, start);
    }
}

fn count_active_of_type(active: &Vec<LiveInterval>, register_type: VirtualRegisterType) -> (r: usize)
    ensures
        r == count_of_type(active@, register_type),
{
    let mut count: usize = 0;
    let n = active.len();
    let mut i: usize = n;
    assert(active@.skip(i as int) =~= Seq::<LiveInterval>::empty());
    while i > 0
        invariant
            i <= active@.len(),
            n == active@.len(),
            count == count_of_type(active@.skip(i as int), register_type),
            count <= n - i,
        decreases i,
    {
        i = i - 1;
        assert(active@.skip(i as int).skip(1) =~= active@.skip(i + 1));
        assert(active@.skip(i as int)[0] == active@[i as int]);
        if active[i].register.register_type == register_type {
            count = count + 1;
        }
    }
    assert(active@.skip(0) =~= active@);
    count
}

proof fn lemma_sorted_intervals(intervals: Seq<LiveInterval>, settings: Settings)
    requires
        distinct_registers(intervals),
        forall|i: int| 0 <= i < intervals.len() ==> max_of(settings, (#[trigger] intervals[i]).register.register_type) >= 1,
    ensures
        sorted_by_start(intervals).len() == intervals.len(),
        distinct_registers(sorted_by_start(intervals)),
        forall|i: int|
            0 <= i < sorted_by_start(intervals).len() ==> max_of(settings, (#[trigger] sorted_by_start(intervals)[i]).register.register_type)
                >= 1,
{
    let n = intervals.len() as int;
    lemma_order_by_start(intervals, n);
    let order = order_by_start(intervals, n);
    let sorted = sorted_by_start(intervals);
    assert forall|a: int, b: int| 0 <= a < b < sorted.len() implies #[trigger] sorted[a].register != #[trigger] sorted[b].register by {
        assert(sorted[a] == intervals[order[a]]);
        assert(sorted[b] == intervals[order[b]]);
        assert(order[a] != order[b]);
        if order[a] < order[b] {
            assert(intervals[order[a]].register != intervals[order[b]].register);
        } else {
            assert(intervals[order[b]].register != intervals[order[a]].register);
        }
    }
    assert forall|i: int| 0 <= i < sorted.len() implies max_of(settings, (#[trigger] sorted[i]).register.register_type) >= 1 by {
        assert(sorted[i] == intervals[order[i]]);
    }
}

/// Allocates hardware registers to the live intervals by linear scan.
/// The intervals are for distinct registers, and each register file that
/// an interval needs has at least one register.
pub fn allocate(live_intervals: &Vec<LiveInterval>, settings: &Settings) -> (r: RegisterAllocation)
    requires
        settings.num_int_registers <= u32::MAX,
        settings.num_float_registers <= u32::MAX,
        distinct_registers(live_intervals@),
        forall|i: int|
            0 <= i < live_intervals@.len() ==> max_of(*settings, (#[trigger] live_intervals@[i]).register.register_type) >= 1,
    ensures
        r.wf(),
        r.entries() == allocate_spec(live_intervals@, *settings),
        r.entries().len() == live_intervals@.len(),
        forall|j: int|
            0 <= j < live_intervals@.len() ==> exists|i: int|
                0 <= i < r.entries().len() && r.entries()[i].0 == (#[trigger] live_intervals@[j]).register
                    && interval_of(r.entries()[i].1) == live_intervals@[j],
{
    let ghost s = *settings;
    let sorted = sort_by_start(live_intervals);
    proof {
        lemma_sorted_intervals(live_intervals@, s);
        lemma_initial_inv(s, sorted@);
    }
    let mut allocated_registers: Vec<(LiveInterval, u32)> = Vec::new();
    let mut spilled_registers: Vec<LiveInterval> = Vec::new();
    let mut active: Vec<LiveInterval> = Vec::new();
    let mut free_registers = FreeRegisters::new(settings);
    let mut k: usize = 0;
    while k < sorted.len()
        invariant
            k <= sorted@.len(),
            s == *settings,
            distinct_registers(sorted@),
            forall|i: int| 0 <= i < sorted@.len() ==> max_of(s, (#[trigger] sorted@[i]).register.register_type) >= 1,
            free_state(free_registers, allocated_registers@, spilled_registers@, active@) == scan_spec(sorted@, s, k as int),
            scan_inv(scan_spec(sorted@, s, k as int), s, sorted@, k as int),
            free_registers.max(VirtualRegisterType::Int) == s.num_int_registers,
            free_registers.max(VirtualRegisterType::Float) == s.num_float_registers,
        decreases sorted@.len() - k,
    {
        let interval = sorted[k];
        let ghost st = scan_spec(sorted@, s, k as int);
        proof {
            lemma_step_inv(st, s, sorted@, k as int);
            lemma_expire_inv(st, s, sorted@, k as int, interval.start);
            lemma_expire_spilled(free_state(free_registers, allocated_registers@, Seq::empty(), active@), spilled_registers@, interval.start);
            lemma_expire_keeps(free_state(free_registers, allocated_registers@, Seq::empty(), active@), interval.start);
            assert(free_state(free_registers, allocated_registers@, spilled_registers@, active@) == ScanState {
                spilled: spilled_registers@,
                ..free_state(free_registers, allocated_registers@, Seq::empty(), active@)
            });
        }
        expire_old_intervals(&allocated_registers, &mut active, &mut free_registers, &interval);
        let ghost st1 = expire_spec(st, interval.start);
        assert(free_state(free_registers, allocated_registers@, spilled_registers@, active@) == st1);
        proof {
            lemma_step_possible(st1, s, sorted@, k as int);
        }
        let register_type = interval.register.register_type;
        let active_of_same_type = count_active_of_type(&active, register_type);
        if active_of_same_type == free_registers.max_for_type(&register_type) {
            split_at_interval(&mut allocated_registers, &mut spilled_registers, &mut active, &interval);
        } else {
            let free_register = free_registers.get_free_register(&register_type);
            insert_allocated(&mut allocated_registers, interval, free_register);
            insert_active_exec(&mut active, interval);
        }
        proof {
            let st2 = scan_step(st, interval, s);
            assert(scan_spec(sorted@, s, k + 1) == st2);
            match register_type {
                VirtualRegisterType::Int => {},
                VirtualRegisterType::Float => {},
            }
            assert(free_state(free_registers, allocated_registers@, spilled_registers@, active@) == st2);
        }
        k = k + 1;
    }
    let r = RegisterAllocation::new(allocated_registers, spilled_registers);
    proof {
        let e = allocate_spec(live_intervals@, s);
        assert(e.len() == live_intervals@.len()) by {
            lemma_allocation_one_entry_per_interval(live_intervals@, s);
        }
        assert(forall|j: int|
            0 <= j < live_intervals@.len() ==> exists|i: int|
                0 <= i < e.len() && e[i].0 == (#[trigger] live_intervals@[j]).register && interval_of(e[i].1)
                    == live_intervals@[j]) by {
            lemma_allocation_covers(live_intervals@, s);
        }
    }
    r
}

proof fn lemma_scan_from(sorted: Seq<LiveInterval>, settings: Settings, k: int)
    requires
        0 <= k <= sorted.len(),
    ensures
        forall|e: int|
            0 <= e < scan_spec(sorted, settings, k).allocated.len() ==> exists|j: int|
                0 <= j < k && sorted[j] == (#[trigger] scan_spec(sorted, settings, k).allocated[e]).0,
    decreases k,
{
    if k > 0 {
        lemma_scan_from(sorted, settings, k - 1);
        let st = scan_spec(sorted, settings, k - 1);
        let x = sorted[k - 1];
        lemma_expire_keeps(st, x.start);
        let st1 = expire_spec(st, x.start);
        let a1 = st1.allocated;
        assert forall|e: int| 0 <= e < a1.len() implies exists|j: int| 0 <= j < k && sorted[j] == (#[trigger] a1[e]).0 by {
            let j = choose|j: int| 0 <= j < k - 1 && sorted[j] == st.allocated[e].0;
            assert(0 <= j < k && sorted[j] == a1[e].0);
        }
        let next = scan_spec(sorted, settings, k).allocated;
        assert forall|e: int| 0 <= e < next.len() implies exists|j: int| 0 <= j < k && sorted[j] == (#[trigger] next[e]).0 by {
            lemma_allocated_index(a1, x, a1.len() as int);
            let t = x.register.register_type;
            if count_of_type(st1.active, t) == max_of(settings, t) {
                let q = last_of_type(st1.active, t, st1.active.len() as int)->0;
                let spill = st1.active[q];
                if spill.end > x.end {
                    let inserted = allocated_insert(a1, x, allocated_register(a1, spill));
                    lemma_allocated_index(inserted, spill, inserted.len() as int);
                    assert forall|f: int| 0 <= f < inserted.len() implies exists|j: int| 0 <= j < k && sorted[j] == (#[trigger] inserted[f]).0 by {
                        if inserted[f].0 == x {
                            assert(sorted[k - 1] == inserted[f].0);
                        } else {
                            assert(inserted[f] == a1[f]);
                        }
                    }
                    match find_allocated(inserted, spill) {
                        Some(r) => {
                            if e < r {
                                assert(next[e] == inserted[e]);
                            } else {
                                assert(next[e] == inserted[e + 1]);
                            }
                        },
                        None => {},
                    }
                } else {
                    match find_allocated(a1, x) {
                        Some(r) => {
                            if e < r {
                                assert(next[e] == a1[e]);
                            } else {
                                assert(next[e] == a1[e + 1]);
                            }
                        },
                        None => {},
                    }
                }
            } else {
                let free = free_of(st1, t);
                let inserted = allocated_insert(a1, x, free[0]);
                assert(next == inserted);
                if inserted[e].0 == x {
                    assert(sorted[k - 1] == next[e].0);
                } else {
                    assert(inserted[e] == a1[e]);
                }
            }
        }
    }
}

proof fn lemma_entries_from(allocated: Seq<(LiveInterval, u32)>, spilled: Seq<LiveInterval>)
    ensures
        forall|i: int|
            0 <= i < allocation_entries(allocated, spilled).len() ==> (exists|e: int|
                0 <= e < allocated.len() && (#[trigger] allocation_entries(allocated, spilled)[i]).0 == allocated[e].0.register)
                || (exists|q: int| 0 <= q < spilled.len() && allocation_entries(allocated, spilled)[i].0 == spilled[q].register),
{
    lemma_allocated_entries_from(allocated, allocated.len() as int);
    lemma_spilled_entries_from(allocated, spilled, spilled.len() as int);
}

proof fn lemma_allocated_entries_from(allocated: Seq<(LiveInterval, u32)>, n: int)
    requires
        0 <= n <= allocated.len(),
    ensures
        forall|i: int|
            0 <= i < allocated_entries(allocated, n).len() ==> exists|e: int|
                0 <= e < n && (#[trigger] allocated_entries(allocated, n)[i]).0 == allocated[e].0.register,
    decreases n,
{
    if n > 0 {
        lemma_allocated_entries_from(allocated, n - 1);
        let prior = allocated_entries(allocated, n - 1);
        let register = allocated[n - 1].0.register;
        let now = allocated_entries(allocated, n);
        lemma_entry_index(prior, register, prior.len() as int);
        assert forall|i: int| 0 <= i < now.len() implies exists|e: int| 0 <= e < n && (#[trigger] now[i]).0 == allocated[e].0.register by {
            if now[i].0 == register {
                assert(now[i].0 == allocated[n - 1].0.register);
            } else {
                assert(now[i] == prior[i]);
                let e = choose|e: int| 0 <= e < n - 1 && prior[i].0 == allocated[e].0.register;
                assert(0 <= e < n && now[i].0 == allocated[e].0.register);
            }
        }
    }
}

proof fn lemma_spilled_entries_from(allocated: Seq<(LiveInterval, u32)>, spilled: Seq<LiveInterval>, n: int)
    requires
        0 <= n <= spilled.len(),
    ensures
        forall|i: int|
            0 <= i < spilled_entries(allocated_entries(allocated, allocated.len() as int), spilled, n).len() ==> (exists|e: int|
                0 <= e < allocated.len() && (#[trigger] spilled_entries(
                    allocated_entries(allocated, allocated.len() as int),
                    spilled,
                    n,
                )[i]).0 == allocated[e].0.register) || (exists|q: int|
                0 <= q < n && spilled_entries(allocated_entries(allocated, allocated.len() as int), spilled, n)[i].0
                    == spilled[q].register),
    decreases n,
{
    let base = allocated_entries(allocated, allocated.len() as int);
    if n == 0 {
        lemma_allocated_entries_from(allocated, allocated.len() as int);
    } else {
        lemma_spilled_entries_from(allocated, spilled, n - 1);
        let prior = spilled_entries(base, spilled, n - 1);
        let register = spilled[n - 1].register;
        let now = spilled_entries(base, spilled, n);
        lemma_entry_index(prior, register, prior.len() as int);
        assert forall|i: int| 0 <= i < now.len() implies (exists|e: int|
            0 <= e < allocated.len() && (#[trigger] now[i]).0 == allocated[e].0.register) || (exists|q: int|
            0 <= q < n && now[i].0 == spilled[q].register) by {
            if now[i].0 == register {
                assert(0 <= n - 1 < n && now[i].0 == spilled[n - 1].register);
            } else {
                assert(now[i] == prior[i]);
                if exists|q: int| 0 <= q < n - 1 && prior[i].0 == spilled[q].register {
                    let q = choose|q: int| 0 <= q < n - 1 && prior[i].0 == spilled[q].register;
                    assert(0 <= q < n && now[i].0 == spilled[q].register);
                }
            }
        }
    }
}

proof fn lemma_entries_from_intervals(intervals: Seq<LiveInterval>, settings: Settings)
    requires
        settings.num_int_registers <= u32::MAX,
        settings.num_float_registers <= u32::MAX,
        distinct_registers(intervals),
        forall|i: int| 0 <= i < intervals.len() ==> max_of(settings, (#[trigger] intervals[i]).register.register_type) >= 1,
    ensures
        forall|i: int|
            0 <= i < allocate_spec(intervals, settings).len() ==> exists|j: int|
                0 <= j < intervals.len() && (#[trigger] allocate_spec(intervals, settings)[i]).0 == intervals[j].register,
{
    let n = intervals.len() as int;
    let sorted = sorted_by_start(intervals);
    let order = order_by_start(intervals, n);
    lemma_order_by_start(intervals, n);
    lemma_sorted_intervals(intervals, settings);
    assert forall|a: int, b: int| 0 <= a < b < sorted.len() implies (#[trigger] sorted[a]).start <= (#[trigger] sorted[b]).start by {
        assert(sorted[a] == intervals[order[a]]);
        assert(sorted[b] == intervals[order[b]]);
    }
    let st = scan_spec(sorted, settings, sorted.len() as int);
    let entries = allocate_spec(intervals, settings);
    lemma_scan_from(sorted, settings, sorted.len() as int);
    lemma_scan_covers(sorted, settings, sorted.len() as int);
    lemma_entries_from(st.allocated, st.spilled);
    assert forall|i: int| 0 <= i < entries.len() implies exists|j: int| 0 <= j < n && (#[trigger] entries[i]).0 == intervals[j].register by {
        if exists|e: int| 0 <= e < st.allocated.len() && entries[i].0 == st.allocated[e].0.register {
            let e = choose|e: int| 0 <= e < st.allocated.len() && entries[i].0 == st.allocated[e].0.register;
            let j = choose|j: int| 0 <= j < sorted.len() && sorted[j] == st.allocated[e].0;
            assert(sorted[j] == intervals[order[j]]);
        } else {
            let q = choose|q: int| 0 <= q < st.spilled.len() && entries[i].0 == st.spilled[q].register;
            let j = choose|j: int| 0 <= j < sorted.len() && sorted[j] == st.spilled[q];
            assert(sorted[j] == intervals[order[j]]);
        }
    }
}

proof fn lemma_matched_sequences_same_length(
    es: Seq<VirtualRegister>,
    rs: Seq<VirtualRegister>,
    f: spec_fn(int) -> int,
    g: spec_fn(int) -> int,
)
    requires
        es.no_duplicates(),
        rs.no_duplicates(),
        forall|i: int| 0 <= i < es.len() ==> 0 <= #[trigger] f(i) < rs.len() && es[i] == rs[f(i)],
        forall|j: int| 0 <= j < rs.len() ==> 0 <= #[trigger] g(j) < es.len() && rs[j] == es[g(j)],
    ensures
        es.len() == rs.len(),
{
    assert(es.to_set() =~= rs.to_set()) by {
        assert forall|x: VirtualRegister| es.to_set().contains(x) implies rs.to_set().contains(x) by {
            let i = choose|i: int| 0 <= i < es.len() && es[i] == x;
            assert(0 <= f(i) < rs.len());
            assert(rs.contains(x));
        }
        assert forall|x: VirtualRegister| rs.to_set().contains(x) implies es.to_set().contains(x) by {
            let j = choose|j: int| 0 <= j < rs.len() && rs[j] == x;
            assert(0 <= g(j) < es.len());
            assert(es.contains(x));
        }
    }
    es.unique_seq_to_set();
    rs.unique_seq_to_set();
}

/// The allocation has exactly one entry per live interval, for the
/// interval's register.
pub proof fn lemma_allocation_one_entry_per_interval(intervals: Seq<LiveInterval>, settings: Settings)
    requires
        settings.num_int_registers <= u32::MAX,
        settings.num_float_registers <= u32::MAX,
        distinct_registers(intervals),
        forall|i: int| 0 <= i < intervals.len() ==> max_of(settings, (#[trigger] intervals[i]).register.register_type) >= 1,
    ensures
        allocate_spec(intervals, settings).len() == intervals.len(),
        forall|i: int|
            0 <= i < allocate_spec(intervals, settings).len() ==> exists|j: int|
                0 <= j < intervals.len() && (#[trigger] allocate_spec(intervals, settings)[i]).0 == intervals[j].register,
{
    let n = intervals.len() as int;
    let entries = allocate_spec(intervals, settings);
    let es = entries.map_values(|e: (VirtualRegister, AllocatedRegister)| e.0);
    let rs = intervals.map_values(|x: LiveInterval| x.register);
    let f = |i: int| choose|j: int| 0 <= j < n && entries[i].0 == intervals[j].register;
    let g = |j: int| choose|i: int| 0 <= i < entries.len() && entries[i].0 == intervals[j].register;
    assert forall|i: int| 0 <= i < es.len() implies 0 <= #[trigger] f(i) < rs.len() && es[i] == rs[f(i)] by {
        lemma_entries_from_intervals(intervals, settings);
        assert(entries[i] == entries[i]);
    }
    assert forall|j: int| 0 <= j < rs.len() implies 0 <= #[trigger] g(j) < es.len() && rs[j] == es[g(j)] by {
        lemma_allocation_covers(intervals, settings);
        assert(intervals[j] == intervals[j]);
    }
    assert(es.no_duplicates()) by {
        let sorted = sorted_by_start(intervals);
        let st = scan_spec(sorted, settings, sorted.len() as int);
        lemma_allocated_entries(st.allocated, st.allocated.len() as int);
        lemma_spilled_entries(allocated_entries(st.allocated, st.allocated.len() as int), st.spilled, st.spilled.len() as int);
        assert forall|a: int, b: int| 0 <= a < es.len() && 0 <= b < es.len() && a != b implies es[a] != es[b] by {
            if a < b {
                assert(entries[a].0 != entries[b].0);
            } else {
                assert(entries[b].0 != entries[a].0);
            }
        }
    }
    assert(rs.no_duplicates()) by {
        assert forall|a: int, b: int| 0 <= a < rs.len() && 0 <= b < rs.len() && a != b implies rs[a] != rs[b] by {
            if a < b {
                assert(intervals[a].register != intervals[b].register);
            } else {
                assert(intervals[b].register != intervals[a].register);
            }
        }
    }
    lemma_matched_sequences_same_length(es, rs, f, g);
    assert forall|i: int| 0 <= i < entries.len() implies exists|j: int| 0 <= j < n && (#[trigger] entries[i]).0 == intervals[j].register by {
        assert(0 <= f(i) < rs.len() && es[i] == rs[f(i)]);
        assert(entries[i].0 == intervals[f(i)].register);
    }
}

/// The live ranges of two intervals have no instruction in common.
pub open spec fn disjoint(a: LiveInterval, b: LiveInterval) -> bool {
    a.end < b.start || b.end < a.start
}

/// The allocation of the scan so far is sound: each register number is
/// within its file, two intervals with the same register of the same file
/// do not overlap, and every allocated interval that is no longer active
/// ends before `current`.
pub open spec fn scan_sound(st: ScanState, settings: Settings, current: int) -> bool {
    let alloc = st.allocated;
    &&& forall|e: int| 0 <= e < alloc.len() ==> (#[trigger] alloc[e]).1 < max_of(settings, alloc[e].0.register.register_type)
    &&& forall|e1: int, e2: int|
        0 <= e1 < alloc.len() && 0 <= e2 < alloc.len() && e1 != e2 && (#[trigger] alloc[e1]).0.register.register_type == (
        #[trigger] alloc[e2]).0.register.register_type && alloc[e1].1 == alloc[e2].1 ==> disjoint(alloc[e1].0, alloc[e2].0)
    &&& forall|e: int| 0 <= e < alloc.len() ==> st.active.contains((#[trigger] alloc[e]).0) || alloc[e].0.end < current
}

proof fn lemma_expire_sound(st: ScanState, settings: Settings, current: int, start: usize)
    requires
        scan_sound(st, settings, current),
        current <= start,
    ensures
        scan_sound(expire_spec(st, start), settings, start as int),
        expire_spec(st, start).allocated == st.allocated,
    decreases st.active.len(),
{
    if st.active.len() > 0 && st.active[0].end < start {
        let active = st.active;
        let a = active[0];
        let t = a.register.register_type;
        let freed = with_free(st, t, insert_number(free_of(st, t), allocated_register(st.allocated, a)));
        let rest = active.skip(1);
        let st2 = ScanState { active: rest, ..freed };
        assert(st2.allocated == st.allocated);
        assert forall|e: int| 0 <= e < st2.allocated.len() implies rest.contains((#[trigger] st2.allocated[e]).0)
            || st2.allocated[e].0.end < start by {
            let y = st.allocated[e].0;
            if active.contains(y) && y != a {
                let q = choose|q: int| 0 <= q < active.len() && active[q] == y;
                assert(q != 0);
                assert(rest[q - 1] == y);
            }
        }
        lemma_expire_sound(st2, settings, start as int, start);
    } else {
        assert forall|e: int| 0 <= e < st.allocated.len() implies st.active.contains((#[trigger] st.allocated[e]).0)
            || st.allocated[e].0.end < start by {}
    }
}

proof fn lemma_step_sound(st: ScanState, settings: Settings, sorted: Seq<LiveInterval>, k: int, current: int)
    requires
        scan_inv(st, settings, sorted, k),
        scan_sound(st, settings, current),
        distinct_registers(sorted),
        0 <= k < sorted.len(),
        current <= sorted[k].start,
        max_of(settings, sorted[k].register.register_type) >= 1,
    ensures
        scan_sound(scan_step(st, sorted[k], settings), settings, sorted[k].start as int),
{
    let x = sorted[k];
    let t = x.register.register_type;
    let st1 = expire_spec(st, x.start);
    lemma_expire_inv(st, settings, sorted, k, x.start);
    lemma_expire_sound(st, settings, current, x.start);
    lemma_not_scanned(st1, settings, sorted, k);
    lemma_step_possible(st1, settings, sorted, k);
    let active = st1.active;
    let alloc = st1.allocated;
    let r = scan_step(st, x, settings);
    if count_of_type(active, t) == max_of(settings, t) {
        let kk = last_of_type(active, t, active.len() as int)->0;
        lemma_last_of_type(active, t, active.len() as int);
        let spill = active[kk];
        if spill.end > x.end {
            let v = allocated_register(alloc, spill);
            assert(find_allocated(alloc, spill) is Some);
            lemma_push_new_key(alloc, x, v);
            let pushed = alloc.push((x, v));
            lemma_allocated_index(alloc, spill, alloc.len() as int);
            let es = find_allocated(alloc, spill)->0;
            assert(find_allocated(pushed, spill) == Some(es));
            lemma_remove_key(pushed, es);
            let alloc2 = pushed.remove(es);
            assert(allocated_insert(alloc, x, v) == pushed);
            assert(allocated_remove(pushed, spill) == alloc2);
            let removed = active.remove(kk);
            lemma_remove_props(active, kk);
            assert(!removed.contains(x));
            lemma_insert_active_props(removed, x);
            let active2 = insert_active(removed, x);
            assert(r.active == active2);
            assert(r.allocated == alloc2);
            assert(v < max_of(settings, t)) by {
                assert(active.contains(spill));
            }
            // an old interval with the register of the spilled one is not active, so it ended before x
            assert forall|o: int|
                0 <= o < alloc.len() && o != es && (#[trigger] alloc[o]).0.register.register_type == t && alloc[o].1 == v implies alloc[o].0.end
                < x.start by {
                let y = alloc[o].0;
                lemma_find_distinct(alloc, y, o);
                if active.contains(y) {
                    let q = choose|q: int| 0 <= q < active.len() && active[q] == y;
                    assert(allocated_register(alloc, y) == alloc[o].1);
                    assert(y != spill) by {
                        lemma_find_distinct(alloc, spill, es);
                    }
                    assert(q != kk);
                    assert(allocated_register(alloc, active[q]) != allocated_register(alloc, active[kk]));
                }
            }
            let src = |i: int| if i < es { i } else { i + 1 };
            assert forall|i: int| 0 <= i < alloc2.len() implies (#[trigger] alloc2[i]) == pushed[src(i)] by {}
            assert forall|e: int| 0 <= e < alloc2.len() implies (#[trigger] alloc2[e]).1 < max_of(settings, alloc2[e].0.register.register_type) by {
                if src(e) < alloc.len() {
                    assert(alloc2[e] == alloc[src(e)]);
                }
            }
            assert forall|e1: int, e2: int|
                0 <= e1 < alloc2.len() && 0 <= e2 < alloc2.len() && e1 != e2 && (#[trigger] alloc2[e1]).0.register.register_type == (
                #[trigger] alloc2[e2]).0.register.register_type && alloc2[e1].1 == alloc2[e2].1 implies disjoint(alloc2[e1].0, alloc2[e2].0) by {
                let i1 = src(e1);
                let i2 = src(e2);
                assert(i1 != i2);
                assert(i1 != es && i2 != es);
                if i1 < alloc.len() && i2 < alloc.len() {
                    assert(alloc2[e1] == alloc[i1] && alloc2[e2] == alloc[i2]);
                } else if i1 == alloc.len() {
                    assert(alloc2[e1] == (x, v));
                    assert(alloc2[e2] == alloc[i2]);
                    assert(alloc[i2].0.end < x.start);
                } else {
                    assert(alloc2[e2] == (x, v));
                    assert(alloc2[e1] == alloc[i1]);
                    assert(alloc[i1].0.end < x.start);
                }
            }
            assert forall|e: int| 0 <= e < alloc2.len() implies active2.contains((#[trigger] alloc2[e]).0) || alloc2[e].0.end < x.start by {
                let i = src(e);
                if i == alloc.len() {
                    assert(alloc2[e].0 == x);
                } else {
                    assert(alloc2[e] == alloc[i]);
                    let y = alloc[i].0;
                    assert(y != spill) by {
                        lemma_find_distinct(alloc, spill, es);
                        assert(i != es);
                        if y == spill {
                            lemma_find_distinct(alloc, y, i);
                        }
                    }
                    if active.contains(y) {
                        assert(removed.contains(y));
                    }
                }
            }
        } else {
            assert(allocated_remove(alloc, x) == alloc);
            assert(r.allocated == alloc);
            assert(r.active == active);
        }
    } else {
        let free = free_of(st1, t);
        let reg = free[0];
        lemma_skip_first(free, max_of(settings, t));
        lemma_push_new_key(alloc, x, reg);
        let alloc2 = alloc.push((x, reg));
        assert(allocated_insert(alloc, x, reg) == alloc2);
        lemma_insert_active_props(active, x);
        let active2 = insert_active(active, x);
        assert(r.active == active2);
        assert(r.allocated == alloc2);
        assert(free.contains(reg)) by {
            assert(free[0] == reg);
        }
        assert(reg < max_of(settings, t));
        assert forall|o: int|
            0 <= o < alloc.len() && (#[trigger] alloc[o]).0.register.register_type == t && alloc[o].1 == reg implies alloc[o].0.end < x.start by {
            let y = alloc[o].0;
            lemma_find_distinct(alloc, y, o);
            if active.contains(y) {
                let q = choose|q: int| 0 <= q < active.len() && active[q] == y;
                assert(!free_of(st1, active[q].register.register_type).contains(allocated_register(alloc, active[q])));
            }
        }
        assert forall|e1: int, e2: int|
            0 <= e1 < alloc2.len() && 0 <= e2 < alloc2.len() && e1 != e2 && (#[trigger] alloc2[e1]).0.register.register_type == (
            #[trigger] alloc2[e2]).0.register.register_type && alloc2[e1].1 == alloc2[e2].1 implies disjoint(alloc2[e1].0, alloc2[e2].0) by {
            if e1 < alloc.len() && e2 < alloc.len() {
                assert(alloc2[e1] == alloc[e1] && alloc2[e2] == alloc[e2]);
            } else if e1 == alloc.len() {
                assert(alloc2[e2] == alloc[e2]);
                assert(alloc[e2].0.end < x.start);
            } else {
                assert(alloc2[e1] == alloc[e1]);
                assert(alloc[e1].0.end < x.start);
            }
        }
        assert forall|e: int| 0 <= e < alloc2.len() implies active2.contains((#[trigger] alloc2[e]).0) || alloc2[e].0.end < x.start by {
            if e < alloc.len() {
                assert(alloc2[e] == alloc[e]);
            }
        }
    }
}

/// The state after each number of scanned intervals is consistent and sound.
proof fn lemma_scan_sound(sorted: Seq<LiveInterval>, settings: Settings, k: int)
    requires
        settings.num_int_registers <= u32::MAX,
        settings.num_float_registers <= u32::MAX,
        distinct_registers(sorted),
        forall|i: int| 0 <= i < sorted.len() ==> max_of(settings, (#[trigger] sorted[i]).register.register_type) >= 1,
        forall|a: int, b: int| 0 <= a < b < sorted.len() ==> (#[trigger] sorted[a]).start <= (#[trigger] sorted[b]).start,
        0 <= k <= sorted.len(),
    ensures
        scan_inv(scan_spec(sorted, settings, k), settings, sorted, k),
        scan_sound(scan_spec(sorted, settings, k), settings, if k == 0 { 0 } else { sorted[k - 1].start as int }),
    decreases k,
{
    if k == 0 {
        lemma_initial_inv(settings, sorted);
    } else {
        lemma_scan_sound(sorted, settings, k - 1);
        let st = scan_spec(sorted, settings, k - 1);
        let current = if k - 1 == 0 { 0 } else { sorted[k - 2].start as int };
        if k - 1 > 0 {
            assert(sorted[k - 2].start <= sorted[k - 1].start);
        }
        assert(max_of(settings, sorted[k - 1].register.register_type) >= 1);
        lemma_step_inv(st, settings, sorted, k - 1);
        lemma_step_sound(st, settings, sorted, k - 1, current);
    }
}

/// Each entry built from allocated intervals puts the interval's register in
/// the hardware register that its number gives in its file.
proof fn lemma_allocated_entries(allocated: Seq<(LiveInterval, u32)>, n: int)
    requires
        0 <= n <= allocated.len(),
    ensures
        distinct_entries(allocated_entries(allocated, n)),
        forall|i: int|
            0 <= i < allocated_entries(allocated, n).len() ==> exists|e: int|
                0 <= e < n && (#[trigger] allocated_entries(allocated, n)[i]) == (
                    allocated[e].0.register,
                    AllocatedRegister::Hardware {
                        register: hardware_register_for(allocated[e].0.register.register_type, allocated[e].1),
                        live_interval: allocated[e].0,
                    },
                ),
    decreases n,
{
    if n > 0 {
        lemma_allocated_entries(allocated, n - 1);
        let prior = allocated_entries(allocated, n - 1);
        let (interval, number) = allocated[n - 1];
        let value = AllocatedRegister::Hardware {
            register: hardware_register_for(interval.register.register_type, number),
            live_interval: interval,
        };
        lemma_insert_entry_distinct(prior, interval.register, value);
        lemma_entry_index(prior, interval.register, prior.len() as int);
        let r = allocated_entries(allocated, n);
        assert forall|i: int| 0 <= i < r.len() implies exists|e: int|
            0 <= e < n && (#[trigger] r[i]) == (
                allocated[e].0.register,
                AllocatedRegister::Hardware {
                    register: hardware_register_for(allocated[e].0.register.register_type, allocated[e].1),
                    live_interval: allocated[e].0,
                },
            ) by {
            if r[i] == (interval.register, value) {
                assert(allocated[n - 1] == (interval, number));
            } else {
                assert(i < prior.len() && r[i] == prior[i]);
            }
        }
    }
}

/// Recording spilled intervals keeps other entries as they were and adds stack slots.
proof fn lemma_spilled_entries(entries: Seq<(VirtualRegister, AllocatedRegister)>, spilled: Seq<LiveInterval>, n: int)
    requires
        0 <= n <= spilled.len(),
        distinct_entries(entries),
    ensures
        distinct_entries(spilled_entries(entries, spilled, n)),
        forall|i: int|
            0 <= i < spilled_entries(entries, spilled, n).len() ==> (#[trigger] spilled_entries(entries, spilled, n)[i]).1 is Stack
                || exists|j: int| 0 <= j < entries.len() && spilled_entries(entries, spilled, n)[i] == entries[j],
    decreases n,
{
    if n > 0 {
        lemma_spilled_entries(entries, spilled, n - 1);
        let prior = spilled_entries(entries, spilled, n - 1);
        let interval = spilled[n - 1];
        let value = AllocatedRegister::Stack { live_interval: interval };
        lemma_insert_entry_distinct(prior, interval.register, value);
        lemma_entry_index(prior, interval.register, prior.len() as int);
        let r = spilled_entries(entries, spilled, n);
        assert forall|i: int| 0 <= i < r.len() implies (#[trigger] r[i]).1 is Stack || exists|j: int| 0 <= j < entries.len() && r[i] == entries[j] by {
            if r[i] != (interval.register, value) {
                assert(i < prior.len() && r[i] == prior[i]);
            }
        }
    }
}

/// Linear scan never gives one hardware register to two registers whose
/// live intervals share an instruction, and each hardware register it
/// gives belongs to the register's file and is numbered below the size of
/// that file.
pub proof fn lemma_allocation_sound(intervals: Seq<LiveInterval>, settings: Settings)
    requires
        settings.num_int_registers <= u32::MAX,
        settings.num_float_registers <= u32::MAX,
        distinct_registers(intervals),
        forall|i: int| 0 <= i < intervals.len() ==> max_of(settings, (#[trigger] intervals[i]).register.register_type) >= 1,
    ensures
        ({
            let entries = allocate_spec(intervals, settings);
            &&& forall|i: int, j: int|
                0 <= i < entries.len() && 0 <= j < entries.len() && i != j && (#[trigger] entries[i]).1 is Hardware
                    && (#[trigger] entries[j]).1 is Hardware && hardware_register_of(entries[i].1) == hardware_register_of(
                    entries[j].1,
                ) ==> disjoint(interval_of(entries[i].1), interval_of(entries[j].1))
            &&& forall|i: int|
                0 <= i < entries.len() && (#[trigger] entries[i]).1 is Hardware ==> {
                    &&& interval_of(entries[i].1).register == entries[i].0
                    &&& exists|n: u32|
                        n < max_of(settings, entries[i].0.register_type) && hardware_register_of(entries[i].1) == Some(
                            hardware_register_for(entries[i].0.register_type, n),
                        )
                }
        }),
{
    let sorted = sorted_by_start(intervals);
    lemma_sorted_intervals(intervals, settings);
    let n = intervals.len() as int;
    lemma_order_by_start(intervals, n);
    let order = order_by_start(intervals, n);
    assert forall|a: int, b: int| 0 <= a < b < sorted.len() implies (#[trigger] sorted[a]).start <= (#[trigger] sorted[b]).start by {
        assert(sorted[a] == intervals[order[a]]);
        assert(sorted[b] == intervals[order[b]]);
    }
    lemma_scan_sound(sorted, settings, sorted.len() as int);
    let st = scan_spec(sorted, settings, sorted.len() as int);
    let alloc = st.allocated;
    let base = allocated_entries(alloc, alloc.len() as int);
    lemma_allocated_entries(alloc, alloc.len() as int);
    lemma_spilled_entries(base, st.spilled, st.spilled.len() as int);
    let entries = allocate_spec(intervals, settings);
    assert(entries == spilled_entries(base, st.spilled, st.spilled.len() as int));
    assert forall|i: int| 0 <= i < entries.len() && (#[trigger] entries[i]).1 is Hardware implies exists|e: int|
        0 <= e < alloc.len() && entries[i] == (
            alloc[e].0.register,
            AllocatedRegister::Hardware {
                register: hardware_register_for(alloc[e].0.register.register_type, alloc[e].1),
                live_interval: alloc[e].0,
            },
        ) by {
        let j = choose|j: int| 0 <= j < base.len() && entries[i] == base[j];
        assert(base[j] == entries[i]);
    }
    assert forall|i: int, j: int|
        0 <= i < entries.len() && 0 <= j < entries.len() && i != j && (#[trigger] entries[i]).1 is Hardware
            && (#[trigger] entries[j]).1 is Hardware && hardware_register_of(entries[i].1) == hardware_register_of(entries[j].1)
        implies disjoint(interval_of(entries[i].1), interval_of(entries[j].1)) by {
        let e1 = choose|e: int|
            0 <= e < alloc.len() && entries[i] == (
                alloc[e].0.register,
                AllocatedRegister::Hardware {
                    register: hardware_register_for(alloc[e].0.register.register_type, alloc[e].1),
                    live_interval: alloc[e].0,
                },
            );
        let e2 = choose|e: int|
            0 <= e < alloc.len() && entries[j] == (
                alloc[e].0.register,
                AllocatedRegister::Hardware {
                    register: hardware_register_for(alloc[e].0.register.register_type, alloc[e].1),
                    live_interval: alloc[e].0,
                },
            );
        if i < j {
            assert(entries[i].0 != entries[j].0);
        } else {
            assert(entries[j].0 != entries[i].0);
        }
        assert(e1 != e2);
        assert(alloc[e1].0.register.register_type == alloc[e2].0.register.register_type && alloc[e1].1 == alloc[e2].1);
    }
    assert forall|i: int| 0 <= i < entries.len() && (#[trigger] entries[i]).1 is Hardware implies {
        &&& interval_of(entries[i].1).register == entries[i].0
        &&& exists|n: u32|
            n < max_of(settings, entries[i].0.register_type) && hardware_register_of(entries[i].1) == Some(
                hardware_register_for(entries[i].0.register_type, n),
            )
    } by {
        let e = choose|e: int|
            0 <= e < alloc.len() && entries[i] == (
                alloc[e].0.register,
                AllocatedRegister::Hardware {
                    register: hardware_register_for(alloc[e].0.register.register_type, alloc[e].1),
                    live_interval: alloc[e].0,
                },
            );
        assert(alloc[e].1 < max_of(settings, alloc[e].0.register.register_type));
    }
}

/// Every scanned interval is allocated or spilled, never both, and each is
/// spilled at most once.
pub open spec fn scan_covers(st: ScanState, sorted: Seq<LiveInterval>, k: int) -> bool {
    &&& forall|j: int| 0 <= j < k ==> find_allocated(st.allocated, #[trigger] sorted[j]) is Some || st.spilled.contains(sorted[j])
    &&& forall|e: int, q: int| 0 <= e < st.allocated.len() && 0 <= q < st.spilled.len() ==> (#[trigger] st.allocated[e]).0 != #[trigger] st.spilled[q]
    &&& forall|q1: int, q2: int| 0 <= q1 < q2 < st.spilled.len() ==> #[trigger] st.spilled[q1] != #[trigger] st.spilled[q2]
    &&& forall|q: int| 0 <= q < st.spilled.len() ==> exists|j: int| 0 <= j < k && sorted[j] == #[trigger] st.spilled[q]
}

proof fn lemma_expire_same(st: ScanState, start: usize)
    ensures
        expire_spec(st, start).allocated == st.allocated,
        expire_spec(st, start).spilled == st.spilled,
    decreases st.active.len(),
{
    if st.active.len() > 0 && st.active[0].end < start {
        let a = st.active[0];
        let t = a.register.register_type;
        let freed = with_free(st, t, insert_number(free_of(st, t), allocated_register(st.allocated, a)));
        lemma_expire_same(ScanState { active: st.active.skip(1), ..freed }, start);
    }
}

proof fn lemma_step_covers(st: ScanState, settings: Settings, sorted: Seq<LiveInterval>, k: int)
    requires
        scan_inv(st, settings, sorted, k),
        scan_covers(st, sorted, k),
        distinct_registers(sorted),
        0 <= k < sorted.len(),
        max_of(settings, sorted[k].register.register_type) >= 1,
    ensures
        scan_covers(scan_step(st, sorted[k], settings), sorted, k + 1),
{
    let x = sorted[k];
    let t = x.register.register_type;
    let st1 = expire_spec(st, x.start);
    lemma_expire_inv(st, settings, sorted, k, x.start);
    lemma_expire_same(st, x.start);
    lemma_not_scanned(st1, settings, sorted, k);
    lemma_step_possible(st1, settings, sorted, k);
    let active = st1.active;
    let alloc = st1.allocated;
    let spilled = st1.spilled;
    let r = scan_step(st, x, settings);
    assert(!spilled.contains(x)) by {
        if spilled.contains(x) {
            let q = choose|q: int| 0 <= q < spilled.len() && spilled[q] == x;
            let j = choose|j: int| 0 <= j < k && sorted[j] == #[trigger] spilled[q];
            assert(sorted[j].register != sorted[k].register);
        }
    }
    if count_of_type(active, t) == max_of(settings, t) {
        let kk = last_of_type(active, t, active.len() as int)->0;
        lemma_last_of_type(active, t, active.len() as int);
        let spill = active[kk];
        if spill.end > x.end {
            let v = allocated_register(alloc, spill);
            assert(find_allocated(alloc, spill) is Some);
            lemma_push_new_key(alloc, x, v);
            let pushed = alloc.push((x, v));
            lemma_allocated_index(alloc, spill, alloc.len() as int);
            let es = find_allocated(alloc, spill)->0;
            assert(find_allocated(pushed, spill) == Some(es));
            lemma_remove_key(pushed, es);
            let alloc2 = pushed.remove(es);
            assert(allocated_insert(alloc, x, v) == pushed);
            assert(allocated_remove(pushed, spill) == alloc2);
            let spilled2 = spilled.push(spill);
            assert(r.allocated == alloc2);
            assert(r.spilled == spilled2);
            assert(x != spill) by {
                assert(active.contains(spill));
            }
            assert(!spilled.contains(spill)) by {
                if spilled.contains(spill) {
                    let q = choose|q: int| 0 <= q < spilled.len() && spilled[q] == spill;
                    assert(alloc[es].0 != spilled[q]);
                }
            }
            assert forall|j: int| 0 <= j < k + 1 implies find_allocated(alloc2, #[trigger] sorted[j]) is Some || spilled2.contains(sorted[j]) by {
                let y = sorted[j];
                if y == spill {
                    assert(spilled2[spilled.len() as int] == spill);
                } else if y == x {
                    assert(find_allocated(pushed, x) is Some);
                } else if find_allocated(alloc, y) is Some {
                    assert(find_allocated(pushed, y) is Some);
                } else {
                    assert(spilled.contains(y));
                    let q = choose|q: int| 0 <= q < spilled.len() && spilled[q] == y;
                    assert(spilled2[q] == y);
                }
            }
            assert forall|e: int, q: int| 0 <= e < alloc2.len() && 0 <= q < spilled2.len() implies (#[trigger] alloc2[e]).0
                != #[trigger] spilled2[q] by {
                let src = if e < es { e } else { e + 1 };
                assert(alloc2[e] == pushed[src]);
                if src == alloc.len() {
                    assert(alloc2[e].0 == x);
                    if q < spilled.len() {
                        assert(spilled.contains(spilled[q]));
                    }
                } else {
                    assert(pushed[src] == alloc[src]);
                    assert(src != es);
                    if q < spilled.len() {
                        assert(alloc[src].0 != spilled[q]);
                    } else {
                        lemma_find_distinct(alloc, spill, es);
                        if alloc[src].0 == spill {
                            lemma_find_distinct(alloc, alloc[src].0, src);
                        }
                    }
                }
            }
            assert forall|q1: int, q2: int| 0 <= q1 < q2 < spilled2.len() implies #[trigger] spilled2[q1] != #[trigger] spilled2[q2] by {
                if q2 == spilled.len() {
                    assert(spilled.contains(spilled[q1]));
                } else {
                    assert(spilled[q1] != spilled[q2]);
                }
            }
            assert forall|q: int| 0 <= q < spilled2.len() implies exists|j: int| 0 <= j < k + 1 && sorted[j] == #[trigger] spilled2[q] by {
                if q == spilled.len() {
                    let j = choose|j: int| 0 <= j < k && sorted[j] == #[trigger] alloc[es].0;
                    assert(sorted[j] == spilled2[q]);
                } else {
                    let j = choose|j: int| 0 <= j < k && sorted[j] == #[trigger] spilled[q];
                    assert(sorted[j] == spilled2[q]);
                }
            }
        } else {
            assert(allocated_remove(alloc, x) == alloc);
            let spilled2 = spilled.push(x);
            assert(r.allocated == alloc);
            assert(r.spilled == spilled2);
            assert forall|j: int| 0 <= j < k + 1 implies find_allocated(alloc, #[trigger] sorted[j]) is Some || spilled2.contains(sorted[j]) by {
                if j == k {
                    assert(spilled2[spilled.len() as int] == x);
                } else if !(find_allocated(alloc, sorted[j]) is Some) {
                    let q = choose|q: int| 0 <= q < spilled.len() && spilled[q] == sorted[j];
                    assert(spilled2[q] == sorted[j]);
                }
            }
            assert forall|e: int, q: int| 0 <= e < alloc.len() && 0 <= q < spilled2.len() implies (#[trigger] alloc[e]).0
                != #[trigger] spilled2[q] by {
                if q == spilled.len() {
                    if alloc[e].0 == x {
                        lemma_find_distinct(alloc, x, e);
                    }
                }
            }
            assert forall|q1: int, q2: int| 0 <= q1 < q2 < spilled2.len() implies #[trigger] spilled2[q1] != #[trigger] spilled2[q2] by {
                if q2 == spilled.len() {
                    assert(spilled.contains(spilled[q1]));
                } else {
                    assert(spilled[q1] != spilled[q2]);
                }
            }
            assert forall|q: int| 0 <= q < spilled2.len() implies exists|j: int| 0 <= j < k + 1 && sorted[j] == #[trigger] spilled2[q] by {
                if q == spilled.len() {
                    assert(sorted[k] == spilled2[q]);
                } else {
                    let j = choose|j: int| 0 <= j < k && sorted[j] == #[trigger] spilled[q];
                    assert(sorted[j] == spilled2[q]);
                }
            }
        }
    } else {
        let free = free_of(st1, t);
        let reg = free[0];
        lemma_push_new_key(alloc, x, reg);
        let alloc2 = alloc.push((x, reg));
        assert(allocated_insert(alloc, x, reg) == alloc2);
        assert(r.allocated == alloc2);
        assert(r.spilled == spilled);
        assert forall|j: int| 0 <= j < k + 1 implies find_allocated(alloc2, #[trigger] sorted[j]) is Some || spilled.contains(sorted[j]) by {
            if j < k && find_allocated(alloc, sorted[j]) is Some && sorted[j] != x {
                assert(find_allocated(alloc2, sorted[j]) == find_allocated(alloc, sorted[j]));
            }
        }
        assert forall|e: int, q: int| 0 <= e < alloc2.len() && 0 <= q < spilled.len() implies (#[trigger] alloc2[e]).0
            != #[trigger] spilled[q] by {
            if e == alloc.len() {
                assert(spilled.contains(spilled[q]));
            } else {
                assert(alloc2[e] == alloc[e]);
            }
        }
        assert forall|q: int| 0 <= q < spilled.len() implies exists|j: int| 0 <= j < k + 1 && sorted[j] == #[trigger] spilled[q] by {
            let j = choose|j: int| 0 <= j < k && sorted[j] == #[trigger] spilled[q];
        }
    }
}

/// Every index appears in the order by start.
proof fn lemma_order_contains(intervals: Seq<LiveInterval>, n: int)
    requires
        0 <= n <= intervals.len(),
    ensures
        forall|k: int| 0 <= k < n ==> #[trigger] order_by_start(intervals, n).contains(k),
    decreases n,
{
    if n > 0 {
        lemma_order_contains(intervals, n - 1);
        lemma_order_by_start(intervals, n - 1);
        let order = order_by_start(intervals, n - 1);
        let k = n - 1;
        let p = choose_start_position(order, intervals, k);
        lemma_start_position(order, intervals, k);
        lemma_insert_by_start_at(order, intervals, k, p);
        let r = order.take(p).push(k) + order.skip(p);
        assert forall|j: int| 0 <= j < n implies #[trigger] r.contains(j) by {
            if j == k {
                assert(r[p] == k);
            } else {
                assert(order.contains(j));
                let q = choose|q: int| 0 <= q < order.len() && order[q] == j;
                if q < p {
                    assert(r[q] == j);
                } else {
                    assert(r[q + 1] == j);
                }
            }
        }
    }
}

/// Entries built from allocated intervals of distinct registers include one for each.
proof fn lemma_allocated_entries_cover(allocated: Seq<(LiveInterval, u32)>, n: int)
    requires
        0 <= n <= allocated.len(),
        forall|e1: int, e2: int| 0 <= e1 < e2 < allocated.len() ==> (#[trigger] allocated[e1]).0.register != (#[trigger] allocated[e2]).0.register,
    ensures
        forall|e: int|
            0 <= e < n ==> exists|i: int|
                0 <= i < allocated_entries(allocated, n).len() && allocated_entries(allocated, n)[i] == (
                    (#[trigger] allocated[e]).0.register,
                    AllocatedRegister::Hardware {
                        register: hardware_register_for(allocated[e].0.register.register_type, allocated[e].1),
                        live_interval: allocated[e].0,
                    },
                ),
    decreases n,
{
    if n > 0 {
        lemma_allocated_entries_cover(allocated, n - 1);
        let prior = allocated_entries(allocated, n - 1);
        let (interval, number) = allocated[n - 1];
        let value = AllocatedRegister::Hardware {
            register: hardware_register_for(interval.register.register_type, number),
            live_interval: interval,
        };
        lemma_entry_index(prior, interval.register, prior.len() as int);
        let r = allocated_entries(allocated, n);
        assert(r == insert_entry(prior, interval.register, value));
        assert forall|e: int| 0 <= e < n implies exists|i: int|
            0 <= i < r.len() && r[i] == (
                (#[trigger] allocated[e]).0.register,
                AllocatedRegister::Hardware {
                    register: hardware_register_for(allocated[e].0.register.register_type, allocated[e].1),
                    live_interval: allocated[e].0,
                },
            ) by {
            if e == n - 1 {
                match entry_index(prior, interval.register, prior.len() as int) {
                    Some(kk) => {
                        assert(r[kk] == (interval.register, value));
                    },
                    None => {
                        assert(r[prior.len() as int] == (interval.register, value));
                    },
                }
            } else {
                let i = choose|i: int|
                    0 <= i < prior.len() && prior[i] == (
                        allocated[e].0.register,
                        AllocatedRegister::Hardware {
                            register: hardware_register_for(allocated[e].0.register.register_type, allocated[e].1),
                            live_interval: allocated[e].0,
                        },
                    );
                assert(allocated[e].0.register != allocated[n - 1].0.register);
                assert(r[i] == prior[i]);
            }
        }
    }
}

/// Recording spilled intervals of distinct registers gives each a stack
/// slot and keeps the entries of other registers.
proof fn lemma_spilled_entries_cover(entries: Seq<(VirtualRegister, AllocatedRegister)>, spilled: Seq<LiveInterval>, n: int)
    requires
        0 <= n <= spilled.len(),
        forall|q1: int, q2: int| 0 <= q1 < q2 < spilled.len() ==> (#[trigger] spilled[q1]).register != (#[trigger] spilled[q2]).register,
    ensures
        forall|q: int|
            0 <= q < n ==> exists|i: int|
                0 <= i < spilled_entries(entries, spilled, n).len() && spilled_entries(entries, spilled, n)[i] == (
                    (#[trigger] spilled[q]).register,
                    AllocatedRegister::Stack { live_interval: spilled[q] },
                ),
        forall|i: int|
            0 <= i < entries.len() && (forall|q: int| 0 <= q < n ==> (#[trigger] spilled[q]).register != entries[i].0) ==> exists|i2: int|
                0 <= i2 < spilled_entries(entries, spilled, n).len() && spilled_entries(entries, spilled, n)[i2] == #[trigger] entries[i],
    decreases n,
{
    if n > 0 {
        lemma_spilled_entries_cover(entries, spilled, n - 1);
        let prior = spilled_entries(entries, spilled, n - 1);
        let interval = spilled[n - 1];
        let value = AllocatedRegister::Stack { live_interval: interval };
        lemma_entry_index(prior, interval.register, prior.len() as int);
        let r = spilled_entries(entries, spilled, n);
        assert(r == insert_entry(prior, interval.register, value));
        assert forall|q: int| 0 <= q < n implies exists|i: int|
            0 <= i < r.len() && r[i] == ((#[trigger] spilled[q]).register, AllocatedRegister::Stack { live_interval: spilled[q] }) by {
            if q == n - 1 {
                match entry_index(prior, interval.register, prior.len() as int) {
                    Some(kk) => {
                        assert(r[kk] == (interval.register, value));
                    },
                    None => {
                        assert(r[prior.len() as int] == (interval.register, value));
                    },
                }
            } else {
                let i = choose|i: int|
                    0 <= i < prior.len() && prior[i] == (spilled[q].register, AllocatedRegister::Stack { live_interval: spilled[q] });
                assert(spilled[q].register != spilled[n - 1].register);
                assert(r[i] == prior[i]);
            }
        }
        assert forall|i: int|
            0 <= i < entries.len() && (forall|q: int| 0 <= q < n ==> (#[trigger] spilled[q]).register != entries[i].0) implies exists|i2: int|
            0 <= i2 < r.len() && r[i2] == #[trigger] entries[i] by {
            assert(forall|q: int| 0 <= q < n - 1 ==> (#[trigger] spilled[q]).register != entries[i].0);
            let i2 = choose|i2: int| 0 <= i2 < prior.len() && prior[i2] == entries[i];
            assert(spilled[n - 1].register != entries[i].0);
            assert(r[i2] == prior[i2]);
        }
    } else {
        assert forall|i: int|
            0 <= i < entries.len() && (forall|q: int| 0 <= q < n ==> (#[trigger] spilled[q]).register != entries[i].0) implies exists|i2: int|
            0 <= i2 < spilled_entries(entries, spilled, n).len() && spilled_entries(entries, spilled, n)[i2] == #[trigger] entries[i] by {
            assert(spilled_entries(entries, spilled, n)[i] == entries[i]);
        }
    }
}

/// Linear scan places every register of the intervals: each gets an entry
/// with its own interval, in a hardware register or in the stack frame.
pub proof fn lemma_allocation_covers(intervals: Seq<LiveInterval>, settings: Settings)
    requires
        settings.num_int_registers <= u32::MAX,
        settings.num_float_registers <= u32::MAX,
        distinct_registers(intervals),
        forall|i: int| 0 <= i < intervals.len() ==> max_of(settings, (#[trigger] intervals[i]).register.register_type) >= 1,
    ensures
        forall|j: int|
            0 <= j < intervals.len() ==> exists|i: int|
                0 <= i < allocate_spec(intervals, settings).len() && allocate_spec(intervals, settings)[i].0 == (
                #[trigger] intervals[j]).register && interval_of(allocate_spec(intervals, settings)[i].1) == intervals[j],
{
    let sorted = sorted_by_start(intervals);
    let n = intervals.len() as int;
    lemma_sorted_intervals(intervals, settings);
    lemma_order_by_start(intervals, n);
    lemma_order_contains(intervals, n);
    let order = order_by_start(intervals, n);
    assert forall|a: int, b: int| 0 <= a < b < sorted.len() implies (#[trigger] sorted[a]).start <= (#[trigger] sorted[b]).start by {
        assert(sorted[a] == intervals[order[a]]);
        assert(sorted[b] == intervals[order[b]]);
    }
    lemma_scan_sound(sorted, settings, n);
    lemma_scan_covers(sorted, settings, n);
    let st = scan_spec(sorted, settings, n);
    let alloc = st.allocated;
    let spilled = st.spilled;
    // intervals of the scan are those of `sorted`, whose registers are distinct
    assert forall|e1: int, e2: int| 0 <= e1 < e2 < alloc.len() implies (#[trigger] alloc[e1]).0.register != (#[trigger] alloc[e2]).0.register by {
        let j1 = choose|j: int| 0 <= j < n && sorted[j] == #[trigger] alloc[e1].0;
        let j2 = choose|j: int| 0 <= j < n && sorted[j] == #[trigger] alloc[e2].0;
        assert(alloc[e1].0 != alloc[e2].0);
        if j1 < j2 {
            assert(sorted[j1].register != sorted[j2].register);
        } else if j2 < j1 {
            assert(sorted[j2].register != sorted[j1].register);
        }
    }
    assert forall|q1: int, q2: int| 0 <= q1 < q2 < spilled.len() implies (#[trigger] spilled[q1]).register != (#[trigger] spilled[q2]).register by {
        let j1 = choose|j: int| 0 <= j < n && sorted[j] == #[trigger] spilled[q1];
        let j2 = choose|j: int| 0 <= j < n && sorted[j] == #[trigger] spilled[q2];
        if j1 < j2 {
            assert(sorted[j1].register != sorted[j2].register);
        } else if j2 < j1 {
            assert(sorted[j2].register != sorted[j1].register);
        }
    }
    let base = allocated_entries(alloc, alloc.len() as int);
    lemma_allocated_entries_cover(alloc, alloc.len() as int);
    lemma_spilled_entries_cover(base, spilled, spilled.len() as int);
    let entries = allocate_spec(intervals, settings);
    assert(entries == spilled_entries(base, spilled, spilled.len() as int));
    assert forall|j: int| 0 <= j < n implies exists|i: int|
        0 <= i < entries.len() && entries[i].0 == (#[trigger] intervals[j]).register && interval_of(entries[i].1) == intervals[j] by {
        let x = intervals[j];
        assert(order.contains(j));
        let p = choose|p: int| 0 <= p < order.len() && order[p] == j;
        assert(sorted[p] == x);
        if find_allocated(alloc, sorted[p]) is Some {
            let e = find_allocated(alloc, x)->0;
            lemma_allocated_index(alloc, x, alloc.len() as int);
            let i = choose|i: int|
                0 <= i < base.len() && base[i] == (
                    alloc[e].0.register,
                    AllocatedRegister::Hardware {
                        register: hardware_register_for(alloc[e].0.register.register_type, alloc[e].1),
                        live_interval: alloc[e].0,
                    },
                );
            assert forall|q: int| 0 <= q < spilled.len() implies (#[trigger] spilled[q]).register != base[i].0 by {
                let jq = choose|jj: int| 0 <= jj < n && sorted[jj] == #[trigger] spilled[q];
                assert(alloc[e].0 != spilled[q]);
                if jq < p {
                    assert(sorted[jq].register != sorted[p].register);
                } else if jq > p {
                    assert(sorted[p].register != sorted[jq].register);
                }
            }
            let i2 = choose|i2: int| 0 <= i2 < entries.len() && entries[i2] == base[i];
            assert(entries[i2].0 == x.register && interval_of(entries[i2].1) == x);
        } else {
            assert(spilled.contains(sorted[p]));
            let q = choose|q: int| 0 <= q < spilled.len() && spilled[q] == x;
            let i = choose|i: int|
                0 <= i < entries.len() && entries[i] == (spilled[q].register, AllocatedRegister::Stack { live_interval: spilled[q] });
            assert(entries[i].0 == x.register && interval_of(entries[i].1) == x);
        }
    }
}

proof fn lemma_scan_covers(sorted: Seq<LiveInterval>, settings: Settings, k: int)
    requires
        settings.num_int_registers <= u32::MAX,
        settings.num_float_registers <= u32::MAX,
        distinct_registers(sorted),
        forall|i: int| 0 <= i < sorted.len() ==> max_of(settings, (#[trigger] sorted[i]).register.register_type) >= 1,
        forall|a: int, b: int| 0 <= a < b < sorted.len() ==> (#[trigger] sorted[a]).start <= (#[trigger] sorted[b]).start,
        0 <= k <= sorted.len(),
    ensures
        scan_covers(scan_spec(sorted, settings, k), sorted, k),
    decreases k,
{
    if k > 0 {
        lemma_scan_covers(sorted, settings, k - 1);
        lemma_scan_sound(sorted, settings, k - 1);
        assert(max_of(settings, sorted[k - 1].register.register_type) >= 1);
        lemma_step_covers(scan_spec(sorted, settings, k - 1), settings, sorted, k - 1);
    }
}

/// The blocks of the compiled instructions, their graph, and the live
/// intervals of their registers. The branches must jump to labels that are
/// placed, and control must not run off the end of a block into nothing.
pub fn analyze(compilation_result: &MIRCompilationResult) -> (r: (Vec<BasicBlock>, ControlFlowGraph, Vec<LiveInterval>))
    requires
        labels_placed(mir_view(compilation_result.instructions@)),
        forall|blocks: Seq<BasicBlock>|
            created_blocks(blocks, mir_view(compilation_result.instructions@)) ==> flow_targets_exist(
                mir_view(compilation_result.instructions@),
                blocks,
            ),
    ensures
        created_blocks(r.0@, mir_view(compilation_result.instructions@)),
        is_graph_of(r.1, mir_view(compilation_result.instructions@), r.0@),
        liveness_holds(
            r.2@,
            mir_view(compilation_result.instructions@),
            registers_view(compilation_result.local_virtual_registers@),
        ),
        forall|i: int|
            0 <= i < r.2@.len() ==> #[trigger] r.2@[i] == live_interval_spec(
                mir_view(compilation_result.instructions@),
                r.0@,
                r.1,
                registers_view(compilation_result.local_virtual_registers@),
                r.2@[i].register,
            ),
{
    let blocks = BasicBlock::create_blocks(&compilation_result.instructions);
    let control_flow_graph = ControlFlowGraph::new(&compilation_result.instructions, &blocks);
    proof {
        lemma_created_blocks_partition(blocks@, mir_view(compilation_result.instructions@));
        lemma_graph_edges(control_flow_graph, mir_view(compilation_result.instructions@), blocks@);
    }
    let live_intervals = compute_liveness(compilation_result, &blocks, &control_flow_graph);
    (blocks, control_flow_graph, live_intervals)
}

} // verus!
