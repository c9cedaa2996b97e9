//! The outcome of register allocation: for each register, a hardware
//! register or a slot in the stack frame, with its live interval.
use vstd::prelude::*;
use crate::analysis::{VirtualRegister, VirtualRegisterType, virtual_register_of};
use crate::analysis::liveness::LiveInterval;
use crate::compiler::ir::HardwareRegister;
use crate::mir::RegisterMIR;

pub mod linear_scan;

verus! {

/// Where a register lives, together with its live interval.
#[derive(Clone, Copy, Debug, PartialEq, Eq, Structural)]
pub enum AllocatedRegister {
    Hardware { register: HardwareRegister, live_interval: LiveInterval },
    Stack { live_interval: LiveInterval },
}

pub open spec fn interval_of(a: AllocatedRegister) -> LiveInterval {
    match a {
        AllocatedRegister::Hardware { live_interval, .. } => live_interval,
        AllocatedRegister::Stack { live_interval } => live_interval,
    }
}

pub open spec fn hardware_register_of(a: AllocatedRegister) -> Option<HardwareRegister> {
    match a {
        AllocatedRegister::Hardware { register, .. } => Some(register),
        AllocatedRegister::Stack { .. } => None,
    }
}

impl AllocatedRegister {
    pub fn interval(&self) -> (r: &LiveInterval)
        ensures
            *r == interval_of(*self),
    {
        match self {
            AllocatedRegister::Hardware { live_interval, .. } => live_interval,
            AllocatedRegister::Stack { live_interval } => live_interval,
        }
    }

    pub fn is_stack(&self) -> (r: bool)
        ensures
            r == (*self is Stack),
    {
        match self {
            AllocatedRegister::Hardware { .. } => false,
            AllocatedRegister::Stack { .. } => true,
        }
    }

    pub fn hardware_register(&self) -> (r: Option<HardwareRegister>)
        ensures
            r == hardware_register_of(*self),
    {
        match self {
            AllocatedRegister::Hardware { register, .. } => Some(*register),
            AllocatedRegister::Stack { .. } => None,
        }
    }
}

/// The hardware register number `n` of the register file of `t`.
pub open spec fn hardware_register_for(t: VirtualRegisterType, n: u32) -> HardwareRegister {
    match t {
        VirtualRegisterType::Int => HardwareRegister::Int(n),
        VirtualRegisterType::Float => HardwareRegister::Float(n),
    }
}

/// The entries after inserting `allocation` under `register`: an entry for
/// the same register is replaced in place, any other is kept, and a new
/// register is added at the end.
pub open spec fn insert_entry(
    entries: Seq<(VirtualRegister, AllocatedRegister)>,
    register: VirtualRegister,
    allocation: AllocatedRegister,
) -> Seq<(VirtualRegister, AllocatedRegister)> {
    match entry_index(entries, register, entries.len() as int) {
        Some(k) => entries.update(k, (register, allocation)),
        None => entries.push((register, allocation)),
    }
}

/// The position of the last entry for `register` among the first `n`.
pub open spec fn entry_index(entries: Seq<(VirtualRegister, AllocatedRegister)>, register: VirtualRegister, n: int) -> Option<int>
    decreases n,
{
    if n <= 0 {
        None
    } else if entries[n - 1].0 == register {
        Some(n - 1)
    } else {
        entry_index(entries, register, n - 1)
    }
}

/// The entries of an allocation built from the first `n` allocated intervals.
pub open spec fn allocated_entries(allocated: Seq<(LiveInterval, u32)>, n: int) -> Seq<(VirtualRegister, AllocatedRegister)>
    decreases n,
{
    if n <= 0 {
        Seq::empty()
    } else {
        let (interval, number) = allocated[n - 1];
        insert_entry(
            allocated_entries(allocated, n - 1),
            interval.register,
            AllocatedRegister::Hardware {
                register: hardware_register_for(interval.register.register_type, number),
                live_interval: interval,
            },
        )
    }
}

/// The entries after also recording the first `n` spilled intervals.
pub open spec fn spilled_entries(
    entries: Seq<(VirtualRegister, AllocatedRegister)>,
    spilled: Seq<LiveInterval>,
    n: int,
) -> Seq<(VirtualRegister, AllocatedRegister)>
    decreases n,
{
    if n <= 0 {
        entries
    } else {
        let interval = spilled[n - 1];
        insert_entry(
            spilled_entries(entries, spilled, n - 1),
            interval.register,
            AllocatedRegister::Stack { live_interval: interval },
        )
    }
}

/// The allocation entries made from allocated intervals with their register
/// numbers and from spilled intervals; a later entry for a register replaces
/// an earlier one.
pub open spec fn allocation_entries(allocated: Seq<(LiveInterval, u32)>, spilled: Seq<LiveInterval>) -> Seq<
    (VirtualRegister, AllocatedRegister),
> {
    spilled_entries(allocated_entries(allocated, allocated.len() as int), spilled, spilled.len() as int)
}

/// The number of the first `n` entries that are in a hardware register.
pub open spec fn count_hardware(entries: Seq<(VirtualRegister, AllocatedRegister)>, n: int) -> nat
    decreases n,
{
    if n <= 0 {
        0
    } else {
        count_hardware(entries, n - 1) + if entries[n - 1].1 is Hardware {
            1nat
        } else {
            0nat
        }
    }
}

/// The number of the first `n` entries that are in the stack frame.
pub open spec fn count_stack(entries: Seq<(VirtualRegister, AllocatedRegister)>, n: int) -> nat
    decreases n,
{
    if n <= 0 {
        0
    } else {
        count_stack(entries, n - 1) + if entries[n - 1].1 is Stack {
            1nat
        } else {
            0nat
        }
    }
}

/// Whether the hardware allocation is alive at instruction `index`.
pub open spec fn alive_at(a: AllocatedRegister, index: int) -> bool {
    &&& a is Hardware
    &&& interval_of(a).start <= index <= interval_of(a).end
}

/// The registers in a hardware register that are alive at `index`, in entry order.
pub open spec fn alive_entries(entries: Seq<(VirtualRegister, AllocatedRegister)>, index: int, n: int) -> Seq<
    (VirtualRegister, HardwareRegister),
>
    decreases n,
{
    if n <= 0 {
        Seq::empty()
    } else {
        let before = alive_entries(entries, index, n - 1);
        let (register, allocation) = entries[n - 1];
        if alive_at(allocation, index) {
            before.push((register, hardware_register_of(allocation)->0))
        } else {
            before
        }
    }
}

/// No two entries are for the same register.
pub open spec fn distinct_entries(entries: Seq<(VirtualRegister, AllocatedRegister)>) -> bool {
    forall|i: int, j: int| 0 <= i < j < entries.len() ==> #[trigger] entries[i].0 != #[trigger] entries[j].0
}

pub proof fn lemma_entry_index(entries: Seq<(VirtualRegister, AllocatedRegister)>, register: VirtualRegister, n: int)
    requires
        0 <= n <= entries.len(),
    ensures
        match entry_index(entries, register, n) {
            Some(k) => 0 <= k < n && entries[k].0 == register,
            None => forall|k: int| 0 <= k < n ==> entries[k].0 != register,
        },
    decreases n,
{
    if n > 0 {
        lemma_entry_index(entries, register, n - 1);
    }
}

pub proof fn lemma_insert_entry_distinct(
    entries: Seq<(VirtualRegister, AllocatedRegister)>,
    register: VirtualRegister,
    allocation: AllocatedRegister,
)
    requires
        distinct_entries(entries),
    ensures
        distinct_entries(insert_entry(entries, register, allocation)),
{
    lemma_entry_index(entries, register, entries.len() as int);
    let r = insert_entry(entries, register, allocation);
    match entry_index(entries, register, entries.len() as int) {
        Some(k) => {
            assert forall|i: int, j: int| 0 <= i < j < r.len() implies #[trigger] r[i].0 != #[trigger] r[j].0 by {
                if i != k && j != k {
                    assert(entries[i].0 != entries[j].0);
                } else if i == k {
                    assert(entries[k].0 != entries[j].0);
                } else {
                    assert(entries[i].0 != entries[k].0);
                }
            }
        },
        None => {
            assert forall|i: int, j: int| 0 <= i < j < r.len() implies #[trigger] r[i].0 != #[trigger] r[j].0 by {
                if j < entries.len() {
                    assert(entries[i].0 != entries[j].0);
                }
            }
        },
    }
}

/// The allocation of each register, as a list of entries with distinct registers.
pub struct RegisterAllocation {
    registers: Vec<(VirtualRegister, AllocatedRegister)>,
}

impl RegisterAllocation {
    /// The entries, one per register.
    pub closed spec fn entries(&self) -> Seq<(VirtualRegister, AllocatedRegister)> {
        self.registers@
    }

    /// The allocation as a map from registers.
    pub open spec fn allocation(&self) -> Map<VirtualRegister, AllocatedRegister> {
        Map::new(
            |v: VirtualRegister| exists|k: int| 0 <= k < self.entries().len() && self.entries()[k].0 == v,
            |v: VirtualRegister|
                self.entries()[choose|k: int| 0 <= k < self.entries().len() && self.entries()[k].0 == v].1,
        )
    }

    pub closed spec fn wf(&self) -> bool {
        distinct_entries(self.registers@)
    }

    fn find(&self, register: VirtualRegister) -> (r: Option<usize>)
        ensures
            match r {
                Some(k) => entry_index(self.entries(), register, self.entries().len() as int) == Some(k as int),
                None => entry_index(self.entries(), register, self.entries().len() as int) is None,
            },
    {
        let mut i: usize = self.registers.len();
        while i > 0
            invariant
                i <= self.registers@.len(),
                entry_index(self.entries(), register, self.entries().len() as int) == entry_index(
                    self.entries(),
                    register,
                    i as int,
                ),
            decreases i,
        {
            if self.registers[i - 1].0 == register {
                return Some(i - 1);
            }
            i = i - 1;
        }
        None
    }

    fn insert(&mut self, register: VirtualRegister, allocation: AllocatedRegister)
        requires
            old(self).wf(),
        ensures
            final(self).wf(),
            final(self).entries() == insert_entry(old(self).entries(), register, allocation),
    {
        proof {
            lemma_insert_entry_distinct(self.registers@, register, allocation);
            lemma_entry_index(self.registers@, register, self.registers@.len() as int);
        }
        match self.find(register) {
            Some(k) => {
                self.registers.set(k, (register, allocation));
            },
            None => {
                self.registers.push((register, allocation));
            },
        }
    }

    /// Records each allocated interval in the hardware register with its
    /// number (in the register file of its type), then each spilled interval
    /// in the stack frame; a later record for a register replaces an earlier one.
    pub fn new(allocated: Vec<(LiveInterval, u32)>, spilled: Vec<LiveInterval>) -> (r: RegisterAllocation)
        ensures
            r.wf(),
            r.entries() == allocation_entries(allocated@, spilled@),
    {
        let mut allocation = RegisterAllocation { registers: Vec::new() };
        let mut i: usize = 0;
        while i < allocated.len()
            invariant
                i <= allocated@.len(),
                allocation.wf(),
                allocation.entries() == allocated_entries(allocated@, i as int),
            decreases allocated@.len() - i,
        {
            let (live_interval, register_number) = allocated[i];
            let register = match live_interval.register.register_type {
                VirtualRegisterType::Int => HardwareRegister::Int(register_number),
                VirtualRegisterType::Float => HardwareRegister::Float(register_number),
            };
            allocation.insert(live_interval.register, AllocatedRegister::Hardware { register, live_interval });
            i = i + 1;
        }
        let mut j: usize = 0;
        while j < spilled.len()
            invariant
                j <= spilled@.len(),
                allocation.wf(),
                allocation.entries() == spilled_entries(allocated_entries(allocated@, allocated@.len() as int), spilled@, j as int),
            decreases spilled@.len() - j,
        {
            let live_interval = spilled[j];
            allocation.insert(live_interval.register, AllocatedRegister::Stack { live_interval });
            j = j + 1;
        }
        allocation
    }

    /// The number of registers in a hardware register.
    pub fn num_allocated_registers(&self) -> (r: usize)
        ensures
            r == count_hardware(self.entries(), self.entries().len() as int),
    {
        let mut count: usize = 0;
        let mut i: usize = 0;
        while i < self.registers.len()
            invariant
                i <= self.registers@.len(),
                count == count_hardware(self.entries(), i as int),
                count <= i,
            decreases self.registers@.len() - i,
        {
            if self.registers[i].1.hardware_register().is_some() {
                count = count + 1;
            }
            i = i + 1;
        }
        count
    }

    /// The number of registers in the stack frame.
    pub fn num_spilled_registers(&self) -> (r: usize)
        ensures
            r == count_stack(self.entries(), self.entries().len() as int),
    {
        let mut count: usize = 0;
        let mut i: usize = 0;
        while i < self.registers.len()
            invariant
                i <= self.registers@.len(),
                count == count_stack(self.entries(), i as int),
                count <= i,
            decreases self.registers@.len() - i,
        {
            if self.registers[i].1.hardware_register().is_none() {
                count = count + 1;
            }
            i = i + 1;
        }
        count
    }

    /// The allocation of the register.
    pub fn get_register(&self, register: &RegisterMIR) -> (r: &AllocatedRegister)
        requires
            self.wf(),
            self.allocation().contains_key(virtual_register_of(register@)),
        ensures
            *r == self.allocation()[virtual_register_of(register@)],
    {
        let virtual_register = VirtualRegister::from(register);
        proof {
            lemma_entry_index(self.entries(), virtual_register, self.entries().len() as int);
        }
        match self.find(virtual_register) {
            Some(k) => {
                proof {
                    let c = choose|c: int| 0 <= c < self.entries().len() && self.entries()[c].0 == virtual_register;
                    assert(self.entries()[k as int].0 == virtual_register);
                    assert(self.registers@[c].0 == self.registers@[k as int].0);
                    assert(distinct_entries(self.registers@));
                    if c < k as int {
                        assert(self.registers@[c].0 != self.registers@[k as int].0);
                    } else if c > k as int {
                        assert(self.registers@[k as int].0 != self.registers@[c].0);
                    }
                }
                &self.registers[k].1
            },
            None => {
                proof {
                    let c = choose|c: int| 0 <= c < self.entries().len() && self.entries()[c].0 == virtual_register;
                    assert(self.entries()[c].0 == virtual_register);
                }
                &self.registers[0].1
            },
        }
    }

    /// The registers in a hardware register whose live interval contains
    /// `instruction_index`, with their hardware registers.
    pub fn alive_registers_at(&self, instruction_index: usize) -> (r: Vec<(VirtualRegister, HardwareRegister)>)
        ensures
            r@ == alive_entries(self.entries(), instruction_index as int, self.entries().len() as int),
    {
        let mut result: Vec<(VirtualRegister, HardwareRegister)> = Vec::new();
        let mut i: usize = 0;
        while i < self.registers.len()
            invariant
                i <= self.registers@.len(),
                result@ == alive_entries(self.entries(), instruction_index as int, i as int),
            decreases self.registers@.len() - i,
        {
            let (register, allocation) = self.registers[i];
            match allocation.hardware_register() {
                Some(hardware) => {
                    let interval = allocation.interval();
                    if instruction_index >= interval.start && instruction_index <= interval.end {
                        result.push((register, hardware));
                    }
                },
                None => {},
            }
            i = i + 1;
        }
        result
    }

    /// The hardware registers of [`RegisterAllocation::alive_registers_at`].
    pub fn alive_hardware_registers_at(&self, instruction_index: usize) -> (r: Vec<HardwareRegister>)
        ensures
            r@ == alive_entries(self.entries(), instruction_index as int, self.entries().len() as int).map_values(
                |e: (VirtualRegister, HardwareRegister)| e.1,
            ),
    {
        let alive = self.alive_registers_at(instruction_index);
        let mut result: Vec<HardwareRegister> = Vec::new();
        let mut i: usize = 0;
        while i < alive.len()
            invariant
                i <= alive@.len(),
                result@ == alive@.subrange(0, i as int).map_values(|e: (VirtualRegister, HardwareRegister)| e.1),
            decreases alive@.len() - i,
        {
            result.push(alive[i].1);
            i = i + 1;
            assert(result@ =~= alive@.subrange(0, i as int).map_values(|e: (VirtualRegister, HardwareRegister)| e.1));
        }
        assert(alive@.subrange(0, i as int) =~= alive@);
        result
    }
}

/// The register of interval `k` of the allocated intervals followed by the
/// spilled ones.
pub open spec fn interval_register(allocated: Seq<(LiveInterval, u32)>, spilled: Seq<LiveInterval>, k: int) -> VirtualRegister {
    if k < allocated.len() {
        allocated[k].0.register
    } else {
        spilled[k - allocated.len()].register
    }
}

/// No register has two intervals among the allocated and spilled ones.
pub open spec fn distinct_interval_registers(allocated: Seq<(LiveInterval, u32)>, spilled: Seq<LiveInterval>) -> bool {
    forall|i: int, j: int|
        0 <= i < j < allocated.len() + spilled.len() ==> #[trigger] interval_register(allocated, spilled, i)
            != #[trigger] interval_register(allocated, spilled, j)
}

proof fn lemma_allocated_entries_appended(allocated: Seq<(LiveInterval, u32)>, spilled: Seq<LiveInterval>, i: int)
    requires
        distinct_interval_registers(allocated, spilled),
        0 <= i <= allocated.len(),
    ensures
        allocated_entries(allocated, i).len() == i,
        forall|k: int|
            0 <= k < i ==> (#[trigger] allocated_entries(allocated, i)[k]).0 == interval_register(allocated, spilled, k)
                && allocated_entries(allocated, i)[k].1 is Hardware,
    decreases i,
{
    if i > 0 {
        lemma_allocated_entries_appended(allocated, spilled, i - 1);
        let before = allocated_entries(allocated, i - 1);
        let register = allocated[i - 1].0.register;
        assert(register == interval_register(allocated, spilled, i - 1));
        lemma_entry_index(before, register, i - 1);
        if let Some(k) = entry_index(before, register, i - 1) {
            assert(before[k].0 == interval_register(allocated, spilled, k));
            assert(interval_register(allocated, spilled, k) != interval_register(allocated, spilled, i - 1));
        }
    }
}

proof fn lemma_spilled_entries_appended(allocated: Seq<(LiveInterval, u32)>, spilled: Seq<LiveInterval>, j: int)
    requires
        distinct_interval_registers(allocated, spilled),
        0 <= j <= spilled.len(),
    ensures
        ({
            let e = spilled_entries(allocated_entries(allocated, allocated.len() as int), spilled, j);
            &&& e.len() == allocated.len() + j
            &&& forall|k: int|
                0 <= k < e.len() ==> (#[trigger] e[k]).0 == interval_register(allocated, spilled, k) && (e[k].1 is Hardware
                    <==> k < allocated.len())
        }),
    decreases j,
{
    let a = allocated.len() as int;
    if j == 0 {
        lemma_allocated_entries_appended(allocated, spilled, a);
    } else {
        lemma_spilled_entries_appended(allocated, spilled, j - 1);
        let before = spilled_entries(allocated_entries(allocated, a), spilled, j - 1);
        let register = spilled[j - 1].register;
        assert(register == interval_register(allocated, spilled, a + j - 1));
        lemma_entry_index(before, register, a + j - 1);
        if let Some(k) = entry_index(before, register, a + j - 1) {
            assert(before[k].0 == interval_register(allocated, spilled, k));
            assert(interval_register(allocated, spilled, k) != interval_register(allocated, spilled, a + j - 1));
        }
    }
}

proof fn lemma_counts_split(entries: Seq<(VirtualRegister, AllocatedRegister)>, a: int, n: int)
    requires
        0 <= a <= entries.len(),
        0 <= n <= entries.len(),
        forall|k: int| 0 <= k < entries.len() ==> ((#[trigger] entries[k]).1 is Hardware <==> k < a),
    ensures
        count_hardware(entries, n) == if n < a { n } else { a },
        count_stack(entries, n) == if n < a { 0 } else { n - a },
    decreases n,
{
    if n > 0 {
        lemma_counts_split(entries, a, n - 1);
    }
}

/// Every entry is in a hardware register or in the stack frame, never both.
pub proof fn lemma_counts_cover(entries: Seq<(VirtualRegister, AllocatedRegister)>, n: int)
    requires
        0 <= n <= entries.len(),
    ensures
        count_hardware(entries, n) + count_stack(entries, n) == n,
    decreases n,
{
    if n > 0 {
        lemma_counts_cover(entries, n - 1);
    }
}

/// Recording intervals whose registers are all distinct keeps one entry per
/// interval: as many in hardware registers as were allocated and as many in
/// the stack frame as were spilled.
pub proof fn lemma_allocation_counts(allocated: Seq<(LiveInterval, u32)>, spilled: Seq<LiveInterval>)
    requires
        distinct_interval_registers(allocated, spilled),
    ensures
        allocation_entries(allocated, spilled).len() == allocated.len() + spilled.len(),
        count_hardware(allocation_entries(allocated, spilled), allocation_entries(allocated, spilled).len() as int)
            == allocated.len(),
        count_stack(allocation_entries(allocated, spilled), allocation_entries(allocated, spilled).len() as int)
            == spilled.len(),
{
    let e = allocation_entries(allocated, spilled);
    lemma_spilled_entries_appended(allocated, spilled, spilled.len() as int);
    lemma_counts_split(e, allocated.len() as int, e.len() as int);
}

} // verus!
