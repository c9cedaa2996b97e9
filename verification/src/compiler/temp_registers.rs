//! Scratch registers for intermediate values of spilled registers.
use vstd::prelude::*;
use crate::analysis::virtual_register_of;
use crate::compiler::ir::HardwareRegister;
use crate::mir::RegisterMIR;
use crate::optimization::register_allocation::{RegisterAllocation, hardware_register_of};
use crate::optimization::register_allocation::linear_scan::strictly_sorted;

verus! {

/// The integer registers that can still serve as scratch registers:
/// initially 3, 4 and 5.
pub struct TempRegisters<'a> {
    register_allocation: &'a RegisterAllocation,
    int_registers: Vec<u32>,
}

impl<'a> TempRegisters<'a> {
    /// The numbers of the integer registers still available, smallest first.
    pub closed spec fn available(&self) -> Seq<u32> {
        self.int_registers@
    }

    pub closed spec fn allocation(&self) -> RegisterAllocation {
        *self.register_allocation
    }

    /// The available registers form a set, kept smallest first.
    pub open spec fn wf(&self) -> bool {
        strictly_sorted(self.available())
    }

    pub fn new(register_allocation: &'a RegisterAllocation) -> (r: TempRegisters<'a>)
        ensures
            r.available() == seq![3u32, 4u32, 5u32],
            r.allocation() == *register_allocation,
            r.wf(),
    {
        let mut int_registers: Vec<u32> = Vec::new();
        int_registers.push(3);
        int_registers.push(4);
        int_registers.push(5);
        assert(int_registers@ =~= seq![3u32, 4u32, 5u32]);
        TempRegisters { register_allocation, int_registers }
    }

    /// A register in a hardware register is no longer available as a scratch register.
    pub fn try_remove(&mut self, register: &RegisterMIR)
        requires
            old(self).allocation().wf(),
            old(self).allocation().allocation().contains_key(virtual_register_of(register@)),
        ensures
            final(self).allocation() == old(self).allocation(),
            old(self).wf() ==> final(self).wf(),
            final(self).available() == match hardware_register_of(
                old(self).allocation().allocation()[virtual_register_of(register@)],
            ) {
                Some(HardwareRegister::Int(n)) => old(self).available().filter(|m: u32| m != n),
                _ => old(self).available(),
            },
    {
        let ghost before = self.int_registers@;
        match self.register_allocation.get_register(register).hardware_register() {
            Some(HardwareRegister::Int(n)) => {
                let mut kept: Vec<u32> = Vec::new();
                let mut i: usize = 0;
                while i < self.int_registers.len()
                    invariant
                        i <= self.int_registers@.len(),
                        self.int_registers@ == before,
                        kept@ == before.take(i as int).filter(|m: u32| m != n),
                        forall|k: int| 0 <= k < kept@.len() ==> exists|j: int| 0 <= j < i && #[trigger] kept@[k] == before[j],
                        strictly_sorted(before) ==> strictly_sorted(kept@),
                    decreases self.int_registers@.len() - i,
                {
                    let m = self.int_registers[i];
                    let ghost old_kept = kept@;
                    proof {
                        assert(before.take(i + 1).drop_last() =~= before.take(i as int));
                        reveal(Seq::filter);
                    }
                    if m != n {
                        kept.push(m);
                        proof {
                            assert(kept@[kept@.len() - 1] == before[i as int]);
                            if strictly_sorted(before) {
                                assert forall|a: int, b: int| 0 <= a < b < kept@.len() implies #[trigger] kept@[a] < #[trigger] kept@[b] by {
                                    if b == kept@.len() - 1 {
                                        let j = choose|j: int| 0 <= j < i && old_kept[a] == before[j];
                                        assert(before[j] < before[i as int]);
                                    } else {
                                        assert(old_kept[a] < old_kept[b]);
                                    }
                                }
                            }
                            assert forall|k: int| 0 <= k < kept@.len() implies exists|j: int| 0 <= j < i + 1 && #[trigger] kept@[k] == before[j] by {
                                if k < old_kept.len() {
                                    let j = choose|j: int| 0 <= j < i && old_kept[k] == before[j];
                                    assert(kept@[k] == before[j]);
                                } else {
                                    assert(kept@[k] == before[i as int]);
                                }
                            }
                        }
                    }
                    i = i + 1;
                }
                assert(before.take(i as int) =~= before);
                self.int_registers = kept;
            },
            _ => {},
        }
    }

    /// The hardware register of a register in one, or else the largest
    /// available scratch register, which is then no longer available. The
    /// flag tells whether a scratch register was taken.
    pub fn get_register(&mut self, register: &RegisterMIR) -> (r: (bool, HardwareRegister))
        requires
            old(self).allocation().wf(),
            old(self).allocation().allocation().contains_key(virtual_register_of(register@)),
            hardware_register_of(old(self).allocation().allocation()[virtual_register_of(register@)]) is None ==> old(
                self,
            ).available().len() > 0,
        ensures
            final(self).allocation() == old(self).allocation(),
            old(self).wf() ==> final(self).wf(),
            old(self).wf() && r.0 ==> forall|k: int|
                0 <= k < final(self).available().len() ==> HardwareRegister::Int(#[trigger] final(self).available()[k]) != r.1
                    && final(self).available()[k] < old(self).available().last(),
            match hardware_register_of(old(self).allocation().allocation()[virtual_register_of(register@)]) {
                Some(h) => r == (false, h) && final(self).available() == old(self).available(),
                None => r == (true, HardwareRegister::Int(old(self).available().last())) && final(self).available()
                    == old(self).available().drop_last(),
            },
    {
        match self.register_allocation.get_register(register).hardware_register() {
            Some(h) => (false, h),
            None => {
                proof {
                    let s = self.int_registers@;
                    if strictly_sorted(s) {
                        assert forall|k: int| 0 <= k < s.len() - 1 implies #[trigger] s[k] < s.last() by {
                            assert(s[k] < s[s.len() - 1]);
                        }
                        assert forall|a: int, b: int| 0 <= a < b < s.drop_last().len() implies #[trigger] s.drop_last()[a] < #[trigger] s.drop_last()[b] by {
                            assert(s[a] < s[b]);
                        }
                    }
                }
                let n = self.int_registers.pop();
                match n {
                    Some(n) => (true, HardwareRegister::Int(n)),
                    None => (true, HardwareRegister::Int(0)),
                }
            },
        }
    }
}

} // verus!
