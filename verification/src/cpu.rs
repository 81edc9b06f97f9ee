//! The guest CPU's register file, as far as the call bridge needs it. Nothing
//! here executes guest code.

use vstd::prelude::*;

verus! {

/// The sixteen core registers of the guest CPU.
pub struct Cpu {
    pub regs: [u32; 16],
}

impl Cpu {
    /// Index of the stack pointer.
    pub const SP: usize = 13;

    /// Index of the link register.
    pub const LR: usize = 14;

    /// Index of the program counter.
    pub const PC: usize = 15;

    /// A register file with every register cleared.
    pub fn new() -> (cpu: Cpu)
        ensures
            forall|i: int| 0 <= i < 16 ==> cpu.regs@[i] == 0,
    {
        Cpu { regs: [0u32; 16] }
    }

    /// The registers.
    pub fn regs(&self) -> (regs: &[u32; 16])
        ensures
            *regs == self.regs,
    {
        &self.regs
    }

    /// Sets register `index` to `value` and leaves the others as they are.
    pub fn set_reg(&mut self, index: usize, value: u32)
        requires
            index < 16,
        ensures
            final(self).regs@ == old(self).regs@.update(index as int, value),
    {
        self.regs[index] = value;
    }
}

} // verus!
