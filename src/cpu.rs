use vstd::prelude::*;

verus! {

/// The register file and the program counter.
pub struct CPU {
    /// Sixteen general-purpose 16-bit registers.
    pub registers: [u16; 16],
    /// Address of the next instruction to fetch.
    pub pc: u16,
}

impl CPU {
    /// All registers zero, program counter zero.
    pub fn new() -> (r: Self)
        ensures
            r.registers@ == Seq::new(16, |i: int| 0u16),
            r.pc == 0,
    {
        let r = Self { registers: [0; 16], pc: 0 };
        assert(r.registers@ =~= Seq::new(16, |i: int| 0u16));
        r
    }
}

} // verus!
