use vstd::prelude::*;

verus! {

/// Number of bytes of memory of a machine.
pub const MEMORY_SIZE: usize = 4096;

/// Linear byte-addressed memory.
pub struct Memory {
    pub data: Vec<u8>,
}

impl Memory {
    /// Memory of `MEMORY_SIZE` bytes, all zero.
    pub fn new() -> (r: Self)
        ensures
            r.data@ == Seq::new(MEMORY_SIZE as nat, |i: int| 0u8),
    {
        let r = Self { data: vec![0; MEMORY_SIZE] };
        assert(r.data@ =~= Seq::new(MEMORY_SIZE as nat, |i: int| 0u8));
        r
    }
}

} // verus!
