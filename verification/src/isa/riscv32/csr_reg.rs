//! The control and status registers of the RV32 core.

use vstd::prelude::*;

verus! {

/// A control and status register with a fixed index.
pub trait CsrReg {
    /// The register's index in the CSR address space.
    fn get_index() -> usize;
}

/// The control and status registers, by index.
pub struct CsrRegFile {
    table: Vec<(u64, u64)>,
}

impl CsrRegFile {
    /// The registers that have been written, with their values.
    pub closed spec fn entries(&self) -> Seq<(u64, u64)> {
        self.table@
    }

    /// A register file in which no register has been written.
    pub fn new() -> (r: Self)
        ensures
            r.entries() == Seq::<(u64, u64)>::empty(),
    {
        CsrRegFile { table: Vec::new() }
    }
}

} // verus!
