//! Concrete blocks built on std types: the buffer-backed reference
//! backend, plus the middleware wrappers in the submodule.

mod readonly;

pub use readonly::ReadOnly;
pub use readonly::lemma_readonly_transparent;

use vstd::prelude::*;

use crate::errors::MemError;
use crate::errors::MemErrorKind;
use crate::interface::Addr;
use crate::interface::Byte;
use crate::interface::MemoryBlock;
use crate::interface::MemoryBlock32be;
use crate::interface::MemoryBlock32le;
use crate::interface::MemoryCreator;

verus! {

/// Simple `Vec`-based memory block: one cell per address in
/// `0..=size`, all initially zero.  Should suffice basic RAM needs.
pub struct MemVector {
    size: Addr,
    mem: Vec<Byte>,
}

impl MemoryBlock for MemVector {
    closed spec fn inv(&self) -> bool {
        self.mem@.len() == self.size + 1
    }

    closed spec fn spec_size(&self) -> Addr {
        self.size
    }

    closed spec fn contents(&self) -> Seq<Byte> {
        self.mem@
    }

    open spec fn readable(&self, addr: int) -> bool {
        0 <= addr <= self.spec_size()
    }

    open spec fn writable(&self, addr: int) -> bool {
        0 <= addr <= self.spec_size()
    }

    open spec fn read_err(&self, addr: int) -> MemErrorKind {
        MemErrorKind::NoData { at: addr as usize }
    }

    open spec fn write_err(&self, addr: int) -> MemErrorKind {
        MemErrorKind::TooBig { given: addr as usize, max: self.spec_size() }
    }

    proof fn lemma_inv_bounds(&self) {
    }

    fn get_size(&self) -> (r: Addr) {
        self.size
    }

    fn get(&self, addr: Addr) -> (r: Result<Byte, MemError>) {
        if addr < self.mem.len() {
            Ok(self.mem[addr])
        } else {
            Err(MemError::new(MemErrorKind::NoData { at: addr }))
        }
    }

    fn set(&mut self, addr: Addr, value: Byte) -> (r: Result<(), MemError>) {
        if addr > self.size {
            Err(MemError::new(MemErrorKind::TooBig { given: addr, max: self.size }))
        } else {
            self.mem[addr] = value;
            Ok(())
        }
    }
}

impl MemoryBlock32be for MemVector {

}

impl MemoryBlock32le for MemVector {

}

impl MemoryCreator<MemVector> for MemVector {
    fn new(size: Addr) -> (r: MemVector) {
        let mut mem: Vec<Byte> = Vec::new();
        let mut i: usize = 0;
        while i < size + 1
            invariant
                size < usize::MAX,
                i <= size + 1,
                mem@.len() == i,
                forall|j: int| 0 <= j < i ==> mem@[j] == 0u8,
            decreases size + 1 - i,
        {
            mem.push(0);
            i = i + 1;
        }
        MemVector { size, mem }
    }
}

} // verus!
