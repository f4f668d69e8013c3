//! Read-only middleware: wraps any block and rejects every write while
//! passing reads straight through.

use vstd::prelude::*;

use crate::errors::MemError;
use crate::errors::MemErrorKind;
use crate::interface::Addr;
use crate::interface::Byte;
use crate::interface::MemoryBlock;
use crate::interface::MemoryBlock32be;
use crate::interface::MemoryBlock32le;
use crate::interface::MemoryMiddlewareCreator;

verus! {

/// Read-only wrapper for memory blocks.  Raises an error on any attempt
/// to write; reading simply gets passed through to the exclusively
/// owned inner block.  Useful in cases where writable and non-writable
/// blocks must satisfy one contract type.
pub struct ReadOnly<M: MemoryBlock> {
    mem: Box<M>,
}

impl<M: MemoryBlock> ReadOnly<M> {
    /// The wrapped block, as specifications see it.
    pub closed spec fn inner(&self) -> M {
        *self.mem
    }
}

impl<M: MemoryBlock> MemoryBlock for ReadOnly<M> {
    open spec fn inv(&self) -> bool {
        self.inner().inv()
    }

    open spec fn spec_size(&self) -> Addr {
        self.inner().spec_size()
    }

    open spec fn contents(&self) -> Seq<Byte> {
        self.inner().contents()
    }

    open spec fn readable(&self, addr: int) -> bool {
        self.inner().readable(addr)
    }

    open spec fn writable(&self, addr: int) -> bool {
        false
    }

    open spec fn read_err(&self, addr: int) -> MemErrorKind {
        self.inner().read_err(addr)
    }

    open spec fn write_err(&self, addr: int) -> MemErrorKind {
        MemErrorKind::ReadOnly { at: addr as usize, globally: true }
    }

    proof fn lemma_inv_bounds(&self) {
        self.inner().lemma_inv_bounds();
    }

    fn get_size(&self) -> (r: Addr) {
        self.mem.get_size()
    }

    fn get(&self, addr: Addr) -> (r: Result<Byte, MemError>) {
        self.mem.get(addr)
    }

    fn set(&mut self, addr: Addr, value: Byte) -> (r: Result<(), MemError>) {
        Err(MemError::new(MemErrorKind::ReadOnly { at: addr, globally: true }))
    }
}

impl<M: MemoryBlock> MemoryBlock32be for ReadOnly<M> {

}

impl<M: MemoryBlock> MemoryBlock32le for ReadOnly<M> {

}

impl<M: MemoryBlock> MemoryMiddlewareCreator<M> for ReadOnly<M> {
    fn new(mem: Box<M>) -> (r: Self)
        ensures
            r.inner() == *mem,
    {
        ReadOnly { mem }
    }
}

/// Law: a read-only wrapper is transparent for reading and opaque for
/// writing.  It exposes exactly its inner block's size, stored bytes and
/// readable addresses; no address at all is writable; and a rejected
/// write reports the restriction as covering the whole block.  Together
/// with the `set` contract this means the inner block's bytes are
/// unchanged after any number of failed write attempts.
pub proof fn lemma_readonly_transparent<M: MemoryBlock>(w: &ReadOnly<M>)
    ensures
        w.spec_size() == w.inner().spec_size(),
        w.contents() == w.inner().contents(),
        forall|a: int| w.readable(a) == w.inner().readable(a),
        forall|a: int| !w.writable(a),
        forall|a: int|
            w.write_err(a) == (MemErrorKind::ReadOnly { at: a as usize, globally: true }),
{
}

} // verus!
