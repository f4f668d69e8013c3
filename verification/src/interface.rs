//! The storage-block contract: the operations every backend or wrapper
//! must support, their error semantics, and the optional multi-byte
//! accessor sub-contracts.

use vstd::prelude::*;

use crate::errors::BlockOp;
use crate::errors::MemError;
use crate::errors::MemErrorKind;

verus! {

/// An address: the unsigned index of one byte-sized storage cell.
pub type Addr = usize;

/// A byte: the unit of storage and transfer.
pub type Byte = u8;

/// The contents of `s` with every index in the inclusive range
/// `[from, to]` replaced by zero.
pub open spec fn zeroed_range(s: Seq<Byte>, from: int, to: int) -> Seq<Byte> {
    Seq::new(s.len(), |i: int| if from <= i <= to { 0u8 } else { s[i] })
}

/// Byte number `i` (0-based, leftmost first) of `v` stored big-endian.
pub open spec fn be_byte(v: u32, i: int) -> Byte
    recommends
        0 <= i < 4,
{
    if i == 0 {
        (v >> 24) as u8
    } else if i == 1 {
        (v >> 16) as u8
    } else if i == 2 {
        (v >> 8) as u8
    } else {
        v as u8
    }
}

/// Byte number `i` (0-based, leftmost first) of `v` stored little-endian.
pub open spec fn le_byte(v: u32, i: int) -> Byte
    recommends
        0 <= i < 4,
{
    be_byte(v, 3 - i)
}

/// The 32-bit value whose big-endian bytes are `b0 b1 b2 b3`.
pub open spec fn u32_from_be(b0: Byte, b1: Byte, b2: Byte, b3: Byte) -> u32 {
    ((b0 as u32) << 24) | ((b1 as u32) << 16) | ((b2 as u32) << 8) | (b3 as u32)
}

/// The 32-bit value whose little-endian bytes are `b0 b1 b2 b3`.
pub open spec fn u32_from_le(b0: Byte, b1: Byte, b2: Byte, b3: Byte) -> u32 {
    u32_from_be(b3, b2, b1, b0)
}

/// The contents of `s` with the first `n` big-endian bytes of `v`
/// written at consecutive addresses starting at `base`.
pub open spec fn be_written(s: Seq<Byte>, base: int, v: u32, n: int) -> Seq<Byte> {
    Seq::new(s.len(), |i: int| if base <= i < base + n { be_byte(v, i - base) } else { s[i] })
}

/// The contents of `s` with the first `n` little-endian bytes of `v`
/// written at consecutive addresses starting at `base`.
pub open spec fn le_written(s: Seq<Byte>, base: int, v: u32, n: int) -> Seq<Byte> {
    Seq::new(s.len(), |i: int| if base <= i < base + n { le_byte(v, i - base) } else { s[i] })
}

/// Law: clearing the inclusive range `[from, to]` makes every address
/// in the range — exactly the one address when `from == to` — read back
/// as zero, and leaves every address outside it untouched.
pub proof fn lemma_delete_clears(s: Seq<Byte>, from: int, to: int, a: int)
    requires
        0 <= a < s.len(),
    ensures
        from <= a <= to ==> zeroed_range(s, from, to)[a] == 0,
        !(from <= a <= to) ==> zeroed_range(s, from, to)[a] == s[a],
{
}

/// Law: reassembling the four big-endian bytes of a value gives the
/// value back.
pub proof fn lemma_be_round_trip(v: u32)
    ensures
        u32_from_be(be_byte(v, 0), be_byte(v, 1), be_byte(v, 2), be_byte(v, 3)) == v,
{
    assert((((v >> 24) as u8 as u32) << 24) | (((v >> 16) as u8 as u32) << 16) | (((v >> 8)
        as u8 as u32) << 8) | (v as u8 as u32) == v) by (bit_vector);
}

/// Law: reassembling the four little-endian bytes of a value gives the
/// value back.
pub proof fn lemma_le_round_trip(v: u32)
    ensures
        u32_from_le(le_byte(v, 0), le_byte(v, 1), le_byte(v, 2), le_byte(v, 3)) == v,
{
    lemma_be_round_trip(v);
}

/// The contract for a finite, byte-addressable storage block.
///
/// A block's abstract state is a sequence of bytes, one per address in
/// `0..=spec_size()`; `spec_size()` is the highest accessible address,
/// not a count.  Which addresses can actually be read or written, and
/// the error kind reported where they cannot, are part of the abstract
/// state as well, so that wrappers can alter them.
pub trait MemoryBlock: Sized {
    /// Well-formedness of the block's representation.
    spec fn inv(&self) -> bool;

    /// The highest accessible address.
    spec fn spec_size(&self) -> Addr;

    /// The stored bytes, one per address in `0..=spec_size()`.
    spec fn contents(&self) -> Seq<Byte>;

    /// Whether `get` at this address succeeds.
    spec fn readable(&self, addr: int) -> bool;

    /// Whether `set` at this address succeeds.
    spec fn writable(&self, addr: int) -> bool;

    /// The error kind `get` reports at an address it cannot read.
    spec fn read_err(&self, addr: int) -> MemErrorKind;

    /// The error kind `set` reports at an address it cannot write.
    spec fn write_err(&self, addr: int) -> MemErrorKind;

    /// Law: a well-formed block stores exactly `spec_size() + 1` bytes,
    /// and no address beyond `spec_size()` (nor any negative one) is
    /// readable or writable.
    proof fn lemma_inv_bounds(&self)
        requires
            self.inv(),
        ensures
            self.contents().len() == self.spec_size() + 1,
            forall|a: int| self.readable(a) ==> 0 <= a <= self.spec_size(),
            forall|a: int| self.writable(a) ==> 0 <= a <= self.spec_size(),
    ;

    /// The block's accessible size: the highest address, NOT the number
    /// of addresses.  Never fails and has no side effects.
    fn get_size(&self) -> (r: Addr)
        requires
            self.inv(),
        ensures
            r == self.spec_size(),
    ;

    /// Read the byte at `addr`.  Succeeds exactly on readable addresses;
    /// an address beyond the size is never readable.
    fn get(&self, addr: Addr) -> (r: Result<Byte, MemError>)
        requires
            self.inv(),
        ensures
            match r {
                Ok(b) => self.readable(addr as int) && b == self.contents()[addr as int],
                Err(e) => !self.readable(addr as int) && e.kind == self.read_err(addr as int),
            },
    ;

    /// Write `value` at `addr`.  Succeeds exactly on writable addresses;
    /// on success the byte is stored and nothing else changes, on
    /// failure the stored bytes are untouched.
    fn set(&mut self, addr: Addr, value: Byte) -> (r: Result<(), MemError>)
        requires
            old(self).inv(),
        ensures
            final(self).inv(),
            final(self).spec_size() == old(self).spec_size(),
            forall|a: int| final(self).readable(a) == old(self).readable(a),
            forall|a: int| final(self).writable(a) == old(self).writable(a),
            forall|a: int| final(self).read_err(a) == old(self).read_err(a),
            forall|a: int| final(self).write_err(a) == old(self).write_err(a),
            match r {
                Ok(_) => old(self).writable(addr as int) && final(self).contents() == old(self).contents().update(addr as int, value),
                Err(e) => !old(self).writable(addr as int) && final(self).contents() == old(self).contents() && e.kind == old(self).write_err(addr as int),
            },
    ;

    /// Clear the inclusive range `[from, to]`: afterwards every address
    /// in the range reads back as zero.  Fails when some address in the
    /// range cannot be written; clearing up to the failing address is
    /// then permitted, and nothing outside the range ever changes.
    ///
    /// The default implementation writes zero to every address in the
    /// range in increasing order, including both endpoints even when
    /// `from == to`, and stops at the first failure, which it reports
    /// wrapped with the address being cleared.
    fn delete(&mut self, from: Addr, to: Addr) -> (r: Result<(), MemError>)
        requires
            old(self).inv(),
            from <= to,
        ensures
            final(self).inv(),
            final(self).spec_size() == old(self).spec_size(),
            forall|a: int| final(self).readable(a) == old(self).readable(a),
            forall|a: int| final(self).writable(a) == old(self).writable(a),
            forall|a: int| final(self).read_err(a) == old(self).read_err(a),
            forall|a: int| final(self).write_err(a) == old(self).write_err(a),
            match r {
                Ok(_) => (forall|a: int| from <= a <= to ==> old(self).writable(a))
                    && final(self).contents() == zeroed_range(
                    old(self).contents(),
                    from as int,
                    to as int,
                ),
                Err(e) => (exists|k: int|
                    from <= k <= to && !old(self).writable(k) && e.kind == old(self).write_err(k))
                    && (forall|a: int|
                    0 <= a < final(self).contents().len() && !(from <= a <= to) ==> final(self).contents()[a] == old(self).contents()[a]) && (forall|a: int|
                    from <= a <= to && 0 <= a < final(self).contents().len() ==> (final(self).contents()[a] == old(self).contents()[a] || final(self).contents()[a] == 0))
                    && final(self).contents().len() == old(self).contents().len(),
            },
        default_ensures
            match r {
                Ok(_) => true,
                Err(e) => exists|k: int|
                    #![auto]
                    from <= k <= to && !old(self).writable(k) && (forall|a: int|
                        from <= a < k ==> old(self).writable(a)) && e.kind == old(self).write_err(k)
                        && e.trace@.len() > 0 && e.trace@.last() == (BlockOp::Delete {
                        at: k as usize,
                    }) && final(self).contents() == zeroed_range(
                        old(self).contents(),
                        from as int,
                        k - 1,
                    ),
            },
    {
        proof {
            assert(old(self).contents() =~= zeroed_range(
                old(self).contents(),
                from as int,
                from - 1,
            ));
        }
        let mut i: usize = from;
        loop
            invariant_except_break
                self.contents() == zeroed_range(old(self).contents(), from as int, i - 1),
            invariant
                self.inv(),
                self.spec_size() == old(self).spec_size(),
                forall|a: int| self.readable(a) == old(self).readable(a),
                forall|a: int| self.writable(a) == old(self).writable(a),
                forall|a: int| self.read_err(a) == old(self).read_err(a),
                forall|a: int| self.write_err(a) == old(self).write_err(a),
                from <= i <= to,
                forall|a: int| from <= a < i ==> old(self).writable(a),
            ensures
                self.inv(),
                self.spec_size() == old(self).spec_size(),
                forall|a: int| self.readable(a) == old(self).readable(a),
                forall|a: int| self.writable(a) == old(self).writable(a),
                forall|a: int| self.read_err(a) == old(self).read_err(a),
                forall|a: int| self.write_err(a) == old(self).write_err(a),
                forall|a: int| from <= a <= to ==> old(self).writable(a),
                self.contents() == zeroed_range(old(self).contents(), from as int, to as int),
            decreases to - i,
        {
            let ghost pre = *self;
            proof {
                pre.lemma_inv_bounds();
            }
            match self.set(i, 0) {
                Ok(_) => {
                    proof {
                        assert(self.contents() =~= zeroed_range(
                            old(self).contents(),
                            from as int,
                            i as int,
                        ));
                    }
                },
                Err(e) => {
                    return Err(e.with_context(BlockOp::Delete { at: i }));
                },
            }
            if i == to {
                break ;
            }
            i = i + 1;
        }
        Ok(())
    }

    /// Force any buffered writes out.  The default is a no-op success;
    /// a caching backend overrides it, and a failure then means the
    /// durability guarantee could not be met.  The logical contents
    /// never change.
    fn flush(&mut self) -> (r: Result<(), MemError>)
        requires
            old(self).inv(),
        ensures
            final(self).inv(),
            final(self).spec_size() == old(self).spec_size(),
            forall|a: int| final(self).readable(a) == old(self).readable(a),
            forall|a: int| final(self).writable(a) == old(self).writable(a),
            forall|a: int| final(self).read_err(a) == old(self).read_err(a),
            forall|a: int| final(self).write_err(a) == old(self).write_err(a),
            final(self).contents() == old(self).contents(),
        default_ensures
            r is Ok,
    {
        Ok(())
    }
}

/// Law: no address beyond a block's size is readable or writable, so
/// `get` and `set` there fail rather than silently succeed or wrap.
pub proof fn lemma_out_of_range_fails<T: MemoryBlock>(m: &T, a: int)
    requires
        m.inv(),
        a > m.spec_size(),
    ensures
        !m.readable(a),
        !m.writable(a),
{
    m.lemma_inv_bounds();
}

/// Law: write-then-read consistency.  A successful `set(addr, b)` turns
/// the stored bytes of `pre` into those of `post`; reading `post` at
/// `addr` then yields exactly `b`.
pub proof fn lemma_write_then_read<T: MemoryBlock>(pre: &T, post: &T, addr: Addr, b: Byte)
    requires
        pre.inv(),
        addr <= pre.spec_size(),
        post.contents() == pre.contents().update(addr as int, b),
    ensures
        post.contents()[addr as int] == b,
{
    pre.lemma_inv_bounds();
}

/// Sub-contract for blocks read and written through a 32-bit big-endian
/// window: four consecutive bytes, most significant first, implemented
/// generically in terms of four `get`/`set` calls.
pub trait MemoryBlock32be: MemoryBlock {
    /// Store `data` as four big-endian bytes at `addr..=addr + 3`.
    /// Writing stops at the first unwritable address; the failure is
    /// reported wrapped with the operation name and the byte number.
    fn set32be(&mut self, addr: Addr, data: u32) -> (r: Result<(), MemError>)
        requires
            old(self).inv(),
            addr + 3 <= usize::MAX,
        ensures
            final(self).inv(),
            final(self).spec_size() == old(self).spec_size(),
            forall|a: int| final(self).readable(a) == old(self).readable(a),
            forall|a: int| final(self).writable(a) == old(self).writable(a),
            forall|a: int| final(self).read_err(a) == old(self).read_err(a),
            forall|a: int| final(self).write_err(a) == old(self).write_err(a),
            match r {
                Ok(_) => old(self).writable(addr as int) && old(self).writable(addr + 1) && old(
                    self,
                ).writable(addr + 2) && old(self).writable(addr + 3) && final(self).contents()
                    == be_written(old(self).contents(), addr as int, data, 4),
                Err(e) => {
                    &&& e.trace@.len() > 0
                    &&& if !old(self).writable(addr as int) {
                        &&& e.kind == old(self).write_err(addr as int)
                        &&& e.trace@.last() == (BlockOp::Set32be { base: addr, byte: 0 })
                        &&& final(self).contents() == old(self).contents()
                    } else if !old(self).writable(addr + 1) {
                        &&& e.kind == old(self).write_err(addr + 1)
                        &&& e.trace@.last() == (BlockOp::Set32be { base: addr, byte: 1 })
                        &&& final(self).contents() == be_written(old(self).contents(), addr as int, data, 1)
                    } else if !old(self).writable(addr + 2) {
                        &&& e.kind == old(self).write_err(addr + 2)
                        &&& e.trace@.last() == (BlockOp::Set32be { base: addr, byte: 2 })
                        &&& final(self).contents() == be_written(old(self).contents(), addr as int, data, 2)
                    } else {
                        &&& !old(self).writable(addr + 3)
                        &&& e.kind == old(self).write_err(addr + 3)
                        &&& e.trace@.last() == (BlockOp::Set32be { base: addr, byte: 3 })
                        &&& final(self).contents() == be_written(old(self).contents(), addr as int, data, 3)
                    }
                },
            },
    {
        proof {
            old(self).lemma_inv_bounds();
        }
        let b0: u8 = #[verifier::truncate] ((data >> 24) as u8);
        let b1: u8 = #[verifier::truncate] ((data >> 16) as u8);
        let b2: u8 = #[verifier::truncate] ((data >> 8) as u8);
        let b3: u8 = #[verifier::truncate] (data as u8);
        if let Err(e) = self.set(addr, b0) {
            proof {
                assert(self.contents() =~= be_written(old(self).contents(), addr as int, data, 0));
            }
            return Err(e.with_context(BlockOp::Set32be { base: addr, byte: 0 }));
        }
        proof {
            assert(self.contents() =~= be_written(old(self).contents(), addr as int, data, 1));
        }
        if let Err(e) = self.set(addr + 1, b1) {
            return Err(e.with_context(BlockOp::Set32be { base: addr, byte: 1 }));
        }
        proof {
            assert(self.contents() =~= be_written(old(self).contents(), addr as int, data, 2));
        }
        if let Err(e) = self.set(addr + 2, b2) {
            return Err(e.with_context(BlockOp::Set32be { base: addr, byte: 2 }));
        }
        proof {
            assert(self.contents() =~= be_written(old(self).contents(), addr as int, data, 3));
        }
        if let Err(e) = self.set(addr + 3, b3) {
            return Err(e.with_context(BlockOp::Set32be { base: addr, byte: 3 }));
        }
        proof {
            assert(self.contents() =~= be_written(old(self).contents(), addr as int, data, 4));
        }
        Ok(())
    }

    /// Load the four bytes at `addr..=addr + 3` as one big-endian 32-bit
    /// value.  Reading stops at the first unreadable address; the
    /// failure is reported wrapped with the operation name and the byte
    /// number.
    fn get32be(&self, addr: Addr) -> (r: Result<u32, MemError>)
        requires
            self.inv(),
            addr + 3 <= usize::MAX,
        ensures
            match r {
                Ok(v) => self.readable(addr as int) && self.readable(addr + 1) && self.readable(
                    addr + 2,
                ) && self.readable(addr + 3) && v == u32_from_be(
                    self.contents()[addr as int],
                    self.contents()[addr + 1],
                    self.contents()[addr + 2],
                    self.contents()[addr + 3],
                ),
                Err(e) => {
                    &&& e.trace@.len() > 0
                    &&& if !self.readable(addr as int) {
                        &&& e.kind == self.read_err(addr as int)
                        &&& e.trace@.last() == (BlockOp::Get32be { base: addr, byte: 0 })
                    } else if !self.readable(addr + 1) {
                        &&& e.kind == self.read_err(addr + 1)
                        &&& e.trace@.last() == (BlockOp::Get32be { base: addr, byte: 1 })
                    } else if !self.readable(addr + 2) {
                        &&& e.kind == self.read_err(addr + 2)
                        &&& e.trace@.last() == (BlockOp::Get32be { base: addr, byte: 2 })
                    } else {
                        &&& !self.readable(addr + 3)
                        &&& e.kind == self.read_err(addr + 3)
                        &&& e.trace@.last() == (BlockOp::Get32be { base: addr, byte: 3 })
                    }
                },
            },
    {
        let b0 = match self.get(addr) {
            Ok(b) => b,
            Err(e) => return Err(e.with_context(BlockOp::Get32be { base: addr, byte: 0 })),
        };
        let b1 = match self.get(addr + 1) {
            Ok(b) => b,
            Err(e) => return Err(e.with_context(BlockOp::Get32be { base: addr, byte: 1 })),
        };
        let b2 = match self.get(addr + 2) {
            Ok(b) => b,
            Err(e) => return Err(e.with_context(BlockOp::Get32be { base: addr, byte: 2 })),
        };
        let b3 = match self.get(addr + 3) {
            Ok(b) => b,
            Err(e) => return Err(e.with_context(BlockOp::Get32be { base: addr, byte: 3 })),
        };
        Ok(((b0 as u32) << 24) | ((b1 as u32) << 16) | ((b2 as u32) << 8) | (b3 as u32))
    }
}

/// Sub-contract for blocks read and written through a 32-bit
/// little-endian window: four consecutive bytes, least significant
/// first, implemented generically in terms of four `get`/`set` calls.
pub trait MemoryBlock32le: MemoryBlock {
    /// Store `data` as four little-endian bytes at `addr..=addr + 3`.
    /// Writing stops at the first unwritable address; the failure is
    /// reported wrapped with the operation name and the byte number.
    fn set32le(&mut self, addr: Addr, data: u32) -> (r: Result<(), MemError>)
        requires
            old(self).inv(),
            addr + 3 <= usize::MAX,
        ensures
            final(self).inv(),
            final(self).spec_size() == old(self).spec_size(),
            forall|a: int| final(self).readable(a) == old(self).readable(a),
            forall|a: int| final(self).writable(a) == old(self).writable(a),
            forall|a: int| final(self).read_err(a) == old(self).read_err(a),
            forall|a: int| final(self).write_err(a) == old(self).write_err(a),
            match r {
                Ok(_) => old(self).writable(addr as int) && old(self).writable(addr + 1) && old(
                    self,
                ).writable(addr + 2) && old(self).writable(addr + 3) && final(self).contents()
                    == le_written(old(self).contents(), addr as int, data, 4),
                Err(e) => {
                    &&& e.trace@.len() > 0
                    &&& if !old(self).writable(addr as int) {
                        &&& e.kind == old(self).write_err(addr as int)
                        &&& e.trace@.last() == (BlockOp::Set32le { base: addr, byte: 0 })
                        &&& final(self).contents() == old(self).contents()
                    } else if !old(self).writable(addr + 1) {
                        &&& e.kind == old(self).write_err(addr + 1)
                        &&& e.trace@.last() == (BlockOp::Set32le { base: addr, byte: 1 })
                        &&& final(self).contents() == le_written(old(self).contents(), addr as int, data, 1)
                    } else if !old(self).writable(addr + 2) {
                        &&& e.kind == old(self).write_err(addr + 2)
                        &&& e.trace@.last() == (BlockOp::Set32le { base: addr, byte: 2 })
                        &&& final(self).contents() == le_written(old(self).contents(), addr as int, data, 2)
                    } else {
                        &&& !old(self).writable(addr + 3)
                        &&& e.kind == old(self).write_err(addr + 3)
                        &&& e.trace@.last() == (BlockOp::Set32le { base: addr, byte: 3 })
                        &&& final(self).contents() == le_written(old(self).contents(), addr as int, data, 3)
                    }
                },
            },
    {
        proof {
            old(self).lemma_inv_bounds();
        }
        let b0: u8 = #[verifier::truncate] (data as u8);
        let b1: u8 = #[verifier::truncate] ((data >> 8) as u8);
        let b2: u8 = #[verifier::truncate] ((data >> 16) as u8);
        let b3: u8 = #[verifier::truncate] ((data >> 24) as u8);
        if let Err(e) = self.set(addr, b0) {
            proof {
                assert(self.contents() =~= le_written(old(self).contents(), addr as int, data, 0));
            }
            return Err(e.with_context(BlockOp::Set32le { base: addr, byte: 0 }));
        }
        proof {
            assert(self.contents() =~= le_written(old(self).contents(), addr as int, data, 1));
        }
        if let Err(e) = self.set(addr + 1, b1) {
            return Err(e.with_context(BlockOp::Set32le { base: addr, byte: 1 }));
        }
        proof {
            assert(self.contents() =~= le_written(old(self).contents(), addr as int, data, 2));
        }
        if let Err(e) = self.set(addr + 2, b2) {
            return Err(e.with_context(BlockOp::Set32le { base: addr, byte: 2 }));
        }
        proof {
            assert(self.contents() =~= le_written(old(self).contents(), addr as int, data, 3));
        }
        if let Err(e) = self.set(addr + 3, b3) {
            return Err(e.with_context(BlockOp::Set32le { base: addr, byte: 3 }));
        }
        proof {
            assert(self.contents() =~= le_written(old(self).contents(), addr as int, data, 4));
        }
        Ok(())
    }

    /// Load the four bytes at `addr..=addr + 3` as one little-endian
    /// 32-bit value.  Reading stops at the first unreadable address; the
    /// failure is reported wrapped with the operation name and the byte
    /// number.
    fn get32le(&self, addr: Addr) -> (r: Result<u32, MemError>)
        requires
            self.inv(),
            addr + 3 <= usize::MAX,
        ensures
            match r {
                Ok(v) => self.readable(addr as int) && self.readable(addr + 1) && self.readable(
                    addr + 2,
                ) && self.readable(addr + 3) && v == u32_from_le(
                    self.contents()[addr as int],
                    self.contents()[addr + 1],
                    self.contents()[addr + 2],
                    self.contents()[addr + 3],
                ),
                Err(e) => {
                    &&& e.trace@.len() > 0
                    &&& if !self.readable(addr as int) {
                        &&& e.kind == self.read_err(addr as int)
                        &&& e.trace@.last() == (BlockOp::Get32le { base: addr, byte: 0 })
                    } else if !self.readable(addr + 1) {
                        &&& e.kind == self.read_err(addr + 1)
                        &&& e.trace@.last() == (BlockOp::Get32le { base: addr, byte: 1 })
                    } else if !self.readable(addr + 2) {
                        &&& e.kind == self.read_err(addr + 2)
                        &&& e.trace@.last() == (BlockOp::Get32le { base: addr, byte: 2 })
                    } else {
                        &&& !self.readable(addr + 3)
                        &&& e.kind == self.read_err(addr + 3)
                        &&& e.trace@.last() == (BlockOp::Get32le { base: addr, byte: 3 })
                    }
                },
            },
    {
        let b0 = match self.get(addr) {
            Ok(b) => b,
            Err(e) => return Err(e.with_context(BlockOp::Get32le { base: addr, byte: 0 })),
        };
        let b1 = match self.get(addr + 1) {
            Ok(b) => b,
            Err(e) => return Err(e.with_context(BlockOp::Get32le { base: addr, byte: 1 })),
        };
        let b2 = match self.get(addr + 2) {
            Ok(b) => b,
            Err(e) => return Err(e.with_context(BlockOp::Get32le { base: addr, byte: 2 })),
        };
        let b3 = match self.get(addr + 3) {
            Ok(b) => b,
            Err(e) => return Err(e.with_context(BlockOp::Get32le { base: addr, byte: 3 })),
        };
        Ok(((b3 as u32) << 24) | ((b2 as u32) << 16) | ((b1 as u32) << 8) | (b0 as u32))
    }
}

/// Construction capability for backends: `new(size)` returns an
/// initialized block whose every address in `0..=size` is defined,
/// writable and initially zero.  `size` is the highest address, NOT the
/// number of addresses, so `size + 1` cells must be representable.
pub trait MemoryCreator<T: MemoryBlock> {
    fn new(size: Addr) -> (r: T)
        requires
            size < usize::MAX,
        ensures
            r.inv(),
            r.spec_size() == size,
            forall|a: int| 0 <= a <= size ==> r.readable(a),
            forall|a: int| 0 <= a <= size ==> r.writable(a),
            forall|a: int| 0 <= a <= size ==> r.contents()[a] == 0,
    ;
}

/// Construction capability for middleware: wrap an already-constructed
/// block, taking exclusive ownership of it, and expose the same
/// contract with altered semantics.  A wrapper never changes the size
/// it exposes.
pub trait MemoryMiddlewareCreator<M: MemoryBlock>: MemoryBlock {
    fn new(mem: Box<M>) -> (r: Self)
        requires
            mem.inv(),
        ensures
            r.inv(),
            r.spec_size() == mem.spec_size(),
    ;
}

} // verus!
