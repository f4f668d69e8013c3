//! Bulk-transfer helpers: `copy` and `copy_at`, generic algorithms over
//! any two values satisfying the [`MemoryBlock`] contract.

use vstd::prelude::*;

use crate::errors::BlockOp;
use crate::errors::MemError;
use crate::errors::MemErrorKind;
use crate::interface::Addr;
use crate::interface::Byte;
use crate::interface::MemoryBlock;

verus! {

/// The contents of `dst` with `n` bytes of `src` copied in: byte
/// `src_start + k` of `src` lands at address `dst_start + k`, for each
/// `k` in `0..n`; everything else keeps its old value.
pub open spec fn overwritten_range(
    dst: Seq<Byte>,
    src: Seq<Byte>,
    src_start: int,
    dst_start: int,
    n: int,
) -> Seq<Byte> {
    Seq::new(
        dst.len(),
        |i: int|
            if dst_start <= i < dst_start + n {
                src[src_start + (i - dst_start)]
            } else {
                dst[i]
            },
    )
}

/// Law: after a transfer of `n` bytes, the destination agrees with the
/// source across the window and is untouched outside it: address
/// `dst_start + k` holds the source's byte `src_start + k` for each `k`
/// in `0..n`, and every other address keeps its old byte.
pub proof fn lemma_transfer_agrees(
    dst: Seq<Byte>,
    src: Seq<Byte>,
    src_start: int,
    dst_start: int,
    n: int,
    a: int,
)
    requires
        0 <= a < dst.len(),
    ensures
        dst_start <= a < dst_start + n ==> overwritten_range(dst, src, src_start, dst_start, n)[a]
            == src[src_start + (a - dst_start)],
        !(dst_start <= a < dst_start + n) ==> overwritten_range(dst, src, src_start, dst_start, n)[a]
            == dst[a],
{
}

/// How a transfer loop that moves `src[src_start..]` to
/// `dst0[dst_start..]` looks when it aborts on byte number `k`: the
/// first `k` bytes went through, byte `k` could not be read from `src`
/// or not be written to `dst0`, the error carries the failing
/// primitive's kind, and `dst1` (the destination afterwards) holds
/// exactly the bytes already transferred.
pub open spec fn transfer_failed_at<T: MemoryBlock>(
    src: T,
    dst0: T,
    dst1: T,
    e: MemError,
    src_start: int,
    dst_start: int,
    k: int,
) -> bool {
    &&& (forall|a: int| src_start <= a < src_start + k ==> src.readable(a))
    &&& (forall|a: int| dst_start <= a < dst_start + k ==> dst0.writable(a))
    &&& !(src.readable(src_start + k) && dst0.writable(dst_start + k))
    &&& e.kind == (if !src.readable(src_start + k) {
        src.read_err(src_start + k)
    } else {
        dst0.write_err(dst_start + k)
    })
    &&& dst1.contents() == overwritten_range(dst0.contents(), src.contents(), src_start, dst_start, k)
}

/// Copy all of the `src` memory block to `dst`: every byte at addresses
/// `0..=src.get_size()` lands at the same address in `dst`.  Fails with
/// `TooBig` before touching a byte when `src` does not fit; a failing
/// read or write mid-way aborts the transfer with the primitive's error
/// wrapped in copy context, leaving the bytes already written in place.
/// Returns `src`'s size on success; bytes of `dst` beyond it are
/// untouched.
pub fn copy<T: MemoryBlock>(src: &T, dst: &mut T) -> (r: Result<Addr, MemError>)
    requires
        src.inv(),
        old(dst).inv(),
    ensures
        final(dst).inv(),
        final(dst).spec_size() == old(dst).spec_size(),
        forall|a: int| final(dst).readable(a) == old(dst).readable(a),
        forall|a: int| final(dst).writable(a) == old(dst).writable(a),
        forall|a: int| final(dst).read_err(a) == old(dst).read_err(a),
        forall|a: int| final(dst).write_err(a) == old(dst).write_err(a),
        match r {
            Ok(n) => {
                &&& n == src.spec_size()
                &&& src.spec_size() <= old(dst).spec_size()
                &&& (forall|a: int| 0 <= a <= src.spec_size() ==> src.readable(a))
                &&& (forall|a: int| 0 <= a <= src.spec_size() ==> old(dst).writable(a))
                &&& final(dst).contents() == overwritten_range(
                    old(dst).contents(),
                    src.contents(),
                    0,
                    0,
                    src.spec_size() + 1,
                )
            },
            Err(e) => if src.spec_size() > old(dst).spec_size() {
                &&& e.kind == (MemErrorKind::TooBig {
                    given: src.spec_size(),
                    max: old(dst).spec_size(),
                })
                &&& e.trace@ == Seq::<BlockOp>::empty()
                &&& final(dst).contents() == old(dst).contents()
            } else {
                &&& e.trace@.len() > 0
                &&& e.trace@.last() == BlockOp::Copy
                &&& exists|k: int|
                    0 <= k <= src.spec_size() && transfer_failed_at(
                        *src,
                        *old(dst),
                        *final(dst),
                        e,
                        0,
                        0,
                        k,
                    )
            },
        },
{
    proof {
        src.lemma_inv_bounds();
        old(dst).lemma_inv_bounds();
    }
    let src_sz = src.get_size();
    let dst_sz = dst.get_size();
    if src_sz > dst_sz {
        return Err(MemError::new(MemErrorKind::TooBig { given: src_sz, max: dst_sz }));
    }
    proof {
        assert(dst.contents() =~= overwritten_range(old(dst).contents(), src.contents(), 0, 0, 0));
    }
    let mut i: usize = 0;
    loop
        invariant_except_break
            dst.contents() == overwritten_range(
                old(dst).contents(),
                src.contents(),
                0,
                0,
                i as int,
            ),
        invariant
            src.inv(),
            dst.inv(),
            dst.spec_size() == old(dst).spec_size(),
            forall|a: int| dst.readable(a) == old(dst).readable(a),
            forall|a: int| dst.writable(a) == old(dst).writable(a),
            forall|a: int| dst.read_err(a) == old(dst).read_err(a),
            forall|a: int| dst.write_err(a) == old(dst).write_err(a),
            0 <= i <= src_sz,
            src_sz == src.spec_size(),
            dst_sz == old(dst).spec_size(),
            src_sz <= dst_sz,
            src.contents().len() == src_sz + 1,
            old(dst).contents().len() == dst_sz + 1,
            forall|a: int| 0 <= a < i ==> src.readable(a),
            forall|a: int| 0 <= a < i ==> old(dst).writable(a),
        ensures
            dst.inv(),
            dst.spec_size() == old(dst).spec_size(),
            forall|a: int| dst.readable(a) == old(dst).readable(a),
            forall|a: int| dst.writable(a) == old(dst).writable(a),
            forall|a: int| dst.read_err(a) == old(dst).read_err(a),
            forall|a: int| dst.write_err(a) == old(dst).write_err(a),
            forall|a: int| 0 <= a <= src_sz ==> src.readable(a),
            forall|a: int| 0 <= a <= src_sz ==> old(dst).writable(a),
            dst.contents() == overwritten_range(
                old(dst).contents(),
                src.contents(),
                0,
                0,
                src_sz + 1,
            ),
        decreases src_sz - i,
    {
        let b = match src.get(i) {
            Ok(b) => b,
            Err(e) => {
                let e2 = e.with_context(BlockOp::Copy);
                proof {
                    assert(transfer_failed_at(*src, *old(dst), *dst, e2, 0, 0, i as int));
                }
                return Err(e2);
            },
        };
        match dst.set(i, b) {
            Ok(_) => {},
            Err(e) => {
                let e2 = e.with_context(BlockOp::Copy);
                proof {
                    assert(transfer_failed_at(*src, *old(dst), *dst, e2, 0, 0, i as int));
                }
                return Err(e2);
            },
        }
        proof {
            assert(dst.contents() =~= overwritten_range(
                old(dst).contents(),
                src.contents(),
                0,
                0,
                i + 1,
            ));
        }
        if i == src_sz {
            break ;
        }
        i = i + 1;
    }
    Ok(src_sz)
}

/// Copy the inclusive source range between `from` and `to` (in either
/// order: the lower bound is always the start) from `src` into `dst`,
/// starting at address `pos` and preserving relative order.  Both bound
/// checks happen before any byte moves and fail with `TooBig`; a
/// failing read or write mid-way aborts the transfer with the
/// primitive's error wrapped in copy context.  Returns the distance
/// `max(from, to) - min(from, to)` on success (one less than the number
/// of bytes moved, both endpoints being included).
pub fn copy_at<T: MemoryBlock>(src: &T, dst: &mut T, from: Addr, to: Addr, pos: Addr) -> (r:
    Result<Addr, MemError>)
    requires
        src.inv(),
        old(dst).inv(),
        pos + vstd::math::max(from as int, to as int) - vstd::math::min(from as int, to as int)
            <= usize::MAX,
    ensures
        final(dst).inv(),
        final(dst).spec_size() == old(dst).spec_size(),
        forall|a: int| final(dst).readable(a) == old(dst).readable(a),
        forall|a: int| final(dst).writable(a) == old(dst).writable(a),
        forall|a: int| final(dst).read_err(a) == old(dst).read_err(a),
        forall|a: int| final(dst).write_err(a) == old(dst).write_err(a),
        match r {
            Ok(n) => {
                let lo: int = vstd::math::min(from as int, to as int);
                let hi: int = vstd::math::max(from as int, to as int);
                &&& n == hi - lo
                &&& hi <= src.spec_size()
                &&& pos + (hi - lo) <= old(dst).spec_size()
                &&& (forall|a: int| lo <= a <= hi ==> src.readable(a))
                &&& (forall|a: int| pos <= a <= pos + (hi - lo) ==> old(dst).writable(a))
                &&& final(dst).contents() == overwritten_range(
                    old(dst).contents(),
                    src.contents(),
                    lo,
                    pos as int,
                    hi - lo + 1,
                )
            },
            Err(e) => {
                let lo: int = vstd::math::min(from as int, to as int);
                let hi: int = vstd::math::max(from as int, to as int);
                if hi > src.spec_size() {
                    &&& e.kind == (MemErrorKind::TooBig { given: hi as usize, max: src.spec_size() })
                    &&& e.trace@ == Seq::<BlockOp>::empty()
                    &&& final(dst).contents() == old(dst).contents()
                } else if pos + (hi - lo) > old(dst).spec_size() {
                    &&& e.kind == (MemErrorKind::TooBig {
                        given: (pos + (hi - lo)) as usize,
                        max: old(dst).spec_size(),
                    })
                    &&& e.trace@ == Seq::<BlockOp>::empty()
                    &&& final(dst).contents() == old(dst).contents()
                } else {
                    &&& e.trace@.len() > 0
                    &&& e.trace@.last() == BlockOp::CopyAt
                    &&& exists|k: int|
                        0 <= k <= hi - lo && transfer_failed_at(
                            *src,
                            *old(dst),
                            *final(dst),
                            e,
                            lo,
                            pos as int,
                            k,
                        )
                }
            },
        },
{
    proof {
        src.lemma_inv_bounds();
        old(dst).lemma_inv_bounds();
    }
    let src_sz = src.get_size();
    let dst_sz = dst.get_size();
    let lowest = if from <= to {
        from
    } else {
        to
    };
    let highest = if from <= to {
        to
    } else {
        from
    };
    let numbytes = highest - lowest;
    if highest > src_sz {
        return Err(MemError::new(MemErrorKind::TooBig { given: highest, max: src_sz }));
    }
    if pos + numbytes > dst_sz {
        return Err(MemError::new(MemErrorKind::TooBig { given: pos + numbytes, max: dst_sz }));
    }
    proof {
        assert(dst.contents() =~= overwritten_range(
            old(dst).contents(),
            src.contents(),
            lowest as int,
            pos as int,
            0,
        ));
    }
    let mut j: usize = 0;
    loop
        invariant_except_break
            dst.contents() == overwritten_range(
                old(dst).contents(),
                src.contents(),
                lowest as int,
                pos as int,
                j as int,
            ),
        invariant
            src.inv(),
            dst.inv(),
            dst.spec_size() == old(dst).spec_size(),
            forall|a: int| dst.readable(a) == old(dst).readable(a),
            forall|a: int| dst.writable(a) == old(dst).writable(a),
            forall|a: int| dst.read_err(a) == old(dst).read_err(a),
            forall|a: int| dst.write_err(a) == old(dst).write_err(a),
            lowest == vstd::math::min(from as int, to as int),
            highest == vstd::math::max(from as int, to as int),
            numbytes == highest - lowest,
            0 <= j <= numbytes,
            src_sz == src.spec_size(),
            dst_sz == old(dst).spec_size(),
            highest <= src_sz,
            pos + numbytes <= dst_sz,
            src.contents().len() == src_sz + 1,
            old(dst).contents().len() == dst_sz + 1,
            forall|a: int| lowest <= a < lowest + j ==> src.readable(a),
            forall|a: int| pos <= a < pos + j ==> old(dst).writable(a),
        ensures
            dst.inv(),
            dst.spec_size() == old(dst).spec_size(),
            forall|a: int| dst.readable(a) == old(dst).readable(a),
            forall|a: int| dst.writable(a) == old(dst).writable(a),
            forall|a: int| dst.read_err(a) == old(dst).read_err(a),
            forall|a: int| dst.write_err(a) == old(dst).write_err(a),
            forall|a: int| lowest <= a <= highest ==> src.readable(a),
            forall|a: int| pos <= a <= pos + numbytes ==> old(dst).writable(a),
            dst.contents() == overwritten_range(
                old(dst).contents(),
                src.contents(),
                lowest as int,
                pos as int,
                numbytes + 1,
            ),
        decreases numbytes - j,
    {
        let b = match src.get(lowest + j) {
            Ok(b) => b,
            Err(e) => {
                let e2 = e.with_context(BlockOp::CopyAt);
                proof {
                    assert(transfer_failed_at(
                        *src,
                        *old(dst),
                        *dst,
                        e2,
                        lowest as int,
                        pos as int,
                        j as int,
                    ));
                }
                return Err(e2);
            },
        };
        match dst.set(pos + j, b) {
            Ok(_) => {},
            Err(e) => {
                let e2 = e.with_context(BlockOp::CopyAt);
                proof {
                    assert(transfer_failed_at(
                        *src,
                        *old(dst),
                        *dst,
                        e2,
                        lowest as int,
                        pos as int,
                        j as int,
                    ));
                }
                return Err(e2);
            },
        }
        proof {
            assert(dst.contents() =~= overwritten_range(
                old(dst).contents(),
                src.contents(),
                lowest as int,
                pos as int,
                j + 1,
            ));
        }
        if j == numbytes {
            break ;
        }
        j = j + 1;
    }
    Ok(numbytes)
}

} // verus!
