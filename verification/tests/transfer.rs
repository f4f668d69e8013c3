//! Tests for the generic bulk-transfer helpers.

use mem::BlockOp;
use mem::MemError;
use mem::MemErrorKind;
use mem::MemVector;
use mem::MemoryBlock;
use mem::MemoryCreator;
use mem::MemoryMiddlewareCreator;
use mem::ReadOnly;
use mem::copy;
use mem::copy_at;

#[test]
fn copy_into_larger_block() {
    let mut src = MemVector::new(0x0F);
    for i in 0..0x10 {
        src.set(i, (i * 3 + 1) as u8).unwrap();
    }
    let mut dst = MemVector::new(0x1F);
    let n = copy(&src, &mut dst).unwrap();
    assert_eq!(0x0F, n);
    for i in 0..0x10 {
        assert_eq!(src.get(i).unwrap(), dst.get(i).unwrap());
    }
    for i in 0x10..0x20 {
        assert_eq!(0, dst.get(i).unwrap());
    }
}

#[test]
fn copy_too_big_leaves_dst_unchanged() {
    let mut src = MemVector::new(8);
    for i in 0..9 {
        src.set(i, 7).unwrap();
    }
    let mut dst = MemVector::new(3);
    dst.set(0, 42).unwrap();
    let e = copy(&src, &mut dst).unwrap_err();
    assert_eq!(MemErrorKind::TooBig { given: 8, max: 3 }, e.kind);
    assert!(e.trace.is_empty());
    assert_eq!(42, dst.get(0).unwrap());
    for i in 1..4 {
        assert_eq!(0, dst.get(i).unwrap());
    }
}

#[test]
fn copy_error_context() {
    let mut inner_src = MemVector::new(3);
    inner_src.set(0, 5).unwrap();
    let src: ReadOnly<MemVector> = ReadOnly::new(Box::new(inner_src));
    let mut dst: ReadOnly<MemVector> = ReadOnly::new(Box::new(MemVector::new(3)));
    let e = copy(&src, &mut dst).unwrap_err();
    assert_eq!(MemErrorKind::ReadOnly { at: 0, globally: true }, e.kind);
    assert_eq!(Some(&BlockOp::Copy), e.trace.last());
    assert_eq!(5, src.get(0).unwrap());
    assert_eq!(0, dst.get(0).unwrap());
}

#[test]
fn copy_at_moves_range_in_either_order() {
    let mut src = MemVector::new(9);
    for i in 0..10 {
        src.set(i, (10 + i) as u8).unwrap();
    }
    let mut dst = MemVector::new(9);
    let n = copy_at(&src, &mut dst, 2, 5, 0).unwrap();
    assert_eq!(3, n);
    for k in 0..4 {
        assert_eq!((12 + k) as u8, dst.get(k).unwrap());
    }
    assert_eq!(0, dst.get(4).unwrap());

    let mut dst2 = MemVector::new(9);
    let n2 = copy_at(&src, &mut dst2, 5, 2, 4).unwrap();
    assert_eq!(3, n2);
    for k in 0..4 {
        assert_eq!((12 + k) as u8, dst2.get(4 + k).unwrap());
    }
    assert_eq!(0, dst2.get(3).unwrap());
    assert_eq!(0, dst2.get(8).unwrap());
}

#[test]
fn copy_at_single_byte() {
    let mut src = MemVector::new(5);
    src.set(3, 77).unwrap();
    let mut dst = MemVector::new(5);
    let n = copy_at(&src, &mut dst, 3, 3, 1).unwrap();
    assert_eq!(0, n);
    assert_eq!(77, dst.get(1).unwrap());
    assert_eq!(0, dst.get(0).unwrap());
    assert_eq!(0, dst.get(2).unwrap());
}

#[test]
fn copy_at_bound_errors() {
    let src = MemVector::new(5);
    let mut dst = MemVector::new(5);
    let e = copy_at(&src, &mut dst, 4, 6, 0).unwrap_err();
    assert_eq!(MemErrorKind::TooBig { given: 6, max: 5 }, e.kind);
    assert!(e.trace.is_empty());
    let e = copy_at(&src, &mut dst, 1, 3, 4).unwrap_err();
    assert_eq!(MemErrorKind::TooBig { given: 6, max: 5 }, e.kind);
    for i in 0..6 {
        assert_eq!(0, dst.get(i).unwrap());
    }
}

#[test]
fn copy_at_error_context() {
    let mut inner = MemVector::new(5);
    inner.set(2, 3).unwrap();
    let src: ReadOnly<MemVector> = ReadOnly::new(Box::new(inner));
    let mut dst: ReadOnly<MemVector> = ReadOnly::new(Box::new(MemVector::new(5)));
    let e = copy_at(&src, &mut dst, 2, 4, 0).unwrap_err();
    assert_eq!(MemErrorKind::ReadOnly { at: 0, globally: true }, e.kind);
    assert_eq!(Some(&BlockOp::CopyAt), e.trace.last());
}

#[test]
fn error_context_is_layered() {
    let e = MemError::new(MemErrorKind::NotImplemented);
    assert!(e.trace.is_empty());
    let e = e.with_context(BlockOp::Copy).with_context(BlockOp::CopyAt);
    assert_eq!(MemErrorKind::NotImplemented, e.kind);
    assert_eq!(vec![BlockOp::Copy, BlockOp::CopyAt], e.trace);
}
