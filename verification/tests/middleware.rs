//! Tests for the read-only middleware wrapper.

use mem::BlockOp;
use mem::MemErrorKind;
use mem::MemVector;
use mem::MemoryBlock;
use mem::MemoryCreator;
use mem::MemoryMiddlewareCreator;
use mem::ReadOnly;

#[test]
fn readonly_passes_reads_and_rejects_writes() {
    let mut inner = MemVector::new(7);
    for i in 0..8 {
        inner.set(i, (i + 1) as u8).unwrap();
    }
    let mut ro = ReadOnly::new(Box::new(inner));
    assert_eq!(7, ro.get_size());
    for i in 0..8 {
        assert_eq!((i + 1) as u8, ro.get(i).unwrap());
    }
    for i in 0..8 {
        let e = ro.set(i, 0xAA).unwrap_err();
        assert_eq!(MemErrorKind::ReadOnly { at: i, globally: true }, e.kind);
    }
    // The stored bytes are unchanged after any number of failed writes.
    for i in 0..8 {
        assert_eq!((i + 1) as u8, ro.get(i).unwrap());
    }
    // Writes beyond the size report the read-only restriction as well.
    let e = ro.set(100, 1).unwrap_err();
    assert_eq!(MemErrorKind::ReadOnly { at: 100, globally: true }, e.kind);
    // Reads forward the inner block's own error.
    let e = ro.get(100).unwrap_err();
    assert_eq!(MemErrorKind::NoData { at: 100 }, e.kind);
}

#[test]
fn readonly_delete_fails_with_context() {
    let mut ro = ReadOnly::new(Box::new(MemVector::new(5)));
    let e = ro.delete(0, 5).unwrap_err();
    assert_eq!(MemErrorKind::ReadOnly { at: 0, globally: true }, e.kind);
    assert_eq!(Some(&BlockOp::Delete { at: 0 }), e.trace.last());
    assert!(ro.flush().is_ok());
}

#[test]
fn delete_wraps_failing_address() {
    let mut m = MemVector::new(4);
    for i in 0..5 {
        m.set(i, 9).unwrap();
    }
    let e = m.delete(2, 6).unwrap_err();
    assert_eq!(MemErrorKind::TooBig { given: 5, max: 4 }, e.kind);
    assert_eq!(Some(&BlockOp::Delete { at: 5 }), e.trace.last());
    // Partial deletion up to the failing address is permitted.
    assert_eq!(9, m.get(0).unwrap());
    assert_eq!(9, m.get(1).unwrap());
    assert_eq!(0, m.get(2).unwrap());
    assert_eq!(0, m.get(3).unwrap());
    assert_eq!(0, m.get(4).unwrap());
}
