//! Conformance tests for the buffer-backed reference backend.

use mem::MemErrorKind;
use mem::MemVector;
use mem::MemoryBlock;
use mem::MemoryCreator;

#[test]
fn memvec_works_basic() {
    let mut mem = Box::new(MemVector::new(0xFF));
    mem.set(0x00, 101).unwrap();
    mem.flush().unwrap();
    assert_eq!(101, mem.get(0x00).unwrap());
}

#[test]
fn memvec_works_all() {
    let mut mem = Box::new(MemVector::new(0xFF));
    let sz = mem.get_size();
    assert_eq!(0xFF, sz);

    // Set stuff.
    for i in 0..sz + 1 {
        mem.set(i, (i & 0xFF) as u8).unwrap()
    }

    mem.flush().unwrap();

    // Get stuff.
    for i in 0..sz + 1 {
        assert_eq!((i & 0xFF) as u8, mem.get(i).unwrap());
    }

    // Delete stuff.
    mem.delete(0, sz).unwrap();

    mem.flush().unwrap();

    // Get stuff.
    for i in 0..sz + 1 {
        assert_eq!(0, mem.get(i).unwrap());
    }
}

#[test]
fn fresh_block_is_zero() {
    let m = MemVector::new(4);
    for i in 0..5 {
        assert_eq!(0, m.get(i).unwrap());
    }
}

#[test]
fn boundary_addresses() {
    let mut m = MemVector::new(0x10);
    assert_eq!(0x10, m.get_size());
    m.set(0x10, 7).unwrap();
    assert_eq!(7, m.get(0x10).unwrap());
    let e = m.set(0x11, 1).unwrap_err();
    assert_eq!(MemErrorKind::TooBig { given: 0x11, max: 0x10 }, e.kind);
    let e = m.get(0x11).unwrap_err();
    assert_eq!(MemErrorKind::NoData { at: 0x11 }, e.kind);
}

#[test]
fn delete_single_address() {
    let mut m = MemVector::new(3);
    m.set(1, 9).unwrap();
    m.set(2, 8).unwrap();
    m.delete(1, 1).unwrap();
    assert_eq!(0, m.get(1).unwrap());
    assert_eq!(8, m.get(2).unwrap());
}
