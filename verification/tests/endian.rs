//! Tests for the 32-bit big- and little-endian accessor sub-contracts.

use mem::BlockOp;
use mem::MemErrorKind;
use mem::MemVector;
use mem::MemoryBlock;
use mem::MemoryBlock32be;
use mem::MemoryBlock32le;
use mem::MemoryCreator;
use mem::MemoryMiddlewareCreator;
use mem::ReadOnly;

#[test]
fn endian32_exact_bytes() {
    let mut m = MemVector::new(7);
    m.set32be(0, 0xDEADBEEF).unwrap();
    assert_eq!(0xDE, m.get(0).unwrap());
    assert_eq!(0xAD, m.get(1).unwrap());
    assert_eq!(0xBE, m.get(2).unwrap());
    assert_eq!(0xEF, m.get(3).unwrap());
    m.set32le(4, 0xDEADBEEF).unwrap();
    assert_eq!(0xEF, m.get(4).unwrap());
    assert_eq!(0xBE, m.get(5).unwrap());
    assert_eq!(0xAD, m.get(6).unwrap());
    assert_eq!(0xDE, m.get(7).unwrap());
}

#[test]
fn endian32_round_trips() {
    let mut m = MemVector::new(7);
    m.set32be(2, 0x01020304).unwrap();
    assert_eq!(0x01020304, m.get32be(2).unwrap());
    m.set32le(2, 0xA1B2C3D4).unwrap();
    assert_eq!(0xA1B2C3D4, m.get32le(2).unwrap());
    // The byte orders really differ: reading back with the other
    // convention swaps the bytes.
    m.set32be(0, 0x01020304).unwrap();
    assert_eq!(0x04030201, m.get32le(0).unwrap());
}

#[test]
fn endian32_error_context() {
    let mut m = MemVector::new(4);
    // The window 2..=5 sticks out of a block of size 4: the write stops
    // at byte number 3, after the three writable bytes went through.
    let e = m.set32be(2, 0xFFFFFFFF).unwrap_err();
    assert_eq!(MemErrorKind::TooBig { given: 5, max: 4 }, e.kind);
    assert_eq!(Some(&BlockOp::Set32be { base: 2, byte: 3 }), e.trace.last());
    assert_eq!(0xFF, m.get(2).unwrap());
    assert_eq!(0xFF, m.get(3).unwrap());
    assert_eq!(0xFF, m.get(4).unwrap());
    let e = m.get32le(3).unwrap_err();
    assert_eq!(MemErrorKind::NoData { at: 5 }, e.kind);
    assert_eq!(Some(&BlockOp::Get32le { base: 3, byte: 2 }), e.trace.last());
    let mut ro = ReadOnly::new(Box::new(m));
    let e = ro.set32le(0, 1).unwrap_err();
    assert_eq!(MemErrorKind::ReadOnly { at: 0, globally: true }, e.kind);
    assert_eq!(Some(&BlockOp::Set32le { base: 0, byte: 0 }), e.trace.last());
}
