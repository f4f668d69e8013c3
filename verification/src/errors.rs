//! The closed error taxonomy for memory blocks, together with the
//! operation-context trace that helpers attach to a failure before
//! propagating it.

use vstd::prelude::*;

verus! {

/// A higher-level operation during which a primitive `get`/`set` failure
/// was encountered.  A failing helper pushes one of these onto the error's
/// trace so a caller can see where the failure happened without losing the
/// original error kind.
#[derive(Clone, Copy, Debug, PartialEq, Eq, Structural)]
pub enum BlockOp {
    /// The whole-block copy helper.
    Copy,
    /// The ranged copy helper.
    CopyAt,
    /// Clearing the byte at `at` as part of a ranged delete.
    Delete { at: usize },
    /// Writing byte number `byte` of a 32-bit big-endian store at `base`.
    Set32be { base: usize, byte: usize },
    /// Reading byte number `byte` of a 32-bit big-endian load at `base`.
    Get32be { base: usize, byte: usize },
    /// Writing byte number `byte` of a 32-bit little-endian store at `base`.
    Set32le { base: usize, byte: usize },
    /// Reading byte number `byte` of a 32-bit little-endian load at `base`.
    Get32le { base: usize, byte: usize },
}

/// The closed set of failure conditions a block or helper may report.
#[derive(Debug, PartialEq, Eq)]
pub enum MemErrorKind {
    /// An address or computed bound exceeds the block's maximum address.
    TooBig { given: usize, max: usize },
    /// A given value is below a required minimum.
    TooSmall { given: usize, min: usize },
    /// An address is structurally invalid independent of block size.
    InvalidAddr { addr: usize },
    /// A write was attempted on a block or region that forbids writes;
    /// `globally` tells whether the restriction covers the whole block.
    ReadOnly { at: usize, globally: bool },
    /// A read was attempted on a block or region that forbids reads.
    WriteOnly { at: usize, globally: bool },
    /// A multi-byte accessor was invoked at an address that does not
    /// satisfy the required alignment.
    UnalignedAccess { given: usize, alignment: usize },
    /// A read found no value stored at the given address.
    NoData { at: usize },
    /// Data exists but fails a backend-specific validity check.
    InvalidData { at: usize },
    /// A backend fronting real hardware reports a fault.
    HardwareFault { at: usize, reason: String },
    /// The address has never been written and the backend distinguishes
    /// this from zero.
    Uninitialized { at: usize },
    /// The operation is not supported by this backend or wrapper.
    NotImplemented,
    /// The requested action has no meaning at this address.
    NotApplicable { at: usize },
}

/// An error produced at the point of failure: the kind it can be matched
/// on, plus the trace of higher-level operations that wrapped it, most
/// recent last.
#[derive(Debug)]
pub struct MemError {
    pub kind: MemErrorKind,
    pub trace: Vec<BlockOp>,
}

impl MemError {
    /// A fresh error of the given kind, with an empty trace.
    pub fn new(kind: MemErrorKind) -> (r: MemError)
        ensures
            r.kind == kind,
            r.trace@ == Seq::<BlockOp>::empty(),
    {
        MemError { kind, trace: Vec::new() }
    }

    /// Record that the failure happened during `op`, keeping the kind.
    pub fn with_context(self, op: BlockOp) -> (r: MemError)
        ensures
            r.kind == self.kind,
            r.trace@ == self.trace@.push(op),
    {
        let mut e = self;
        e.trace.push(op);
        e
    }
}

} // verus!
