//! A generic interface to finite, byte-addressable storage.

mod errors;
mod helpers;
mod interface;
mod std_impls;

pub use errors::BlockOp;
pub use errors::MemError;
pub use errors::MemErrorKind;
pub use helpers::copy;
pub use helpers::copy_at;
pub use helpers::overwritten_range;
pub use helpers::lemma_transfer_agrees;
pub use helpers::transfer_failed_at;
pub use interface::Addr;
pub use interface::Byte;
pub use interface::MemoryBlock;
pub use interface::MemoryBlock32be;
pub use interface::MemoryBlock32le;
pub use interface::MemoryCreator;
pub use interface::MemoryMiddlewareCreator;
pub use interface::be_byte;
pub use interface::be_written;
pub use interface::le_byte;
pub use interface::le_written;
pub use interface::lemma_be_round_trip;
pub use interface::lemma_delete_clears;
pub use interface::lemma_le_round_trip;
pub use interface::lemma_out_of_range_fails;
pub use interface::lemma_write_then_read;
pub use interface::u32_from_be;
pub use interface::u32_from_le;
pub use interface::zeroed_range;
pub use std_impls::MemVector;
pub use std_impls::ReadOnly;
pub use std_impls::lemma_readonly_transparent;
