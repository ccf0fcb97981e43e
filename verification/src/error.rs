//! Errors of the boot loader.

use vstd::prelude::*;

verus! {

/// Memory-related failures.
#[derive(Debug, Clone, Copy, PartialEq, Eq, Structural)]
pub enum MemoryError {
    /// The frame allocator could not provide a usable frame.
    AllocationFailed,
    /// An address was not aligned as the operation requires.
    InvalidAlignment,
}

/// Failure of a boot step.
#[derive(Debug, Clone, Copy, PartialEq, Eq)]
pub enum BootError {
    /// A memory operation failed.
    Memory(MemoryError),
    /// Any other failure, with a fixed message.
    Generic(&'static str),
}

/// Result of a boot step.
pub type BootResult<T> = core::result::Result<T, BootError>;

} // verus!
