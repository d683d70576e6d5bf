//! Verified core of a capability-based process-bootstrap sequence for a
//! microkernel: a single-shot untyped-memory allocator, an address-space
//! constructor that loads an executable image, and the capability wiring and
//! launch protocol that connects two children over a badged notification
//! channel.
//!
//! Everything here works on plain values; the kernel invocations that carry
//! these decisions out live outside the library.

use vstd::prelude::*;

pub mod align;
pub mod bootstrap;
pub mod rights;
pub mod untyped;
pub mod vspace;
pub mod wiring;

verus! {

/// Size in bytes of the smallest mappable frame (one granule).
pub const PAGE_SIZE: u64 = 4096;

/// Why the bootstrap failed; every error aborts the whole sequence.
#[derive(Clone, Copy, Debug, PartialEq, Eq, Structural)]
pub enum BootError {
    /// No non-device untyped region has enough correctly aligned capacity.
    OutOfMemory,
    /// The root capability table has no empty slot left.
    SlotExhausted,
    /// A variable-sized object was requested below its kind's minimum size.
    InvalidSize,
    /// No address-space identifier remains in the pool.
    AsidPoolExhausted,
    /// A virtual range was already mapped (malformed image).
    OverlapError,
    /// A capability slot or object reference was not usable for the operation.
    InvalidCapability,
    /// A derivation or use asked for rights beyond those held.
    RightsViolation,
}

/// Index of the frame, within the program's own image, that backs `addr`:
/// the distance in whole pages from the first image frame.
///
/// The caller looks the returned index up in its boot-supplied frame list and
/// unmaps that frame to reclaim the page as scratch space.
pub fn user_image_frame_index(addr: u64, image_start: u64) -> (i: u64)
    requires
        image_start / PAGE_SIZE <= addr / PAGE_SIZE,
    ensures
        i == addr / PAGE_SIZE - image_start / PAGE_SIZE,
{
    addr / PAGE_SIZE - image_start / PAGE_SIZE
}

} // verus!
