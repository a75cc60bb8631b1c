//! Typed errors for every fallible operation of the engine.

use vstd::prelude::*;

verus! {

/// The error kinds the engine can report. Every fallible operation returns
/// exactly one of these on failure and leaves no visible side effects.
#[derive(Clone, Copy, Debug, PartialEq, Eq, Structural)]
pub enum MemError {
    /// Virtual-address construction: bits [48, 64) were not a sign-extension
    /// of bit 47.
    NonCanonicalAddress,
    /// Physical-address construction: bits [52, 64) were not zero.
    HighBitsSet,
    /// Page-size construction: the requested size is not 4 KiB, 2 MiB, or a
    /// hardware-supported 1 GiB.
    UnsupportedPageSize,
    /// `map_to` was given page and frame ranges of different lengths.
    PageCountMismatch,
    /// A mapping target was not unused.
    AlreadyMapped,
    /// A leaf entry was missing during `remap` or teardown.
    NotMapped,
    /// A teardown was asked to touch a page table other than the one the
    /// mapping was created in; the engine refuses rather than corrupt a
    /// foreign address space.
    WrongPageTable,
    /// The frame or page allocator was exhausted.
    OutOfMemory,
    /// A typed view would reach beyond the mapped region.
    OutOfBounds,
    /// A mutable view or write was requested on a non-writable mapping.
    NotWritable,
    /// A callable view was requested on a non-executable mapping.
    NotExecutable,
    /// `merge` arguments were mapped under different page-table roots.
    MergeDifferentTable,
    /// `merge` arguments carried different flags.
    MergeDifferentFlags,
    /// `merge` arguments were not virtually contiguous.
    MergeNotContiguous,
    /// `merge` is not supported for this kind of mapping.
    MergeUnsupported,
    /// The relocation type code is not one of the supported kinds.
    UnsupportedRelocation,
    /// A region that was expected to exist was missing during `deep_copy`.
    DeepCopyInconsistent,
}

impl MemError {
    /// A human-readable description of the error.
    pub fn as_str(&self) -> &'static str {
        match self {
            MemError::NonCanonicalAddress => "virtual address bits 48-63 must be a sign-extension of bit 47",
            MemError::HighBitsSet => "physical address bits 52-63 must be zero",
            MemError::UnsupportedPageSize => "the architecture does not support the requested page size",
            MemError::PageCountMismatch => "page count must equal frame count",
            MemError::AlreadyMapped => "page was already in use",
            MemError::NotMapped => "page not mapped",
            MemError::WrongPageTable => "cannot unmap pages from a different page table than they were originally mapped to",
            MemError::OutOfMemory => "couldn't allocate, out of memory",
            MemError::OutOfBounds => "requested type and offset would not fit within the mapping bounds",
            MemError::NotWritable => "mapping is not writable",
            MemError::NotExecutable => "mapping is not executable",
            MemError::MergeDifferentTable => "cannot merge mappings from different page tables",
            MemError::MergeDifferentFlags => "cannot merge mappings with different flags",
            MemError::MergeNotContiguous => "cannot merge mappings that are not virtually contiguous",
            MemError::MergeUnsupported => "merge is not supported for this mapping",
            MemError::UnsupportedRelocation => "found unsupported relocation type. Are you compiling crates with 'code-model=large'?",
            MemError::DeepCopyInconsistent => "a region expected to exist was missing during deep copy",
        }
    }
}

} // verus!
