//! An x86_64 virtual-memory mapping engine: canonical addresses, frames and
//! pages at 4 KiB, 2 MiB and 1 GiB granularity, a four-level page-table
//! mapper with ownership-tracked mapped regions, an ELF relocation writer,
//! and the metadata model for loaded crates and their sections.

use vstd::prelude::*;

pub mod addr;
pub mod allocation;
pub mod frame;
pub mod mapper;
pub mod metadata;
pub mod page;
pub mod reloc;
pub mod error;
pub mod flags;
pub mod sizes;

verus! {

/// The size of a standard page and of a frame, in bytes.
pub const PAGE_SIZE: u64 = 4096;

/// The number of entries in one page table at any level.
pub const ENTRIES_PER_PAGE_TABLE: u64 = 512;

/// The largest valid page number: the top of the 64-bit space divided
/// into 4 KiB units.
pub const MAX_PAGE_NUMBER: u64 = 0xF_FFFF_FFFF_FFFF;

/// The largest valid frame number: the top of the 52-bit physical space
/// divided into 4 KiB units.
pub const MAX_FRAME_NUMBER: u64 = 0xFF_FFFF_FFFF;

/// The size of a 2 MiB huge page in bytes.
pub const MB_2: u64 = 2 * 1024 * 1024;

/// The size of a 1 GiB huge page in bytes.
pub const GB_1: u64 = 1024 * 1024 * 1024;

} // verus!
