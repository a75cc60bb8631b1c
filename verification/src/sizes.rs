//! Checked page sizes: 4 KiB always, 2 MiB always, 1 GiB only when the CPU
//! reports support for it.

use vstd::prelude::*;

use crate::error::MemError;
use crate::{GB_1, MB_2, PAGE_SIZE};

verus! {

/// Asks the CPU whether 1 GiB pages are available.
///
/// Relies on `raw_cpuid::CpuId::get_extended_processor_and_feature_identifiers`
/// and `ExtendedProcessorFeatureIdentifiers::has_1gib_pages`, which read
/// CPUID leaf 0x8000_0001 and report bit 26 of EDX. The answer depends on
/// the machine, so nothing is promised of it.
#[verifier::external_body]
fn cpu_has_1gib_pages() -> bool {
    raw_cpuid::CpuId::new()
        .get_extended_processor_and_feature_identifiers()
        .map(|f| f.has_1gib_pages())
        .unwrap_or(false)
}

/// A page size the CPU supports, in bytes: 4 KiB, 2 MiB, or 1 GiB.
#[derive(Clone, Copy, Debug, PartialEq, Eq, Structural)]
pub struct PageSize(u64);

/// A page size usable for huge-page mappings, in bytes: 4 KiB, 2 MiB, or
/// 1 GiB.
#[derive(Clone, Copy, Debug, PartialEq, Eq, Structural)]
pub struct HugePageSize(u64);

/// Whether `size` names a page granularity this engine knows at all.
pub open spec fn known_page_size(size: u64) -> bool {
    size == PAGE_SIZE || size == MB_2 || size == GB_1
}

/// The number of 4 KiB pages that one page of byte size `size` covers.
pub open spec fn spec_ratio_of(size: u64) -> u64 {
    if size == MB_2 {
        512
    } else if size == GB_1 {
        262144
    } else {
        1
    }
}

impl HugePageSize {
    /// The size in bytes, as a specification value.
    pub closed spec fn spec_value(&self) -> u64 {
        self.0
    }

    /// A well-formed page size is one of the three known granularities.
    pub open spec fn wf(&self) -> bool {
        known_page_size(self.spec_value())
    }

    /// Constructs a `HugePageSize`, accepting 4 KiB and 2 MiB always and
    /// 1 GiB only when `has_1gib` says the CPU supports it.
    pub fn new_checked(page_size_in_bytes: u64, has_1gib: bool) -> (r: Result<
        HugePageSize,
        MemError,
    >)
        ensures
            match r {
                Ok(s) => {
                    &&& s.spec_value() == page_size_in_bytes
                    &&& known_page_size(page_size_in_bytes)
                    &&& page_size_in_bytes == GB_1 ==> has_1gib
                },
                Err(e) => {
                    &&& e == MemError::UnsupportedPageSize
                    &&& !(page_size_in_bytes == PAGE_SIZE || page_size_in_bytes == MB_2
                        || (page_size_in_bytes == GB_1 && has_1gib))
                },
            },
    {
        if page_size_in_bytes == PAGE_SIZE || page_size_in_bytes == MB_2 {
            Ok(HugePageSize(page_size_in_bytes))
        } else if page_size_in_bytes == GB_1 && has_1gib {
            Ok(HugePageSize(page_size_in_bytes))
        } else {
            Err(MemError::UnsupportedPageSize)
        }
    }

    /// Constructs a `HugePageSize`, checking that the CPU actually supports
    /// the requested size. 4 KiB and 2 MiB always succeed; 1 GiB succeeds
    /// exactly when the CPU reports 1 GiB page support; anything else is
    /// `UnsupportedPageSize`.
    pub fn new(page_size_in_bytes: u64) -> (r: Result<HugePageSize, MemError>)
        ensures
            page_size_in_bytes == PAGE_SIZE || page_size_in_bytes == MB_2 ==> (r matches Ok(s)
                && s.spec_value() == page_size_in_bytes),
            !known_page_size(page_size_in_bytes) ==> r == Err::<HugePageSize, MemError>(
                MemError::UnsupportedPageSize,
            ),
            match r {
                Ok(s) => s.spec_value() == page_size_in_bytes && s.wf(),
                Err(e) => e == MemError::UnsupportedPageSize && page_size_in_bytes != PAGE_SIZE
                    && page_size_in_bytes != MB_2,
            },
    {
        let has_1gib = cpu_has_1gib_pages();
        Self::new_checked(page_size_in_bytes, has_1gib)
    }

    /// The ratio of this page size to the standard 4 KiB page size:
    /// 1, 512, or 262144.
    pub fn huge_page_ratio(&self) -> (r: u64)
        ensures
            r == spec_ratio_of(self.spec_value()),
    {
        if self.0 == MB_2 {
            512
        } else if self.0 == GB_1 {
            512 * 512
        } else {
            1
        }
    }

    /// The actual size in bytes.
    #[verifier::when_used_as_spec(spec_value)]
    pub fn value(&self) -> (r: u64)
        ensures
            r == self.spec_value(),
    {
        self.0
    }
}

impl Default for HugePageSize {
    /// The default huge-page size is the standard 4 KiB page.
    fn default() -> (r: Self)
        ensures
            r.spec_value() == PAGE_SIZE,
    {
        HugePageSize(PAGE_SIZE)
    }
}

impl PageSize {
    /// The size in bytes, as a specification value.
    pub closed spec fn spec_value(&self) -> u64 {
        self.0
    }

    /// A well-formed page size is one of the three known granularities.
    pub open spec fn wf(&self) -> bool {
        known_page_size(self.spec_value())
    }

    /// Constructs a `PageSize`, accepting 4 KiB and 2 MiB always and 1 GiB
    /// only when `has_1gib` says the CPU supports it.
    pub fn new_checked(page_size_in_bytes: u64, has_1gib: bool) -> (r: Result<PageSize, MemError>)
        ensures
            match r {
                Ok(s) => {
                    &&& s.spec_value() == page_size_in_bytes
                    &&& known_page_size(page_size_in_bytes)
                    &&& page_size_in_bytes == GB_1 ==> has_1gib
                },
                Err(e) => {
                    &&& e == MemError::UnsupportedPageSize
                    &&& !(page_size_in_bytes == PAGE_SIZE || page_size_in_bytes == MB_2
                        || (page_size_in_bytes == GB_1 && has_1gib))
                },
            },
    {
        if page_size_in_bytes == PAGE_SIZE || page_size_in_bytes == MB_2 {
            Ok(PageSize(page_size_in_bytes))
        } else if page_size_in_bytes == GB_1 && has_1gib {
            Ok(PageSize(page_size_in_bytes))
        } else {
            Err(MemError::UnsupportedPageSize)
        }
    }

    /// Constructs a `PageSize`, checking that the CPU actually supports the
    /// requested size, as `HugePageSize::new` does.
    pub fn new(page_size_in_bytes: u64) -> (r: Result<PageSize, MemError>)
        ensures
            page_size_in_bytes == PAGE_SIZE || page_size_in_bytes == MB_2 ==> (r matches Ok(s)
                && s.spec_value() == page_size_in_bytes),
            !known_page_size(page_size_in_bytes) ==> r == Err::<PageSize, MemError>(
                MemError::UnsupportedPageSize,
            ),
            match r {
                Ok(s) => s.spec_value() == page_size_in_bytes && s.wf(),
                Err(e) => e == MemError::UnsupportedPageSize && page_size_in_bytes != PAGE_SIZE
                    && page_size_in_bytes != MB_2,
            },
    {
        let has_1gib = cpu_has_1gib_pages();
        Self::new_checked(page_size_in_bytes, has_1gib)
    }

    /// The ratio of this page size to the standard 4 KiB page size:
    /// 1, 512, or 262144.
    pub fn huge_page_ratio(&self) -> (r: u64)
        ensures
            r == spec_ratio_of(self.spec_value()),
    {
        if self.0 == MB_2 {
            512
        } else if self.0 == GB_1 {
            512 * 512
        } else {
            1
        }
    }

    /// The actual size in bytes.
    #[verifier::when_used_as_spec(spec_value)]
    pub fn value(&self) -> (r: u64)
        ensures
            r == self.spec_value(),
    {
        self.0
    }
}

} // verus!
