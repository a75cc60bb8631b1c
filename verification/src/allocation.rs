//! Ownership-tracked allocations of virtual pages, and the allocator
//! interfaces the engine consumes.
//!
//! `AllocatedPages` and `AllocatedHugePages` exclusively own a virtual
//! range: they are produced by a page allocator and consumed by the mapper.
//! The physical-frame and virtual-page allocators are outside collaborators;
//! the traits below state what the engine relies on, and the bump
//! allocators are small verified implementations of them.

use vstd::prelude::*;

use crate::frame::{Frame, FrameRange};
use crate::page::{HugePage, HugePageRange, Page, PageRange};
use crate::sizes::{spec_ratio_of, HugePageSize};
use crate::MAX_PAGE_NUMBER;

verus! {

/// An exclusively owned range of virtual pages, not yet (or no longer)
/// mapped. Dropping it returns the range to its allocator, which this model
/// expresses by simple disuse.
#[derive(Clone, Debug)]
pub struct AllocatedPages {
    range: PageRange,
}

impl View for AllocatedPages {
    type V = PageRange;

    /// The view of an allocation is the page range it owns.
    closed spec fn view(&self) -> PageRange {
        self.range
    }
}

impl AllocatedPages {
    /// The owned range, as a specification value.
    pub open spec fn spec_range(&self) -> PageRange {
        self@
    }

    /// A well-formed allocation owns a well-formed range.
    pub open spec fn wf(&self) -> bool {
        self.spec_range().wf()
    }

    /// Takes ownership of the given page range.
    pub fn new(range: PageRange) -> (r: AllocatedPages)
        ensures
            r.spec_range() == range,
    {
        AllocatedPages { range }
    }

    /// An allocation that owns no pages.
    pub fn empty() -> (r: AllocatedPages)
        ensures
            r.spec_range().spec_size_in_pages() == 0,
            r.spec_range().spec_start().spec_number() == 1,
            r.spec_range().spec_end().spec_number() == 0,
            r.wf(),
    {
        AllocatedPages { range: PageRange::empty() }
    }

    /// The owned range.
    #[verifier::when_used_as_spec(spec_range)]
    pub fn range(&self) -> (r: PageRange)
        ensures
            r == self.spec_range(),
    {
        self.range
    }

    /// The first owned page.
    pub fn start(&self) -> (r: Page)
        ensures
            r == self.spec_range().spec_start(),
    {
        self.range.start()
    }

    /// The last owned page.
    pub fn end(&self) -> (r: Page)
        ensures
            r == self.spec_range().spec_end(),
    {
        self.range.end()
    }

    /// The number of owned pages.
    pub fn size_in_pages(&self) -> (r: u64)
        requires
            self.wf(),
        ensures
            r == self.spec_range().spec_size_in_pages(),
    {
        self.range.size_in_pages()
    }

    /// The address of the first owned page.
    pub fn start_address(&self) -> (r: crate::addr::VirtualAddress)
        requires
            self.wf(),
        ensures
            crate::page::page_number_canonical(self.spec_range().spec_start().spec_number())
                ==> r.value() == self.spec_range().spec_start().spec_number() * 4096,
    {
        self.range.start_address()
    }

    /// Merges the given allocation into this one. Succeeds only when
    /// `other` begins exactly one page after this allocation ends; the two
    /// then form one contiguous owned range. On failure `other` is handed
    /// back unchanged.
    pub fn merge(&mut self, other: AllocatedPages) -> (r: Result<(), AllocatedPages>)
        ensures
            match r {
                Ok(_) => {
                    &&& other.spec_range().spec_start().spec_number() == old(
                        self,
                    ).spec_range().spec_end().spec_number() + 1
                    &&& final(self).spec_range().spec_start() == old(
                        self,
                    ).spec_range().spec_start()
                    &&& final(self).spec_range().spec_end() == other.spec_range().spec_end()
                },
                Err(returned) => {
                    &&& returned == other
                    &&& *final(self) == *old(self)
                    &&& other.spec_range().spec_start().spec_number() != old(
                        self,
                    ).spec_range().spec_end().spec_number() + 1
                },
            },
    {
        let my_end = self.range.end();
        let other_start = other.range.start();
        if my_end.number < u64::MAX && other_start.number == my_end.number + 1 {
            self.range = PageRange::new(self.range.start(), other.range.end());
            Ok(())
        } else {
            Err(other)
        }
    }
}

/// An exclusively owned range of virtual huge pages of one size.
#[derive(Clone, Debug)]
pub struct AllocatedHugePages {
    range: HugePageRange,
}

impl View for AllocatedHugePages {
    type V = HugePageRange;

    /// The view of an allocation is the huge-page range it owns.
    closed spec fn view(&self) -> HugePageRange {
        self.range
    }
}

impl AllocatedHugePages {
    /// The owned range, as a specification value.
    pub open spec fn spec_range(&self) -> HugePageRange {
        self@
    }

    /// A well-formed allocation owns a well-formed range.
    pub open spec fn wf(&self) -> bool {
        self.spec_range().wf()
    }

    /// Takes ownership of the given huge-page range.
    pub fn new(range: HugePageRange) -> (r: AllocatedHugePages)
        ensures
            r.spec_range() == range,
    {
        AllocatedHugePages { range }
    }

    /// An allocation of the given page size that owns no pages.
    pub fn empty(page_size: HugePageSize) -> (r: AllocatedHugePages)
        requires
            page_size.wf(),
        ensures
            r.spec_range().spec_size_in_pages() == 0,
            r.spec_range().spec_start().spec_number() == 1,
            r.spec_range().spec_end().spec_number() == 0,
            r.spec_range().spec_page_size() == page_size,
            r.wf(),
    {
        AllocatedHugePages { range: HugePageRange::empty(page_size) }
    }

    /// The owned range.
    #[verifier::when_used_as_spec(spec_range)]
    pub fn range(&self) -> (r: HugePageRange)
        ensures
            r == self.spec_range(),
    {
        self.range
    }

    /// The first owned huge page.
    pub fn start(&self) -> (r: HugePage)
        ensures
            r == self.spec_range().spec_start(),
    {
        self.range.start()
    }

    /// The shared page size of the owned range.
    pub fn page_size(&self) -> (r: HugePageSize)
        ensures
            r == self.spec_range().spec_page_size(),
    {
        self.range.page_size()
    }

    /// The number of owned huge pages.
    pub fn size_in_pages(&self) -> (r: u64)
        requires
            self.wf(),
        ensures
            r == self.spec_range().spec_size_in_pages(),
    {
        self.range.size_in_pages()
    }
}

/// The physical-frame allocator interface the engine consumes. Outside
/// collaborators implement it; `BumpFrameAllocator` is a small verified
/// implementation.
pub trait FrameAllocator {
    /// Allocates one frame, or reports exhaustion with `None`. Every
    /// frame handed out stays within the 52-bit physical space: its number
    /// lies below 2^40.
    fn allocate_frame(&mut self) -> (r: Option<Frame>)
        ensures
            r matches Some(f) ==> f.wf() && f.number < 0x100_0000_0000,
    ;

    /// Allocates `count` physically contiguous frames whose first frame
    /// number is a multiple of `alignment_in_frames`, or reports exhaustion
    /// with `None`.
    fn allocate_alligned_frames(&mut self, count: u64, alignment_in_frames: u64) -> (r: Option<
        FrameRange,
    >)
        requires
            count >= 1,
            alignment_in_frames >= 1,
        ensures
            r matches Some(fr) ==> {
                &&& fr.wf()
                &&& fr.spec_size_in_frames() == count
                &&& fr.spec_start().number % alignment_in_frames == 0
                &&& fr.spec_end().number < 0x100_0000_0000
            },
    ;
}

/// The virtual-page allocator interface the engine consumes. Every range it
/// hands out lies in the canonical lower half of the address space.
pub trait PageAllocator {
    /// Allocates `count` contiguous virtual pages, or reports exhaustion
    /// with `None`.
    fn allocate_pages(&mut self, count: u64) -> (r: Option<AllocatedPages>)
        requires
            count >= 1,
        ensures
            r matches Some(ap) ==> {
                &&& ap.wf()
                &&& ap.spec_range().spec_size_in_pages() == count
                &&& crate::page::page_range_canonical(
                    ap.spec_range().spec_start().spec_number(),
                    ap.spec_range().spec_end().spec_number(),
                )
            },
    ;

    /// Allocates `count` contiguous virtual huge pages of the given size,
    /// or reports exhaustion with `None`.
    fn allocate_huge_pages(&mut self, count: u64, page_size: HugePageSize) -> (r: Option<
        AllocatedHugePages,
    >)
        requires
            count >= 1,
            page_size.wf(),
        ensures
            r matches Some(ap) ==> {
                &&& ap.wf()
                &&& ap.spec_range().spec_size_in_pages() == count
                &&& ap.spec_range().spec_page_size() == page_size
                &&& crate::page::huge_range_canonical(
                    ap.spec_range().spec_start().spec_number(),
                    ap.spec_range().spec_end().spec_number(),
                    spec_ratio_of(page_size.spec_value()),
                )
            },
    ;
}

/// A frame allocator that hands out frames in increasing order and never
/// reuses one.
pub struct BumpFrameAllocator {
    next: u64,
}

impl BumpFrameAllocator {
    /// The next frame number to hand out, as a specification value.
    pub closed spec fn spec_next(&self) -> u64 {
        self.next
    }

    /// An allocator whose first frame is `first`.
    pub fn new(first: u64) -> (r: BumpFrameAllocator)
        ensures
            r.spec_next() == first,
    {
        BumpFrameAllocator { next: first }
    }
}

impl FrameAllocator for BumpFrameAllocator {
    fn allocate_frame(&mut self) -> (r: Option<Frame>)
        ensures
            r matches Some(f) ==> f.wf() && f.number < 0x100_0000_0000,
            r matches Some(f) ==> f.number == old(self).spec_next() && final(self).spec_next()
                == old(self).spec_next() + 1,
            r is None <==> old(self).spec_next() >= 0x100_0000_0000,
            r is None ==> *final(self) == *old(self),
    {
        if self.next < 0x100_0000_0000 {
            let f = Frame { number: self.next };
            self.next = self.next + 1;
            Some(f)
        } else {
            None
        }
    }

    fn allocate_alligned_frames(&mut self, count: u64, alignment_in_frames: u64) -> (r: Option<
        FrameRange,
    >)
        ensures
            r matches Some(fr) ==> {
                &&& fr.wf()
                &&& fr.spec_size_in_frames() == count
                &&& fr.spec_start().number % alignment_in_frames == 0
                &&& fr.spec_end().number < 0x100_0000_0000
                &&& old(self).spec_next() <= fr.spec_start().number
                &&& final(self).spec_next() == fr.spec_end().number + 1
            },
            r is None ==> *final(self) == *old(self),
    {
        let pad = (alignment_in_frames - self.next % alignment_in_frames) % alignment_in_frames;
        if self.next > u64::MAX - pad {
            return None;
        }
        let start = self.next + pad;
        proof {
            let a = alignment_in_frames as int;
            let n = old(self).spec_next() as int;
            assert((n + ((a - n % a) % a)) % a == 0) by (nonlinear_arith)
                requires
                    a >= 1,
                    n >= 0,
            ;
        }
        if count > 0x100_0000_0000 || start > 0x100_0000_0000 - count {
            return None;
        }
        self.next = start + count;
        Some(FrameRange::new(Frame { number: start }, Frame { number: start + count - 1 }))
    }
}

/// A page allocator that hands out virtual ranges in increasing order from
/// the canonical lower half and never reuses one.
pub struct BumpPageAllocator {
    next: u64,
}

impl BumpPageAllocator {
    /// The next 4 KiB page number to hand out, as a specification value.
    pub closed spec fn spec_next(&self) -> u64 {
        self.next
    }

    /// An allocator whose first page is `first`.
    pub fn new(first: u64) -> (r: BumpPageAllocator)
        ensures
            r.spec_next() == first,
    {
        BumpPageAllocator { next: first }
    }
}

impl PageAllocator for BumpPageAllocator {
    fn allocate_pages(&mut self, count: u64) -> (r: Option<AllocatedPages>)
        ensures
            r matches Some(ap) ==> {
                &&& ap.wf()
                &&& ap.spec_range().spec_size_in_pages() == count
                &&& ap.spec_range().spec_start().spec_number() == old(self).spec_next()
                &&& ap.spec_range().spec_end().spec_number() < 0x8_0000_0000
                &&& crate::page::page_range_canonical(
                    ap.spec_range().spec_start().spec_number(),
                    ap.spec_range().spec_end().spec_number(),
                )
                &&& final(self).spec_next() == old(self).spec_next() + count
            },
            r is None <==> count > 0x8_0000_0000 || old(self).spec_next() > 0x8_0000_0000 - count,
            r is None ==> *final(self) == *old(self),
    {
        if count > 0x8_0000_0000 || self.next > 0x8_0000_0000 - count {
            return None;
        }
        let start = self.next;
        self.next = start + count;
        let start_page = Page { number: start };
        let end_page = Page { number: start + count - 1 };
        Some(AllocatedPages::new(PageRange::new(start_page, end_page)))
    }

    fn allocate_huge_pages(&mut self, count: u64, page_size: HugePageSize) -> (r: Option<
        AllocatedHugePages,
    >)
        ensures
            r matches Some(ap) ==> {
                &&& ap.wf()
                &&& ap.spec_range().spec_size_in_pages() == count
                &&& ap.spec_range().spec_page_size() == page_size
                &&& ap.spec_range().spec_end().spec_number() * spec_ratio_of(
                    page_size.spec_value(),
                ) < 0x8_0000_0000
                &&& crate::page::huge_range_canonical(
                    ap.spec_range().spec_start().spec_number(),
                    ap.spec_range().spec_end().spec_number(),
                    spec_ratio_of(page_size.spec_value()),
                )
                &&& old(self).spec_next() <= ap.spec_range().spec_start().spec_number()
                    * spec_ratio_of(page_size.spec_value())
            },
            r is None ==> *final(self) == *old(self),
    {
        let ratio = page_size.huge_page_ratio();
        let pad = (ratio - self.next % ratio) % ratio;
        if self.next > u64::MAX - pad {
            return None;
        }
        let aligned = self.next + pad;
        if count > 0x8_0000 {
            return None;
        }
        proof {
            assert(count * spec_ratio_of(page_size.spec_value()) <= 0x20_0000_0000)
                by (nonlinear_arith)
                requires
                    count <= 0x8_0000,
                    spec_ratio_of(page_size.spec_value()) <= 0x4_0000,
            ;
        }
        let needed = count * ratio;
        if needed > 0x8_0000_0000 || aligned > 0x8_0000_0000 - needed {
            return None;
        }
        self.next = aligned + needed;
        let start_huge = aligned / ratio;
        let end_huge = start_huge + count - 1;
        proof {
            let r = spec_ratio_of(page_size.spec_value()) as int;
            let a = aligned as int;
            let c = count as int;
            assert((a / r + c) * r <= a + c * r && (a / r + c - 1) * r < (a / r + c) * r)
                by (nonlinear_arith)
                requires
                    r >= 1,
                    a >= 0,
                    c >= 1,
            ;
            assert((a / r + c - 1) * r < 0x8_0000_0000);
            assert(end_huge <= (MAX_PAGE_NUMBER as int) / r) by (nonlinear_arith)
                requires
                    end_huge * r < 0x8_0000_0000,
                    r >= 1,
                    end_huge == a / r + c - 1,
                    a >= 0,
                    c >= 1,
                    MAX_PAGE_NUMBER == 0xF_FFFF_FFFF_FFFF,
            ;
        }
        let start = HugePage { number: start_huge, page_size };
        let end = HugePage { number: end_huge, page_size };
        Some(AllocatedHugePages::new(HugePageRange::new(start, end)))
    }
}

} // verus!
