//! Pages: 4 KiB units of virtual memory, huge pages at the three supported
//! granularities, and inclusive ranges of both.

use vstd::prelude::*;

use crate::addr::{sat_add, sat_sub, sign_extend_47, VirtualAddress};
use crate::frame::number_plus;
use crate::sizes::{spec_ratio_of, HugePageSize, PageSize};
use crate::{MAX_PAGE_NUMBER, PAGE_SIZE};

verus! {

/// The index into the P4 (root) table for the 4 KiB page numbered `n`:
/// bits [27, 36) of the page number.
pub open spec fn spec_p4_index(n: u64) -> u64 {
    (n / 0x800_0000) % 512
}

/// The index into a P3 table for the 4 KiB page numbered `n`:
/// bits [18, 27) of the page number.
pub open spec fn spec_p3_index(n: u64) -> u64 {
    (n / 0x4_0000) % 512
}

/// The index into a P2 table for the 4 KiB page numbered `n`:
/// bits [9, 18) of the page number.
pub open spec fn spec_p2_index(n: u64) -> u64 {
    (n / 512) % 512
}

/// The index into a P1 table for the 4 KiB page numbered `n`:
/// bits [0, 9) of the page number.
pub open spec fn spec_p1_index(n: u64) -> u64 {
    n % 512
}

/// A product `k * s` stays below `v` when `k` is at most `v / s`.
pub proof fn lemma_div_mul_le(v: u64, s: u64, k: u64)
    requires
        s >= 1,
        k <= v / s,
    ensures
        k * s <= v,
{
    assert(k * s <= (v / s) * s <= v) by (nonlinear_arith)
        requires
            s >= 1,
            k <= v / s,
    ;
}

/// Whether a page number denotes a page at a canonical virtual address:
/// either in the lower half of the address space or in the sign-extended
/// upper half.
pub open spec fn page_number_canonical(n: u64) -> bool {
    n < 0x8_0000_0000 || (0xF_FFFF_8000_0000 <= n <= MAX_PAGE_NUMBER)
}

/// The byte address of a page with a canonical page number is itself
/// canonical.
pub proof fn lemma_page_number_canonical(n: u64)
    requires
        page_number_canonical(n),
    ensures
        crate::addr::canonical((n * 4096) as u64),
{
    if n < 0x8_0000_0000 {
        assert((n * 4096) as u64 / 0x8000_0000_0000 == 0) by (nonlinear_arith)
            requires
                n < 0x8_0000_0000,
        ;
    } else {
        assert((n * 4096) as u64 / 0x8000_0000_0000 == 0x1FFFF) by (nonlinear_arith)
            requires
                0xF_FFFF_8000_0000 <= n <= 0xF_FFFF_FFFF_FFFF,
        ;
    }
}

/// Whether an inclusive page range lies wholly at canonical addresses:
/// both bounds are canonical page numbers in the same half of the address
/// space, so every page between them is canonical too.
pub open spec fn page_range_canonical(start: u64, end: u64) -> bool {
    &&& page_number_canonical(start)
    &&& page_number_canonical(end)
    &&& (start < 0x8_0000_0000 <==> end < 0x8_0000_0000)
}

/// The canonical-range condition for a huge-page range of the given
/// ratio, over the 4 KiB page numbers its slots cover: the first and last
/// covered page are canonical and in the same half.
pub open spec fn huge_range_canonical(start: u64, end: u64, ratio: u64) -> bool {
    &&& page_number_canonical((start * ratio) as u64)
    &&& start <= end ==> page_number_canonical(((end + 1) * ratio - 1) as u64)
    &&& start <= end ==> ((start * ratio < 0x8_0000_0000) <==> (((end + 1) * ratio - 1)
        < 0x8_0000_0000))
}

/// A virtual memory page: a 4 KiB aligned chunk of virtual memory,
/// identified by its index.
#[derive(Clone, Copy, Debug, PartialEq, Eq, Structural)]
pub struct Page {
    pub number: u64,
}

impl Page {
    /// The page number, as a specification value.
    pub open spec fn spec_number(&self) -> u64 {
        self.number
    }

    /// A well-formed page number does not exceed the largest page number.
    pub open spec fn wf(&self) -> bool {
        self.spec_number() <= MAX_PAGE_NUMBER
    }

    /// Returns the `Page` that contains the given `VirtualAddress`.
    pub fn containing_address(virt_addr: VirtualAddress) -> (r: Page)
        ensures
            r.spec_number() == virt_addr.value() / 4096,
            r.wf(),
    {
        Page { number: virt_addr.value() / PAGE_SIZE }
    }

    /// Returns the `Page`, counted in units of the given page size, that
    /// contains the given `VirtualAddress`.
    pub fn containing_huge_page_address(virt_addr: VirtualAddress, page_size: PageSize) -> (r: Page)
        requires
            page_size.wf(),
        ensures
            r.spec_number() == virt_addr.value() / page_size.spec_value(),
            r.wf(),
    {
        proof {
            assert(virt_addr.value() / page_size.spec_value() <= MAX_PAGE_NUMBER)
                by (nonlinear_arith)
                requires
                    page_size.spec_value() >= 4096,
                    virt_addr.value() <= u64::MAX,
                    MAX_PAGE_NUMBER == 0xF_FFFF_FFFF_FFFF,
            ;
        }
        Page { number: virt_addr.value() / page_size.value() }
    }

    /// Returns the `VirtualAddress` at the start of this `Page`.
    pub fn start_address(&self) -> (r: VirtualAddress)
        requires
            self.wf(),
        ensures
            r.value() == sign_extend_47((self.spec_number() * 4096) as u64),
            page_number_canonical(self.spec_number()) ==> r.value() == self.spec_number() * 4096,
    {
        proof {
            if page_number_canonical(self.spec_number()) {
                lemma_page_number_canonical(self.spec_number());
            }
        }
        VirtualAddress::new_canonical(self.number * PAGE_SIZE)
    }

    /// Returns the `VirtualAddress` at the start of this `Page` when it is
    /// counted in units of the given page size.
    pub fn huage_page_start_address(&self, page_size: PageSize) -> (r: VirtualAddress)
        requires
            page_size.wf(),
            self.spec_number() * page_size.spec_value() <= u64::MAX,
        ensures
            r.value() == sign_extend_47((self.spec_number() * page_size.spec_value()) as u64),
    {
        VirtualAddress::new_canonical(self.number * page_size.value())
    }

    /// The 4 KiB page at the first location of this page: for a standard
    /// page this is the page itself, up to address canonicalization.
    pub fn corresponding_normal_page(&self) -> (r: Page)
        requires
            self.wf(),
        ensures
            self.spec_number() < 0x8_0000_0000 ==> r == *self,
            r.spec_number() == sign_extend_47((self.spec_number() * 4096) as u64) / 4096,
    {
        let r = Page::containing_address(self.start_address());
        proof {
            if self.spec_number() < 0x8_0000_0000 {
                assert(self.spec_number() * 4096 / 4096 == self.spec_number());
            }
        }
        r
    }

    /// The page, counted in units of `page_size`, that covers the given
    /// standard page.
    pub fn from_normal_page(page: Page, page_size: PageSize) -> (r: Page)
        requires
            page.wf(),
            page_size.wf(),
        ensures
            r.spec_number() == sign_extend_47((page.spec_number() * 4096) as u64)
                / page_size.spec_value(),
            r.wf(),
    {
        Page::containing_huge_page_address(page.start_address(), page_size)
    }

    /// Returns the 9-bit part of this page's virtual address that indexes
    /// into the P4 page-table entries.
    pub fn p4_index(&self) -> (r: usize)
        ensures
            r == spec_p4_index(self.spec_number()),
            r < 512,
    {
        ((self.number / 0x800_0000) % 512) as usize
    }

    /// Returns the 9-bit part of this page's virtual address that indexes
    /// into a P3 page-table's entries.
    pub fn p3_index(&self) -> (r: usize)
        ensures
            r == spec_p3_index(self.spec_number()),
            r < 512,
    {
        ((self.number / 0x4_0000) % 512) as usize
    }

    /// Returns the 9-bit part of this page's virtual address that indexes
    /// into a P2 page-table's entries.
    pub fn p2_index(&self) -> (r: usize)
        ensures
            r == spec_p2_index(self.spec_number()),
            r < 512,
    {
        ((self.number / 512) % 512) as usize
    }

    /// Returns the 9-bit part of this page's virtual address that indexes
    /// into a P1 page-table's entries, which locates the final PTE.
    pub fn p1_index(&self) -> (r: usize)
        ensures
            r == spec_p1_index(self.spec_number()),
            r < 512,
    {
        (self.number % 512) as usize
    }

    /// The page `rhs` pages above this one; the sum saturates at the
    /// largest page number.
    pub fn plus(self, rhs: u64) -> (r: Page)
        ensures
            r.spec_number() == number_plus(self.spec_number(), rhs),
            r.wf(),
    {
        let sum = if self.number <= u64::MAX - rhs {
            self.number + rhs
        } else {
            u64::MAX
        };
        Page { number: if sum < MAX_PAGE_NUMBER { sum } else { MAX_PAGE_NUMBER } }
    }

    /// The page `rhs` pages below this one; the difference saturates at
    /// zero.
    pub fn minus(self, rhs: u64) -> (r: Page)
        ensures
            r.spec_number() == sat_sub(self.spec_number(), rhs),
    {
        Page { number: if self.number >= rhs { self.number - rhs } else { 0 } }
    }
}

/// An inclusive range of `Page`s that are contiguous in virtual memory.
/// The range is empty when the start number exceeds the end number.
#[derive(Clone, Copy, Debug, PartialEq, Eq, Structural)]
pub struct PageRange {
    /// The first page of the range.
    pub start: Page,
    /// The last page of the range.
    pub end: Page,
}

impl PageRange {
    /// The first page of the range, as a specification value.
    pub open spec fn spec_start(&self) -> Page {
        self.start
    }

    /// The last page of the range, as a specification value.
    pub open spec fn spec_end(&self) -> Page {
        self.end
    }

    /// A well-formed range has well-formed bounds.
    pub open spec fn wf(&self) -> bool {
        self.spec_start().wf() && self.spec_end().wf()
    }

    /// The number of pages covered: zero when empty, else one more than the
    /// difference of the bounds.
    pub open spec fn spec_size_in_pages(&self) -> u64 {
        if self.spec_start().spec_number() > self.spec_end().spec_number() {
            0
        } else {
            (self.spec_end().spec_number() - self.spec_start().spec_number() + 1) as u64
        }
    }

    /// The number of bytes covered.
    pub open spec fn spec_size_in_bytes(&self) -> int {
        self.spec_size_in_pages() * 4096
    }

    /// Whether the page containing `addr` lies within the range.
    pub open spec fn spec_contains_addr(&self, addr: u64) -> bool {
        self.spec_start().spec_number() <= addr / 4096 <= self.spec_end().spec_number()
    }

    /// Creates a new range of `Page`s that spans from `start` to `end`,
    /// both inclusive bounds.
    pub fn new(start: Page, end: Page) -> (r: PageRange)
        ensures
            r.spec_start() == start,
            r.spec_end() == end,
    {
        PageRange { start, end }
    }

    /// Creates a `PageRange` that covers no pages.
    pub fn empty() -> (r: PageRange)
        ensures
            r.spec_size_in_pages() == 0,
            r.spec_start().spec_number() == 1,
            r.spec_end().spec_number() == 0,
            r.wf(),
    {
        PageRange { start: Page { number: 1 }, end: Page { number: 0 } }
    }

    /// The first page of the range.
    #[verifier::when_used_as_spec(spec_start)]
    pub fn start(&self) -> (r: Page)
        ensures
            r == self.spec_start(),
    {
        self.start
    }

    /// The last page of the range.
    #[verifier::when_used_as_spec(spec_end)]
    pub fn end(&self) -> (r: Page)
        ensures
            r == self.spec_end(),
    {
        self.end
    }

    /// Creates a new `PageRange` that spans all pages from the given
    /// virtual address through the end of the block of the given size.
    pub fn from_virt_addr(starting_virt_addr: VirtualAddress, size_in_bytes: u64) -> (r: PageRange)
        requires
            size_in_bytes > 0,
        ensures
            r.spec_start().spec_number() == starting_virt_addr.value() / 4096,
            r.spec_end().spec_number() == sign_extend_47(
                sat_add(starting_virt_addr.value(), (size_in_bytes - 1) as u64),
            ) / 4096,
            r.wf(),
    {
        let start_page = Page::containing_address(starting_virt_addr);
        let end_page = Page::containing_address(starting_virt_addr.add_offset(size_in_bytes - 1));
        PageRange::new(start_page, end_page)
    }

    /// Returns the `VirtualAddress` of the starting `Page`.
    pub fn start_address(&self) -> (r: VirtualAddress)
        requires
            self.wf(),
        ensures
            r.value() == sign_extend_47((self.spec_start().spec_number() * 4096) as u64),
            page_number_canonical(self.spec_start().spec_number()) ==> r.value()
                == self.spec_start().spec_number() * 4096,
    {
        self.start.start_address()
    }

    /// Returns the size of the range in number of `Page`s.
    pub fn size_in_pages(&self) -> (r: u64)
        requires
            self.wf(),
        ensures
            r == self.spec_size_in_pages(),
    {
        if self.start.number > self.end.number {
            0
        } else {
            self.end.number - self.start.number + 1
        }
    }

    /// Returns the size of the range in bytes.
    pub fn size_in_bytes(&self) -> (r: u64)
        requires
            self.wf(),
            self.spec_size_in_bytes() <= u64::MAX,
        ensures
            r == self.spec_size_in_bytes(),
    {
        self.size_in_pages() * PAGE_SIZE
    }

    /// Whether this `PageRange` contains the given `VirtualAddress`.
    pub fn contains_virt_addr(&self, virt_addr: VirtualAddress) -> (r: bool)
        ensures
            r == self.spec_contains_addr(virt_addr.value()),
    {
        let p = Page::containing_address(virt_addr);
        self.start.number <= p.number && p.number <= self.end.number
    }

    /// Returns the offset of the given `VirtualAddress` within this range:
    /// the difference between it and the range's start address. Returns
    /// `None` when the address is not covered.
    pub fn offset_of_address(&self, virt_addr: VirtualAddress) -> (r: Option<u64>)
        requires
            self.wf(),
            page_number_canonical(self.spec_start().spec_number()),
        ensures
            match r {
                Some(off) => self.spec_contains_addr(virt_addr.value()) && off == virt_addr.value()
                    - self.spec_start().spec_number() * 4096,
                None => !self.spec_contains_addr(virt_addr.value()),
            },
    {
        if self.contains_virt_addr(virt_addr) {
            let sa = self.start_address();
            proof {
                assert(virt_addr.value() / 4096 * 4096 <= virt_addr.value()
                    && self.spec_start().spec_number() <= virt_addr.value() / 4096
                    ==> self.spec_start().spec_number() * 4096 <= virt_addr.value())
                    by (nonlinear_arith);
            }
            Some(virt_addr.value() - sa.value())
        } else {
            None
        }
    }

    /// Returns the `VirtualAddress` at the given byte offset into this
    /// range, or `None` when the offset lies past its size.
    pub fn address_at_offset(&self, offset: u64) -> (r: Option<VirtualAddress>)
        requires
            self.wf(),
            self.spec_size_in_bytes() <= u64::MAX,
        ensures
            match r {
                Some(a) => offset <= self.spec_size_in_bytes() && a.value() == sign_extend_47(
                    sat_add(
                        sign_extend_47((self.spec_start().spec_number() * 4096) as u64),
                        offset,
                    ),
                ),
                None => offset > self.spec_size_in_bytes(),
            },
    {
        if offset <= self.size_in_bytes() {
            Some(self.start_address().add_offset(offset))
        } else {
            None
        }
    }
}

/// A virtual memory page of one of the supported huge sizes, identified by
/// its index counted in units of its own size.
#[derive(Clone, Copy, Debug, PartialEq, Eq, Structural)]
pub struct HugePage {
    pub number: u64,
    pub page_size: HugePageSize,
}

impl HugePage {
    /// The page number, counted in units of this page's size, as a
    /// specification value.
    pub open spec fn spec_number(&self) -> u64 {
        self.number
    }

    /// The page size, as a specification value.
    pub open spec fn spec_page_size(&self) -> HugePageSize {
        self.page_size
    }

    /// A well-formed huge page has a known size and a number that stays
    /// within the largest page number once scaled to 4 KiB units.
    pub open spec fn wf(&self) -> bool {
        &&& self.spec_page_size().wf()
        &&& self.spec_number() <= MAX_PAGE_NUMBER / spec_ratio_of(self.spec_page_size().spec_value())
    }

    /// The page number scaled to 4 KiB units.
    pub open spec fn spec_normal_number(&self) -> u64 {
        (self.spec_number() * spec_ratio_of(self.spec_page_size().spec_value())) as u64
    }

    /// Scaling a well-formed huge page number to 4 KiB units stays within
    /// the largest page number, and its byte address within `u64`.
    pub proof fn lemma_scaled_number(&self)
        requires
            self.wf(),
        ensures
            self.spec_number() * spec_ratio_of(self.spec_page_size().spec_value())
                <= MAX_PAGE_NUMBER,
            self.spec_number() * self.spec_page_size().spec_value() <= u64::MAX,
    {
        let n = self.spec_number();
        let r = spec_ratio_of(self.spec_page_size().spec_value());
        let s = self.spec_page_size().spec_value();
        assert(n <= MAX_PAGE_NUMBER / r && r >= 1 ==> n * r <= MAX_PAGE_NUMBER)
            by (nonlinear_arith)
            requires
                MAX_PAGE_NUMBER == 0xF_FFFF_FFFF_FFFF,
        ;
        assert(s == r * 4096);
        assert(n * r <= MAX_PAGE_NUMBER && s == r * 4096 ==> n * s <= u64::MAX)
            by (nonlinear_arith)
            requires
                MAX_PAGE_NUMBER == 0xF_FFFF_FFFF_FFFF,
        ;
    }

    /// Returns the `HugePage` of the given size that contains the given
    /// `VirtualAddress`.
    pub fn containing_address(virt_addr: VirtualAddress, page_size: HugePageSize) -> (r: HugePage)
        requires
            page_size.wf(),
        ensures
            r.spec_number() == virt_addr.value() / page_size.spec_value(),
            r.spec_page_size() == page_size,
            r.wf(),
    {
        proof {
            assert(virt_addr.value() / page_size.spec_value() <= MAX_PAGE_NUMBER
                / spec_ratio_of(page_size.spec_value())) by (nonlinear_arith)
                requires
                    page_size.spec_value() == spec_ratio_of(page_size.spec_value()) * 4096,
                    spec_ratio_of(page_size.spec_value()) >= 1,
                    virt_addr.value() <= u64::MAX,
                    MAX_PAGE_NUMBER == 0xF_FFFF_FFFF_FFFF,
            ;
        }
        HugePage { number: virt_addr.value() / page_size.value(), page_size }
    }

    /// Returns the `VirtualAddress` at the start of this `HugePage`.
    pub fn start_address(&self) -> (r: VirtualAddress)
        requires
            self.wf(),
        ensures
            r.value() == sign_extend_47(
                (self.spec_number() * self.spec_page_size().spec_value()) as u64,
            ),
            crate::addr::canonical(
                (self.spec_number() * self.spec_page_size().spec_value()) as u64,
            ) ==> r.value() == self.spec_number() * self.spec_page_size().spec_value(),
    {
        proof {
            self.lemma_scaled_number();
        }
        VirtualAddress::new_canonical(self.number * self.page_size.value())
    }

    /// The standard 4 KiB page at the first location of this huge page.
    pub fn corresponding_normal_page(&self) -> (r: Page)
        requires
            self.wf(),
        ensures
            self.spec_number() * self.spec_page_size().spec_value() < 0x8000_0000_0000
                ==> r.spec_number() == self.spec_normal_number(),
    {
        let r = Page::containing_address(self.start_address());
        proof {
            self.lemma_scaled_number();
            let n = self.spec_number();
            let s = self.spec_page_size().spec_value();
            let ratio = spec_ratio_of(s);
            if n * s < 0x8000_0000_0000 {
                assert(s == ratio * 4096);
                assert(n * s == n * ratio * 4096) by (nonlinear_arith)
                    requires
                        s == ratio * 4096,
                ;
                assert(n * ratio * 4096 / 4096 == n * ratio);
            }
        }
        r
    }

    /// The huge page of the given size that covers the given standard page.
    pub fn from_normal_page(page: Page, page_size: HugePageSize) -> (r: HugePage)
        requires
            page.wf(),
            page_size.wf(),
        ensures
            r.spec_number() == sign_extend_47((page.spec_number() * 4096) as u64)
                / page_size.spec_value(),
            r.spec_page_size() == page_size,
            r.wf(),
    {
        HugePage::containing_address(page.start_address(), page_size)
    }

    /// The P4 index of this huge page's first 4 KiB page.
    pub fn p4_index(&self) -> (r: usize)
        requires
            self.wf(),
        ensures
            r == spec_p4_index(self.spec_normal_number()),
            r < 512,
    {
        proof {
            self.lemma_scaled_number();
        }
        (((self.number * self.page_size.huge_page_ratio()) / 0x800_0000) % 512) as usize
    }

    /// The P3 index of this huge page's first 4 KiB page.
    pub fn p3_index(&self) -> (r: usize)
        requires
            self.wf(),
        ensures
            r == spec_p3_index(self.spec_normal_number()),
            r < 512,
    {
        proof {
            self.lemma_scaled_number();
        }
        (((self.number * self.page_size.huge_page_ratio()) / 0x4_0000) % 512) as usize
    }

    /// The P2 index of this huge page's first 4 KiB page.
    pub fn p2_index(&self) -> (r: usize)
        requires
            self.wf(),
        ensures
            r == spec_p2_index(self.spec_normal_number()),
            r < 512,
    {
        proof {
            self.lemma_scaled_number();
        }
        (((self.number * self.page_size.huge_page_ratio()) / 512) % 512) as usize
    }

    /// The P1 index of this huge page's first 4 KiB page.
    pub fn p1_index(&self) -> (r: usize)
        requires
            self.wf(),
        ensures
            r == spec_p1_index(self.spec_normal_number()),
            r < 512,
    {
        proof {
            self.lemma_scaled_number();
        }
        ((self.number * self.page_size.huge_page_ratio()) % 512) as usize
    }

    /// The page size of this huge page.
    #[verifier::when_used_as_spec(spec_page_size)]
    pub fn page_size(&self) -> (r: HugePageSize)
        ensures
            r == self.spec_page_size(),
    {
        self.page_size
    }

    /// The huge page `rhs` pages of this size above this one; the sum
    /// saturates at the largest page number scaled to this size.
    pub fn plus(self, rhs: u64) -> (r: HugePage)
        requires
            self.spec_page_size().wf(),
        ensures
            r.spec_number() == if self.spec_number() + rhs > MAX_PAGE_NUMBER / spec_ratio_of(
                self.spec_page_size().spec_value(),
            ) {
                MAX_PAGE_NUMBER / spec_ratio_of(self.spec_page_size().spec_value())
            } else {
                (self.spec_number() + rhs) as u64
            },
            r.spec_page_size() == self.spec_page_size(),
            r.wf(),
    {
        let cap = MAX_PAGE_NUMBER / self.page_size.huge_page_ratio();
        let sum = if self.number <= u64::MAX - rhs {
            self.number + rhs
        } else {
            u64::MAX
        };
        HugePage { number: if sum < cap { sum } else { cap }, page_size: self.page_size }
    }

    /// The huge page `rhs` pages of this size below this one; the
    /// difference saturates at zero.
    pub fn minus(self, rhs: u64) -> (r: HugePage)
        ensures
            r.spec_number() == sat_sub(self.spec_number(), rhs),
            r.spec_page_size() == self.spec_page_size(),
    {
        HugePage {
            number: if self.number >= rhs { self.number - rhs } else { 0 },
            page_size: self.page_size,
        }
    }
}

/// An inclusive range of `HugePage`s of one size that are contiguous in
/// virtual memory. The range is empty when the start number exceeds the end
/// number.
#[derive(Clone, Copy, Debug, PartialEq, Eq, Structural)]
pub struct HugePageRange {
    /// The first huge page of the range.
    pub start: HugePage,
    /// The last huge page of the range.
    pub end: HugePage,
}

impl HugePageRange {
    /// The first huge page of the range, as a specification value.
    pub open spec fn spec_start(&self) -> HugePage {
        self.start
    }

    /// The last huge page of the range, as a specification value.
    pub open spec fn spec_end(&self) -> HugePage {
        self.end
    }

    /// The shared page size of the range, as a specification value.
    pub open spec fn spec_page_size(&self) -> HugePageSize {
        self.spec_start().spec_page_size()
    }

    /// A well-formed range has well-formed bounds of one common size.
    pub open spec fn wf(&self) -> bool {
        &&& self.spec_start().wf()
        &&& self.spec_end().wf()
        &&& self.spec_start().spec_page_size() == self.spec_end().spec_page_size()
    }

    /// The number of huge pages covered: zero when empty, else one more
    /// than the difference of the bounds.
    pub open spec fn spec_size_in_pages(&self) -> u64 {
        if self.spec_start().spec_number() > self.spec_end().spec_number() {
            0
        } else {
            (self.spec_end().spec_number() - self.spec_start().spec_number() + 1) as u64
        }
    }

    /// The number of bytes covered.
    pub open spec fn spec_size_in_bytes(&self) -> int {
        self.spec_size_in_pages() * self.spec_page_size().spec_value()
    }

    /// Whether the huge page containing `addr` lies within the range.
    pub open spec fn spec_contains_addr(&self, addr: u64) -> bool {
        self.spec_start().spec_number() <= addr / self.spec_page_size().spec_value()
            <= self.spec_end().spec_number()
    }

    /// Creates a new range of `HugePage`s that spans from `start` to `end`,
    /// both inclusive bounds.
    pub fn new(start: HugePage, end: HugePage) -> (r: HugePageRange)
        ensures
            r.spec_start() == start,
            r.spec_end() == end,
    {
        HugePageRange { start, end }
    }

    /// Creates a `HugePageRange` of the given size that covers no pages.
    pub fn empty(page_size: HugePageSize) -> (r: HugePageRange)
        requires
            page_size.wf(),
        ensures
            r.spec_size_in_pages() == 0,
            r.spec_start().spec_number() == 1,
            r.spec_end().spec_number() == 0,
            r.spec_page_size() == page_size,
            r.wf(),
    {
        proof {
            assert(MAX_PAGE_NUMBER / 1 >= 1 && MAX_PAGE_NUMBER / 512 >= 1 && MAX_PAGE_NUMBER
                / 262144 >= 1);
        }
        HugePageRange {
            start: HugePage { number: 1, page_size },
            end: HugePage { number: 0, page_size },
        }
    }

    /// The first huge page of the range.
    #[verifier::when_used_as_spec(spec_start)]
    pub fn start(&self) -> (r: HugePage)
        ensures
            r == self.spec_start(),
    {
        self.start
    }

    /// The last huge page of the range.
    #[verifier::when_used_as_spec(spec_end)]
    pub fn end(&self) -> (r: HugePage)
        ensures
            r == self.spec_end(),
    {
        self.end
    }

    /// Creates a new `HugePageRange` that spans all huge pages of the given
    /// size from the given virtual address through the end of the block of
    /// the given byte size.
    pub fn from_virt_addr(
        starting_virt_addr: VirtualAddress,
        size_in_bytes: u64,
        page_size: HugePageSize,
    ) -> (r: HugePageRange)
        requires
            size_in_bytes > 0,
            page_size.wf(),
        ensures
            r.spec_start().spec_number() == starting_virt_addr.value() / page_size.spec_value(),
            r.spec_end().spec_number() == sign_extend_47(
                sat_add(starting_virt_addr.value(), (size_in_bytes - 1) as u64),
            ) / page_size.spec_value(),
            r.spec_page_size() == page_size,
            r.wf(),
    {
        let start_page = HugePage::containing_address(starting_virt_addr, page_size);
        let end_page = HugePage::containing_address(
            starting_virt_addr.add_offset(size_in_bytes - 1),
            page_size,
        );
        HugePageRange::new(start_page, end_page)
    }

    /// Returns the `VirtualAddress` of the starting `HugePage`.
    pub fn start_address(&self) -> (r: VirtualAddress)
        requires
            self.wf(),
        ensures
            r.value() == sign_extend_47(
                (self.spec_start().spec_number() * self.spec_page_size().spec_value()) as u64,
            ),
            crate::addr::canonical(
                (self.spec_start().spec_number() * self.spec_page_size().spec_value()) as u64,
            ) ==> r.value() == self.spec_start().spec_number()
                * self.spec_page_size().spec_value(),
    {
        self.start.start_address()
    }

    /// Returns the size of the range in number of `HugePage`s.
    pub fn size_in_pages(&self) -> (r: u64)
        requires
            self.wf(),
        ensures
            r == self.spec_size_in_pages(),
    {
        if self.start.number > self.end.number {
            0
        } else {
            self.end.number - self.start.number + 1
        }
    }

    /// Returns the size of the range in bytes.
    pub fn size_in_bytes(&self) -> (r: u64)
        requires
            self.wf(),
            self.spec_size_in_bytes() <= u64::MAX,
        ensures
            r == self.spec_size_in_bytes(),
    {
        self.size_in_pages() * self.start.page_size().value()
    }

    /// Whether this `HugePageRange` contains the given `VirtualAddress`.
    pub fn contains_virt_addr(&self, virt_addr: VirtualAddress) -> (r: bool)
        requires
            self.wf(),
        ensures
            r == self.spec_contains_addr(virt_addr.value()),
    {
        let p = HugePage::containing_address(virt_addr, self.page_size());
        self.start.number <= p.number && p.number <= self.end.number
    }

    /// The shared page size of the range.
    pub fn page_size(&self) -> (r: HugePageSize)
        ensures
            r == self.spec_page_size(),
    {
        self.start.page_size()
    }

    /// Returns the offset of the given `VirtualAddress` within this range:
    /// the difference between it and the range's start address. Returns
    /// `None` when the address is not covered.
    pub fn offset_of_address(&self, virt_addr: VirtualAddress) -> (r: Option<u64>)
        requires
            self.wf(),
            crate::addr::canonical(
                (self.spec_start().spec_number() * self.spec_page_size().spec_value()) as u64,
            ),
        ensures
            match r {
                Some(off) => self.spec_contains_addr(virt_addr.value()) && off == virt_addr.value()
                    - self.spec_start().spec_number() * self.spec_page_size().spec_value(),
                None => !self.spec_contains_addr(virt_addr.value()),
            },
    {
        if self.contains_virt_addr(virt_addr) {
            let sa = self.start_address();
            proof {
                lemma_div_mul_le(
                    virt_addr.value(),
                    self.spec_page_size().spec_value(),
                    self.spec_start().spec_number(),
                );
            }
            Some(virt_addr.value() - sa.value())
        } else {
            None
        }
    }

    /// Returns the `VirtualAddress` at the given byte offset into this
    /// range, or `None` when the offset lies past its size.
    pub fn address_at_offset(&self, offset: u64) -> (r: Option<VirtualAddress>)
        requires
            self.wf(),
            self.spec_size_in_bytes() <= u64::MAX,
        ensures
            match r {
                Some(a) => offset <= self.spec_size_in_bytes() && a.value() == sign_extend_47(
                    sat_add(
                        sign_extend_47(
                            (self.spec_start().spec_number()
                                * self.spec_page_size().spec_value()) as u64,
                        ),
                        offset,
                    ),
                ),
                None => offset > self.spec_size_in_bytes(),
            },
    {
        if offset <= self.size_in_bytes() {
            Some(self.start_address().add_offset(offset))
        } else {
            None
        }
    }
}

} // verus!
