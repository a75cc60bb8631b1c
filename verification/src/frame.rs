//! Frames: 4 KiB units of physical memory, and inclusive ranges of them.

use vstd::prelude::*;

use crate::addr::{mask_to_52, sat_sub, PhysicalAddress};
use crate::sizes::HugePageSize;
use crate::{MAX_PAGE_NUMBER, PAGE_SIZE};

verus! {

/// The saturating sum of two numbers, capped at the largest valid page (and
/// frame) number.
pub open spec fn number_plus(a: u64, b: u64) -> u64 {
    if a + b > MAX_PAGE_NUMBER {
        MAX_PAGE_NUMBER
    } else {
        (a + b) as u64
    }
}

/// A `Frame` is a chunk of physical memory aligned to and sized as one
/// 4 KiB page.
#[derive(Clone, Copy, Debug, PartialEq, Eq, Structural)]
pub struct Frame {
    /// The frame number: the start address divided by the page size.
    pub number: u64,
}

impl Frame {
    /// A well-formed frame number does not exceed the largest page number.
    pub open spec fn wf(&self) -> bool {
        self.number <= MAX_PAGE_NUMBER
    }

    /// Returns the `Frame` containing the given `PhysicalAddress`.
    pub fn containing_address(phys_addr: PhysicalAddress) -> (r: Frame)
        ensures
            r.number == phys_addr.value() / 4096,
            r.wf(),
    {
        Frame { number: phys_addr.value() / PAGE_SIZE }
    }

    /// Returns the `Frame`, counted in units of the given page size, that
    /// contains the given `PhysicalAddress`.
    pub fn containing_huagepage_address(phys_addr: PhysicalAddress, page_size: HugePageSize) -> (r:
        Frame)
        requires
            page_size.wf(),
        ensures
            r.number == phys_addr.value() / page_size.spec_value(),
            r.wf(),
    {
        proof {
            assert(phys_addr.value() / page_size.spec_value() <= MAX_PAGE_NUMBER)
                by (nonlinear_arith)
                requires
                    page_size.spec_value() >= 4096,
                    phys_addr.value() <= u64::MAX,
                    MAX_PAGE_NUMBER == 0xF_FFFF_FFFF_FFFF,
            ;
        }
        Frame { number: phys_addr.value() / page_size.value() }
    }

    /// Returns the `PhysicalAddress` at the start of this `Frame`.
    pub fn start_address(&self) -> (r: PhysicalAddress)
        requires
            self.wf(),
        ensures
            r.value() == mask_to_52((self.number * 4096) as u64),
            self.number < 0x100_0000_0000 ==> r.value() == self.number * 4096,
    {
        PhysicalAddress::new_canonical(self.number * PAGE_SIZE)
    }

    /// Returns the `PhysicalAddress` at the start of this `Frame` when it is
    /// counted in units of the given page size.
    pub fn huagepage_start_address(&self, page_size: HugePageSize) -> (r: PhysicalAddress)
        requires
            page_size.wf(),
            self.number * page_size.spec_value() <= u64::MAX,
        ensures
            r.value() == mask_to_52((self.number * page_size.spec_value()) as u64),
    {
        PhysicalAddress::new_canonical(self.number * page_size.value())
    }

    /// The frame `rhs` frames above this one; the sum saturates at the
    /// largest frame number.
    pub fn plus(self, rhs: u64) -> (r: Frame)
        ensures
            r.number == number_plus(self.number, rhs),
            r.wf(),
    {
        let sum = if self.number <= u64::MAX - rhs {
            self.number + rhs
        } else {
            u64::MAX
        };
        Frame { number: if sum < MAX_PAGE_NUMBER { sum } else { MAX_PAGE_NUMBER } }
    }

    /// The frame `rhs` frames below this one; the difference saturates at
    /// zero.
    pub fn minus(self, rhs: u64) -> (r: Frame)
        ensures
            r.number == sat_sub(self.number, rhs),
    {
        Frame { number: if self.number >= rhs { self.number - rhs } else { 0 } }
    }
}

/// An inclusive range of `Frame`s that are contiguous in physical memory.
/// The range is empty when the start number exceeds the end number.
#[derive(Clone, Copy, Debug, PartialEq, Eq, Structural)]
pub struct FrameRange {
    /// The first frame of the range.
    pub start: Frame,
    /// The last frame of the range.
    pub end: Frame,
}

impl FrameRange {
    /// The first frame of the range, as a specification value.
    pub open spec fn spec_start(&self) -> Frame {
        self.start
    }

    /// The last frame of the range, as a specification value.
    pub open spec fn spec_end(&self) -> Frame {
        self.end
    }

    /// A well-formed range has well-formed bounds.
    pub open spec fn wf(&self) -> bool {
        self.spec_start().wf() && self.spec_end().wf()
    }

    /// The number of frames covered: zero when empty, else one more than
    /// the difference of the bounds.
    pub open spec fn spec_size_in_frames(&self) -> u64 {
        if self.spec_start().number > self.spec_end().number {
            0
        } else {
            (self.spec_end().number - self.spec_start().number + 1) as u64
        }
    }

    /// Whether the frame containing `addr` lies within the range.
    pub open spec fn spec_contains_addr(&self, addr: u64) -> bool {
        self.spec_start().number <= addr / 4096 <= self.spec_end().number
    }

    /// Creates a new range of `Frame`s that spans from `start` to `end`,
    /// both inclusive bounds.
    pub fn new(start: Frame, end: Frame) -> (r: FrameRange)
        ensures
            r.spec_start() == start,
            r.spec_end() == end,
    {
        FrameRange { start, end }
    }

    /// Creates a `FrameRange` that covers no frames.
    pub fn empty() -> (r: FrameRange)
        ensures
            r.spec_size_in_frames() == 0,
            r.wf(),
    {
        FrameRange { start: Frame { number: 1 }, end: Frame { number: 0 } }
    }

    /// The first frame of the range.
    #[verifier::when_used_as_spec(spec_start)]
    pub fn start(&self) -> (r: Frame)
        ensures
            r == self.spec_start(),
    {
        self.start
    }

    /// The last frame of the range.
    #[verifier::when_used_as_spec(spec_end)]
    pub fn end(&self) -> (r: Frame)
        ensures
            r == self.spec_end(),
    {
        self.end
    }

    /// Creates a new `FrameRange` that spans all frames from the given
    /// physical address through the end of the block of the given size.
    pub fn from_phys_addr(starting_addr: PhysicalAddress, size_in_bytes: u64) -> (r: FrameRange)
        requires
            size_in_bytes > 0,
        ensures
            r.spec_start().number == starting_addr.value() / 4096,
            r.spec_end().number == mask_to_52(
                crate::addr::sat_add(starting_addr.value(), (size_in_bytes - 1) as u64),
            ) / 4096,
            r.wf(),
    {
        let start_frame = Frame::containing_address(starting_addr);
        let end_frame = Frame::containing_address(starting_addr.add_offset(size_in_bytes - 1));
        FrameRange::new(start_frame, end_frame)
    }

    /// Returns the `PhysicalAddress` of the starting `Frame`.
    pub fn start_address(&self) -> (r: PhysicalAddress)
        requires
            self.wf(),
        ensures
            r.value() == mask_to_52((self.spec_start().number * 4096) as u64),
            self.spec_start().number < 0x100_0000_0000 ==> r.value() == self.spec_start().number
                * 4096,
    {
        self.start.start_address()
    }

    /// Returns the starting `Frame`, recomputed from its address.
    pub fn start_frame(&self) -> (r: Frame)
        requires
            self.wf(),
        ensures
            self.spec_start().number < 0x100_0000_0000 ==> r == self.spec_start(),
    {
        let r = Frame::containing_address(self.start_address());
        proof {
            if self.spec_start().number < 0x100_0000_0000 {
                assert(self.spec_start().number * 4096 / 4096 == self.spec_start().number);
            }
        }
        r
    }

    /// Returns the number of `Frame`s covered by this range.
    pub fn size_in_frames(&self) -> (r: u64)
        requires
            self.wf(),
        ensures
            r == self.spec_size_in_frames(),
    {
        if self.start.number > self.end.number {
            0
        } else {
            self.end.number - self.start.number + 1
        }
    }

    /// Whether this `FrameRange` contains the given `PhysicalAddress`.
    pub fn contains_phys_addr(&self, phys_addr: PhysicalAddress) -> (r: bool)
        ensures
            r == self.spec_contains_addr(phys_addr.value()),
    {
        let f = Frame::containing_address(phys_addr);
        self.start.number <= f.number && f.number <= self.end.number
    }

    /// Returns the offset of the given `PhysicalAddress` within this range:
    /// the difference between it and the range's start address. Returns
    /// `None` when the address is not covered.
    pub fn offset_from_start(&self, phys_addr: PhysicalAddress) -> (r: Option<u64>)
        requires
            self.wf(),
            self.spec_start().number < 0x100_0000_0000,
        ensures
            match r {
                Some(off) => self.spec_contains_addr(phys_addr.value()) && off == phys_addr.value()
                    - self.spec_start().number * 4096,
                None => !self.spec_contains_addr(phys_addr.value()),
            },
    {
        if self.contains_phys_addr(phys_addr) {
            let sa = self.start_address();
            proof {
                assert(phys_addr.value() / 4096 * 4096 <= phys_addr.value() && self.spec_start().number
                    <= phys_addr.value() / 4096 ==> self.spec_start().number * 4096
                    <= phys_addr.value()) by (nonlinear_arith);
            }
            Some(phys_addr.value() - sa.value())
        } else {
            None
        }
    }

    /// Returns a new, separate `FrameRange` extended to include the given
    /// `Frame`: the given frame alone when this range was empty, else the
    /// widened bounds.
    pub fn to_extended(&self, frame_to_include: Frame) -> (r: FrameRange)
        requires
            self.wf(),
        ensures
            self.spec_size_in_frames() == 0 ==> r.spec_start() == frame_to_include && r.spec_end()
                == frame_to_include,
            self.spec_size_in_frames() > 0 ==> {
                &&& r.spec_start().number == if frame_to_include.number
                    < self.spec_start().number {
                    frame_to_include.number
                } else {
                    self.spec_start().number
                }
                &&& r.spec_end().number == if frame_to_include.number > self.spec_end().number {
                    frame_to_include.number
                } else {
                    self.spec_end().number
                }
            },
    {
        if self.start.number > self.end.number {
            return FrameRange::new(frame_to_include, frame_to_include);
        }
        let start = if self.start.number < frame_to_include.number {
            self.start
        } else {
            frame_to_include
        };
        let end = if self.end.number > frame_to_include.number {
            self.end
        } else {
            frame_to_include
        };
        FrameRange::new(start, end)
    }
}

} // verus!
