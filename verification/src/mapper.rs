//! The four-level x86_64 page-table mapper and the owning handles over
//! mapped regions.
//!
//! The page tables of one address space are modeled as maps keyed by table
//! paths: `p3_tables` is keyed by the P4 index, `p2_tables` by the P4 and
//! P3 indices packed together (the page number divided by 2^18), and
//! `p1_tables` by the page number divided by 2^9. Leaf mappings live in
//! `leaves_1g` (P3 leaves), `leaves_2m` (P2 leaves) and `leaves_4k` (P1
//! leaves), keyed the same way. The invariant `wf` ties the levels
//! together: every table and leaf has its parent table, a slot holds
//! either a child table or a huge leaf but never both, no entry above a
//! leaf carries NO_EXECUTE, every leaf is PRESENT, and huge leaves are
//! aligned to their size.

use std::collections::HashMap;
use vstd::prelude::*;

use crate::addr::{PhysicalAddress, VirtualAddress};
use crate::allocation::{AllocatedHugePages, AllocatedPages, FrameAllocator, PageAllocator};
use crate::error::MemError;
use crate::flags::EntryFlags;
use crate::frame::{Frame, FrameRange};
use crate::page::{HugePageRange, Page, PageRange};
use crate::sizes::{spec_ratio_of, HugePageSize};
use crate::MAX_PAGE_NUMBER;

verus! {

broadcast use vstd::std_specs::hash::group_hash_axioms;

/// An intermediate page table: the frame that backs it and the flags of
/// the parent entry that points at it.
#[derive(Clone, Copy, Debug, PartialEq, Eq, Structural)]
pub struct TableNode {
    /// The frame holding the 512 entries of this table.
    pub frame: Frame,
    /// The flags of the parent entry pointing at this table.
    pub flags: EntryFlags,
}

/// A leaf mapping: the first frame it maps and the flags of its entry.
#[derive(Clone, Copy, Debug, PartialEq, Eq, Structural)]
pub struct LeafMapping {
    /// The first frame of the mapped block.
    pub frame: Frame,
    /// The flags of the leaf entry, PRESENT included.
    pub flags: EntryFlags,
}

/// The numeric value of a page-table entry pointing at `frame` with
/// `flags`: the frame's start address with the flag bits laid on top. The
/// address bits and the flag bits occupy disjoint positions, so the sum
/// equals the hardware bitwise-or form.
pub open spec fn spec_entry_value(frame: Frame, flags: EntryFlags) -> u64 {
    (frame.number * 4096 + flags.spec_with_present().spec_bits()) as u64
}

/// The mapper of one address space: exclusive write access to the page
/// tables rooted at `target_p4`.
pub struct Mapper {
    /// The frame containing the top-level P4 page table.
    pub target_p4: Frame,
    p3_tables: HashMap<u64, TableNode>,
    p2_tables: HashMap<u64, TableNode>,
    p1_tables: HashMap<u64, TableNode>,
    leaves_1g: HashMap<u64, LeafMapping>,
    leaves_2m: HashMap<u64, LeafMapping>,
    leaves_4k: HashMap<u64, LeafMapping>,
}

impl Mapper {
    /// The frame of the root P4 table, as a specification value.
    pub closed spec fn spec_target_p4(self) -> Frame {
        self.target_p4
    }

    /// The P3 tables, keyed by P4 index, as a specification value.
    pub closed spec fn spec_p3_tables(self) -> Map<u64, TableNode> {
        self.p3_tables@
    }

    /// The P2 tables, keyed by page number / 2^18, as a specification
    /// value.
    pub closed spec fn spec_p2_tables(self) -> Map<u64, TableNode> {
        self.p2_tables@
    }

    /// The P1 tables, keyed by page number / 2^9, as a specification
    /// value.
    pub closed spec fn spec_p1_tables(self) -> Map<u64, TableNode> {
        self.p1_tables@
    }

    /// The 1 GiB leaves, keyed by page number / 2^18, as a specification
    /// value.
    pub closed spec fn spec_leaves_1g(self) -> Map<u64, LeafMapping> {
        self.leaves_1g@
    }

    /// The 2 MiB leaves, keyed by page number / 2^9, as a specification
    /// value.
    pub closed spec fn spec_leaves_2m(self) -> Map<u64, LeafMapping> {
        self.leaves_2m@
    }

    /// The 4 KiB leaves, keyed by page number, as a specification value.
    pub closed spec fn spec_leaves_4k(self) -> Map<u64, LeafMapping> {
        self.leaves_4k@
    }

    /// The well-formedness invariant of the table structure.
    pub open spec fn wf(self) -> bool {
        // every table or leaf hangs under an existing parent table
        &&& forall|k: u64|
            #[trigger] self.spec_p2_tables().contains_key(k) ==> self.spec_p3_tables().contains_key(
                k / 512,
            )
        &&& forall|k: u64|
            #[trigger] self.spec_p1_tables().contains_key(k) ==> self.spec_p2_tables().contains_key(
                k / 512,
            )
        &&& forall|k: u64|
            #[trigger] self.spec_leaves_1g().contains_key(k) ==> self.spec_p3_tables().contains_key(
                k / 512,
            )
        &&& forall|k: u64|
            #[trigger] self.spec_leaves_2m().contains_key(k) ==> self.spec_p2_tables().contains_key(
                k / 512,
            )
        &&& forall|k: u64|
            #[trigger] self.spec_leaves_4k().contains_key(k) ==> self.spec_p1_tables().contains_key(
                k / 512,
            )
        // a slot holds either a child table or a huge leaf, never both
        &&& forall|k: u64|
            #[trigger] self.spec_leaves_1g().contains_key(k) ==> !self.spec_p2_tables().contains_key(
                k,
            )
        &&& forall|k: u64|
            #[trigger] self.spec_leaves_2m().contains_key(k) ==> !self.spec_p1_tables().contains_key(
                k,
            )
        // entries above leaves never carry NO_EXECUTE
        &&& forall|k: u64|
            #[trigger] self.spec_p3_tables().contains_key(k) ==> !self.spec_p3_tables()[k].flags.no_execute
        &&& forall|k: u64|
            #[trigger] self.spec_p2_tables().contains_key(k) ==> !self.spec_p2_tables()[k].flags.no_execute
        &&& forall|k: u64|
            #[trigger] self.spec_p1_tables().contains_key(k) ==> !self.spec_p1_tables()[k].flags.no_execute
        // table and leaf frames stay within the 52-bit physical space
        &&& forall|k: u64|
            #[trigger] self.spec_p3_tables().contains_key(k) ==> self.spec_p3_tables()[k].frame.number < 0x100_0000_0000
        &&& forall|k: u64|
            #[trigger] self.spec_p2_tables().contains_key(k) ==> self.spec_p2_tables()[k].frame.number < 0x100_0000_0000
        &&& forall|k: u64|
            #[trigger] self.spec_p1_tables().contains_key(k) ==> self.spec_p1_tables()[k].frame.number < 0x100_0000_0000
        // every leaf is PRESENT, aligned to its size, with room for its block
        &&& forall|k: u64|
            #[trigger] self.spec_leaves_1g().contains_key(k) ==> {
                &&& self.spec_leaves_1g()[k].flags.present
                &&& self.spec_leaves_1g()[k].frame.number % 262144 == 0
                &&& self.spec_leaves_1g()[k].frame.number + 262143 < 0x100_0000_0000
            }
        &&& forall|k: u64|
            #[trigger] self.spec_leaves_2m().contains_key(k) ==> {
                &&& self.spec_leaves_2m()[k].flags.present
                &&& self.spec_leaves_2m()[k].frame.number % 512 == 0
                &&& self.spec_leaves_2m()[k].frame.number + 511 < 0x100_0000_0000
            }
        &&& forall|k: u64|
            #[trigger] self.spec_leaves_4k().contains_key(k) ==> {
                &&& self.spec_leaves_4k()[k].flags.present
                &&& self.spec_leaves_4k()[k].frame.number < 0x100_0000_0000
            }
    }

    /// The frame that the 4 KiB page numbered `n` translates to, walking
    /// the modeled tables and honoring huge leaves.
    pub open spec fn spec_translate_page(self, n: u64) -> Option<Frame> {
        if self.spec_leaves_1g().contains_key(n / 262144) {
            Some(Frame { number: (self.spec_leaves_1g()[n / 262144].frame.number + n % 262144) as u64 })
        } else if self.spec_leaves_2m().contains_key(n / 512) {
            Some(Frame { number: (self.spec_leaves_2m()[n / 512].frame.number + n % 512) as u64 })
        } else if self.spec_leaves_4k().contains_key(n) {
            Some(self.spec_leaves_4k()[n].frame)
        } else {
            None
        }
    }

    /// The flags of the leaf entry that maps the 4 KiB page numbered `n`.
    pub open spec fn spec_leaf_flags(self, n: u64) -> Option<EntryFlags> {
        if self.spec_leaves_1g().contains_key(n / 262144) {
            Some(self.spec_leaves_1g()[n / 262144].flags)
        } else if self.spec_leaves_2m().contains_key(n / 512) {
            Some(self.spec_leaves_2m()[n / 512].flags)
        } else if self.spec_leaves_4k().contains_key(n) {
            Some(self.spec_leaves_4k()[n].flags)
        } else {
            None
        }
    }


    /// Whether the P2 slot that would hold a 2 MiB leaf for huge-page
    /// number `h` is occupied: by a 1 GiB leaf above it, a 2 MiB leaf, or
    /// a P1 table.
    pub open spec fn spec_slot_taken_2m(self, h: u64) -> bool {
        ||| self.spec_leaves_1g().contains_key(h / 512)
        ||| self.spec_leaves_2m().contains_key(h)
        ||| self.spec_p1_tables().contains_key(h)
    }

    /// Whether the P3 slot that would hold a 1 GiB leaf for huge-page
    /// number `h` is occupied: by a 1 GiB leaf or a P2 table.
    pub open spec fn spec_slot_taken_1g(self, h: u64) -> bool {
        ||| self.spec_leaves_1g().contains_key(h)
        ||| self.spec_p2_tables().contains_key(h)
    }

    /// Whether the translations of the two mappers agree everywhere, leaf
    /// flags included.
    pub open spec fn same_translation(self, other: Mapper) -> bool {
        &&& forall|n: u64| #[trigger] self.spec_translate_page(n) == other.spec_translate_page(n)
        &&& forall|n: u64| #[trigger] self.spec_leaf_flags(n) == other.spec_leaf_flags(n)
    }

    /// Creates a mapper for the address space rooted at the given P4
    /// frame, with no mappings.
    pub fn with_p4_frame(p4: Frame) -> (r: Mapper)
        ensures
            r.spec_target_p4() == p4,
            r.wf(),
            forall|n: u64| #[trigger] r.spec_translate_page(n) == None::<Frame>,
            forall|n: u64| #[trigger] r.spec_leaf_flags(n) == None::<EntryFlags>,
            r.spec_p3_tables() == Map::<u64, TableNode>::empty(),
            r.spec_p2_tables() == Map::<u64, TableNode>::empty(),
            r.spec_p1_tables() == Map::<u64, TableNode>::empty(),
    {
        Mapper {
            target_p4: p4,
            p3_tables: HashMap::new(),
            p2_tables: HashMap::new(),
            p1_tables: HashMap::new(),
            leaves_1g: HashMap::new(),
            leaves_2m: HashMap::new(),
            leaves_4k: HashMap::new(),
        }
    }

    /// Translates a virtual memory `Page` to the physical memory `Frame`
    /// it is mapped to, by consulting the modeled page tables.
    pub fn translate_page(&self, page: Page) -> (r: Option<Frame>)
        requires
            self.wf(),
        ensures
            r == self.spec_translate_page(page.spec_number()),
            r matches Some(f) ==> f.wf(),
    {
        let n = page.number;
        if let Some(leaf) = self.leaves_1g.get(&(n / 262144)) {
            return Some(Frame { number: leaf.frame.number + n % 262144 });
        }
        if let Some(leaf) = self.leaves_2m.get(&(n / 512)) {
            return Some(Frame { number: leaf.frame.number + n % 512 });
        }
        if let Some(leaf) = self.leaves_4k.get(&n) {
            return Some(leaf.frame);
        }
        None
    }

    /// Translates a `VirtualAddress` to a `PhysicalAddress` by walking the
    /// page tables: the start address of the mapped frame plus the offset
    /// of the address within its page.
    pub fn translate(&self, virtual_address: VirtualAddress) -> (r: Option<PhysicalAddress>)
        requires
            self.wf(),
        ensures
            match self.spec_translate_page(virtual_address.value() / 4096) {
                Some(f) => r matches Some(pa) && (f.number < 0x100_0000_0000 ==> pa.value()
                    == f.number * 4096 + virtual_address.value() % 4096),
                None => r is None,
            },
    {
        let page = Page::containing_address(virtual_address);
        match self.translate_page(page) {
            Some(frame) => {
                let base = frame.start_address();
                let off = virtual_address.page_offset();
                Some(base.add_offset(off))
            },
            None => None,
        }
    }
}

/// A vector of `len` zero bytes.
fn zero_bytes(len: usize) -> (r: Vec<u8>)
    ensures
        r@.len() == len,
        forall|i: int| 0 <= i < len ==> r@[i] == 0,
{
    let mut v: Vec<u8> = Vec::new();
    let mut i: usize = 0;
    while i < len
        invariant
            i <= len,
            v@.len() == i,
            forall|j: int| 0 <= j < i ==> v@[j] == 0,
        decreases len - i,
    {
        v.push(0);
        i = i + 1;
    }
    v
}

/// Two mappers with equal leaf maps translate every page alike.
proof fn lemma_same_leaves_same_translation(a: Mapper, b: Mapper)
    requires
        a.spec_leaves_1g() == b.spec_leaves_1g(),
        a.spec_leaves_2m() == b.spec_leaves_2m(),
        a.spec_leaves_4k() == b.spec_leaves_4k(),
    ensures
        a.same_translation(b),
{
    assert forall|n: u64| #[trigger] a.spec_translate_page(n) == b.spec_translate_page(n) by {}
    assert forall|n: u64| #[trigger] a.spec_leaf_flags(n) == b.spec_leaf_flags(n) by {}
}


/// Inserting a table node whose parent is present, whose frame is well
/// formed, and whose flags lack NO_EXECUTE preserves the invariant, at
/// each of the three levels.
proof fn lemma_wf_insert_p3(pre: Mapper, post: Mapper, k: u64, node: TableNode)
    requires
        pre.wf(),
        !node.flags.no_execute,
        node.frame.number < 0x100_0000_0000,
        post.spec_p3_tables() == pre.spec_p3_tables().insert(k, node),
        post.spec_p2_tables() == pre.spec_p2_tables(),
        post.spec_p1_tables() == pre.spec_p1_tables(),
        post.spec_leaves_1g() == pre.spec_leaves_1g(),
        post.spec_leaves_2m() == pre.spec_leaves_2m(),
        post.spec_leaves_4k() == pre.spec_leaves_4k(),
    ensures
        post.wf(),
{
}

proof fn lemma_wf_insert_p2(pre: Mapper, post: Mapper, k: u64, node: TableNode)
    requires
        pre.wf(),
        !node.flags.no_execute,
        node.frame.number < 0x100_0000_0000,
        pre.spec_p3_tables().contains_key(k / 512),
        !pre.spec_leaves_1g().contains_key(k),
        post.spec_p2_tables() == pre.spec_p2_tables().insert(k, node),
        post.spec_p3_tables() == pre.spec_p3_tables(),
        post.spec_p1_tables() == pre.spec_p1_tables(),
        post.spec_leaves_1g() == pre.spec_leaves_1g(),
        post.spec_leaves_2m() == pre.spec_leaves_2m(),
        post.spec_leaves_4k() == pre.spec_leaves_4k(),
    ensures
        post.wf(),
{
}

proof fn lemma_wf_insert_p1(pre: Mapper, post: Mapper, k: u64, node: TableNode)
    requires
        pre.wf(),
        !node.flags.no_execute,
        node.frame.number < 0x100_0000_0000,
        pre.spec_p2_tables().contains_key(k / 512),
        !pre.spec_leaves_2m().contains_key(k),
        post.spec_p1_tables() == pre.spec_p1_tables().insert(k, node),
        post.spec_p3_tables() == pre.spec_p3_tables(),
        post.spec_p2_tables() == pre.spec_p2_tables(),
        post.spec_leaves_1g() == pre.spec_leaves_1g(),
        post.spec_leaves_2m() == pre.spec_leaves_2m(),
        post.spec_leaves_4k() == pre.spec_leaves_4k(),
    ensures
        post.wf(),
{
}

/// Inserting a PRESENT 4 KiB leaf whose P1 table is present preserves the
/// invariant.
proof fn lemma_wf_insert_leaf_4k(pre: Mapper, post: Mapper, n: u64, leaf: LeafMapping)
    requires
        pre.wf(),
        leaf.flags.present,
        leaf.frame.number < 0x100_0000_0000,
        pre.spec_p1_tables().contains_key(n / 512),
        post.spec_leaves_4k() == pre.spec_leaves_4k().insert(n, leaf),
        post.spec_p3_tables() == pre.spec_p3_tables(),
        post.spec_p2_tables() == pre.spec_p2_tables(),
        post.spec_p1_tables() == pre.spec_p1_tables(),
        post.spec_leaves_1g() == pre.spec_leaves_1g(),
        post.spec_leaves_2m() == pre.spec_leaves_2m(),
    ensures
        post.wf(),
{
}

impl Mapper {
    /// Whether any page of `[start, start + count)` is currently mapped.

    fn any_mapped(&self, start: u64, count: u64) -> (r: bool)
        requires
            self.wf(),
            start + count <= u64::MAX,
        ensures
            r == exists|k: u64|
                k < count && (#[trigger] self.spec_translate_page((start + k) as u64)) is Some,
    {
        let mut i: u64 = 0;
        while i < count
            invariant
                self.wf(),
                start + count <= u64::MAX,
                i <= count,
                forall|j: u64|
                    j < i ==> (#[trigger] self.spec_translate_page((start + j) as u64)) is None,
            decreases count - i,
        {
            let page = Page { number: start + i };
            if self.translate_page(page).is_some() {
                return true;
            }
            i = i + 1;
        }
        false
    }

    /// Creates the P3, P2 and P1 tables on the path of the 4 KiB page
    /// numbered `n` where they are missing, allocating a frame for each
    /// fresh table and recording `top_flags` on the entry that points at
    /// it. Leaf mappings are untouched.
    fn ensure_tables_4k<A: FrameAllocator>(
        &mut self,
        n: u64,
        top_flags: EntryFlags,
        allocator: &mut A,
    ) -> (r: Result<(), MemError>)
        requires
            old(self).wf(),
            !top_flags.no_execute,
            old(self).spec_translate_page(n) is None,
        ensures
            final(self).wf(),
            final(self).spec_target_p4() == old(self).spec_target_p4(),
            final(self).spec_leaves_1g() == old(self).spec_leaves_1g(),
            final(self).spec_leaves_2m() == old(self).spec_leaves_2m(),
            final(self).spec_leaves_4k() == old(self).spec_leaves_4k(),
            forall|k: u64|
                #[trigger] old(self).spec_p3_tables().contains_key(k) ==> final(self).spec_p3_tables().contains_key(k) && final(self).spec_p3_tables()[k] == old(self).spec_p3_tables()[k],
            forall|k: u64|
                #[trigger] old(self).spec_p2_tables().contains_key(k) ==> final(self).spec_p2_tables().contains_key(k) && final(self).spec_p2_tables()[k] == old(self).spec_p2_tables()[k],
            forall|k: u64|
                #[trigger] old(self).spec_p1_tables().contains_key(k) ==> final(self).spec_p1_tables().contains_key(k) && final(self).spec_p1_tables()[k] == old(self).spec_p1_tables()[k],
            forall|k: u64|
                #[trigger] final(self).spec_p3_tables().contains_key(k) && !old(self).spec_p3_tables().contains_key(k) ==> final(self).spec_p3_tables()[k].flags == top_flags,
            forall|k: u64|
                #[trigger] final(self).spec_p2_tables().contains_key(k) && !old(self).spec_p2_tables().contains_key(k) ==> final(self).spec_p2_tables()[k].flags == top_flags,
            forall|k: u64|
                #[trigger] final(self).spec_p1_tables().contains_key(k) && !old(self).spec_p1_tables().contains_key(k) ==> final(self).spec_p1_tables()[k].flags == top_flags,
            r is Ok ==> final(self).spec_p1_tables().contains_key(n / 512),
            r matches Err(e) ==> e == MemError::OutOfMemory && !old(
                self,
            ).spec_p1_tables().contains_key(n / 512),
    {
        proof {
            vstd::arithmetic::div_mod::lemma_div_denominator(n as int, 262144, 512);
            vstd::arithmetic::div_mod::lemma_div_denominator(n as int, 512, 512);
        }
        let p4k = n / 134217728;
        let k3 = n / 262144;
        let k2 = n / 512;
        if !self.p3_tables.contains_key(&p4k) {
            let f = match allocator.allocate_frame() {
                Some(f) => f,
                None => {
                    return Err(MemError::OutOfMemory);
                },
            };
            let ghost pre = *self;
            self.p3_tables.insert(p4k, TableNode { frame: f, flags: top_flags });
            proof {
                lemma_wf_insert_p3(pre, *self, p4k, TableNode { frame: f, flags: top_flags });
            }
        }
        if !self.p2_tables.contains_key(&k3) {
            let f = match allocator.allocate_frame() {
                Some(f) => f,
                None => {
                    return Err(MemError::OutOfMemory);
                },
            };
            let ghost pre = *self;
            self.p2_tables.insert(k3, TableNode { frame: f, flags: top_flags });
            proof {
                lemma_wf_insert_p2(pre, *self, k3, TableNode { frame: f, flags: top_flags });
            }
        }
        if !self.p1_tables.contains_key(&k2) {
            let f = match allocator.allocate_frame() {
                Some(f) => f,
                None => {
                    return Err(MemError::OutOfMemory);
                },
            };
            let ghost pre = *self;
            self.p1_tables.insert(k2, TableNode { frame: f, flags: top_flags });
            proof {
                lemma_wf_insert_p1(pre, *self, k2, TableNode { frame: f, flags: top_flags });
            }
        }
        Ok(())
    }

    /// Runs `ensure_tables_4k` over every page of `[start, start+count)`.
    fn ensure_tables_range<A: FrameAllocator>(
        &mut self,
        start: u64,
        count: u64,
        top_flags: EntryFlags,
        allocator: &mut A,
    ) -> (r: Result<(), MemError>)
        requires
            old(self).wf(),
            !top_flags.no_execute,
            start + count <= u64::MAX,
            forall|k: u64|
                k < count ==> (#[trigger] old(self).spec_translate_page((start + k) as u64))
                    is None,
        ensures
            final(self).wf(),
            final(self).spec_target_p4() == old(self).spec_target_p4(),
            final(self).spec_leaves_1g() == old(self).spec_leaves_1g(),
            final(self).spec_leaves_2m() == old(self).spec_leaves_2m(),
            final(self).spec_leaves_4k() == old(self).spec_leaves_4k(),
            forall|k: u64|
                #[trigger] final(self).spec_p3_tables().contains_key(k) && !old(self).spec_p3_tables().contains_key(k) ==> final(self).spec_p3_tables()[k].flags == top_flags,
            forall|k: u64|
                #[trigger] final(self).spec_p2_tables().contains_key(k) && !old(self).spec_p2_tables().contains_key(k) ==> final(self).spec_p2_tables()[k].flags == top_flags,
            forall|k: u64|
                #[trigger] final(self).spec_p1_tables().contains_key(k) && !old(self).spec_p1_tables().contains_key(k) ==> final(self).spec_p1_tables()[k].flags == top_flags,
            r is Ok ==> forall|k: u64|
                k < count ==> final(self).spec_p1_tables().contains_key(
                    #[trigger] (((start + k) as u64) / 512),
                ),
            r matches Err(e) ==> e == MemError::OutOfMemory && exists|k: u64|
                k < count && !old(self).spec_p1_tables().contains_key(
                    #[trigger] (((start + k) as u64) / 512),
                ),
    {
        let mut i: u64 = 0;
        while i < count
            invariant
                self.wf(),
                start + count <= u64::MAX,
                i <= count,
                !top_flags.no_execute,
                self.spec_target_p4() == old(self).spec_target_p4(),
                self.spec_leaves_1g() == old(self).spec_leaves_1g(),
                self.spec_leaves_2m() == old(self).spec_leaves_2m(),
                self.spec_leaves_4k() == old(self).spec_leaves_4k(),
                forall|k: u64|
                    k < count ==> (#[trigger] old(self).spec_translate_page((start + k) as u64))
                        is None,
                forall|j: u64|
                    j < i ==> self.spec_p1_tables().contains_key(
                        #[trigger] (((start + j) as u64) / 512),
                    ),
                forall|k: u64|
                    #[trigger] old(self).spec_p1_tables().contains_key(k)
                        ==> self.spec_p1_tables().contains_key(k),
                forall|k: u64|
                    #[trigger] self.spec_p3_tables().contains_key(k) && !old(self).spec_p3_tables().contains_key(k) ==> self.spec_p3_tables()[k].flags == top_flags,
                forall|k: u64|
                    #[trigger] self.spec_p2_tables().contains_key(k) && !old(self).spec_p2_tables().contains_key(k) ==> self.spec_p2_tables()[k].flags == top_flags,
                forall|k: u64|
                    #[trigger] self.spec_p1_tables().contains_key(k) && !old(self).spec_p1_tables().contains_key(k) ==> self.spec_p1_tables()[k].flags == top_flags,
            decreases count - i,
        {
            proof {
                lemma_same_leaves_same_translation(*self, *old(self));
            }
            let ghost pre = *self;
            match self.ensure_tables_4k(start + i, top_flags, allocator) {
                Ok(()) => {},
                Err(e) => {
                    proof {
                        assert(!old(self).spec_p1_tables().contains_key(
                            ((start + i) as u64) / 512,
                        ));
                    }
                    return Err(e);
                },
            }
            i = i + 1;
        }
        Ok(())
    }

    /// Inserts a 4 KiB leaf for each page of `[start, start+count)`,
    /// mapping page `start + k` to frame `frame_start + k` with
    /// `leaf_flags`.
    fn insert_leaves_4k(&mut self, start: u64, count: u64, frame_start: u64, leaf_flags: EntryFlags)
        requires
            old(self).wf(),
            leaf_flags.present,
            start + count <= u64::MAX,
            frame_start + count <= 0x100_0000_0000,
            forall|k: u64|
                k < count ==> old(self).spec_p1_tables().contains_key(
                    #[trigger] (((start + k) as u64) / 512),
                ),
            forall|k: u64|
                k < count ==> (#[trigger] old(self).spec_translate_page((start + k) as u64))
                    is None,
        ensures
            final(self).wf(),
            final(self).spec_target_p4() == old(self).spec_target_p4(),
            final(self).spec_p3_tables() == old(self).spec_p3_tables(),
            final(self).spec_p2_tables() == old(self).spec_p2_tables(),
            final(self).spec_p1_tables() == old(self).spec_p1_tables(),
            final(self).spec_leaves_1g() == old(self).spec_leaves_1g(),
            final(self).spec_leaves_2m() == old(self).spec_leaves_2m(),
            forall|k: u64|
                k < count ==> final(self).spec_translate_page(#[trigger] ((start + k) as u64))
                    == Some(Frame { number: (frame_start + k) as u64 }),
            forall|k: u64|
                k < count ==> final(self).spec_leaf_flags(#[trigger] ((start + k) as u64)) == Some(
                    leaf_flags,
                ),
            forall|n: u64|
                !(start <= n < start + count) ==> final(self).spec_translate_page(n) == old(self).spec_translate_page(n),
            forall|n: u64|
                !(start <= n < start + count) ==> final(self).spec_leaf_flags(n) == old(self).spec_leaf_flags(n),
    {
        let mut i: u64 = 0;
        while i < count
            invariant
                self.wf(),
                leaf_flags.present,
                start + count <= u64::MAX,
                frame_start + count <= 0x100_0000_0000,
                i <= count,
                self.spec_target_p4() == old(self).spec_target_p4(),
                self.spec_p3_tables() == old(self).spec_p3_tables(),
                self.spec_p2_tables() == old(self).spec_p2_tables(),
                self.spec_p1_tables() == old(self).spec_p1_tables(),
                self.spec_leaves_1g() == old(self).spec_leaves_1g(),
                self.spec_leaves_2m() == old(self).spec_leaves_2m(),
                forall|k: u64|
                    k < count ==> old(self).spec_p1_tables().contains_key(
                        #[trigger] (((start + k) as u64) / 512),
                    ),
                forall|k: u64|
                    k < count ==> (#[trigger] old(self).spec_translate_page((start + k) as u64))
                        is None,
                forall|j: u64|
                    j < i ==> self.spec_leaves_4k().contains_key(#[trigger] ((start + j) as u64))
                        && self.spec_leaves_4k()[(start + j) as u64] == (LeafMapping {
                        frame: Frame { number: (frame_start + j) as u64 },
                        flags: leaf_flags,
                    }),
                forall|n: u64|
                    #![trigger self.spec_leaves_4k().contains_key(n)]
                    #![trigger old(self).spec_leaves_4k().contains_key(n)]
                    !(start <= n < start + i) ==> self.spec_leaves_4k().contains_key(n) == old(self).spec_leaves_4k().contains_key(n) && (old(self).spec_leaves_4k().contains_key(n) ==> self.spec_leaves_4k()[n] == old(self).spec_leaves_4k()[n]),
            decreases count - i,
        {
            let leaf = LeafMapping { frame: Frame { number: frame_start + i }, flags: leaf_flags };
            let ghost pre = *self;
            self.leaves_4k.insert(start + i, leaf);
            proof {
                lemma_wf_insert_leaf_4k(pre, *self, (start + i) as u64, leaf);
                assert forall|n: u64| !(start <= n < start + i + 1) implies {
                    self.spec_leaves_4k().contains_key(n) == old(self).spec_leaves_4k().contains_key(n) && (old(self).spec_leaves_4k().contains_key(n) ==> self.spec_leaves_4k()[n] == old(self).spec_leaves_4k()[n])
                } by {
                    assert(n != (start + i) as u64);
                    assert(self.spec_leaves_4k().contains_key(n)
                        == pre.spec_leaves_4k().contains_key(n));
                    if pre.spec_leaves_4k().contains_key(n) {
                        assert(self.spec_leaves_4k()[n] == pre.spec_leaves_4k()[n]);
                    }
                    assert(pre.spec_leaves_4k().contains_key(n) == old(self).spec_leaves_4k().contains_key(n));
                }
            }
            i = i + 1;
        }
        proof {
            assert forall|k: u64|
                k < count implies final(self).spec_translate_page(#[trigger] ((start + k) as u64))
                == Some(Frame { number: (frame_start + k) as u64 }) by {
                let n = (start + k) as u64;
                assert(old(self).spec_translate_page(n) is None);
                assert(!self.spec_leaves_1g().contains_key(n / 262144));
                assert(!self.spec_leaves_2m().contains_key(n / 512));
            }
            assert forall|k: u64|
                k < count implies final(self).spec_leaf_flags(#[trigger] ((start + k) as u64))
                == Some(leaf_flags) by {
                let n = (start + k) as u64;
                assert(!self.spec_leaves_1g().contains_key(n / 262144));
                assert(!self.spec_leaves_2m().contains_key(n / 512));
            }
        }
    }

    /// Maps the given `AllocatedPages` to the given physical frames, one
    /// page to one frame in order, with the given flags on each leaf entry
    /// (plus PRESENT) and with NO_EXECUTE cleared on every entry above a
    /// leaf. Consumes the pages and returns the owning `MappedPages`
    /// handle.
    ///
    /// Fails with `PageCountMismatch` when the ranges differ in length,
    /// with `AlreadyMapped` when some page of the range is already
    /// translated, and with `OutOfMemory` when the frame allocator cannot
    /// supply a table frame; on failure no translation changes.
    ///
    /// The model confines mapped virtual ranges to the canonical lower
    /// half of the address space (page numbers below 2^35), a narrowing of
    /// the full canonical space that mirrors where the page allocator
    /// serves ranges from.
    pub fn map_allocated_pages_to<A: FrameAllocator>(
        &mut self,
        pages: AllocatedPages,
        frames: FrameRange,
        flags: EntryFlags,
        allocator: &mut A,
    ) -> (r: Result<MappedPages, MemError>)
        requires
            old(self).wf(),
            pages.wf(),
            frames.wf(),
            frames.spec_start().number < 0x100_0000_0000,
            frames.spec_end().number < 0x100_0000_0000,
            crate::page::page_range_canonical(
                pages.spec_range().spec_start().spec_number(),
                pages.spec_range().spec_end().spec_number(),
            ),
            pages.spec_range().spec_size_in_pages() * 4096 <= usize::MAX,
        ensures
            final(self).wf(),
            final(self).spec_target_p4() == old(self).spec_target_p4(),
            match r {
                Ok(mp) => {
                    let s = pages.spec_range().spec_start().spec_number();
                    let cnt = pages.spec_range().spec_size_in_pages();
                    &&& cnt == frames.spec_size_in_frames()
                    &&& forall|k: u64|
                        k < cnt ==> final(self).spec_translate_page(#[trigger] ((s + k) as u64))
                            == Some(
                            Frame { number: (frames.spec_start().number + k) as u64 },
                        )
                    &&& forall|k: u64|
                        k < cnt ==> final(self).spec_leaf_flags(#[trigger] ((s + k) as u64))
                            == Some(flags.spec_with_present())
                    &&& forall|n: u64|
                        !(s <= n < s + cnt) ==> final(self).spec_translate_page(n) == old(self).spec_translate_page(n)
                    &&& forall|n: u64|
                        !(s <= n < s + cnt) ==> final(self).spec_leaf_flags(n) == old(self).spec_leaf_flags(n)
                    &&& forall|k: u64|
                        #[trigger] final(self).spec_p3_tables().contains_key(k) && !old(self).spec_p3_tables().contains_key(k) ==> final(self).spec_p3_tables()[k].flags == flags.spec_without_no_execute()
                    &&& forall|k: u64|
                        #[trigger] final(self).spec_p2_tables().contains_key(k) && !old(self).spec_p2_tables().contains_key(k) ==> final(self).spec_p2_tables()[k].flags == flags.spec_without_no_execute()
                    &&& forall|k: u64|
                        #[trigger] final(self).spec_p1_tables().contains_key(k) && !old(self).spec_p1_tables().contains_key(k) ==> final(self).spec_p1_tables()[k].flags == flags.spec_without_no_execute()
                    &&& mp.spec_p4() == old(self).spec_target_p4()
                    &&& mp.spec_pages() == pages.spec_range()
                    &&& mp.spec_flags() == flags
                    &&& mp.spec_bytes().len() == cnt * 4096
                    &&& forall|i: int| 0 <= i < mp.spec_bytes().len() ==> mp.spec_bytes()[i] == 0
                    &&& mp.wf()
                },
                Err(e) => {
                    let s = pages.spec_range().spec_start().spec_number();
                    let cnt = pages.spec_range().spec_size_in_pages();
                    &&& final(self).same_translation(*old(self))
                    &&& (e == MemError::PageCountMismatch || e == MemError::AlreadyMapped || e
                        == MemError::OutOfMemory)
                    &&& (e == MemError::PageCountMismatch <==> cnt
                        != frames.spec_size_in_frames())
                    &&& (e == MemError::AlreadyMapped <==> cnt == frames.spec_size_in_frames()
                        && exists|k: u64|
                        k < cnt && (#[trigger] old(self).spec_translate_page((s + k) as u64))
                            is Some)
                    &&& e == MemError::OutOfMemory ==> exists|k: u64|
                        k < cnt && !old(self).spec_p1_tables().contains_key(
                            #[trigger] (((s + k) as u64) / 512),
                        )
                },
            },
    {
        let pages_count = pages.size_in_pages();
        let frames_count = frames.size_in_frames();
        if pages_count != frames_count {
            proof {
                lemma_same_leaves_same_translation(*self, *old(self));
            }
            return Err(MemError::PageCountMismatch);
        }
        let s = pages.start().number;
        if self.any_mapped(s, pages_count) {
            proof {
                lemma_same_leaves_same_translation(*self, *old(self));
            }
            return Err(MemError::AlreadyMapped);
        }
        let top_flags = flags.without_no_execute();
        match self.ensure_tables_range(s, pages_count, top_flags, allocator) {
            Ok(()) => {},
            Err(e) => {
                proof {
                    lemma_same_leaves_same_translation(*self, *old(self));
                }
                return Err(e);
            },
        }
        proof {
            lemma_same_leaves_same_translation(*self, *old(self));
            assert forall|k: u64|
                k < pages_count implies (#[trigger] self.spec_translate_page((s + k) as u64))
                is None by {
                assert(old(self).spec_translate_page((s + k) as u64) is None);
            }
        }
        self.insert_leaves_4k(s, pages_count, frames.start().number, flags.with_present());
        let content = zero_bytes((pages_count * 4096) as usize);
        Ok(MappedPages { page_table_p4: self.target_p4, pages, flags, content })
    }

    /// Inserts a 4 KiB leaf for each page of `[start, start+count)`,
    /// mapping page `start + k` to `frames[k]` with `leaf_flags`.
    fn insert_leaves_4k_vec(
        &mut self,
        start: u64,
        count: u64,
        frames: &Vec<Frame>,
        leaf_flags: EntryFlags,
    )
        requires
            old(self).wf(),
            leaf_flags.present,
            start + count <= u64::MAX,
            frames@.len() == count,
            forall|k: int| 0 <= k < count ==> (#[trigger] frames@[k]).number < 0x100_0000_0000,
            forall|k: u64|
                k < count ==> old(self).spec_p1_tables().contains_key(
                    #[trigger] (((start + k) as u64) / 512),
                ),
            forall|k: u64|
                k < count ==> (#[trigger] old(self).spec_translate_page((start + k) as u64))
                    is None,
        ensures
            final(self).wf(),
            final(self).spec_target_p4() == old(self).spec_target_p4(),
            final(self).spec_p3_tables() == old(self).spec_p3_tables(),
            final(self).spec_p2_tables() == old(self).spec_p2_tables(),
            final(self).spec_p1_tables() == old(self).spec_p1_tables(),
            final(self).spec_leaves_1g() == old(self).spec_leaves_1g(),
            final(self).spec_leaves_2m() == old(self).spec_leaves_2m(),
            forall|k: u64|
                k < count ==> final(self).spec_translate_page(#[trigger] ((start + k) as u64))
                    == Some(frames@[k as int]),
            forall|k: u64|
                k < count ==> final(self).spec_leaves_4k().contains_key(
                    #[trigger] ((start + k) as u64),
                ),
            forall|k: u64|
                k < count ==> final(self).spec_leaf_flags(#[trigger] ((start + k) as u64)) == Some(
                    leaf_flags,
                ),
            forall|n: u64|
                !(start <= n < start + count) ==> final(self).spec_translate_page(n) == old(self).spec_translate_page(n),
            forall|n: u64|
                !(start <= n < start + count) ==> final(self).spec_leaf_flags(n) == old(self).spec_leaf_flags(n),
    {
        let mut i: usize = 0;
        let count_us = frames.len();
        while i < count_us
            invariant
                self.wf(),
                leaf_flags.present,
                start + count <= u64::MAX,
                frames@.len() == count,
                count_us == count,
                i <= count,
                forall|k: int| 0 <= k < count ==> (#[trigger] frames@[k]).number < 0x100_0000_0000,
                self.spec_target_p4() == old(self).spec_target_p4(),
                self.spec_p3_tables() == old(self).spec_p3_tables(),
                self.spec_p2_tables() == old(self).spec_p2_tables(),
                self.spec_p1_tables() == old(self).spec_p1_tables(),
                self.spec_leaves_1g() == old(self).spec_leaves_1g(),
                self.spec_leaves_2m() == old(self).spec_leaves_2m(),
                forall|k: u64|
                    k < count ==> old(self).spec_p1_tables().contains_key(
                        #[trigger] (((start + k) as u64) / 512),
                    ),
                forall|k: u64|
                    k < count ==> (#[trigger] old(self).spec_translate_page((start + k) as u64))
                        is None,
                forall|j: u64|
                    j < i ==> self.spec_leaves_4k().contains_key(#[trigger] ((start + j) as u64))
                        && self.spec_leaves_4k()[(start + j) as u64] == (LeafMapping {
                        frame: frames@[j as int],
                        flags: leaf_flags,
                    }),
                forall|n: u64|
                    #![trigger self.spec_leaves_4k().contains_key(n)]
                    #![trigger old(self).spec_leaves_4k().contains_key(n)]
                    !(start <= n < start + i) ==> self.spec_leaves_4k().contains_key(n) == old(self).spec_leaves_4k().contains_key(n) && (old(self).spec_leaves_4k().contains_key(n) ==> self.spec_leaves_4k()[n] == old(self).spec_leaves_4k()[n]),
            decreases count - i,
        {
            let leaf = LeafMapping { frame: frames[i], flags: leaf_flags };
            let ghost pre = *self;
            self.leaves_4k.insert(start + (i as u64), leaf);
            proof {
                lemma_wf_insert_leaf_4k(pre, *self, (start + (i as u64)) as u64, leaf);
                assert forall|j: u64| j < i + 1 implies {
                    self.spec_leaves_4k().contains_key(#[trigger] ((start + j) as u64))
                        && self.spec_leaves_4k()[(start + j) as u64] == (LeafMapping {
                        frame: frames@[j as int],
                        flags: leaf_flags,
                    })
                } by {
                    if j < i {
                        assert(pre.spec_leaves_4k().contains_key(((start + j) as u64)));
                        assert((start + j) as u64 != (start + (i as u64)) as u64);
                    }
                }
                assert forall|n: u64| !(start <= n < start + i + 1) implies {
                    self.spec_leaves_4k().contains_key(n) == old(self).spec_leaves_4k().contains_key(n) && (old(self).spec_leaves_4k().contains_key(n) ==> self.spec_leaves_4k()[n] == old(self).spec_leaves_4k()[n])
                } by {
                    assert(n != (start + (i as u64)) as u64);
                    assert(self.spec_leaves_4k().contains_key(n)
                        == pre.spec_leaves_4k().contains_key(n));
                    if pre.spec_leaves_4k().contains_key(n) {
                        assert(self.spec_leaves_4k()[n] == pre.spec_leaves_4k()[n]);
                    }
                    assert(pre.spec_leaves_4k().contains_key(n) == old(self).spec_leaves_4k().contains_key(n));
                }
            }
            i = i + 1;
        }
        proof {
            assert forall|k: u64|
                k < count implies final(self).spec_translate_page(#[trigger] ((start + k) as u64))
                == Some(frames@[k as int]) by {
                let n = (start + k) as u64;
                assert(old(self).spec_translate_page(n) is None);
                assert(!self.spec_leaves_1g().contains_key(n / 262144));
                assert(!self.spec_leaves_2m().contains_key(n / 512));
            }
            assert forall|k: u64|
                k < count implies final(self).spec_leaf_flags(#[trigger] ((start + k) as u64))
                == Some(leaf_flags) by {
                let n = (start + k) as u64;
                assert(!self.spec_leaves_1g().contains_key(n / 262144));
                assert(!self.spec_leaves_2m().contains_key(n / 512));
            }
        }
    }

    /// Maps the given `AllocatedPages` to physical frames chosen by the
    /// frame allocator, one fresh frame per page, with the given flags on
    /// each leaf entry (plus PRESENT). Consumes the pages and returns the
    /// owning `MappedPages` handle.
    ///
    /// Fails with `AlreadyMapped` when some page of the range is already
    /// translated and with `OutOfMemory` when the allocator runs dry; on
    /// failure no translation changes.
    pub fn map_allocated_pages<A: FrameAllocator>(
        &mut self,
        pages: AllocatedPages,
        flags: EntryFlags,
        allocator: &mut A,
    ) -> (r: Result<MappedPages, MemError>)
        requires
            old(self).wf(),
            pages.wf(),
            crate::page::page_range_canonical(
                pages.spec_range().spec_start().spec_number(),
                pages.spec_range().spec_end().spec_number(),
            ),
            pages.spec_range().spec_size_in_pages() * 4096 <= usize::MAX,
        ensures
            final(self).wf(),
            final(self).spec_target_p4() == old(self).spec_target_p4(),
            match r {
                Ok(mp) => {
                    let s = pages.spec_range().spec_start().spec_number();
                    let cnt = pages.spec_range().spec_size_in_pages();
                    &&& forall|k: u64|
                        k < cnt ==> ((#[trigger] final(self).spec_translate_page((s + k) as u64))
                            matches Some(f) && f.wf())
                    &&& forall|k: u64|
                        k < cnt ==> final(self).spec_leaves_4k().contains_key(
                            #[trigger] ((s + k) as u64),
                        )
                    &&& forall|k: u64|
                        k < cnt ==> final(self).spec_leaf_flags(#[trigger] ((s + k) as u64))
                            == Some(flags.spec_with_present())
                    &&& forall|n: u64|
                        !(s <= n < s + cnt) ==> final(self).spec_translate_page(n) == old(self).spec_translate_page(n)
                    &&& forall|n: u64|
                        !(s <= n < s + cnt) ==> final(self).spec_leaf_flags(n) == old(self).spec_leaf_flags(n)
                    &&& forall|k: u64|
                        #[trigger] final(self).spec_p3_tables().contains_key(k) && !old(self).spec_p3_tables().contains_key(k) ==> final(self).spec_p3_tables()[k].flags == flags.spec_without_no_execute()
                    &&& forall|k: u64|
                        #[trigger] final(self).spec_p2_tables().contains_key(k) && !old(self).spec_p2_tables().contains_key(k) ==> final(self).spec_p2_tables()[k].flags == flags.spec_without_no_execute()
                    &&& forall|k: u64|
                        #[trigger] final(self).spec_p1_tables().contains_key(k) && !old(self).spec_p1_tables().contains_key(k) ==> final(self).spec_p1_tables()[k].flags == flags.spec_without_no_execute()
                    &&& mp.spec_p4() == old(self).spec_target_p4()
                    &&& mp.spec_pages() == pages.spec_range()
                    &&& mp.spec_flags() == flags
                    &&& mp.spec_bytes().len() == cnt * 4096
                    &&& forall|i: int| 0 <= i < mp.spec_bytes().len() ==> mp.spec_bytes()[i] == 0
                    &&& mp.wf()
                },
                Err(e) => {
                    let s = pages.spec_range().spec_start().spec_number();
                    let cnt = pages.spec_range().spec_size_in_pages();
                    &&& final(self).same_translation(*old(self))
                    &&& (e == MemError::AlreadyMapped || e == MemError::OutOfMemory)
                    &&& (e == MemError::AlreadyMapped <==> exists|k: u64|
                        k < cnt && (#[trigger] old(self).spec_translate_page((s + k) as u64))
                            is Some)
                },
            },
    {
        let pages_count = pages.size_in_pages();
        let s = pages.start().number;
        if self.any_mapped(s, pages_count) {
            proof {
                lemma_same_leaves_same_translation(*self, *old(self));
            }
            return Err(MemError::AlreadyMapped);
        }
        let mut frames: Vec<Frame> = Vec::new();
        let mut i: u64 = 0;
        while i < pages_count
            invariant
                i <= pages_count,
                frames@.len() == i,
                forall|k: int| 0 <= k < i ==> (#[trigger] frames@[k]).number < 0x100_0000_0000,
                self.wf(),
                self.spec_target_p4() == old(self).spec_target_p4(),
                self.spec_p1_tables() == old(self).spec_p1_tables(),
                self.spec_p2_tables() == old(self).spec_p2_tables(),
                self.spec_p3_tables() == old(self).spec_p3_tables(),
                self.spec_leaves_1g() == old(self).spec_leaves_1g(),
                self.spec_leaves_2m() == old(self).spec_leaves_2m(),
                self.spec_leaves_4k() == old(self).spec_leaves_4k(),
                pages_count == pages.spec_range().spec_size_in_pages(),
                s == pages.spec_range().spec_start().spec_number(),
                forall|k: u64|
                    k < pages_count ==> (#[trigger] old(self).spec_translate_page(
                        (s + k) as u64,
                    )) is None,
            decreases pages_count - i,
        {
            match allocator.allocate_frame() {
                Some(f) => {
                    frames.push(f);
                },
                None => {
                    proof {
                        lemma_same_leaves_same_translation(*self, *old(self));
                    }
                    return Err(MemError::OutOfMemory);
                },
            }
            i = i + 1;
        }
        let top_flags = flags.without_no_execute();
        match self.ensure_tables_range(s, pages_count, top_flags, allocator) {
            Ok(()) => {},
            Err(e) => {
                proof {
                    lemma_same_leaves_same_translation(*self, *old(self));
                }
                return Err(e);
            },
        }
        proof {
            lemma_same_leaves_same_translation(*self, *old(self));
            assert forall|k: u64|
                k < pages_count implies (#[trigger] self.spec_translate_page((s + k) as u64))
                is None by {
                assert(old(self).spec_translate_page((s + k) as u64) is None);
            }
        }
        self.insert_leaves_4k_vec(s, pages_count, &frames, flags.with_present());
        let content = zero_bytes((pages_count * 4096) as usize);
        Ok(MappedPages { page_table_p4: self.target_p4, pages, flags, content })
    }
}


/// Inserting a PRESENT, 512-aligned 2 MiB leaf whose P2 table is present
/// and whose slot is not a P1 table preserves the invariant.
proof fn lemma_wf_insert_leaf_2m(pre: Mapper, post: Mapper, k: u64, leaf: LeafMapping)
    requires
        pre.wf(),
        leaf.flags.present,
        leaf.frame.number % 512 == 0,
        leaf.frame.number + 511 < 0x100_0000_0000,
        pre.spec_p2_tables().contains_key(k / 512),
        !pre.spec_p1_tables().contains_key(k),
        post.spec_leaves_2m() == pre.spec_leaves_2m().insert(k, leaf),
        post.spec_p3_tables() == pre.spec_p3_tables(),
        post.spec_p2_tables() == pre.spec_p2_tables(),
        post.spec_p1_tables() == pre.spec_p1_tables(),
        post.spec_leaves_1g() == pre.spec_leaves_1g(),
        post.spec_leaves_4k() == pre.spec_leaves_4k(),
    ensures
        post.wf(),
{
}

/// Inserting a PRESENT, 262144-aligned 1 GiB leaf whose P3 table is
/// present and whose slot is not a P2 table preserves the invariant.
proof fn lemma_wf_insert_leaf_1g(pre: Mapper, post: Mapper, k: u64, leaf: LeafMapping)
    requires
        pre.wf(),
        leaf.flags.present,
        leaf.frame.number % 262144 == 0,
        leaf.frame.number + 262143 < 0x100_0000_0000,
        pre.spec_p3_tables().contains_key(k / 512),
        !pre.spec_p2_tables().contains_key(k),
        post.spec_leaves_1g() == pre.spec_leaves_1g().insert(k, leaf),
        post.spec_p3_tables() == pre.spec_p3_tables(),
        post.spec_p2_tables() == pre.spec_p2_tables(),
        post.spec_p1_tables() == pre.spec_p1_tables(),
        post.spec_leaves_2m() == pre.spec_leaves_2m(),
        post.spec_leaves_4k() == pre.spec_leaves_4k(),
    ensures
        post.wf(),
{
}

/// The flags written on the leaf entries of a huge mapping: the caller's
/// flags plus PRESENT, and plus HUGE_PAGE when the leaf sits above P1.
pub open spec fn spec_huge_leaf_flags(flags: EntryFlags, ratio: u64) -> EntryFlags {
    if ratio == 1 {
        flags.spec_with_present()
    } else {
        EntryFlags { present: true, huge: true, ..flags }
    }
}

impl Mapper {
    /// Whether the P2 slot that would hold a 2 MiB leaf for the page block
    /// starting at 4 KiB page number `m0` is occupied in any way.
    fn slot_taken_2m(&self, m0: u64) -> (r: bool)
        requires
            self.wf(),
        ensures
            r == (self.spec_leaves_1g().contains_key(m0 / 262144)
                || self.spec_leaves_2m().contains_key(m0 / 512)
                || self.spec_p1_tables().contains_key(m0 / 512)),
    {
        self.leaves_1g.contains_key(&(m0 / 262144)) || self.leaves_2m.contains_key(&(m0 / 512))
            || self.p1_tables.contains_key(&(m0 / 512))
    }

    /// Whether the P3 slot that would hold a 1 GiB leaf for the page block
    /// starting at 4 KiB page number `m0` is occupied in any way.
    fn slot_taken_1g(&self, m0: u64) -> (r: bool)
        requires
            self.wf(),
        ensures
            r == (self.spec_leaves_1g().contains_key(m0 / 262144)
                || self.spec_p2_tables().contains_key(m0 / 262144)),
    {
        self.leaves_1g.contains_key(&(m0 / 262144)) || self.p2_tables.contains_key(&(m0 / 262144))
    }

    /// Creates the P3 and P2 tables on the path of the 4 KiB page numbered
    /// `n` where they are missing. Leaf mappings and P1 tables are
    /// untouched.
    fn ensure_tables_2m<A: FrameAllocator>(
        &mut self,
        n: u64,
        top_flags: EntryFlags,
        allocator: &mut A,
    ) -> (r: Result<(), MemError>)
        requires
            old(self).wf(),
            !top_flags.no_execute,
            !old(self).spec_leaves_1g().contains_key(n / 262144),
        ensures
            final(self).wf(),
            final(self).spec_target_p4() == old(self).spec_target_p4(),
            final(self).spec_leaves_1g() == old(self).spec_leaves_1g(),
            final(self).spec_leaves_2m() == old(self).spec_leaves_2m(),
            final(self).spec_leaves_4k() == old(self).spec_leaves_4k(),
            final(self).spec_p1_tables() == old(self).spec_p1_tables(),
            forall|k: u64|
                #[trigger] old(self).spec_p3_tables().contains_key(k) ==> final(self).spec_p3_tables().contains_key(k) && final(self).spec_p3_tables()[k] == old(self).spec_p3_tables()[k],
            forall|k: u64|
                #[trigger] old(self).spec_p2_tables().contains_key(k) ==> final(self).spec_p2_tables().contains_key(k) && final(self).spec_p2_tables()[k] == old(self).spec_p2_tables()[k],
            forall|k: u64|
                #[trigger] final(self).spec_p3_tables().contains_key(k) && !old(self).spec_p3_tables().contains_key(k) ==> final(self).spec_p3_tables()[k].flags == top_flags,
            forall|k: u64|
                #[trigger] final(self).spec_p2_tables().contains_key(k) && !old(self).spec_p2_tables().contains_key(k) ==> final(self).spec_p2_tables()[k].flags == top_flags,
            r is Ok ==> final(self).spec_p2_tables().contains_key(n / 262144),
            r matches Err(e) ==> e == MemError::OutOfMemory,
    {
        proof {
            vstd::arithmetic::div_mod::lemma_div_denominator(n as int, 262144, 512);
        }
        let p4k = n / 134217728;
        let k3 = n / 262144;
        if !self.p3_tables.contains_key(&p4k) {
            let f = match allocator.allocate_frame() {
                Some(f) => f,
                None => {
                    return Err(MemError::OutOfMemory);
                },
            };
            let ghost pre = *self;
            self.p3_tables.insert(p4k, TableNode { frame: f, flags: top_flags });
            proof {
                lemma_wf_insert_p3(pre, *self, p4k, TableNode { frame: f, flags: top_flags });
            }
        }
        if !self.p2_tables.contains_key(&k3) {
            let f = match allocator.allocate_frame() {
                Some(f) => f,
                None => {
                    return Err(MemError::OutOfMemory);
                },
            };
            let ghost pre = *self;
            self.p2_tables.insert(k3, TableNode { frame: f, flags: top_flags });
            proof {
                lemma_wf_insert_p2(pre, *self, k3, TableNode { frame: f, flags: top_flags });
            }
        }
        Ok(())
    }

    /// Creates the P3 table on the path of the 4 KiB page numbered `n`
    /// where it is missing. Everything else is untouched.
    fn ensure_tables_1g<A: FrameAllocator>(
        &mut self,
        n: u64,
        top_flags: EntryFlags,
        allocator: &mut A,
    ) -> (r: Result<(), MemError>)
        requires
            old(self).wf(),
            !top_flags.no_execute,
        ensures
            final(self).wf(),
            final(self).spec_target_p4() == old(self).spec_target_p4(),
            final(self).spec_leaves_1g() == old(self).spec_leaves_1g(),
            final(self).spec_leaves_2m() == old(self).spec_leaves_2m(),
            final(self).spec_leaves_4k() == old(self).spec_leaves_4k(),
            final(self).spec_p1_tables() == old(self).spec_p1_tables(),
            final(self).spec_p2_tables() == old(self).spec_p2_tables(),
            forall|k: u64|
                #[trigger] old(self).spec_p3_tables().contains_key(k) ==> final(self).spec_p3_tables().contains_key(k) && final(self).spec_p3_tables()[k] == old(self).spec_p3_tables()[k],
            forall|k: u64|
                #[trigger] final(self).spec_p3_tables().contains_key(k) && !old(self).spec_p3_tables().contains_key(k) ==> final(self).spec_p3_tables()[k].flags == top_flags,
            r is Ok ==> final(self).spec_p3_tables().contains_key((n / 262144) / 512),
            r matches Err(e) ==> e == MemError::OutOfMemory,
    {
        proof {
            vstd::arithmetic::div_mod::lemma_div_denominator(n as int, 262144, 512);
        }
        let p4k = n / 134217728;
        if !self.p3_tables.contains_key(&p4k) {
            let f = match allocator.allocate_frame() {
                Some(f) => f,
                None => {
                    return Err(MemError::OutOfMemory);
                },
            };
            let ghost pre = *self;
            self.p3_tables.insert(p4k, TableNode { frame: f, flags: top_flags });
            proof {
                lemma_wf_insert_p3(pre, *self, p4k, TableNode { frame: f, flags: top_flags });
            }
        }
        proof {
            assert((n / 262144) / 512 == n / 134217728) by {
                vstd::arithmetic::div_mod::lemma_div_denominator(n as int, 262144, 512);
            }
        }
        Ok(())
    }
}

impl Mapper {
    /// Whether any of the `cnt` 2 MiB slots starting at huge-page number
    /// `hs` is occupied.
    fn any_slot_taken_2m(&self, hs: u64, cnt: u64) -> (r: bool)
        requires
            self.wf(),
            (hs + cnt) * 512 <= u64::MAX,
        ensures
            r == exists|i: u64|
                i < cnt && (#[trigger] self.spec_slot_taken_2m((hs + i) as u64)),
    {
        let mut i: u64 = 0;
        while i < cnt
            invariant
                self.wf(),
                (hs + cnt) * 512 <= u64::MAX,
                i <= cnt,
                forall|j: u64| j < i ==> !(#[trigger] self.spec_slot_taken_2m((hs + j) as u64)),
            decreases cnt - i,
        {
            proof {
                assert((hs + i) * 512 <= u64::MAX) by (nonlinear_arith)
                    requires
                        (hs + cnt) * 512 <= u64::MAX,
                        i < cnt,
                        hs + cnt <= u64::MAX,
                ;
                vstd::arithmetic::div_mod::lemma_div_by_multiple((hs + i) as int, 512);
                vstd::arithmetic::div_mod::lemma_div_denominator(
                    (((hs + i) as u64) * 512) as int,
                    512,
                    512,
                );
            }
            let m0 = (hs + i) * 512;
            let taken = self.slot_taken_2m(m0);
            proof {
                assert(taken == self.spec_slot_taken_2m((hs + i) as u64));
            }
            if taken {
                return true;
            }
            i = i + 1;
        }
        false
    }

    /// Creates the tables above the 2 MiB leaf level for each of the
    /// `cnt` slots starting at huge-page number `hs`.
    fn ensure_tables_2m_range<A: FrameAllocator>(
        &mut self,
        hs: u64,
        cnt: u64,
        top_flags: EntryFlags,
        allocator: &mut A,
    ) -> (r: Result<(), MemError>)
        requires
            old(self).wf(),
            !top_flags.no_execute,
            (hs + cnt) * 512 <= u64::MAX,
            forall|i: u64| i < cnt ==> !(#[trigger] old(self).spec_slot_taken_2m((hs + i) as u64)),
        ensures
            final(self).wf(),
            final(self).spec_target_p4() == old(self).spec_target_p4(),
            final(self).spec_leaves_1g() == old(self).spec_leaves_1g(),
            final(self).spec_leaves_2m() == old(self).spec_leaves_2m(),
            final(self).spec_leaves_4k() == old(self).spec_leaves_4k(),
            final(self).spec_p1_tables() == old(self).spec_p1_tables(),
            forall|k: u64|
                #[trigger] final(self).spec_p3_tables().contains_key(k) && !old(self).spec_p3_tables().contains_key(k) ==> final(self).spec_p3_tables()[k].flags == top_flags,
            forall|k: u64|
                #[trigger] final(self).spec_p2_tables().contains_key(k) && !old(self).spec_p2_tables().contains_key(k) ==> final(self).spec_p2_tables()[k].flags == top_flags,
            r is Ok ==> forall|i: u64|
                i < cnt ==> final(self).spec_p2_tables().contains_key(
                    #[trigger] (((hs + i) as u64) / 512),
                ),
            r matches Err(e) ==> e == MemError::OutOfMemory,
    {
        let mut i: u64 = 0;
        while i < cnt
            invariant
                self.wf(),
                !top_flags.no_execute,
                (hs + cnt) * 512 <= u64::MAX,
                i <= cnt,
                self.spec_target_p4() == old(self).spec_target_p4(),
                self.spec_leaves_1g() == old(self).spec_leaves_1g(),
                self.spec_leaves_2m() == old(self).spec_leaves_2m(),
                self.spec_leaves_4k() == old(self).spec_leaves_4k(),
                self.spec_p1_tables() == old(self).spec_p1_tables(),
                forall|k: u64| k < cnt ==> !(#[trigger] old(self).spec_slot_taken_2m((hs + k) as u64)),
                forall|j: u64|
                    j < i ==> self.spec_p2_tables().contains_key(#[trigger] (((hs + j) as u64) / 512)),
                forall|k: u64|
                    #[trigger] self.spec_p3_tables().contains_key(k) && !old(self).spec_p3_tables().contains_key(k) ==> self.spec_p3_tables()[k].flags == top_flags,
                forall|k: u64|
                    #[trigger] self.spec_p2_tables().contains_key(k) && !old(self).spec_p2_tables().contains_key(k) ==> self.spec_p2_tables()[k].flags == top_flags,
            decreases cnt - i,
        {
            proof {
                assert((hs + i) * 512 <= u64::MAX) by (nonlinear_arith)
                    requires
                        (hs + cnt) * 512 <= u64::MAX,
                        i < cnt,
                        hs + cnt <= u64::MAX,
                ;
                vstd::arithmetic::div_mod::lemma_div_by_multiple((hs + i) as int, 512);
                vstd::arithmetic::div_mod::lemma_div_denominator(
                    (((hs + i) as u64) * 512) as int,
                    512,
                    512,
                );
            }
            let m0 = (hs + i) * 512;
            proof {
                assert(m0 / 512 == hs + i);
                assert(m0 / 262144 == ((hs + i) as u64) / 512);
                assert(!old(self).spec_slot_taken_2m((hs + i) as u64));
                assert(!self.spec_leaves_1g().contains_key(m0 / 262144));
            }
            let ghost olds = *self;
            match self.ensure_tables_2m(m0, top_flags, allocator) {
                Ok(()) => {},
                Err(e) => {
                    return Err(e);
                },
            }
            proof {
                assert(m0 / 512 == hs + i);
                assert(m0 / 262144 == ((hs + i) as u64) / 512);
                assert forall|j: u64|
                    j < i + 1 implies self.spec_p2_tables().contains_key(
                    #[trigger] (((hs + j) as u64) / 512),
                ) by {
                    if j < i {
                        assert(olds.spec_p2_tables().contains_key(((hs + j) as u64) / 512));
                    }
                }
            }
            i = i + 1;
        }
        Ok(())
    }

    /// Inserts a 2 MiB leaf for each of the `cnt` slots starting at
    /// huge-page number `hs`, mapping slot `hs + i` to the frame block
    /// `blocks[i]`.
    fn insert_leaves_2m(
        &mut self,
        hs: u64,
        cnt: u64,
        blocks: &Vec<FrameRange>,
        leaf_flags: EntryFlags,
    )
        requires
            old(self).wf(),
            leaf_flags.present,
            hs + cnt <= u64::MAX,
            blocks@.len() == cnt,
            forall|k: int|
                0 <= k < cnt ==> {
                    &&& (#[trigger] blocks@[k]).spec_start().number % 512 == 0
                    &&& blocks@[k].spec_start().number + 511 < 0x100_0000_0000
                },
            forall|i: u64|
                i < cnt ==> old(self).spec_p2_tables().contains_key(
                    #[trigger] (((hs + i) as u64) / 512),
                ),
            forall|i: u64| i < cnt ==> !(#[trigger] old(self).spec_p1_tables().contains_key((hs + i) as u64)),
        ensures
            final(self).wf(),
            final(self).spec_target_p4() == old(self).spec_target_p4(),
            final(self).spec_p3_tables() == old(self).spec_p3_tables(),
            final(self).spec_p2_tables() == old(self).spec_p2_tables(),
            final(self).spec_p1_tables() == old(self).spec_p1_tables(),
            final(self).spec_leaves_1g() == old(self).spec_leaves_1g(),
            final(self).spec_leaves_4k() == old(self).spec_leaves_4k(),
            forall|i: u64|
                i < cnt ==> final(self).spec_leaves_2m().contains_key(#[trigger] ((hs + i) as u64))
                    && final(self).spec_leaves_2m()[(hs + i) as u64] == (LeafMapping {
                    frame: blocks@[i as int].spec_start(),
                    flags: leaf_flags,
                }),
            forall|n: u64|
                #![trigger final(self).spec_leaves_2m().contains_key(n)]
                #![trigger old(self).spec_leaves_2m().contains_key(n)]
                !(hs <= n < hs + cnt) ==> final(self).spec_leaves_2m().contains_key(n) == old(self).spec_leaves_2m().contains_key(n) && (old(self).spec_leaves_2m().contains_key(n) ==> final(self).spec_leaves_2m()[n] == old(self).spec_leaves_2m()[n]),
    {
        let mut i: usize = 0;
        let cnt_us = blocks.len();
        while i < cnt_us
            invariant
                self.wf(),
                leaf_flags.present,
                hs + cnt <= u64::MAX,
                blocks@.len() == cnt,
                cnt_us == cnt,
                i <= cnt_us,
                self.spec_target_p4() == old(self).spec_target_p4(),
                self.spec_p3_tables() == old(self).spec_p3_tables(),
                self.spec_p2_tables() == old(self).spec_p2_tables(),
                self.spec_p1_tables() == old(self).spec_p1_tables(),
                self.spec_leaves_1g() == old(self).spec_leaves_1g(),
                self.spec_leaves_4k() == old(self).spec_leaves_4k(),
                forall|k: int|
                    0 <= k < cnt ==> {
                        &&& (#[trigger] blocks@[k]).spec_start().number % 512 == 0
                        &&& blocks@[k].spec_start().number + 511 < 0x100_0000_0000
                    },
                forall|k: u64|
                    k < cnt ==> old(self).spec_p2_tables().contains_key(
                        #[trigger] (((hs + k) as u64) / 512),
                    ),
                forall|k: u64| k < cnt ==> !(#[trigger] old(self).spec_p1_tables().contains_key((hs + k) as u64)),
                forall|j: u64|
                    j < i ==> self.spec_leaves_2m().contains_key(#[trigger] ((hs + j) as u64))
                        && self.spec_leaves_2m()[(hs + j) as u64] == (LeafMapping {
                        frame: blocks@[j as int].spec_start(),
                        flags: leaf_flags,
                    }),
                forall|n: u64|
                    #![trigger self.spec_leaves_2m().contains_key(n)]
                    #![trigger old(self).spec_leaves_2m().contains_key(n)]
                    !(hs <= n < hs + i) ==> self.spec_leaves_2m().contains_key(n) == old(self).spec_leaves_2m().contains_key(n) && (old(self).spec_leaves_2m().contains_key(n)
                        ==> self.spec_leaves_2m()[n] == old(self).spec_leaves_2m()[n]),
            decreases cnt_us - i,
        {
            let leaf = LeafMapping { frame: blocks[i].start(), flags: leaf_flags };
            let ghost pre = *self;
            self.leaves_2m.insert(hs + (i as u64), leaf);
            proof {
                lemma_wf_insert_leaf_2m(pre, *self, (hs + (i as u64)) as u64, leaf);
                assert forall|j: u64| j < i + 1 implies {
                    self.spec_leaves_2m().contains_key(#[trigger] ((hs + j) as u64))
                        && self.spec_leaves_2m()[(hs + j) as u64] == (LeafMapping {
                        frame: blocks@[j as int].spec_start(),
                        flags: leaf_flags,
                    })
                } by {
                    if j < i {
                        assert(pre.spec_leaves_2m().contains_key(((hs + j) as u64)));
                        assert((hs + j) as u64 != (hs + (i as u64)) as u64);
                    }
                }
                assert forall|n: u64| !(hs <= n < hs + i + 1) implies {
                    self.spec_leaves_2m().contains_key(n) == old(self).spec_leaves_2m().contains_key(n) && (old(self).spec_leaves_2m().contains_key(n) ==> self.spec_leaves_2m()[n] == old(self).spec_leaves_2m()[n])
                } by {
                    assert(n != (hs + (i as u64)) as u64);
                    assert(self.spec_leaves_2m().contains_key(n) == pre.spec_leaves_2m().contains_key(n));
                    if pre.spec_leaves_2m().contains_key(n) {
                        assert(self.spec_leaves_2m()[n] == pre.spec_leaves_2m()[n]);
                    }
                    assert(pre.spec_leaves_2m().contains_key(n) == old(self).spec_leaves_2m().contains_key(n));
                }
            }
            i = i + 1;
        }
    }
}

impl Mapper {
    /// Whether any of the `cnt` 1 GiB slots starting at huge-page number
    /// `hs` is occupied.
    fn any_slot_taken_1g(&self, hs: u64, cnt: u64) -> (r: bool)
        requires
            self.wf(),
            (hs + cnt) * 262144 <= u64::MAX,
        ensures
            r == exists|i: u64|
                i < cnt && (#[trigger] self.spec_slot_taken_1g((hs + i) as u64)),
    {
        let mut i: u64 = 0;
        while i < cnt
            invariant
                self.wf(),
                (hs + cnt) * 262144 <= u64::MAX,
                i <= cnt,
                forall|j: u64| j < i ==> !(#[trigger] self.spec_slot_taken_1g((hs + j) as u64)),
            decreases cnt - i,
        {
            proof {
                assert((hs + i) * 262144 <= u64::MAX) by (nonlinear_arith)
                    requires
                        (hs + cnt) * 262144 <= u64::MAX,
                        i < cnt,
                        hs + cnt <= u64::MAX,
                ;
                vstd::arithmetic::div_mod::lemma_div_by_multiple((hs + i) as int, 262144);
                vstd::arithmetic::div_mod::lemma_div_denominator(
                    (((hs + i) as u64) * 262144) as int,
                    512,
                    512,
                );
            }
            let m0 = (hs + i) * 262144;
            let taken = self.slot_taken_1g(m0);
            proof {
                assert(m0 / 262144 == hs + i);
                assert(taken == self.spec_slot_taken_1g((hs + i) as u64));
            }
            if taken {
                return true;
            }
            i = i + 1;
        }
        false
    }

    /// Creates the tables above the 1 GiB leaf level for each of the
    /// `cnt` slots starting at huge-page number `hs`.
    fn ensure_tables_1g_range<A: FrameAllocator>(
        &mut self,
        hs: u64,
        cnt: u64,
        top_flags: EntryFlags,
        allocator: &mut A,
    ) -> (r: Result<(), MemError>)
        requires
            old(self).wf(),
            !top_flags.no_execute,
            (hs + cnt) * 262144 <= u64::MAX,
            forall|i: u64| i < cnt ==> !(#[trigger] old(self).spec_slot_taken_1g((hs + i) as u64)),
        ensures
            final(self).wf(),
            final(self).spec_target_p4() == old(self).spec_target_p4(),
            final(self).spec_leaves_1g() == old(self).spec_leaves_1g(),
            final(self).spec_leaves_2m() == old(self).spec_leaves_2m(),
            final(self).spec_leaves_4k() == old(self).spec_leaves_4k(),
            final(self).spec_p1_tables() == old(self).spec_p1_tables(),
            final(self).spec_p2_tables() == old(self).spec_p2_tables(),
            forall|k: u64|
                #[trigger] final(self).spec_p3_tables().contains_key(k) && !old(self).spec_p3_tables().contains_key(k) ==> final(self).spec_p3_tables()[k].flags == top_flags,
            r is Ok ==> forall|i: u64|
                i < cnt ==> final(self).spec_p3_tables().contains_key(
                    #[trigger] (((hs + i) as u64) / 512),
                ),
            r matches Err(e) ==> e == MemError::OutOfMemory,
    {
        let mut i: u64 = 0;
        while i < cnt
            invariant
                self.wf(),
                !top_flags.no_execute,
                (hs + cnt) * 262144 <= u64::MAX,
                i <= cnt,
                self.spec_target_p4() == old(self).spec_target_p4(),
                self.spec_leaves_1g() == old(self).spec_leaves_1g(),
                self.spec_leaves_2m() == old(self).spec_leaves_2m(),
                self.spec_leaves_4k() == old(self).spec_leaves_4k(),
                self.spec_p1_tables() == old(self).spec_p1_tables(),
                self.spec_p2_tables() == old(self).spec_p2_tables(),
                forall|k: u64| k < cnt ==> !(#[trigger] old(self).spec_slot_taken_1g((hs + k) as u64)),
                forall|j: u64|
                    j < i ==> self.spec_p3_tables().contains_key(#[trigger] (((hs + j) as u64) / 512)),
                forall|k: u64|
                    #[trigger] self.spec_p3_tables().contains_key(k) && !old(self).spec_p3_tables().contains_key(k) ==> self.spec_p3_tables()[k].flags == top_flags,
            decreases cnt - i,
        {
            proof {
                assert((hs + i) * 262144 <= u64::MAX) by (nonlinear_arith)
                    requires
                        (hs + cnt) * 262144 <= u64::MAX,
                        i < cnt,
                        hs + cnt <= u64::MAX,
                ;
                vstd::arithmetic::div_mod::lemma_div_by_multiple((hs + i) as int, 262144);
                vstd::arithmetic::div_mod::lemma_div_denominator(
                    (((hs + i) as u64) * 262144) as int,
                    512,
                    512,
                );
            }
            let m0 = (hs + i) * 262144;
            let ghost olds = *self;
            match self.ensure_tables_1g(m0, top_flags, allocator) {
                Ok(()) => {},
                Err(e) => {
                    return Err(e);
                },
            }
            proof {
                assert(m0 / 262144 == hs + i);
                assert forall|j: u64|
                    j < i + 1 implies self.spec_p3_tables().contains_key(
                    #[trigger] (((hs + j) as u64) / 512),
                ) by {
                    if j < i {
                        assert(olds.spec_p3_tables().contains_key(((hs + j) as u64) / 512));
                    }
                }
            }
            i = i + 1;
        }
        Ok(())
    }

    /// Inserts a 1 GiB leaf for each of the `cnt` slots starting at
    /// huge-page number `hs`, mapping slot `hs + i` to the frame block
    /// `blocks[i]`.
    fn insert_leaves_1g(
        &mut self,
        hs: u64,
        cnt: u64,
        blocks: &Vec<FrameRange>,
        leaf_flags: EntryFlags,
    )
        requires
            old(self).wf(),
            leaf_flags.present,
            hs + cnt <= u64::MAX,
            blocks@.len() == cnt,
            forall|k: int|
                0 <= k < cnt ==> {
                    &&& (#[trigger] blocks@[k]).spec_start().number % 262144 == 0
                    &&& blocks@[k].spec_start().number + 262143 < 0x100_0000_0000
                },
            forall|i: u64|
                i < cnt ==> old(self).spec_p3_tables().contains_key(
                    #[trigger] (((hs + i) as u64) / 512),
                ),
            forall|i: u64| i < cnt ==> !(#[trigger] old(self).spec_p2_tables().contains_key((hs + i) as u64)),
        ensures
            final(self).wf(),
            final(self).spec_target_p4() == old(self).spec_target_p4(),
            final(self).spec_p3_tables() == old(self).spec_p3_tables(),
            final(self).spec_p2_tables() == old(self).spec_p2_tables(),
            final(self).spec_p1_tables() == old(self).spec_p1_tables(),
            final(self).spec_leaves_2m() == old(self).spec_leaves_2m(),
            final(self).spec_leaves_4k() == old(self).spec_leaves_4k(),
            forall|i: u64|
                i < cnt ==> final(self).spec_leaves_1g().contains_key(#[trigger] ((hs + i) as u64))
                    && final(self).spec_leaves_1g()[(hs + i) as u64] == (LeafMapping {
                    frame: blocks@[i as int].spec_start(),
                    flags: leaf_flags,
                }),
            forall|n: u64|
                #![trigger final(self).spec_leaves_1g().contains_key(n)]
                #![trigger old(self).spec_leaves_1g().contains_key(n)]
                !(hs <= n < hs + cnt) ==> final(self).spec_leaves_1g().contains_key(n) == old(self).spec_leaves_1g().contains_key(n) && (old(self).spec_leaves_1g().contains_key(n) ==> final(self).spec_leaves_1g()[n] == old(self).spec_leaves_1g()[n]),
    {
        let mut i: usize = 0;
        let cnt_us = blocks.len();
        while i < cnt_us
            invariant
                self.wf(),
                leaf_flags.present,
                hs + cnt <= u64::MAX,
                blocks@.len() == cnt,
                cnt_us == cnt,
                i <= cnt_us,
                self.spec_target_p4() == old(self).spec_target_p4(),
                self.spec_p3_tables() == old(self).spec_p3_tables(),
                self.spec_p2_tables() == old(self).spec_p2_tables(),
                self.spec_p1_tables() == old(self).spec_p1_tables(),
                self.spec_leaves_2m() == old(self).spec_leaves_2m(),
                self.spec_leaves_4k() == old(self).spec_leaves_4k(),
                forall|k: int|
                    0 <= k < cnt ==> {
                        &&& (#[trigger] blocks@[k]).spec_start().number % 262144 == 0
                        &&& blocks@[k].spec_start().number + 262143 < 0x100_0000_0000
                    },
                forall|k: u64|
                    k < cnt ==> old(self).spec_p3_tables().contains_key(
                        #[trigger] (((hs + k) as u64) / 512),
                    ),
                forall|k: u64| k < cnt ==> !(#[trigger] old(self).spec_p2_tables().contains_key((hs + k) as u64)),
                forall|j: u64|
                    j < i ==> self.spec_leaves_1g().contains_key(#[trigger] ((hs + j) as u64))
                        && self.spec_leaves_1g()[(hs + j) as u64] == (LeafMapping {
                        frame: blocks@[j as int].spec_start(),
                        flags: leaf_flags,
                    }),
                forall|n: u64|
                    #![trigger self.spec_leaves_1g().contains_key(n)]
                    #![trigger old(self).spec_leaves_1g().contains_key(n)]
                    !(hs <= n < hs + i) ==> self.spec_leaves_1g().contains_key(n) == old(self).spec_leaves_1g().contains_key(n) && (old(self).spec_leaves_1g().contains_key(n)
                        ==> self.spec_leaves_1g()[n] == old(self).spec_leaves_1g()[n]),
            decreases cnt_us - i,
        {
            let leaf = LeafMapping { frame: blocks[i].start(), flags: leaf_flags };
            let ghost pre = *self;
            self.leaves_1g.insert(hs + (i as u64), leaf);
            proof {
                lemma_wf_insert_leaf_1g(pre, *self, (hs + (i as u64)) as u64, leaf);
                assert forall|j: u64| j < i + 1 implies {
                    self.spec_leaves_1g().contains_key(#[trigger] ((hs + j) as u64))
                        && self.spec_leaves_1g()[(hs + j) as u64] == (LeafMapping {
                        frame: blocks@[j as int].spec_start(),
                        flags: leaf_flags,
                    })
                } by {
                    if j < i {
                        assert(pre.spec_leaves_1g().contains_key(((hs + j) as u64)));
                        assert((hs + j) as u64 != (hs + (i as u64)) as u64);
                    }
                }
                assert forall|n: u64| !(hs <= n < hs + i + 1) implies {
                    self.spec_leaves_1g().contains_key(n) == old(self).spec_leaves_1g().contains_key(n) && (old(self).spec_leaves_1g().contains_key(n) ==> self.spec_leaves_1g()[n] == old(self).spec_leaves_1g()[n])
                } by {
                    assert(n != (hs + (i as u64)) as u64);
                    assert(self.spec_leaves_1g().contains_key(n) == pre.spec_leaves_1g().contains_key(n));
                    if pre.spec_leaves_1g().contains_key(n) {
                        assert(self.spec_leaves_1g()[n] == pre.spec_leaves_1g()[n]);
                    }
                    assert(pre.spec_leaves_1g().contains_key(n) == old(self).spec_leaves_1g().contains_key(n));
                }
            }
            i = i + 1;
        }
    }
}

/// An owning handle over a contiguous range of virtual pages that are
/// currently mapped. The handle carries the page-table root it was mapped
/// into, the flags of its leaf entries, and the in-memory content of the
/// mapped region; releasing the mapping goes through
/// `mapped_pages_unmap`, which tears the leaf entries down.
#[derive(Debug)]
pub struct MappedPages {
    /// The frame of the P4 table this mapping was created in.
    page_table_p4: Frame,
    /// The owned virtual range.
    pages: AllocatedPages,
    /// The flags of every leaf entry of the range.
    flags: EntryFlags,
    /// The bytes of the mapped region.
    content: Vec<u8>,
}

impl MappedPages {
    /// The page-table root of this mapping, as a specification value.
    pub closed spec fn spec_p4(&self) -> Frame {
        self.page_table_p4
    }

    /// The owned page range, as a specification value.
    pub closed spec fn spec_pages(&self) -> PageRange {
        self.pages.spec_range()
    }

    /// The flags of the mapping, as a specification value.
    pub closed spec fn spec_flags(&self) -> EntryFlags {
        self.flags
    }

    /// The bytes of the mapped region, as a specification value.
    pub closed spec fn spec_bytes(&self) -> Seq<u8> {
        self.content@
    }

    /// A well-formed handle owns a well-formed range at canonical
    /// addresses whose content has exactly one byte per mapped byte.
    pub open spec fn wf(&self) -> bool {
        &&& self.spec_pages().wf()
        &&& crate::page::page_range_canonical(
            self.spec_pages().spec_start().spec_number(),
            self.spec_pages().spec_end().spec_number(),
        )
        &&& self.spec_bytes().len() == self.spec_pages().spec_size_in_pages() * 4096
    }
}


/// An owning handle over a contiguous range of mapped virtual huge pages,
/// the analog of `MappedPages` for the three supported page sizes.
#[derive(Debug)]
pub struct MappedHugePages {
    /// The frame of the P4 table this mapping was created in.
    page_table_p4: Frame,
    /// The owned virtual huge-page range.
    pages: AllocatedHugePages,
    /// The flags this mapping was created with.
    flags: EntryFlags,
    /// The bytes of the mapped region.
    content: Vec<u8>,
}

impl MappedHugePages {
    /// The page-table root of this mapping, as a specification value.
    pub closed spec fn spec_p4(&self) -> Frame {
        self.page_table_p4
    }

    /// The owned huge-page range, as a specification value.
    pub closed spec fn spec_pages(&self) -> HugePageRange {
        self.pages.spec_range()
    }

    /// The flags of the mapping, as a specification value.
    pub closed spec fn spec_flags(&self) -> EntryFlags {
        self.flags
    }

    /// The bytes of the mapped region, as a specification value.
    pub closed spec fn spec_bytes(&self) -> Seq<u8> {
        self.content@
    }

    /// A well-formed handle owns a well-formed range at canonical
    /// addresses whose content has exactly one byte per mapped byte.
    pub open spec fn wf(&self) -> bool {
        &&& self.spec_pages().wf()
        &&& crate::page::huge_range_canonical(
            self.spec_pages().spec_start().spec_number(),
            self.spec_pages().spec_end().spec_number(),
            spec_ratio_of(self.spec_pages().spec_page_size().spec_value()),
        )
        &&& self.spec_bytes().len() == self.spec_pages().spec_size_in_pages()
            * self.spec_pages().spec_page_size().spec_value()
    }
}

impl Mapper {
    /// Maps the given `AllocatedHugePages` to freshly allocated aligned
    /// blocks of physical frames, one block per huge page. The leaf level
    /// depends on the page size: a 4 KiB page gets a P1 leaf without
    /// HUGE_PAGE, a 2 MiB page a P2 leaf with HUGE_PAGE, and a 1 GiB page
    /// a P3 leaf with HUGE_PAGE; every entry above a leaf has NO_EXECUTE
    /// cleared. Consumes the pages and returns the owning
    /// `MappedHugePages` handle.
    ///
    /// Fails with `AlreadyMapped` when some covered slot is occupied and
    /// with `OutOfMemory` when the frame allocator cannot supply a block;
    /// on failure no translation changes.
    pub fn map_allocated_huge_pages<A: FrameAllocator>(
        &mut self,
        pages: AllocatedHugePages,
        flags: EntryFlags,
        allocator: &mut A,
    ) -> (r: Result<MappedHugePages, MemError>)
        requires
            old(self).wf(),
            pages.wf(),
            crate::page::huge_range_canonical(
                pages.spec_range().spec_start().spec_number(),
                pages.spec_range().spec_end().spec_number(),
                spec_ratio_of(pages.spec_range().spec_page_size().spec_value()),
            ),
            pages.spec_range().spec_size_in_pages()
                * pages.spec_range().spec_page_size().spec_value() <= usize::MAX,
        ensures
            final(self).wf(),
            final(self).spec_target_p4() == old(self).spec_target_p4(),
            match r {
                Ok(mhp) => {
                    let ratio = spec_ratio_of(pages.spec_range().spec_page_size().spec_value());
                    let hs = pages.spec_range().spec_start().spec_number();
                    let cnt = pages.spec_range().spec_size_in_pages();
                    let base = (hs * ratio) as u64;
                    let hl = spec_huge_leaf_flags(flags, ratio);
                    &&& forall|m: u64|
                        base <= m < base + cnt * ratio ==> (#[trigger] final(self).spec_leaf_flags(m)) == Some(hl)
                    &&& ratio == 1 ==> forall|m: u64|
                        #![trigger final(self).spec_translate_page(m)]
                        base <= m < base + cnt ==> final(self).spec_leaves_4k().contains_key(m)
                            && final(self).spec_translate_page(m) == Some(
                            final(self).spec_leaves_4k()[m].frame,
                        )
                    &&& ratio == 1 ==> forall|k: u64|
                        k < cnt ==> final(self).spec_leaves_4k().contains_key(
                            #[trigger] ((hs + k) as u64),
                        )
                    &&& ratio == 512 ==> forall|k: u64|
                        k < cnt ==> final(self).spec_leaves_2m().contains_key(
                            #[trigger] ((hs + k) as u64),
                        )
                    &&& ratio == 262144 ==> forall|k: u64|
                        k < cnt ==> final(self).spec_leaves_1g().contains_key(
                            #[trigger] ((hs + k) as u64),
                        )
                    &&& ratio == 512 ==> forall|m: u64|
                        #![trigger final(self).spec_translate_page(m)]
                        base <= m < base + cnt * 512 ==> {
                            &&& final(self).spec_leaves_2m().contains_key(m / 512)
                            &&& final(self).spec_leaves_2m()[m / 512].frame.number % 512 == 0
                            &&& final(self).spec_translate_page(m) == Some(
                                Frame {
                                    number: (final(self).spec_leaves_2m()[m / 512].frame.number
                                        + m % 512) as u64,
                                },
                            )
                        }
                    &&& ratio == 262144 ==> forall|m: u64|
                        #![trigger final(self).spec_translate_page(m)]
                        base <= m < base + cnt * 262144 ==> {
                            &&& final(self).spec_leaves_1g().contains_key(m / 262144)
                            &&& final(self).spec_leaves_1g()[m / 262144].frame.number % 262144
                                == 0
                            &&& final(self).spec_translate_page(m) == Some(
                                Frame {
                                    number: (final(self).spec_leaves_1g()[m / 262144].frame.number
                                        + m % 262144) as u64,
                                },
                            )
                        }
                    &&& forall|m: u64|
                        !(base <= m < base + cnt * ratio) ==> (#[trigger] final(self).spec_translate_page(m)) == old(self).spec_translate_page(m)
                    &&& forall|m: u64|
                        !(base <= m < base + cnt * ratio) ==> (#[trigger] final(self).spec_leaf_flags(m)) == old(self).spec_leaf_flags(m)
                    &&& forall|k: u64|
                        #[trigger] final(self).spec_p3_tables().contains_key(k) && !old(self).spec_p3_tables().contains_key(k) ==> final(self).spec_p3_tables()[k].flags == flags.spec_without_no_execute()
                    &&& forall|k: u64|
                        #[trigger] final(self).spec_p2_tables().contains_key(k) && !old(self).spec_p2_tables().contains_key(k) ==> final(self).spec_p2_tables()[k].flags == flags.spec_without_no_execute()
                    &&& forall|k: u64|
                        #[trigger] final(self).spec_p1_tables().contains_key(k) && !old(self).spec_p1_tables().contains_key(k) ==> final(self).spec_p1_tables()[k].flags == flags.spec_without_no_execute()
                    &&& mhp.spec_p4() == old(self).spec_target_p4()
                    &&& mhp.spec_pages() == pages.spec_range()
                    &&& mhp.spec_flags() == flags
                    &&& mhp.spec_bytes().len() == cnt * pages.spec_range().spec_page_size().spec_value()
                    &&& forall|i: int| 0 <= i < mhp.spec_bytes().len() ==> mhp.spec_bytes()[i] == 0
                    &&& mhp.wf()
                },
                Err(e) => {
                    let ratio = spec_ratio_of(pages.spec_range().spec_page_size().spec_value());
                    let hs = pages.spec_range().spec_start().spec_number();
                    let cnt = pages.spec_range().spec_size_in_pages();
                    &&& final(self).same_translation(*old(self))
                    &&& (e == MemError::AlreadyMapped || e == MemError::OutOfMemory)
                    &&& ratio == 1 ==> (e == MemError::AlreadyMapped <==> exists|k: u64|
                        k < cnt && (#[trigger] old(self).spec_translate_page((hs + k) as u64))
                            is Some)
                    &&& ratio == 512 ==> (e == MemError::AlreadyMapped <==> exists|k: u64|
                        k < cnt && (#[trigger] old(self).spec_slot_taken_2m((hs + k) as u64)))
                    &&& ratio == 262144 ==> (e == MemError::AlreadyMapped <==> exists|k: u64|
                        k < cnt && (#[trigger] old(self).spec_slot_taken_1g((hs + k) as u64)))
                },
            },
    {
        let ps = pages.page_size();
        let ratio = ps.huge_page_ratio();
        let cnt = pages.size_in_pages();
        let hs = pages.start().number;
        let top_flags = flags.without_no_execute();
        proof {
            let r = ratio as int;
            let h = hs as int;
            let c = cnt as int;
            let e = pages.spec_range().spec_end().spec_number() as int;
            assert(h * r <= 0xF_FFFF_FFFF_FFFF) by (nonlinear_arith)
                requires
                    h <= 0xF_FFFF_FFFF_FFFF as int / r,
                    1 <= r,
            ;
            if c > 0 {
                assert(e == h + c - 1);
                assert((h + c) * r == e * r + r) by (nonlinear_arith)
                    requires
                        e == h + c - 1,
                ;
            } else {
                assert((h + c) * r == h * r);
            }
            assert((hs + cnt) * ratio <= u64::MAX);
        }
        let base = hs * ratio;
        proof {
            assert(base + cnt * ratio == (hs + cnt) * ratio) by (nonlinear_arith)
                requires
                    base == hs * ratio,
            ;
        }
        if ratio == 1 {
            if self.any_mapped(base, cnt) {
                proof {
                    lemma_same_leaves_same_translation(*self, *old(self));
                }
                return Err(MemError::AlreadyMapped);
            }
            let mut frames: Vec<Frame> = Vec::new();
            let mut i: u64 = 0;
            while i < cnt
                invariant
                    i <= cnt,
                    frames@.len() == i,
                    forall|k: int| 0 <= k < i ==> (#[trigger] frames@[k]).number < 0x100_0000_0000,
                    self.wf(),
                    self.spec_target_p4() == old(self).spec_target_p4(),
                    self.spec_p1_tables() == old(self).spec_p1_tables(),
                    self.spec_p2_tables() == old(self).spec_p2_tables(),
                    self.spec_p3_tables() == old(self).spec_p3_tables(),
                    self.spec_leaves_1g() == old(self).spec_leaves_1g(),
                    self.spec_leaves_2m() == old(self).spec_leaves_2m(),
                    self.spec_leaves_4k() == old(self).spec_leaves_4k(),
                    cnt == pages.spec_range().spec_size_in_pages(),
                    hs == pages.spec_range().spec_start().spec_number(),
                    ratio == spec_ratio_of(pages.spec_range().spec_page_size().spec_value()),
                    ratio == 1,
                    base == hs,
                    forall|k: u64|
                        k < cnt ==> (#[trigger] old(self).spec_translate_page(
                            (base + k) as u64,
                        )) is None,
                decreases cnt - i,
            {
                match allocator.allocate_alligned_frames(1, 1) {
                    Some(fr) => {
                        frames.push(fr.start());
                    },
                    None => {
                        proof {
                            lemma_same_leaves_same_translation(*self, *old(self));
                        }
                        return Err(MemError::OutOfMemory);
                    },
                }
                i = i + 1;
            }
            match self.ensure_tables_range(base, cnt, top_flags, allocator) {
                Ok(()) => {},
                Err(e) => {
                    proof {
                        lemma_same_leaves_same_translation(*self, *old(self));
                    }
                    return Err(e);
                },
            }
            proof {
                lemma_same_leaves_same_translation(*self, *old(self));
                assert forall|k: u64|
                    k < cnt implies (#[trigger] self.spec_translate_page((base + k) as u64))
                    is None by {
                    assert(old(self).spec_translate_page((base + k) as u64) is None);
                }
            }
            self.insert_leaves_4k_vec(base, cnt, &frames, flags.with_present());
            proof {
                assert forall|m: u64| base <= m < base + cnt implies {
                    &&& (#[trigger] self.spec_leaves_4k()).contains_key(m)
                    &&& self.spec_translate_page(m) == Some(self.spec_leaves_4k()[m].frame)
                    &&& self.spec_leaf_flags(m) == Some(flags.spec_with_present())
                } by {
                    let k = (m - base) as u64;
                    assert(k < cnt);
                    assert(self.spec_translate_page((base + k) as u64) == Some(
                        frames@[k as int],
                    ));
                    assert(self.spec_leaf_flags((base + k) as u64) == Some(
                        flags.spec_with_present(),
                    ));
                    assert(old(self).spec_translate_page(m) is None);
                    assert(!self.spec_leaves_1g().contains_key(m / 262144));
                    assert(!self.spec_leaves_2m().contains_key(m / 512));
                }
            }
            let content = zero_bytes((cnt * ps.value()) as usize);
            return Ok(MappedHugePages { page_table_p4: self.target_p4, pages, flags, content });
        }
        if ratio == 512 {
            if self.any_slot_taken_2m(hs, cnt) {
                proof {
                    lemma_same_leaves_same_translation(*self, *old(self));
                }
                return Err(MemError::AlreadyMapped);
            }
            let mut blocks: Vec<FrameRange> = Vec::new();
            let mut i: u64 = 0;
            while i < cnt
                invariant
                    i <= cnt,
                    blocks@.len() == i,
                    forall|k: int|
                        0 <= k < i ==> {
                            &&& (#[trigger] blocks@[k]).spec_start().number % 512 == 0
                            &&& blocks@[k].spec_start().number + 511 < 0x100_0000_0000
                        },
                    self.wf(),
                    self.spec_target_p4() == old(self).spec_target_p4(),
                    self.spec_p1_tables() == old(self).spec_p1_tables(),
                    self.spec_p2_tables() == old(self).spec_p2_tables(),
                    self.spec_p3_tables() == old(self).spec_p3_tables(),
                    self.spec_leaves_1g() == old(self).spec_leaves_1g(),
                    self.spec_leaves_2m() == old(self).spec_leaves_2m(),
                    self.spec_leaves_4k() == old(self).spec_leaves_4k(),
                    cnt == pages.spec_range().spec_size_in_pages(),
                    hs == pages.spec_range().spec_start().spec_number(),
                    ratio == spec_ratio_of(pages.spec_range().spec_page_size().spec_value()),
                    ratio == 512,
                    forall|k: u64|
                        k < cnt ==> !(#[trigger] old(self).spec_slot_taken_2m((hs + k) as u64)),
                decreases cnt - i,
            {
                match allocator.allocate_alligned_frames(512, 512) {
                    Some(fr) => {
                        blocks.push(fr);
                    },
                    None => {
                        proof {
                            lemma_same_leaves_same_translation(*self, *old(self));
                        }
                        return Err(MemError::OutOfMemory);
                    },
                }
                i = i + 1;
            }
            match self.ensure_tables_2m_range(hs, cnt, top_flags, allocator) {
                Ok(()) => {},
                Err(e) => {
                    proof {
                        lemma_same_leaves_same_translation(*self, *old(self));
                    }
                    return Err(e);
                },
            }
            proof {
                assert forall|i: u64|
                    i < cnt implies !(#[trigger] self.spec_p1_tables().contains_key(
                    (hs + i) as u64,
                )) by {
                    assert(!old(self).spec_slot_taken_2m((hs + i) as u64));
                }
            }
            let hl = EntryFlags { present: true, huge: true, ..flags };
            self.insert_leaves_2m(hs, cnt, &blocks, hl);
            proof {
                lemma_huge_map_result_2m(*old(self), *self, hs, cnt, base, hl);
            }
            let content = zero_bytes((cnt * ps.value()) as usize);
            return Ok(MappedHugePages { page_table_p4: self.target_p4, pages, flags, content });
        }
        if self.any_slot_taken_1g(hs, cnt) {
            proof {
                lemma_same_leaves_same_translation(*self, *old(self));
            }
            return Err(MemError::AlreadyMapped);
        }
        let mut blocks: Vec<FrameRange> = Vec::new();
        let mut i: u64 = 0;
        while i < cnt
            invariant
                i <= cnt,
                blocks@.len() == i,
                forall|k: int|
                    0 <= k < i ==> {
                        &&& (#[trigger] blocks@[k]).spec_start().number % 262144 == 0
                        &&& blocks@[k].spec_start().number + 262143 < 0x100_0000_0000
                    },
                self.wf(),
                self.spec_target_p4() == old(self).spec_target_p4(),
                self.spec_p1_tables() == old(self).spec_p1_tables(),
                self.spec_p2_tables() == old(self).spec_p2_tables(),
                self.spec_p3_tables() == old(self).spec_p3_tables(),
                self.spec_leaves_1g() == old(self).spec_leaves_1g(),
                self.spec_leaves_2m() == old(self).spec_leaves_2m(),
                self.spec_leaves_4k() == old(self).spec_leaves_4k(),
                cnt == pages.spec_range().spec_size_in_pages(),
                hs == pages.spec_range().spec_start().spec_number(),
                ratio == spec_ratio_of(pages.spec_range().spec_page_size().spec_value()),
                ratio != 1 && ratio != 512,
                forall|k: u64|
                    k < cnt ==> !(#[trigger] old(self).spec_slot_taken_1g((hs + k) as u64)),
            decreases cnt - i,
        {
            match allocator.allocate_alligned_frames(262144, 262144) {
                Some(fr) => {
                    blocks.push(fr);
                },
                None => {
                    proof {
                        lemma_same_leaves_same_translation(*self, *old(self));
                    }
                    return Err(MemError::OutOfMemory);
                },
            }
            i = i + 1;
        }
        match self.ensure_tables_1g_range(hs, cnt, top_flags, allocator) {
            Ok(()) => {},
            Err(e) => {
                proof {
                    lemma_same_leaves_same_translation(*self, *old(self));
                }
                return Err(e);
            },
        }
        proof {
            assert forall|i: u64|
                i < cnt implies !(#[trigger] self.spec_p2_tables().contains_key(
                (hs + i) as u64,
            )) by {
                assert(!old(self).spec_slot_taken_1g((hs + i) as u64));
            }
        }
        let hl = EntryFlags { present: true, huge: true, ..flags };
        self.insert_leaves_1g(hs, cnt, &blocks, hl);
        proof {
            lemma_huge_map_result_1g(*old(self), *self, hs, cnt, base, hl);
        }
        let content = zero_bytes((cnt * ps.value()) as usize);
        Ok(MappedHugePages { page_table_p4: self.target_p4, pages, flags, content })
    }
}

/// After a run of 2 MiB leaf inserts over slots `[hs, hs+cnt)` into a
/// mapper whose other leaf maps are unchanged and whose affected slots
/// were free, the covered pages translate through the new leaves and all
/// other pages are untouched.
proof fn lemma_huge_map_result_2m(
    pre: Mapper,
    post: Mapper,
    hs: u64,
    cnt: u64,
    base: u64,
    hl: EntryFlags,
)
    requires
        post.wf(),
        base == hs * 512,
        (hs + cnt) * 512 <= u64::MAX,
        post.spec_leaves_1g() == pre.spec_leaves_1g(),
        post.spec_leaves_4k() == pre.spec_leaves_4k(),
        post.spec_p1_tables() == pre.spec_p1_tables(),
        forall|i: u64| i < cnt ==> !(#[trigger] pre.spec_slot_taken_2m((hs + i) as u64)),
        forall|i: u64|
            i < cnt ==> post.spec_leaves_2m().contains_key(#[trigger] ((hs + i) as u64))
                && post.spec_leaves_2m()[(hs + i) as u64].flags == hl,
        forall|n: u64|
            #![trigger post.spec_leaves_2m().contains_key(n)]
            #![trigger pre.spec_leaves_2m().contains_key(n)]
            !(hs <= n < hs + cnt) ==> post.spec_leaves_2m().contains_key(n)
                == pre.spec_leaves_2m().contains_key(n) && (pre.spec_leaves_2m().contains_key(n)
                ==> post.spec_leaves_2m()[n] == pre.spec_leaves_2m()[n]),
    ensures
        forall|m: u64|
            #![trigger post.spec_translate_page(m)]
            base <= m < base + cnt * 512 ==> {
                &&& post.spec_leaves_2m().contains_key(m / 512)
                &&& post.spec_leaves_2m()[m / 512].frame.number % 512 == 0
                &&& post.spec_translate_page(m) == Some(
                    Frame {
                        number: (post.spec_leaves_2m()[m / 512].frame.number + m % 512) as u64,
                    },
                )
            },
        forall|m: u64|
            base <= m < base + cnt * 512 ==> (#[trigger] post.spec_leaf_flags(m)) == Some(hl),
        forall|m: u64|
            !(base <= m < base + cnt * 512) ==> (#[trigger] post.spec_translate_page(m))
                == pre.spec_translate_page(m),
        forall|m: u64|
            !(base <= m < base + cnt * 512) ==> (#[trigger] post.spec_leaf_flags(m))
                == pre.spec_leaf_flags(m),
{
    assert(base + cnt * 512 == (hs + cnt) * 512) by (nonlinear_arith)
        requires
            base == hs * 512,
    ;
    assert forall|m: u64| base <= m < base + cnt * 512 implies {
        &&& post.spec_leaves_2m().contains_key(m / 512)
        &&& post.spec_leaves_2m()[m / 512].frame.number % 512 == 0
        &&& post.spec_translate_page(m) == Some(
            Frame { number: (post.spec_leaves_2m()[m / 512].frame.number + m % 512) as u64 },
        )
        &&& post.spec_leaf_flags(m) == Some(hl)
    } by {
        let k = m / 512;
        vstd::arithmetic::div_mod::lemma_div_is_ordered((hs * 512) as int, m as int, 512);
        vstd::arithmetic::div_mod::lemma_div_by_multiple(hs as int, 512);
        assert(k >= hs);
        assert(m < (hs + cnt) * 512);
        vstd::arithmetic::div_mod::lemma_div_is_ordered(m as int, ((hs + cnt) * 512 - 1) as int, 512);
        vstd::arithmetic::div_mod::lemma_div_by_multiple((hs + cnt) as int, 512);
        assert(((hs + cnt) * 512 - 1) as int / 512 < (hs + cnt) as int) by (nonlinear_arith)
            requires
                (hs + cnt) * 512 <= u64::MAX,
        ;
        assert(k < hs + cnt);
        let i = (k - hs) as u64;
        assert(i < cnt);
        assert(post.spec_leaves_2m().contains_key((hs + i) as u64));
        assert(!pre.spec_slot_taken_2m(k));
        assert(!post.spec_leaves_1g().contains_key(k / 512));
        vstd::arithmetic::div_mod::lemma_div_denominator(m as int, 512, 512);
        assert(!post.spec_leaves_1g().contains_key(m / 262144));
    }
    assert forall|m: u64| !(base <= m < base + cnt * 512) implies {
        &&& post.spec_translate_page(m) == pre.spec_translate_page(m)
        &&& post.spec_leaf_flags(m) == pre.spec_leaf_flags(m)
    } by {
        let k = m / 512;
        if hs <= k < hs + cnt {
            vstd::arithmetic::div_mod::lemma_fundamental_div_mod(m as int, 512);
            assert(m >= k * 512 >= hs * 512) by (nonlinear_arith)
                requires
                    k == m / 512,
                    hs <= k,
                    m as int == 512 * (m as int / 512) + m as int % 512,
                    0 <= m as int % 512 < 512,
            ;
            assert(m < (k + 1) * 512 && (k + 1) * 512 <= (hs + cnt) * 512) by (nonlinear_arith)
                requires
                    k == m / 512,
                    k < hs + cnt,
                    m as int == 512 * (m as int / 512) + m as int % 512,
                    0 <= m as int % 512 < 512,
                    (hs + cnt) * 512 <= u64::MAX,
            ;
            assert(base <= m < base + cnt * 512);
        }
        assert(!(hs <= k < hs + cnt));
        assert(post.spec_leaves_2m().contains_key(k) == pre.spec_leaves_2m().contains_key(k));
    }
}

/// The 1 GiB analog of the lemma above.
proof fn lemma_huge_map_result_1g(
    pre: Mapper,
    post: Mapper,
    hs: u64,
    cnt: u64,
    base: u64,
    hl: EntryFlags,
)
    requires
        post.wf(),
        base == hs * 262144,
        (hs + cnt) * 262144 <= u64::MAX,
        post.spec_leaves_2m() == pre.spec_leaves_2m(),
        post.spec_leaves_4k() == pre.spec_leaves_4k(),
        post.spec_p1_tables() == pre.spec_p1_tables(),
        post.spec_p2_tables() == pre.spec_p2_tables(),
        forall|i: u64| i < cnt ==> !(#[trigger] pre.spec_slot_taken_1g((hs + i) as u64)),
        forall|i: u64|
            i < cnt ==> post.spec_leaves_1g().contains_key(#[trigger] ((hs + i) as u64))
                && post.spec_leaves_1g()[(hs + i) as u64].flags == hl,
        forall|n: u64|
            #![trigger post.spec_leaves_1g().contains_key(n)]
            #![trigger pre.spec_leaves_1g().contains_key(n)]
            !(hs <= n < hs + cnt) ==> post.spec_leaves_1g().contains_key(n)
                == pre.spec_leaves_1g().contains_key(n) && (pre.spec_leaves_1g().contains_key(n)
                ==> post.spec_leaves_1g()[n] == pre.spec_leaves_1g()[n]),
    ensures
        forall|m: u64|
            #![trigger post.spec_translate_page(m)]
            base <= m < base + cnt * 262144 ==> {
                &&& post.spec_leaves_1g().contains_key(m / 262144)
                &&& post.spec_leaves_1g()[m / 262144].frame.number % 262144 == 0
                &&& post.spec_translate_page(m) == Some(
                    Frame {
                        number: (post.spec_leaves_1g()[m / 262144].frame.number + m
                            % 262144) as u64,
                    },
                )
            },
        forall|m: u64|
            base <= m < base + cnt * 262144 ==> (#[trigger] post.spec_leaf_flags(m)) == Some(hl),
        forall|m: u64|
            !(base <= m < base + cnt * 262144) ==> (#[trigger] post.spec_translate_page(m))
                == pre.spec_translate_page(m),
        forall|m: u64|
            !(base <= m < base + cnt * 262144) ==> (#[trigger] post.spec_leaf_flags(m))
                == pre.spec_leaf_flags(m),
{
    assert(base + cnt * 262144 == (hs + cnt) * 262144) by (nonlinear_arith)
        requires
            base == hs * 262144,
    ;
    assert forall|m: u64| base <= m < base + cnt * 262144 implies {
        &&& post.spec_leaves_1g().contains_key(m / 262144)
        &&& post.spec_leaves_1g()[m / 262144].frame.number % 262144 == 0
        &&& post.spec_translate_page(m) == Some(
            Frame {
                number: (post.spec_leaves_1g()[m / 262144].frame.number + m % 262144) as u64,
            },
        )
        &&& post.spec_leaf_flags(m) == Some(hl)
    } by {
        let k = m / 262144;
        vstd::arithmetic::div_mod::lemma_div_is_ordered((hs * 262144) as int, m as int, 262144);
        vstd::arithmetic::div_mod::lemma_div_by_multiple(hs as int, 262144);
        assert(k >= hs);
        vstd::arithmetic::div_mod::lemma_div_is_ordered(
            m as int,
            ((hs + cnt) * 262144 - 1) as int,
            262144,
        );
        vstd::arithmetic::div_mod::lemma_div_by_multiple((hs + cnt) as int, 262144);
        assert(((hs + cnt) * 262144 - 1) as int / 262144 < (hs + cnt) as int) by (nonlinear_arith)
            requires
                (hs + cnt) * 262144 <= u64::MAX,
        ;
        assert(k < hs + cnt);
        let i = (k - hs) as u64;
        assert(i < cnt);
        assert(post.spec_leaves_1g().contains_key((hs + i) as u64));
    }
    assert forall|m: u64| !(base <= m < base + cnt * 262144) implies {
        &&& post.spec_translate_page(m) == pre.spec_translate_page(m)
        &&& post.spec_leaf_flags(m) == pre.spec_leaf_flags(m)
    } by {
        let k = m / 262144;
        if hs <= k < hs + cnt {
            vstd::arithmetic::div_mod::lemma_fundamental_div_mod(m as int, 262144);
            assert(m >= k * 262144 >= hs * 262144) by (nonlinear_arith)
                requires
                    k == m / 262144,
                    hs <= k,
                    m as int == 262144 * (m as int / 262144) + m as int % 262144,
                    0 <= m as int % 262144 < 262144,
            ;
            assert(m < (k + 1) * 262144 && (k + 1) * 262144 <= (hs + cnt) * 262144)
                by (nonlinear_arith)
                requires
                    k == m / 262144,
                    k < hs + cnt,
                    m as int == 262144 * (m as int / 262144) + m as int % 262144,
                    0 <= m as int % 262144 < 262144,
                    (hs + cnt) * 262144 <= u64::MAX,
            ;
            assert(base <= m < base + cnt * 262144);
        }
        assert(!(hs <= k < hs + cnt));
        assert(post.spec_leaves_1g().contains_key(k) == pre.spec_leaves_1g().contains_key(k));
    }
}

impl Mapper {
    /// Whether every page of `[start, start+count)` is mapped by its own
    /// 4 KiB leaf entry.
    fn all_leaves_4k(&self, start: u64, count: u64) -> (r: bool)
        requires
            self.wf(),
            start + count <= u64::MAX,
        ensures
            r == forall|k: u64|
                k < count ==> self.spec_leaves_4k().contains_key(#[trigger] ((start + k) as u64)),
    {
        let mut i: u64 = 0;
        while i < count
            invariant
                self.wf(),
                start + count <= u64::MAX,
                i <= count,
                forall|j: u64|
                    j < i ==> self.spec_leaves_4k().contains_key(#[trigger] ((start + j) as u64)),
            decreases count - i,
        {
            if !self.leaves_4k.contains_key(&(start + i)) {
                return false;
            }
            i = i + 1;
        }
        true
    }

    /// Rewrites the flags of the 4 KiB leaf of every page of
    /// `[start, start+count)`, keeping each mapped frame.
    fn rewrite_leaves_4k(&mut self, start: u64, count: u64, leaf_flags: EntryFlags)
        requires
            old(self).wf(),
            leaf_flags.present,
            start + count <= u64::MAX,
            forall|k: u64|
                k < count ==> old(self).spec_leaves_4k().contains_key(
                    #[trigger] ((start + k) as u64),
                ),
        ensures
            final(self).wf(),
            final(self).spec_target_p4() == old(self).spec_target_p4(),
            final(self).spec_p3_tables() == old(self).spec_p3_tables(),
            final(self).spec_p2_tables() == old(self).spec_p2_tables(),
            final(self).spec_p1_tables() == old(self).spec_p1_tables(),
            final(self).spec_leaves_1g() == old(self).spec_leaves_1g(),
            final(self).spec_leaves_2m() == old(self).spec_leaves_2m(),
            forall|k: u64|
                k < count ==> final(self).spec_leaves_4k().contains_key(
                    #[trigger] ((start + k) as u64),
                ) && final(self).spec_leaves_4k()[(start + k) as u64] == (LeafMapping {
                    frame: old(self).spec_leaves_4k()[(start + k) as u64].frame,
                    flags: leaf_flags,
                }),
            forall|n: u64|
                #![trigger final(self).spec_leaves_4k().contains_key(n)]
                #![trigger old(self).spec_leaves_4k().contains_key(n)]
                !(start <= n < start + count) ==> final(self).spec_leaves_4k().contains_key(n)
                    == old(self).spec_leaves_4k().contains_key(n) && (old(self).spec_leaves_4k().contains_key(n) ==> final(self).spec_leaves_4k()[n] == old(self).spec_leaves_4k()[n]),
            forall|n: u64|
                #[trigger] final(self).spec_translate_page(n) == old(self).spec_translate_page(n),
    {
        let mut i: u64 = 0;
        while i < count
            invariant
                self.wf(),
                leaf_flags.present,
                start + count <= u64::MAX,
                i <= count,
                self.spec_target_p4() == old(self).spec_target_p4(),
                self.spec_p3_tables() == old(self).spec_p3_tables(),
                self.spec_p2_tables() == old(self).spec_p2_tables(),
                self.spec_p1_tables() == old(self).spec_p1_tables(),
                self.spec_leaves_1g() == old(self).spec_leaves_1g(),
                self.spec_leaves_2m() == old(self).spec_leaves_2m(),
                forall|k: u64|
                    k < count ==> old(self).spec_leaves_4k().contains_key(
                        #[trigger] ((start + k) as u64),
                    ),
                forall|j: u64|
                    j < i ==> self.spec_leaves_4k().contains_key(#[trigger] ((start + j) as u64))
                        && self.spec_leaves_4k()[(start + j) as u64] == (LeafMapping {
                        frame: old(self).spec_leaves_4k()[(start + j) as u64].frame,
                        flags: leaf_flags,
                    }),
                forall|n: u64|
                    #![trigger self.spec_leaves_4k().contains_key(n)]
                    #![trigger old(self).spec_leaves_4k().contains_key(n)]
                    !(start <= n < start + i) ==> self.spec_leaves_4k().contains_key(n) == old(self).spec_leaves_4k().contains_key(n) && (old(self).spec_leaves_4k().contains_key(n) ==> self.spec_leaves_4k()[n] == old(self).spec_leaves_4k()[n]),
            decreases count - i,
        {
            let frame = match self.leaves_4k.get(&(start + i)) {
                Some(leaf) => leaf.frame,
                None => {
                    proof {
                        assert(self.spec_leaves_4k().contains_key(((start + i) as u64)));
                        assert(false);
                    }
                    Frame { number: 0 }
                },
            };
            let leaf = LeafMapping { frame, flags: leaf_flags };
            let ghost pre = *self;
            self.leaves_4k.insert(start + i, leaf);
            proof {
                lemma_wf_insert_leaf_4k(pre, *self, (start + i) as u64, leaf);
                assert forall|j: u64| j < i + 1 implies {
                    self.spec_leaves_4k().contains_key(#[trigger] ((start + j) as u64))
                        && self.spec_leaves_4k()[(start + j) as u64] == (LeafMapping {
                        frame: old(self).spec_leaves_4k()[(start + j) as u64].frame,
                        flags: leaf_flags,
                    })
                } by {
                    if j < i {
                        assert(pre.spec_leaves_4k().contains_key(((start + j) as u64)));
                        assert((start + j) as u64 != (start + i) as u64);
                    } else {
                        assert(pre.spec_leaves_4k().contains_key(((start + j) as u64)));
                        assert(pre.spec_leaves_4k()[(start + j) as u64] == old(self).spec_leaves_4k()[(start + j) as u64]);
                    }
                }
                assert forall|n: u64| !(start <= n < start + i + 1) implies {
                    self.spec_leaves_4k().contains_key(n) == old(self).spec_leaves_4k().contains_key(n) && (old(self).spec_leaves_4k().contains_key(n) ==> self.spec_leaves_4k()[n] == old(self).spec_leaves_4k()[n])
                } by {
                    assert(n != (start + i) as u64);
                    assert(self.spec_leaves_4k().contains_key(n)
                        == pre.spec_leaves_4k().contains_key(n));
                    if pre.spec_leaves_4k().contains_key(n) {
                        assert(self.spec_leaves_4k()[n] == pre.spec_leaves_4k()[n]);
                    }
                    assert(pre.spec_leaves_4k().contains_key(n) == old(self).spec_leaves_4k().contains_key(n));
                }
            }
            i = i + 1;
        }
        proof {
            assert forall|n: u64|
                #[trigger] final(self).spec_translate_page(n) == old(self).spec_translate_page(
                n,
            ) by {
                if start <= n < start + count {
                    let k = (n - start) as u64;
                    assert(self.spec_leaves_4k().contains_key(((start + k) as u64)));
                    assert(old(self).spec_leaves_4k().contains_key(((start + k) as u64)));
                }
            }
        }
    }

    /// Removes the 4 KiB leaf of every page of `[start, start+count)`.
    fn remove_leaves_4k(&mut self, start: u64, count: u64)
        requires
            old(self).wf(),
            start + count <= u64::MAX,
            forall|k: u64|
                k < count ==> old(self).spec_leaves_4k().contains_key(
                    #[trigger] ((start + k) as u64),
                ),
        ensures
            final(self).wf(),
            final(self).spec_target_p4() == old(self).spec_target_p4(),
            final(self).spec_p3_tables() == old(self).spec_p3_tables(),
            final(self).spec_p2_tables() == old(self).spec_p2_tables(),
            final(self).spec_p1_tables() == old(self).spec_p1_tables(),
            final(self).spec_leaves_1g() == old(self).spec_leaves_1g(),
            final(self).spec_leaves_2m() == old(self).spec_leaves_2m(),
            forall|k: u64|
                k < count ==> final(self).spec_translate_page(#[trigger] ((start + k) as u64))
                    is None,
            forall|n: u64|
                !(start <= n < start + count) ==> (#[trigger] final(self).spec_translate_page(n))
                    == old(self).spec_translate_page(n),
            forall|n: u64|
                !(start <= n < start + count) ==> (#[trigger] final(self).spec_leaf_flags(n))
                    == old(self).spec_leaf_flags(n),
    {
        let mut i: u64 = 0;
        while i < count
            invariant
                self.wf(),
                start + count <= u64::MAX,
                i <= count,
                self.spec_target_p4() == old(self).spec_target_p4(),
                self.spec_p3_tables() == old(self).spec_p3_tables(),
                self.spec_p2_tables() == old(self).spec_p2_tables(),
                self.spec_p1_tables() == old(self).spec_p1_tables(),
                self.spec_leaves_1g() == old(self).spec_leaves_1g(),
                self.spec_leaves_2m() == old(self).spec_leaves_2m(),
                forall|j: u64|
                    j < i ==> !self.spec_leaves_4k().contains_key(#[trigger] ((start + j) as u64)),
                forall|n: u64|
                    #![trigger self.spec_leaves_4k().contains_key(n)]
                    #![trigger old(self).spec_leaves_4k().contains_key(n)]
                    !(start <= n < start + i) ==> self.spec_leaves_4k().contains_key(n) == old(self).spec_leaves_4k().contains_key(n) && (old(self).spec_leaves_4k().contains_key(n) ==> self.spec_leaves_4k()[n] == old(self).spec_leaves_4k()[n]),
            decreases count - i,
        {
            let ghost pre = *self;
            self.leaves_4k.remove(&(start + i));
            proof {
                assert(self.spec_leaves_4k() == pre.spec_leaves_4k().remove((start + i) as u64));
                assert forall|j: u64|
                    j < i + 1 implies !self.spec_leaves_4k().contains_key(
                    #[trigger] ((start + j) as u64),
                ) by {
                    if j < i {
                        assert(!pre.spec_leaves_4k().contains_key(((start + j) as u64)));
                    }
                }
                assert forall|n: u64| !(start <= n < start + i + 1) implies {
                    self.spec_leaves_4k().contains_key(n) == old(self).spec_leaves_4k().contains_key(n) && (old(self).spec_leaves_4k().contains_key(n) ==> self.spec_leaves_4k()[n] == old(self).spec_leaves_4k()[n])
                } by {
                    assert(n != (start + i) as u64);
                    assert(self.spec_leaves_4k().contains_key(n)
                        == pre.spec_leaves_4k().contains_key(n));
                    if pre.spec_leaves_4k().contains_key(n) {
                        assert(self.spec_leaves_4k()[n] == pre.spec_leaves_4k()[n]);
                    }
                    assert(pre.spec_leaves_4k().contains_key(n) == old(self).spec_leaves_4k().contains_key(n));
                }
            }
            i = i + 1;
        }
        proof {
            assert forall|k: u64|
                k < count implies final(self).spec_translate_page(#[trigger] ((start + k) as u64))
                is None by {
                let n = (start + k) as u64;
                assert(!self.spec_leaves_4k().contains_key(n));
                assert(old(self).spec_leaves_4k().contains_key(n));
                assert(old(self).spec_p1_tables().contains_key(n / 512));
                assert(!self.spec_leaves_2m().contains_key(n / 512));
                assert(self.spec_p2_tables().contains_key((n / 512) / 512));
                vstd::arithmetic::div_mod::lemma_div_denominator(n as int, 512, 512);
                assert(!self.spec_leaves_1g().contains_key(n / 262144));
            }
        }
    }
}

/// A copy of the given byte vector.
fn copy_bytes(src: &Vec<u8>) -> (r: Vec<u8>)
    ensures
        r@ == src@,
{
    let mut v: Vec<u8> = Vec::new();
    let mut i: usize = 0;
    while i < src.len()
        invariant
            i <= src@.len(),
            v@.len() == i,
            forall|j: int| 0 <= j < i ==> v@[j] == src@[j],
        decreases src@.len() - i,
    {
        v.push(src[i]);
        i = i + 1;
    }
    proof {
        assert(v@ =~= src@);
    }
    v
}

/// Overwrites `dest[offset .. offset + data.len())` with `data`.
fn splice_bytes(dest: &mut Vec<u8>, offset: usize, data: &[u8])
    requires
        offset + data@.len() <= old(dest)@.len(),
        offset + data@.len() <= usize::MAX,
    ensures
        final(dest)@.len() == old(dest)@.len(),
        forall|j: int|
            offset <= j < offset + data@.len() ==> final(dest)@[j] == data@[j - offset],
        forall|j: int|
            0 <= j < old(dest)@.len() && !(offset <= j < offset + data@.len()) ==> final(dest)@[j] == old(dest)@[j],
{
    let mut i: usize = 0;
    while i < data.len()
        invariant
            offset + data@.len() <= old(dest)@.len(),
            offset + data@.len() <= usize::MAX,
            i <= data@.len(),
            dest@.len() == old(dest)@.len(),
            forall|j: int| offset <= j < offset + i ==> dest@[j] == data@[j - offset],
            forall|j: int|
                0 <= j < old(dest)@.len() && !(offset <= j < offset + i) ==> dest@[j] == old(dest)@[j],
        decreases data@.len() - i,
    {
        let b = data[i];
        dest[offset + i] = b;
        i = i + 1;
    }
}

impl MappedPages {
    /// Returns an empty `MappedPages` object that performs no allocation
    /// or mapping actions. It can serve as a placeholder, but permits no
    /// real usage.
    pub fn empty() -> (r: MappedPages)
        ensures
            r.spec_pages().spec_size_in_pages() == 0,
            r.spec_bytes().len() == 0,
            r.wf(),
    {
        MappedPages {
            page_table_p4: Frame { number: 0 },
            pages: AllocatedPages::empty(),
            flags: EntryFlags::empty(),
            content: Vec::new(),
        }
    }

    /// Returns the flags that describe the permissions of this mapping.
    pub fn flags(&self) -> (r: EntryFlags)
        ensures
            r == self.spec_flags(),
    {
        self.flags
    }

    /// The number of pages of the mapping.
    pub fn size_in_pages(&self) -> (r: u64)
        requires
            self.wf(),
        ensures
            r == self.spec_pages().spec_size_in_pages(),
    {
        self.pages.size_in_pages()
    }

    /// The number of bytes of the mapping.
    pub fn size_in_bytes(&self) -> (r: usize)
        ensures
            r == self.spec_bytes().len(),
    {
        self.content.len()
    }

    /// The starting virtual address of the mapping.
    pub fn start_address(&self) -> (r: VirtualAddress)
        requires
            self.wf(),
        ensures
            self.spec_pages().spec_size_in_pages() > 0 ==> r.value()
                == self.spec_pages().spec_start().spec_number() * 4096,
    {
        self.pages.start_address()
    }

    /// Merges the given `MappedPages` object `mp` into this one: on
    /// success this mapping is extended to cover `mp`'s pages and bytes,
    /// and `mp` is absorbed without its mapping being torn down. The two
    /// must share the page-table root and flags and be virtually
    /// contiguous; on failure `mp` is handed back unchanged together with
    /// the reason.
    pub fn merge(&mut self, mp: MappedPages) -> (r: Result<(), (MemError, MappedPages)>)
        requires
            old(self).wf(),
            mp.wf(),
        ensures
            match r {
                Ok(_) => {
                    &&& mp.spec_p4() == old(self).spec_p4()
                    &&& mp.spec_flags() == old(self).spec_flags()
                    &&& mp.spec_pages().spec_start().spec_number() == old(self).spec_pages().spec_end().spec_number() + 1
                    &&& final(self).spec_pages().spec_start() == old(self).spec_pages().spec_start()
                    &&& final(self).spec_pages().spec_end() == mp.spec_pages().spec_end()
                    &&& final(self).spec_bytes() == old(self).spec_bytes() + mp.spec_bytes()
                    &&& final(self).spec_flags() == old(self).spec_flags()
                    &&& final(self).spec_p4() == old(self).spec_p4()
                    &&& old(self).spec_pages().spec_size_in_pages() > 0
                        && mp.spec_pages().spec_size_in_pages() > 0 ==> final(self).wf()
                },
                Err((e, returned)) => {
                    &&& returned == mp
                    &&& *final(self) == *old(self)
                    &&& (e == MemError::MergeDifferentTable || e == MemError::MergeDifferentFlags
                        || e == MemError::MergeNotContiguous)
                    &&& (e == MemError::MergeDifferentTable <==> mp.spec_p4() != old(self).spec_p4())
                    &&& (e == MemError::MergeDifferentFlags <==> mp.spec_p4() == old(self).spec_p4() && mp.spec_flags() != old(self).spec_flags())
                    &&& (e == MemError::MergeNotContiguous <==> mp.spec_p4() == old(self).spec_p4() && mp.spec_flags() == old(self).spec_flags()
                        && mp.spec_pages().spec_start().spec_number() != old(self).spec_pages().spec_end().spec_number() + 1)
                },
            },
    {
        if !(mp.page_table_p4 == self.page_table_p4) {
            return Err((MemError::MergeDifferentTable, mp));
        }
        if !(mp.flags == self.flags) {
            return Err((MemError::MergeDifferentFlags, mp));
        }
        let my_end = self.pages.end();
        if !(my_end.number < u64::MAX && mp.pages.start().number == my_end.number + 1) {
            return Err((MemError::MergeNotContiguous, mp));
        }
        let MappedPages { page_table_p4: _, pages: second_pages, flags: _, content: second_content } =
            mp;
        match self.pages.merge(second_pages) {
            Ok(()) => {},
            Err(_) => {
                proof {
                    assert(false);
                }
            },
        }
        let mut tail = second_content;
        self.content.append(&mut tail);
        proof {
            let a = old(self).spec_pages().spec_size_in_pages();
            let b = mp.spec_pages().spec_size_in_pages();
            if a > 0 && b > 0 {
                assert(old(self).spec_pages().spec_start().spec_number() <= old(self).spec_pages().spec_end().spec_number());
                assert(self.spec_pages().spec_size_in_pages() == a + b);
                assert(self.spec_bytes().len() == a * 4096 + b * 4096);
                assert((a + b) * 4096 == a * 4096 + b * 4096) by (nonlinear_arith);
            }
        }
        Ok(())
    }

    /// Changes the permissions of this mapping's page-table entries to
    /// `new_flags`: every leaf entry of the range is rewritten to the same
    /// frame with `new_flags` plus PRESENT, and the handle records the new
    /// flags. A request that changes nothing succeeds without touching the
    /// tables. Fails with `NotMapped`, changing nothing, when some page of
    /// the range has no 4 KiB leaf entry.
    pub fn remap(&mut self, active_table_mapper: &mut Mapper, new_flags: EntryFlags) -> (r: Result<
        (),
        MemError,
    >)
        requires
            old(self).wf(),
            old(active_table_mapper).wf(),
        ensures
            final(self).wf(),
            final(active_table_mapper).wf(),
            final(active_table_mapper).spec_target_p4() == old(active_table_mapper).spec_target_p4(),
            final(self).spec_pages() == old(self).spec_pages(),
            final(self).spec_bytes() == old(self).spec_bytes(),
            final(self).spec_p4() == old(self).spec_p4(),
            match r {
                Ok(_) => {
                    let s = old(self).spec_pages().spec_start().spec_number();
                    let cnt = old(self).spec_pages().spec_size_in_pages();
                    if cnt == 0 || new_flags == old(self).spec_flags() {
                        *final(self) == *old(self) && *final(active_table_mapper) == *old(active_table_mapper)
                    } else {
                        &&& final(self).spec_flags() == new_flags
                        &&& forall|k: u64|
                            k < cnt ==> final(active_table_mapper).spec_leaf_flags(
                                #[trigger] ((s + k) as u64),
                            ) == Some(new_flags.spec_with_present())
                        &&& forall|n: u64|
                            #[trigger] final(active_table_mapper).spec_translate_page(n) == old(active_table_mapper).spec_translate_page(n)
                        &&& forall|n: u64|
                            !(s <= n < s + cnt) ==> (#[trigger] final(active_table_mapper).spec_leaf_flags(n)) == old(active_table_mapper).spec_leaf_flags(n)
                    }
                },
                Err(e) => {
                    let s = old(self).spec_pages().spec_start().spec_number();
                    let cnt = old(self).spec_pages().spec_size_in_pages();
                    &&& e == MemError::NotMapped
                    &&& *final(self) == *old(self)
                    &&& *final(active_table_mapper) == *old(active_table_mapper)
                    &&& cnt > 0
                    &&& new_flags != old(self).spec_flags()
                    &&& exists|k: u64|
                        k < cnt && !old(active_table_mapper).spec_leaves_4k().contains_key(
                            #[trigger] ((s + k) as u64),
                        )
                },
            },
    {
        let cnt = self.pages.size_in_pages();
        if cnt == 0 {
            return Ok(());
        }
        if new_flags == self.flags {
            return Ok(());
        }
        let s = self.pages.start().number;
        if !active_table_mapper.all_leaves_4k(s, cnt) {
            return Err(MemError::NotMapped);
        }
        active_table_mapper.rewrite_leaves_4k(s, cnt, new_flags.with_present());
        proof {
            assert forall|k: u64|
                k < cnt implies final(active_table_mapper).spec_leaf_flags(
                #[trigger] ((s + k) as u64),
            ) == Some(new_flags.spec_with_present()) by {
                let n = (s + k) as u64;
                assert(active_table_mapper.spec_leaves_4k().contains_key(n));
                assert(old(active_table_mapper).spec_p1_tables().contains_key(n / 512));
                assert(!active_table_mapper.spec_leaves_2m().contains_key(n / 512));
                assert(active_table_mapper.spec_p2_tables().contains_key((n / 512) / 512));
                vstd::arithmetic::div_mod::lemma_div_denominator(n as int, 512, 512);
                assert(!active_table_mapper.spec_leaves_1g().contains_key(n / 262144));
            }
            assert forall|n: u64|
                !(s <= n < s + cnt) implies (#[trigger] final(active_table_mapper).spec_leaf_flags(
                n,
            )) == old(active_table_mapper).spec_leaf_flags(n) by {
                assert(active_table_mapper.spec_leaves_4k().contains_key(n) == old(active_table_mapper).spec_leaves_4k().contains_key(n));
            }
        }
        self.flags = new_flags;
        Ok(())
    }

    /// Tears down the mapping: removes the leaf entry of every page of the
    /// range and empties the handle. Refuses with `WrongPageTable`,
    /// touching nothing, when the given mapper governs a page table other
    /// than the one this mapping was created in; fails with `NotMapped`,
    /// changing nothing, when some page of a non-empty range has no 4 KiB
    /// leaf entry.
    fn unmap(&mut self, active_table_mapper: &mut Mapper) -> (r: Result<(), MemError>)
        requires
            old(self).wf(),
            old(active_table_mapper).wf(),
        ensures
            final(self).wf(),
            final(active_table_mapper).wf(),
            final(active_table_mapper).spec_target_p4() == old(active_table_mapper).spec_target_p4(),
            match r {
                Ok(_) => {
                    let s = old(self).spec_pages().spec_start().spec_number();
                    let cnt = old(self).spec_pages().spec_size_in_pages();
                    &&& forall|k: u64|
                        k < cnt ==> (#[trigger] final(active_table_mapper).spec_translate_page(
                            (s + k) as u64,
                        )) is None
                    &&& forall|n: u64|
                        !(s <= n < s + cnt) ==> (#[trigger] final(active_table_mapper).spec_translate_page(n)) == old(active_table_mapper).spec_translate_page(
                            n,
                        )
                    &&& forall|n: u64|
                        !(s <= n < s + cnt) ==> (#[trigger] final(active_table_mapper).spec_leaf_flags(n)) == old(active_table_mapper).spec_leaf_flags(n)
                    &&& final(self).spec_pages().spec_size_in_pages() == 0
                    &&& final(self).spec_bytes().len() == 0
                },
                Err(e) => {
                    let s = old(self).spec_pages().spec_start().spec_number();
                    let cnt = old(self).spec_pages().spec_size_in_pages();
                    &&& *final(self) == *old(self)
                    &&& *final(active_table_mapper) == *old(active_table_mapper)
                    &&& cnt > 0
                    &&& (e == MemError::WrongPageTable || e == MemError::NotMapped)
                    &&& (e == MemError::WrongPageTable <==> old(self).spec_p4() != old(
                        active_table_mapper,
                    ).spec_target_p4())
                    &&& e == MemError::NotMapped ==> exists|k: u64|
                        k < cnt && !old(active_table_mapper).spec_leaves_4k().contains_key(
                            #[trigger] ((s + k) as u64),
                        )
                },
            },
    {
        let cnt = self.pages.size_in_pages();
        if cnt == 0 {
            self.pages = AllocatedPages::empty();
            self.content = Vec::new();
            return Ok(());
        }
        if !(active_table_mapper.target_p4 == self.page_table_p4) {
            return Err(MemError::WrongPageTable);
        }
        let s = self.pages.start().number;
        if !active_table_mapper.all_leaves_4k(s, cnt) {
            return Err(MemError::NotMapped);
        }
        active_table_mapper.remove_leaves_4k(s, cnt);
        self.pages = AllocatedPages::empty();
        self.content = Vec::new();
        Ok(())
    }

    /// Reinterprets `size` bytes of the mapped region starting at `offset`
    /// as a plain value, handing back their copy. Fails with `OutOfBounds`
    /// when the window would reach past the region.
    pub fn as_type(&self, offset: usize, size: usize) -> (r: Result<Vec<u8>, MemError>)
        ensures
            match r {
                Ok(v) => offset + size <= self.spec_bytes().len() && v@ == self.spec_bytes().subrange(
                    offset as int,
                    offset + size,
                ),
                Err(e) => e == MemError::OutOfBounds && offset + size > self.spec_bytes().len(),
            },
    {
        if size > self.content.len() || offset > self.content.len() - size {
            return Err(MemError::OutOfBounds);
        }
        let mut v: Vec<u8> = Vec::new();
        let mut i: usize = 0;
        while i < size
            invariant
                offset + size <= self.spec_bytes().len(),
                offset + size <= usize::MAX,
                i <= size,
                v@.len() == i,
                forall|j: int| 0 <= j < i ==> v@[j] == self.spec_bytes()[offset + j],
            decreases size - i,
        {
            v.push(self.content[offset + i]);
            i = i + 1;
        }
        proof {
            assert(v@ =~= self.spec_bytes().subrange(offset as int, offset + size));
        }
        Ok(v)
    }

    /// Writes the bytes of a plain value into the mapped region at
    /// `offset`, after checking that the mapping is writable and the
    /// window lies inside the region.
    pub fn as_type_mut(&mut self, offset: usize, value: &[u8]) -> (r: Result<(), MemError>)
        ensures
            final(self).spec_pages() == old(self).spec_pages(),
            final(self).spec_flags() == old(self).spec_flags(),
            final(self).spec_p4() == old(self).spec_p4(),
            match r {
                Ok(_) => {
                    &&& old(self).spec_flags().spec_is_writable()
                    &&& offset + value@.len() <= old(self).spec_bytes().len()
                    &&& final(self).spec_bytes().len() == old(self).spec_bytes().len()
                    &&& forall|j: int|
                        offset <= j < offset + value@.len() ==> final(self).spec_bytes()[j]
                            == value@[j - offset]
                    &&& forall|j: int|
                        0 <= j < old(self).spec_bytes().len() && !(offset <= j < offset
                            + value@.len()) ==> final(self).spec_bytes()[j] == old(self).spec_bytes()[j]
                },
                Err(e) => {
                    &&& *final(self) == *old(self)
                    &&& (e == MemError::NotWritable || e == MemError::OutOfBounds)
                    &&& (e == MemError::NotWritable <==> !old(self).spec_flags().spec_is_writable())
                    &&& (e == MemError::OutOfBounds <==> old(self).spec_flags().spec_is_writable()
                        && offset + value@.len() > old(self).spec_bytes().len())
                },
            },
    {
        if !self.flags.is_writable() {
            return Err(MemError::NotWritable);
        }
        if value.len() > self.content.len() || offset > self.content.len() - value.len() {
            return Err(MemError::OutOfBounds);
        }
        splice_bytes(&mut self.content, offset, value);
        Ok(())
    }

    /// Reinterprets part of the mapped region as a slice of `length` bytes
    /// starting at `byte_offset`, handing back their copy. Fails with
    /// `OutOfBounds` when the slice would reach past the region.
    pub fn as_slice(&self, byte_offset: usize, length: usize) -> (r: Result<Vec<u8>, MemError>)
        ensures
            match r {
                Ok(v) => byte_offset + length <= self.spec_bytes().len() && v@ == self.spec_bytes().subrange(
                    byte_offset as int,
                    byte_offset + length,
                ),
                Err(e) => e == MemError::OutOfBounds && byte_offset + length
                    > self.spec_bytes().len(),
            },
    {
        self.as_type(byte_offset, length)
    }

    /// Writes a slice of bytes into the mapped region at `byte_offset`,
    /// after checking that the mapping is writable and the slice lies
    /// inside the region.
    pub fn as_slice_mut(&mut self, byte_offset: usize, data: &[u8]) -> (r: Result<(), MemError>)
        ensures
            final(self).spec_pages() == old(self).spec_pages(),
            final(self).spec_flags() == old(self).spec_flags(),
            final(self).spec_p4() == old(self).spec_p4(),
            match r {
                Ok(_) => {
                    &&& old(self).spec_flags().spec_is_writable()
                    &&& byte_offset + data@.len() <= old(self).spec_bytes().len()
                    &&& final(self).spec_bytes().len() == old(self).spec_bytes().len()
                    &&& forall|j: int|
                        byte_offset <= j < byte_offset + data@.len() ==> final(self).spec_bytes()[j] == data@[j - byte_offset]
                    &&& forall|j: int|
                        0 <= j < old(self).spec_bytes().len() && !(byte_offset <= j < byte_offset
                            + data@.len()) ==> final(self).spec_bytes()[j] == old(self).spec_bytes()[j]
                },
                Err(e) => {
                    &&& *final(self) == *old(self)
                    &&& (e == MemError::NotWritable || e == MemError::OutOfBounds)
                    &&& (e == MemError::NotWritable <==> !old(self).spec_flags().spec_is_writable())
                    &&& (e == MemError::OutOfBounds <==> old(self).spec_flags().spec_is_writable()
                        && byte_offset + data@.len() > old(self).spec_bytes().len())
                },
            },
    {
        self.as_type_mut(byte_offset, data)
    }

    /// Reinterprets the mapped region at `offset` as an executable
    /// function and returns the virtual address a caller would invoke: the
    /// region's start address plus the offset. The mapping must be
    /// executable, and a function pointer's eight bytes must fit.
    pub fn as_func(&self, offset: usize) -> (r: Result<VirtualAddress, MemError>)
        requires
            self.wf(),
        ensures
            match r {
                Ok(a) => {
                    &&& self.spec_flags().spec_is_executable()
                    &&& offset + 8 <= self.spec_bytes().len()
                    &&& a.value() == self.spec_pages().spec_start().spec_number() * 4096 + offset
                },
                Err(e) => {
                    &&& (e == MemError::NotExecutable || e == MemError::OutOfBounds)
                    &&& (e == MemError::NotExecutable <==> !self.spec_flags().spec_is_executable())
                    &&& (e == MemError::OutOfBounds <==> self.spec_flags().spec_is_executable()
                        && offset + 8 > self.spec_bytes().len())
                },
            },
    {
        if !self.flags.is_executable() {
            return Err(MemError::NotExecutable);
        }
        if self.content.len() < 8 || offset > self.content.len() - 8 {
            return Err(MemError::OutOfBounds);
        }
        let base = self.pages.start_address();
        proof {
            let st = self.spec_pages().spec_start().spec_number();
            let en = self.spec_pages().spec_end().spec_number();
            assert(st * 4096 + offset <= u64::MAX) by (nonlinear_arith)
                requires
                    st <= en <= 0xF_FFFF_FFFF_FFFF,
                    offset < self.spec_bytes().len(),
                    self.spec_bytes().len() == self.spec_pages().spec_size_in_pages() * 4096,
                    self.spec_pages().spec_size_in_pages() == en - st + 1,
            ;
            let v = (st * 4096 + offset) as u64;
            if st < 0x8_0000_0000 {
                assert(v < 0x8000_0000_0000) by (nonlinear_arith)
                    requires
                        st <= en,
                        en < 0x8_0000_0000,
                        offset < self.spec_bytes().len(),
                        self.spec_bytes().len() == self.spec_pages().spec_size_in_pages() * 4096,
                        self.spec_pages().spec_size_in_pages() == en - st + 1,
                        v == st * 4096 + offset,
                ;
            } else {
                assert(0xFFFF_8000_0000_0000 <= v) by (nonlinear_arith)
                    requires
                        0xF_FFFF_8000_0000 <= st,
                        v as int >= st * 4096,
                ;
                assert(v / 0x8000_0000_0000 == 0x1FFFF) by (nonlinear_arith)
                    requires
                        0xFFFF_8000_0000_0000 <= v,
                ;
            }
            crate::addr::lemma_sign_extend_47(v);
        }
        Ok(base.add_offset(offset as u64))
    }
}

/// Exposes the teardown of a `MappedPages` object: removes every leaf
/// entry of its range from the given mapper and empties the handle, as the
/// destructor of a mapping would. A mapper whose page table is not the one
/// this mapping was created in is refused with `WrongPageTable`, and
/// nothing is touched.
pub fn mapped_pages_unmap(mapped_pages: &mut MappedPages, mapper: &mut Mapper) -> (r: Result<
    (),
    MemError,
>)
    requires
        old(mapped_pages).wf(),
        old(mapper).wf(),
    ensures
        final(mapped_pages).wf(),
        final(mapper).wf(),
        final(mapper).spec_target_p4() == old(mapper).spec_target_p4(),
        match r {
            Ok(_) => {
                let s = old(mapped_pages).spec_pages().spec_start().spec_number();
                let cnt = old(mapped_pages).spec_pages().spec_size_in_pages();
                &&& forall|k: u64|
                    k < cnt ==> (#[trigger] final(mapper).spec_translate_page((s + k) as u64))
                        is None
                &&& forall|n: u64|
                    !(s <= n < s + cnt) ==> (#[trigger] final(mapper).spec_translate_page(n))
                        == old(mapper).spec_translate_page(n)
                &&& forall|n: u64|
                    !(s <= n < s + cnt) ==> (#[trigger] final(mapper).spec_leaf_flags(n)) == old(mapper).spec_leaf_flags(n)
                &&& final(mapped_pages).spec_pages().spec_size_in_pages() == 0
                &&& final(mapped_pages).spec_bytes().len() == 0
            },
            Err(e) => {
                let s = old(mapped_pages).spec_pages().spec_start().spec_number();
                let cnt = old(mapped_pages).spec_pages().spec_size_in_pages();
                &&& *final(mapped_pages) == *old(mapped_pages)
                &&& *final(mapper) == *old(mapper)
                &&& cnt > 0
                &&& (e == MemError::WrongPageTable || e == MemError::NotMapped)
                &&& (e == MemError::WrongPageTable <==> old(mapped_pages).spec_p4() != old(
                    mapper,
                ).spec_target_p4())
                &&& e == MemError::NotMapped ==> exists|k: u64|
                    k < cnt && !old(mapper).spec_leaves_4k().contains_key(
                        #[trigger] ((s + k) as u64),
                    )
            },
        },
{
    mapped_pages.unmap(mapper)
}

/// The values of the four page-table entries on the path of one virtual
/// address, for inspection: the raw entry value at each level, `None`
/// where the table of that level does not exist, and 0 for an unused
/// entry.
#[derive(Clone, Copy, Debug, PartialEq, Eq, Structural)]
pub struct PteDump {
    /// The P4 entry: the pointer to the P3 table, or 0.
    pub p4_entry: u64,
    /// The P3 entry: a 1 GiB leaf, a pointer to the P2 table, or 0.
    pub p3_entry: Option<u64>,
    /// The P2 entry: a 2 MiB leaf, a pointer to the P1 table, or 0.
    pub p2_entry: Option<u64>,
    /// The P1 entry: a 4 KiB leaf, or 0.
    pub p1_entry: Option<u64>,
}

impl Mapper {
    /// Reports the page-table entries at all four levels for the given
    /// `VirtualAddress`, with their raw values. Useful for inspecting how
    /// an address is mapped and at which level its leaf sits.
    pub fn dump_pte(&self, virtual_address: VirtualAddress) -> (r: PteDump)
        requires
            self.wf(),
        ensures
            ({
                let n = virtual_address.value() / 4096;
                let p4k = n / 134217728;
                let k3 = n / 262144;
                let k2 = n / 512;
                &&& r.p4_entry == if self.spec_p3_tables().contains_key(p4k) {
                    spec_entry_value(
                        self.spec_p3_tables()[p4k].frame,
                        self.spec_p3_tables()[p4k].flags,
                    )
                } else {
                    0u64
                }
                &&& r.p3_entry == if !self.spec_p3_tables().contains_key(p4k) {
                    None::<u64>
                } else if self.spec_leaves_1g().contains_key(k3) {
                    Some(
                        spec_entry_value(
                            self.spec_leaves_1g()[k3].frame,
                            self.spec_leaves_1g()[k3].flags,
                        ),
                    )
                } else if self.spec_p2_tables().contains_key(k3) {
                    Some(
                        spec_entry_value(
                            self.spec_p2_tables()[k3].frame,
                            self.spec_p2_tables()[k3].flags,
                        ),
                    )
                } else {
                    Some(0u64)
                }
                &&& r.p2_entry == if !self.spec_p2_tables().contains_key(k3) {
                    None::<u64>
                } else if self.spec_leaves_2m().contains_key(k2) {
                    Some(
                        spec_entry_value(
                            self.spec_leaves_2m()[k2].frame,
                            self.spec_leaves_2m()[k2].flags,
                        ),
                    )
                } else if self.spec_p1_tables().contains_key(k2) {
                    Some(
                        spec_entry_value(
                            self.spec_p1_tables()[k2].frame,
                            self.spec_p1_tables()[k2].flags,
                        ),
                    )
                } else {
                    Some(0u64)
                }
                &&& r.p1_entry == if !self.spec_p1_tables().contains_key(k2) {
                    None::<u64>
                } else if self.spec_leaves_4k().contains_key(n) {
                    Some(
                        spec_entry_value(
                            self.spec_leaves_4k()[n].frame,
                            self.spec_leaves_4k()[n].flags,
                        ),
                    )
                } else {
                    Some(0u64)
                }
            }),
    {
        let page = Page::containing_address(virtual_address);
        let n = page.number;
        let p4k = n / 134217728;
        let k3 = n / 262144;
        let k2 = n / 512;
        let p4_entry = match self.p3_tables.get(&p4k) {
            Some(node) => {
                proof {
                    assert(self.spec_p3_tables().contains_key(p4k));
                }
                entry_value(node.frame, node.flags)
            },
            None => 0,
        };
        let p3_entry = if !self.p3_tables.contains_key(&p4k) {
            None
        } else if let Some(leaf) = self.leaves_1g.get(&k3) {
            proof {
                assert(self.spec_leaves_1g().contains_key(k3));
            }
            Some(entry_value(leaf.frame, leaf.flags))
        } else if let Some(node) = self.p2_tables.get(&k3) {
            proof {
                assert(self.spec_p2_tables().contains_key(k3));
            }
            Some(entry_value(node.frame, node.flags))
        } else {
            Some(0)
        };
        let p2_entry = if !self.p2_tables.contains_key(&k3) {
            None
        } else if let Some(leaf) = self.leaves_2m.get(&k2) {
            proof {
                assert(self.spec_leaves_2m().contains_key(k2));
            }
            Some(entry_value(leaf.frame, leaf.flags))
        } else if let Some(node) = self.p1_tables.get(&k2) {
            proof {
                assert(self.spec_p1_tables().contains_key(k2));
            }
            Some(entry_value(node.frame, node.flags))
        } else {
            Some(0)
        };
        let p1_entry = if !self.p1_tables.contains_key(&k2) {
            None
        } else if let Some(leaf) = self.leaves_4k.get(&n) {
            proof {
                assert(self.spec_leaves_4k().contains_key(n));
            }
            Some(entry_value(leaf.frame, leaf.flags))
        } else {
            Some(0)
        };
        PteDump { p4_entry, p3_entry, p2_entry, p1_entry }
    }
}

/// The raw value of a page-table entry pointing at `frame` with `flags`.
fn entry_value(frame: Frame, flags: EntryFlags) -> (r: u64)
    requires
        frame.number < 0x100_0000_0000,
    ensures
        r == spec_entry_value(frame, flags),
{
    frame.number * 4096 + flags.with_present().bits()
}

impl MappedPages {
    /// Creates a deep copy of this mapped region: allocates a fresh
    /// virtual range of equal size, maps it (forcing it writable so the
    /// bytes can be copied), copies the region's bytes into it, and, when
    /// the requested flags are not writable, remaps the copy to exactly
    /// those flags. The caller may pass new flags for the copy; otherwise
    /// the copy carries this mapping's flags.
    pub fn deep_copy<A: FrameAllocator, P: PageAllocator>(
        &self,
        new_flags: Option<EntryFlags>,
        active_table_mapper: &mut Mapper,
        allocator: &mut A,
        page_allocator: &mut P,
    ) -> (r: Result<MappedPages, MemError>)
        requires
            self.wf(),
            old(active_table_mapper).wf(),
            self.spec_pages().spec_size_in_pages() > 0,
        ensures
            final(active_table_mapper).wf(),
            final(active_table_mapper).spec_target_p4() == old(active_table_mapper).spec_target_p4(),
            match r {
                Ok(mp2) => {
                    let fl = if new_flags is Some {
                        new_flags->0
                    } else {
                        self.spec_flags()
                    };
                    let s2 = mp2.spec_pages().spec_start().spec_number();
                    let cnt = self.spec_pages().spec_size_in_pages();
                    &&& mp2.spec_bytes() == self.spec_bytes()
                    &&& mp2.spec_pages().spec_size_in_pages() == cnt
                    &&& mp2.spec_flags() == fl
                    &&& mp2.spec_p4() == old(active_table_mapper).spec_target_p4()
                    &&& mp2.wf()
                    &&& forall|k: u64|
                        k < cnt ==> ((#[trigger] final(active_table_mapper).spec_translate_page(
                            (s2 + k) as u64,
                        )) is Some)
                    &&& forall|k: u64|
                        k < cnt ==> final(active_table_mapper).spec_leaf_flags(
                            #[trigger] ((s2 + k) as u64),
                        ) == Some(fl.spec_with_present())
                    &&& forall|n: u64|
                        !(s2 <= n < s2 + cnt) ==> (#[trigger] final(active_table_mapper).spec_translate_page(n)) == old(active_table_mapper).spec_translate_page(
                            n,
                        )
                },
                Err(e) => {
                    &&& final(active_table_mapper).same_translation(*old(active_table_mapper))
                    &&& (e == MemError::OutOfMemory || e == MemError::AlreadyMapped)
                },
            },
    {
        let size_in_pages = self.pages.size_in_pages();
        let new_pages = match page_allocator.allocate_pages(size_in_pages) {
            Some(p) => p,
            None => {
                proof {
                    lemma_same_leaves_same_translation(
                        *active_table_mapper,
                        *old(active_table_mapper),
                    );
                }
                return Err(MemError::OutOfMemory);
            },
        };
        let final_flags = match new_flags {
            Some(f) => f,
            None => self.flags,
        };
        let content_len = self.content.len();
        proof {
            assert(self.spec_pages().spec_size_in_pages() * 4096 == content_len);
        }
        let map_flags = final_flags.or(EntryFlags::writable());
        let mut new_mapped_pages = match active_table_mapper.map_allocated_pages(
            new_pages,
            map_flags,
            allocator,
        ) {
            Ok(mp) => mp,
            Err(e) => {
                return Err(e);
            },
        };
        new_mapped_pages.content = copy_bytes(&self.content);
        if !final_flags.is_writable() {
            match new_mapped_pages.remap(active_table_mapper, final_flags) {
                Ok(()) => {},
                Err(_) => {
                    proof {
                        assert(false);
                    }
                },
            }
        }
        Ok(new_mapped_pages)
    }
}

impl Mapper {
    /// Whether every slot of `[hs, hs+cnt)` holds a 2 MiB leaf.
    fn all_leaves_2m(&self, hs: u64, cnt: u64) -> (r: bool)
        requires
            self.wf(),
            hs + cnt <= u64::MAX,
        ensures
            r == forall|k: u64|
                k < cnt ==> self.spec_leaves_2m().contains_key(#[trigger] ((hs + k) as u64)),
    {
        let mut i: u64 = 0;
        while i < cnt
            invariant
                self.wf(),
                hs + cnt <= u64::MAX,
                i <= cnt,
                forall|j: u64|
                    j < i ==> self.spec_leaves_2m().contains_key(#[trigger] ((hs + j) as u64)),
            decreases cnt - i,
        {
            if !self.leaves_2m.contains_key(&(hs + i)) {
                return false;
            }
            i = i + 1;
        }
        true
    }

    /// Rewrites the flags of the 2 MiB leaf in every slot of
    /// `[hs, hs+cnt)`, keeping each mapped frame block. No translation
    /// changes.
    fn rewrite_leaves_2m(&mut self, hs: u64, cnt: u64, leaf_flags: EntryFlags)
        requires
            old(self).wf(),
            leaf_flags.present,
            hs + cnt <= u64::MAX,
            forall|k: u64|
                k < cnt ==> old(self).spec_leaves_2m().contains_key(#[trigger] ((hs + k) as u64)),
        ensures
            final(self).wf(),
            final(self).spec_target_p4() == old(self).spec_target_p4(),
            final(self).spec_p3_tables() == old(self).spec_p3_tables(),
            final(self).spec_p2_tables() == old(self).spec_p2_tables(),
            final(self).spec_p1_tables() == old(self).spec_p1_tables(),
            final(self).spec_leaves_1g() == old(self).spec_leaves_1g(),
            final(self).spec_leaves_4k() == old(self).spec_leaves_4k(),
            forall|k: u64|
                k < cnt ==> final(self).spec_leaves_2m().contains_key(#[trigger] ((hs + k) as u64))
                    && final(self).spec_leaves_2m()[(hs + k) as u64] == (LeafMapping {
                    frame: old(self).spec_leaves_2m()[(hs + k) as u64].frame,
                    flags: leaf_flags,
                }),
            forall|n: u64|
                #![trigger final(self).spec_leaves_2m().contains_key(n)]
                #![trigger old(self).spec_leaves_2m().contains_key(n)]
                !(hs <= n < hs + cnt) ==> final(self).spec_leaves_2m().contains_key(n) == old(self).spec_leaves_2m().contains_key(n) && (old(self).spec_leaves_2m().contains_key(n) ==> final(self).spec_leaves_2m()[n] == old(self).spec_leaves_2m()[n]),
            forall|n: u64|
                #[trigger] final(self).spec_translate_page(n) == old(self).spec_translate_page(n),
    {
        let mut i: u64 = 0;
        while i < cnt
            invariant
                self.wf(),
                leaf_flags.present,
                hs + cnt <= u64::MAX,
                i <= cnt,
                self.spec_target_p4() == old(self).spec_target_p4(),
                self.spec_p3_tables() == old(self).spec_p3_tables(),
                self.spec_p2_tables() == old(self).spec_p2_tables(),
                self.spec_p1_tables() == old(self).spec_p1_tables(),
                self.spec_leaves_1g() == old(self).spec_leaves_1g(),
                self.spec_leaves_4k() == old(self).spec_leaves_4k(),
                forall|k: u64|
                    k < cnt ==> old(self).spec_leaves_2m().contains_key(#[trigger] ((hs + k) as u64)),
                forall|j: u64|
                    j < i ==> self.spec_leaves_2m().contains_key(#[trigger] ((hs + j) as u64))
                        && self.spec_leaves_2m()[(hs + j) as u64] == (LeafMapping {
                        frame: old(self).spec_leaves_2m()[(hs + j) as u64].frame,
                        flags: leaf_flags,
                    }),
                forall|n: u64|
                    #![trigger self.spec_leaves_2m().contains_key(n)]
                    #![trigger old(self).spec_leaves_2m().contains_key(n)]
                    !(hs <= n < hs + i) ==> self.spec_leaves_2m().contains_key(n) == old(self).spec_leaves_2m().contains_key(n) && (old(self).spec_leaves_2m().contains_key(n)
                        ==> self.spec_leaves_2m()[n] == old(self).spec_leaves_2m()[n]),
            decreases cnt - i,
        {
            let frame = match self.leaves_2m.get(&(hs + i)) {
                Some(leaf) => leaf.frame,
                None => {
                    proof {
                        assert(self.spec_leaves_2m().contains_key(((hs + i) as u64)));
                        assert(false);
                    }
                    Frame { number: 0 }
                },
            };
            let leaf = LeafMapping { frame, flags: leaf_flags };
            let ghost pre = *self;
            self.leaves_2m.insert(hs + i, leaf);
            proof {
                lemma_wf_insert_leaf_2m(pre, *self, (hs + i) as u64, leaf);
                assert forall|j: u64| j < i + 1 implies {
                    self.spec_leaves_2m().contains_key(#[trigger] ((hs + j) as u64))
                        && self.spec_leaves_2m()[(hs + j) as u64] == (LeafMapping {
                        frame: old(self).spec_leaves_2m()[(hs + j) as u64].frame,
                        flags: leaf_flags,
                    })
                } by {
                    if j < i {
                        assert(pre.spec_leaves_2m().contains_key(((hs + j) as u64)));
                        assert((hs + j) as u64 != (hs + i) as u64);
                    } else {
                        assert(pre.spec_leaves_2m().contains_key(((hs + j) as u64)));
                        assert(pre.spec_leaves_2m()[(hs + j) as u64] == old(self).spec_leaves_2m()[(hs
                            + j) as u64]);
                    }
                }
                assert forall|n: u64| !(hs <= n < hs + i + 1) implies {
                    self.spec_leaves_2m().contains_key(n) == old(self).spec_leaves_2m().contains_key(n) && (old(self).spec_leaves_2m().contains_key(n) ==> self.spec_leaves_2m()[n] == old(self).spec_leaves_2m()[n])
                } by {
                    assert(n != (hs + i) as u64);
                    assert(self.spec_leaves_2m().contains_key(n) == pre.spec_leaves_2m().contains_key(n));
                    if pre.spec_leaves_2m().contains_key(n) {
                        assert(self.spec_leaves_2m()[n] == pre.spec_leaves_2m()[n]);
                    }
                    assert(pre.spec_leaves_2m().contains_key(n) == old(self).spec_leaves_2m().contains_key(n));
                }
            }
            i = i + 1;
        }
        proof {
            assert forall|n: u64|
                #[trigger] final(self).spec_translate_page(n) == old(self).spec_translate_page(
                n,
            ) by {
                let k = n / 512;
                if hs <= k < hs + cnt {
                    let j = (k - hs) as u64;
                    assert(self.spec_leaves_2m().contains_key(((hs + j) as u64)));
                    assert(old(self).spec_leaves_2m().contains_key(((hs + j) as u64)));
                    assert(self.spec_leaves_2m()[k].frame == old(self).spec_leaves_2m()[k].frame);
                }
            }
        }
    }

    /// Removes the 2 MiB leaf from every slot of `[hs, hs+cnt)`.
    fn remove_leaves_2m(&mut self, hs: u64, cnt: u64)
        requires
            old(self).wf(),
            hs + cnt <= u64::MAX,
            forall|k: u64|
                k < cnt ==> old(self).spec_leaves_2m().contains_key(#[trigger] ((hs + k) as u64)),
        ensures
            final(self).wf(),
            final(self).spec_target_p4() == old(self).spec_target_p4(),
            final(self).spec_p3_tables() == old(self).spec_p3_tables(),
            final(self).spec_p2_tables() == old(self).spec_p2_tables(),
            final(self).spec_p1_tables() == old(self).spec_p1_tables(),
            final(self).spec_leaves_1g() == old(self).spec_leaves_1g(),
            final(self).spec_leaves_4k() == old(self).spec_leaves_4k(),
            forall|k: u64|
                k < cnt ==> !final(self).spec_leaves_2m().contains_key(#[trigger] ((hs + k) as u64)),
            forall|n: u64|
                #![trigger final(self).spec_leaves_2m().contains_key(n)]
                #![trigger old(self).spec_leaves_2m().contains_key(n)]
                !(hs <= n < hs + cnt) ==> final(self).spec_leaves_2m().contains_key(n) == old(self).spec_leaves_2m().contains_key(n) && (old(self).spec_leaves_2m().contains_key(n) ==> final(self).spec_leaves_2m()[n] == old(self).spec_leaves_2m()[n]),
    {
        let mut i: u64 = 0;
        while i < cnt
            invariant
                self.wf(),
                hs + cnt <= u64::MAX,
                i <= cnt,
                self.spec_target_p4() == old(self).spec_target_p4(),
                self.spec_p3_tables() == old(self).spec_p3_tables(),
                self.spec_p2_tables() == old(self).spec_p2_tables(),
                self.spec_p1_tables() == old(self).spec_p1_tables(),
                self.spec_leaves_1g() == old(self).spec_leaves_1g(),
                self.spec_leaves_4k() == old(self).spec_leaves_4k(),
                forall|j: u64|
                    j < i ==> !self.spec_leaves_2m().contains_key(#[trigger] ((hs + j) as u64)),
                forall|n: u64|
                    #![trigger self.spec_leaves_2m().contains_key(n)]
                    #![trigger old(self).spec_leaves_2m().contains_key(n)]
                    !(hs <= n < hs + i) ==> self.spec_leaves_2m().contains_key(n) == old(self).spec_leaves_2m().contains_key(n) && (old(self).spec_leaves_2m().contains_key(n)
                        ==> self.spec_leaves_2m()[n] == old(self).spec_leaves_2m()[n]),
            decreases cnt - i,
        {
            let ghost pre = *self;
            self.leaves_2m.remove(&(hs + i));
            proof {
                assert(self.spec_leaves_2m() == pre.spec_leaves_2m().remove((hs + i) as u64));
                assert forall|j: u64|
                    j < i + 1 implies !self.spec_leaves_2m().contains_key(
                    #[trigger] ((hs + j) as u64),
                ) by {
                    if j < i {
                        assert(!pre.spec_leaves_2m().contains_key(((hs + j) as u64)));
                    }
                }
                assert forall|n: u64| !(hs <= n < hs + i + 1) implies {
                    self.spec_leaves_2m().contains_key(n) == old(self).spec_leaves_2m().contains_key(n) && (old(self).spec_leaves_2m().contains_key(n) ==> self.spec_leaves_2m()[n] == old(self).spec_leaves_2m()[n])
                } by {
                    assert(n != (hs + i) as u64);
                    assert(self.spec_leaves_2m().contains_key(n) == pre.spec_leaves_2m().contains_key(n));
                    if pre.spec_leaves_2m().contains_key(n) {
                        assert(self.spec_leaves_2m()[n] == pre.spec_leaves_2m()[n]);
                    }
                    assert(pre.spec_leaves_2m().contains_key(n) == old(self).spec_leaves_2m().contains_key(n));
                }
            }
            i = i + 1;
        }
    }
}

impl Mapper {
    /// Whether every slot of `[hs, hs+cnt)` holds a 1 GiB leaf.
    fn all_leaves_1g(&self, hs: u64, cnt: u64) -> (r: bool)
        requires
            self.wf(),
            hs + cnt <= u64::MAX,
        ensures
            r == forall|k: u64|
                k < cnt ==> self.spec_leaves_1g().contains_key(#[trigger] ((hs + k) as u64)),
    {
        let mut i: u64 = 0;
        while i < cnt
            invariant
                self.wf(),
                hs + cnt <= u64::MAX,
                i <= cnt,
                forall|j: u64|
                    j < i ==> self.spec_leaves_1g().contains_key(#[trigger] ((hs + j) as u64)),
            decreases cnt - i,
        {
            if !self.leaves_1g.contains_key(&(hs + i)) {
                return false;
            }
            i = i + 1;
        }
        true
    }

    /// Rewrites the flags of the 1 GiB leaf in every slot of
    /// `[hs, hs+cnt)`, keeping each mapped frame block. No translation
    /// changes.
    fn rewrite_leaves_1g(&mut self, hs: u64, cnt: u64, leaf_flags: EntryFlags)
        requires
            old(self).wf(),
            leaf_flags.present,
            hs + cnt <= u64::MAX,
            forall|k: u64|
                k < cnt ==> old(self).spec_leaves_1g().contains_key(#[trigger] ((hs + k) as u64)),
        ensures
            final(self).wf(),
            final(self).spec_target_p4() == old(self).spec_target_p4(),
            final(self).spec_p3_tables() == old(self).spec_p3_tables(),
            final(self).spec_p2_tables() == old(self).spec_p2_tables(),
            final(self).spec_p1_tables() == old(self).spec_p1_tables(),
            final(self).spec_leaves_2m() == old(self).spec_leaves_2m(),
            final(self).spec_leaves_4k() == old(self).spec_leaves_4k(),
            forall|k: u64|
                k < cnt ==> final(self).spec_leaves_1g().contains_key(#[trigger] ((hs + k) as u64))
                    && final(self).spec_leaves_1g()[(hs + k) as u64] == (LeafMapping {
                    frame: old(self).spec_leaves_1g()[(hs + k) as u64].frame,
                    flags: leaf_flags,
                }),
            forall|n: u64|
                #![trigger final(self).spec_leaves_1g().contains_key(n)]
                #![trigger old(self).spec_leaves_1g().contains_key(n)]
                !(hs <= n < hs + cnt) ==> final(self).spec_leaves_1g().contains_key(n) == old(self).spec_leaves_1g().contains_key(n) && (old(self).spec_leaves_1g().contains_key(n) ==> final(self).spec_leaves_1g()[n] == old(self).spec_leaves_1g()[n]),
            forall|n: u64|
                #[trigger] final(self).spec_translate_page(n) == old(self).spec_translate_page(n),
    {
        let mut i: u64 = 0;
        while i < cnt
            invariant
                self.wf(),
                leaf_flags.present,
                hs + cnt <= u64::MAX,
                i <= cnt,
                self.spec_target_p4() == old(self).spec_target_p4(),
                self.spec_p3_tables() == old(self).spec_p3_tables(),
                self.spec_p2_tables() == old(self).spec_p2_tables(),
                self.spec_p1_tables() == old(self).spec_p1_tables(),
                self.spec_leaves_2m() == old(self).spec_leaves_2m(),
                self.spec_leaves_4k() == old(self).spec_leaves_4k(),
                forall|k: u64|
                    k < cnt ==> old(self).spec_leaves_1g().contains_key(#[trigger] ((hs + k) as u64)),
                forall|j: u64|
                    j < i ==> self.spec_leaves_1g().contains_key(#[trigger] ((hs + j) as u64))
                        && self.spec_leaves_1g()[(hs + j) as u64] == (LeafMapping {
                        frame: old(self).spec_leaves_1g()[(hs + j) as u64].frame,
                        flags: leaf_flags,
                    }),
                forall|n: u64|
                    #![trigger self.spec_leaves_1g().contains_key(n)]
                    #![trigger old(self).spec_leaves_1g().contains_key(n)]
                    !(hs <= n < hs + i) ==> self.spec_leaves_1g().contains_key(n) == old(self).spec_leaves_1g().contains_key(n) && (old(self).spec_leaves_1g().contains_key(n)
                        ==> self.spec_leaves_1g()[n] == old(self).spec_leaves_1g()[n]),
            decreases cnt - i,
        {
            let frame = match self.leaves_1g.get(&(hs + i)) {
                Some(leaf) => leaf.frame,
                None => {
                    proof {
                        assert(self.spec_leaves_1g().contains_key(((hs + i) as u64)));
                        assert(false);
                    }
                    Frame { number: 0 }
                },
            };
            let leaf = LeafMapping { frame, flags: leaf_flags };
            let ghost pre = *self;
            self.leaves_1g.insert(hs + i, leaf);
            proof {
                lemma_wf_insert_leaf_1g(pre, *self, (hs + i) as u64, leaf);
                assert forall|j: u64| j < i + 1 implies {
                    self.spec_leaves_1g().contains_key(#[trigger] ((hs + j) as u64))
                        && self.spec_leaves_1g()[(hs + j) as u64] == (LeafMapping {
                        frame: old(self).spec_leaves_1g()[(hs + j) as u64].frame,
                        flags: leaf_flags,
                    })
                } by {
                    if j < i {
                        assert(pre.spec_leaves_1g().contains_key(((hs + j) as u64)));
                        assert((hs + j) as u64 != (hs + i) as u64);
                    } else {
                        assert(pre.spec_leaves_1g().contains_key(((hs + j) as u64)));
                        assert(pre.spec_leaves_1g()[(hs + j) as u64] == old(self).spec_leaves_1g()[(hs
                            + j) as u64]);
                    }
                }
                assert forall|n: u64| !(hs <= n < hs + i + 1) implies {
                    self.spec_leaves_1g().contains_key(n) == old(self).spec_leaves_1g().contains_key(n) && (old(self).spec_leaves_1g().contains_key(n) ==> self.spec_leaves_1g()[n] == old(self).spec_leaves_1g()[n])
                } by {
                    assert(n != (hs + i) as u64);
                    assert(self.spec_leaves_1g().contains_key(n) == pre.spec_leaves_1g().contains_key(n));
                    if pre.spec_leaves_1g().contains_key(n) {
                        assert(self.spec_leaves_1g()[n] == pre.spec_leaves_1g()[n]);
                    }
                    assert(pre.spec_leaves_1g().contains_key(n) == old(self).spec_leaves_1g().contains_key(n));
                }
            }
            i = i + 1;
        }
        proof {
            assert forall|n: u64|
                #[trigger] final(self).spec_translate_page(n) == old(self).spec_translate_page(
                n,
            ) by {
                let k = n / 262144;
                if hs <= k < hs + cnt {
                    let j = (k - hs) as u64;
                    assert(self.spec_leaves_1g().contains_key(((hs + j) as u64)));
                    assert(old(self).spec_leaves_1g().contains_key(((hs + j) as u64)));
                    assert(self.spec_leaves_1g()[k].frame == old(self).spec_leaves_1g()[k].frame);
                }
            }
        }
    }

    /// Removes the 1 GiB leaf from every slot of `[hs, hs+cnt)`.
    fn remove_leaves_1g(&mut self, hs: u64, cnt: u64)
        requires
            old(self).wf(),
            hs + cnt <= u64::MAX,
            forall|k: u64|
                k < cnt ==> old(self).spec_leaves_1g().contains_key(#[trigger] ((hs + k) as u64)),
        ensures
            final(self).wf(),
            final(self).spec_target_p4() == old(self).spec_target_p4(),
            final(self).spec_p3_tables() == old(self).spec_p3_tables(),
            final(self).spec_p2_tables() == old(self).spec_p2_tables(),
            final(self).spec_p1_tables() == old(self).spec_p1_tables(),
            final(self).spec_leaves_2m() == old(self).spec_leaves_2m(),
            final(self).spec_leaves_4k() == old(self).spec_leaves_4k(),
            forall|k: u64|
                k < cnt ==> !final(self).spec_leaves_1g().contains_key(#[trigger] ((hs + k) as u64)),
            forall|n: u64|
                #![trigger final(self).spec_leaves_1g().contains_key(n)]
                #![trigger old(self).spec_leaves_1g().contains_key(n)]
                !(hs <= n < hs + cnt) ==> final(self).spec_leaves_1g().contains_key(n) == old(self).spec_leaves_1g().contains_key(n) && (old(self).spec_leaves_1g().contains_key(n) ==> final(self).spec_leaves_1g()[n] == old(self).spec_leaves_1g()[n]),
    {
        let mut i: u64 = 0;
        while i < cnt
            invariant
                self.wf(),
                hs + cnt <= u64::MAX,
                i <= cnt,
                self.spec_target_p4() == old(self).spec_target_p4(),
                self.spec_p3_tables() == old(self).spec_p3_tables(),
                self.spec_p2_tables() == old(self).spec_p2_tables(),
                self.spec_p1_tables() == old(self).spec_p1_tables(),
                self.spec_leaves_2m() == old(self).spec_leaves_2m(),
                self.spec_leaves_4k() == old(self).spec_leaves_4k(),
                forall|j: u64|
                    j < i ==> !self.spec_leaves_1g().contains_key(#[trigger] ((hs + j) as u64)),
                forall|n: u64|
                    #![trigger self.spec_leaves_1g().contains_key(n)]
                    #![trigger old(self).spec_leaves_1g().contains_key(n)]
                    !(hs <= n < hs + i) ==> self.spec_leaves_1g().contains_key(n) == old(self).spec_leaves_1g().contains_key(n) && (old(self).spec_leaves_1g().contains_key(n)
                        ==> self.spec_leaves_1g()[n] == old(self).spec_leaves_1g()[n]),
            decreases cnt - i,
        {
            let ghost pre = *self;
            self.leaves_1g.remove(&(hs + i));
            proof {
                assert(self.spec_leaves_1g() == pre.spec_leaves_1g().remove((hs + i) as u64));
                assert forall|j: u64|
                    j < i + 1 implies !self.spec_leaves_1g().contains_key(
                    #[trigger] ((hs + j) as u64),
                ) by {
                    if j < i {
                        assert(!pre.spec_leaves_1g().contains_key(((hs + j) as u64)));
                    }
                }
                assert forall|n: u64| !(hs <= n < hs + i + 1) implies {
                    self.spec_leaves_1g().contains_key(n) == old(self).spec_leaves_1g().contains_key(n) && (old(self).spec_leaves_1g().contains_key(n) ==> self.spec_leaves_1g()[n] == old(self).spec_leaves_1g()[n])
                } by {
                    assert(n != (hs + i) as u64);
                    assert(self.spec_leaves_1g().contains_key(n) == pre.spec_leaves_1g().contains_key(n));
                    if pre.spec_leaves_1g().contains_key(n) {
                        assert(self.spec_leaves_1g()[n] == pre.spec_leaves_1g()[n]);
                    }
                    assert(pre.spec_leaves_1g().contains_key(n) == old(self).spec_leaves_1g().contains_key(n));
                }
            }
            i = i + 1;
        }
    }
}

impl MappedHugePages {
    /// Returns an empty `MappedHugePages` object of the given page size
    /// that performs no allocation or mapping actions.
    pub fn empty(page_size: HugePageSize) -> (r: MappedHugePages)
        requires
            page_size.wf(),
        ensures
            r.spec_pages().spec_size_in_pages() == 0,
            r.spec_pages().spec_page_size() == page_size,
            r.spec_bytes().len() == 0,
            r.wf(),
    {
        MappedHugePages {
            page_table_p4: Frame { number: 0 },
            pages: AllocatedHugePages::empty(page_size),
            flags: EntryFlags::empty(),
            content: Vec::new(),
        }
    }

    /// Returns the flags that describe the permissions of this mapping.
    pub fn flags(&self) -> (r: EntryFlags)
        ensures
            r == self.spec_flags(),
    {
        self.flags
    }

    /// The number of huge pages of the mapping.
    pub fn size_in_pages(&self) -> (r: u64)
        requires
            self.wf(),
        ensures
            r == self.spec_pages().spec_size_in_pages(),
    {
        self.pages.size_in_pages()
    }

    /// The number of bytes of the mapping.
    pub fn size_in_bytes(&self) -> (r: usize)
        ensures
            r == self.spec_bytes().len(),
    {
        self.content.len()
    }

    /// Merging mapped huge pages is not supported: the given mapping is
    /// always handed back with `MergeUnsupported`.
    pub fn merge(&mut self, mp: MappedHugePages) -> (r: Result<(), (MemError, MappedHugePages)>)
        ensures
            *final(self) == *old(self),
            r matches Err((e, returned)) && e == MemError::MergeUnsupported && returned == mp,
    {
        Err((MemError::MergeUnsupported, mp))
    }

    /// Changes the permissions of this mapping's leaf entries to
    /// `new_flags` at the level matching the page size, keeping every
    /// mapped frame block; the leaf keeps HUGE_PAGE above P1. A request
    /// that changes nothing succeeds without touching the tables. Fails
    /// with `NotMapped`, changing nothing, when some slot of the range has
    /// no leaf.
    pub fn remap(&mut self, active_table_mapper: &mut Mapper, new_flags: EntryFlags) -> (r: Result<
        (),
        MemError,
    >)
        requires
            old(self).wf(),
            old(active_table_mapper).wf(),
        ensures
            final(self).wf(),
            final(active_table_mapper).wf(),
            final(active_table_mapper).spec_target_p4() == old(active_table_mapper).spec_target_p4(),
            final(self).spec_pages() == old(self).spec_pages(),
            final(self).spec_bytes() == old(self).spec_bytes(),
            final(self).spec_p4() == old(self).spec_p4(),
            match r {
                Ok(_) => {
                    let cnt = old(self).spec_pages().spec_size_in_pages();
                    let ratio = spec_ratio_of(old(self).spec_pages().spec_page_size().spec_value());
                    let hs = old(self).spec_pages().spec_start().spec_number();
                    let hl = spec_huge_leaf_flags(new_flags, ratio);
                    if cnt == 0 || new_flags == old(self).spec_flags() {
                        *final(self) == *old(self) && *final(active_table_mapper) == *old(active_table_mapper)
                    } else {
                        &&& final(self).spec_flags() == new_flags
                        &&& ratio == 1 ==> forall|n: u64|
                            hs <= n < hs + cnt ==> (#[trigger] final(active_table_mapper).spec_leaf_flags(n)) == Some(new_flags.spec_with_present())
                        &&& ratio == 512 ==> forall|n: u64|
                            hs * 512 <= n < (hs + cnt) * 512 ==> (#[trigger] final(active_table_mapper).spec_leaf_flags(n)) == Some(hl)
                        &&& ratio == 262144 ==> forall|n: u64|
                            hs * 262144 <= n < (hs + cnt) * 262144 ==> (#[trigger] final(active_table_mapper).spec_leaf_flags(n)) == Some(hl)
                        &&& forall|n: u64|
                            #[trigger] final(active_table_mapper).spec_translate_page(n) == old(active_table_mapper).spec_translate_page(n)
                    }
                },
                Err(e) => {
                    let cnt = old(self).spec_pages().spec_size_in_pages();
                    let ratio = spec_ratio_of(old(self).spec_pages().spec_page_size().spec_value());
                    let hs = old(self).spec_pages().spec_start().spec_number();
                    &&& e == MemError::NotMapped
                    &&& *final(self) == *old(self)
                    &&& *final(active_table_mapper) == *old(active_table_mapper)
                    &&& cnt > 0
                    &&& new_flags != old(self).spec_flags()
                    &&& ratio == 1 ==> exists|k: u64|
                        k < cnt && !old(active_table_mapper).spec_leaves_4k().contains_key(
                            #[trigger] ((hs + k) as u64),
                        )
                    &&& ratio == 512 ==> exists|k: u64|
                        k < cnt && !old(active_table_mapper).spec_leaves_2m().contains_key(
                            #[trigger] ((hs + k) as u64),
                        )
                    &&& ratio == 262144 ==> exists|k: u64|
                        k < cnt && !old(active_table_mapper).spec_leaves_1g().contains_key(
                            #[trigger] ((hs + k) as u64),
                        )
                },
            },
    {
        let cnt = self.pages.size_in_pages();
        if cnt == 0 {
            return Ok(());
        }
        if new_flags == self.flags {
            return Ok(());
        }
        let ratio = self.pages.page_size().huge_page_ratio();
        let hs = self.pages.start().number;
        proof {
            self.spec_pages().spec_start().lemma_scaled_number();
            self.spec_pages().spec_end().lemma_scaled_number();
            let r = ratio as int;
            let h = hs as int;
            let c = cnt as int;
            let e = self.spec_pages().spec_end().spec_number() as int;
            assert(e == h + c - 1);
            assert((h + c) * r == e * r + r) by (nonlinear_arith)
                requires
                    e == h + c - 1,
            ;
        }
        if ratio == 1 {
            if !active_table_mapper.all_leaves_4k(hs, cnt) {
                return Err(MemError::NotMapped);
            }
            active_table_mapper.rewrite_leaves_4k(hs, cnt, new_flags.with_present());
            proof {
                lemma_huge_leaf_flags_4k(*old(active_table_mapper), *active_table_mapper, hs, cnt, new_flags.spec_with_present());
            }
        } else if ratio == 512 {
            if !active_table_mapper.all_leaves_2m(hs, cnt) {
                return Err(MemError::NotMapped);
            }
            active_table_mapper.rewrite_leaves_2m(
                hs,
                cnt,
                EntryFlags { present: true, huge: true, ..new_flags },
            );
            proof {
                lemma_huge_leaf_flags_2m(*old(active_table_mapper), *active_table_mapper, hs, cnt, EntryFlags { present: true, huge: true, ..new_flags });
            }
        } else {
            if !active_table_mapper.all_leaves_1g(hs, cnt) {
                return Err(MemError::NotMapped);
            }
            active_table_mapper.rewrite_leaves_1g(
                hs,
                cnt,
                EntryFlags { present: true, huge: true, ..new_flags },
            );
            proof {
                lemma_huge_leaf_flags_1g(*old(active_table_mapper), *active_table_mapper, hs, cnt, EntryFlags { present: true, huge: true, ..new_flags });
            }
        }
        self.flags = new_flags;
        Ok(())
    }

    /// Tears down the mapping: removes the leaf entry of every slot of the
    /// range at the level matching the page size and empties the handle.
    /// Refuses with `WrongPageTable`, touching nothing, when the given
    /// mapper governs a page table other than the one this mapping was
    /// created in; fails with `NotMapped`, changing nothing, when some
    /// slot of a non-empty range has no leaf.
    fn unmap(&mut self, active_table_mapper: &mut Mapper) -> (r: Result<(), MemError>)
        requires
            old(self).wf(),
            old(active_table_mapper).wf(),
        ensures
            final(self).wf(),
            final(active_table_mapper).wf(),
            final(active_table_mapper).spec_target_p4() == old(active_table_mapper).spec_target_p4(),
            match r {
                Ok(_) => {
                    let cnt = old(self).spec_pages().spec_size_in_pages();
                    let ratio = spec_ratio_of(old(self).spec_pages().spec_page_size().spec_value());
                    let hs = old(self).spec_pages().spec_start().spec_number();
                    &&& ratio == 1 ==> forall|n: u64|
                        hs <= n < hs + cnt ==> (#[trigger] final(active_table_mapper).spec_translate_page(n)) is None
                    &&& ratio == 512 ==> forall|n: u64|
                        hs * 512 <= n < (hs + cnt) * 512 ==> (#[trigger] final(active_table_mapper).spec_translate_page(n)) is None
                    &&& ratio == 262144 ==> forall|n: u64|
                        hs * 262144 <= n < (hs + cnt) * 262144 ==> (#[trigger] final(active_table_mapper).spec_translate_page(n)) is None
                    &&& final(self).spec_pages().spec_size_in_pages() == 0
                    &&& final(self).spec_bytes().len() == 0
                },
                Err(e) => {
                    let cnt = old(self).spec_pages().spec_size_in_pages();
                    let ratio = spec_ratio_of(old(self).spec_pages().spec_page_size().spec_value());
                    let hs = old(self).spec_pages().spec_start().spec_number();
                    &&& *final(self) == *old(self)
                    &&& *final(active_table_mapper) == *old(active_table_mapper)
                    &&& cnt > 0
                    &&& (e == MemError::WrongPageTable || e == MemError::NotMapped)
                    &&& (e == MemError::WrongPageTable <==> old(self).spec_p4() != old(
                        active_table_mapper,
                    ).spec_target_p4())
                    &&& e == MemError::NotMapped ==> {
                        &&& ratio == 1 ==> exists|k: u64|
                            k < cnt && !old(active_table_mapper).spec_leaves_4k().contains_key(
                                #[trigger] ((hs + k) as u64),
                            )
                        &&& ratio == 512 ==> exists|k: u64|
                            k < cnt && !old(active_table_mapper).spec_leaves_2m().contains_key(
                                #[trigger] ((hs + k) as u64),
                            )
                        &&& ratio == 262144 ==> exists|k: u64|
                            k < cnt && !old(active_table_mapper).spec_leaves_1g().contains_key(
                                #[trigger] ((hs + k) as u64),
                            )
                    }
                },
            },
    {
        let page_size = self.pages.page_size();
        let cnt = self.pages.size_in_pages();
        if cnt == 0 {
            self.pages = AllocatedHugePages::empty(page_size);
            self.content = Vec::new();
            proof {
                assert(self.spec_pages().wf());
                assert(self.spec_pages().spec_end().spec_number() * spec_ratio_of(
                    self.spec_pages().spec_page_size().spec_value(),
                ) == 0) by (nonlinear_arith)
                    requires
                        self.spec_pages().spec_end().spec_number() == 0,
                ;
                assert(self.spec_bytes().len() == self.spec_pages().spec_size_in_pages()
                    * self.spec_pages().spec_page_size().spec_value()) by (nonlinear_arith)
                    requires
                        self.spec_bytes().len() == 0,
                        self.spec_pages().spec_size_in_pages() == 0,
                ;
                assert(self.wf());
            }
            return Ok(());
        }
        if !(active_table_mapper.target_p4 == self.page_table_p4) {
            return Err(MemError::WrongPageTable);
        }
        let ratio = page_size.huge_page_ratio();
        let hs = self.pages.start().number;
        proof {
            self.spec_pages().spec_start().lemma_scaled_number();
            self.spec_pages().spec_end().lemma_scaled_number();
            let r = ratio as int;
            let h = hs as int;
            let c = cnt as int;
            let e = self.spec_pages().spec_end().spec_number() as int;
            assert(e == h + c - 1);
            assert((h + c) * r == e * r + r) by (nonlinear_arith)
                requires
                    e == h + c - 1,
            ;
        }
        if ratio == 1 {
            if !active_table_mapper.all_leaves_4k(hs, cnt) {
                return Err(MemError::NotMapped);
            }
            active_table_mapper.remove_leaves_4k(hs, cnt);
        } else if ratio == 512 {
            if !active_table_mapper.all_leaves_2m(hs, cnt) {
                return Err(MemError::NotMapped);
            }
            let ghost pre = *active_table_mapper;
            active_table_mapper.remove_leaves_2m(hs, cnt);
            proof {
                lemma_huge_unmap_result_2m(pre, *active_table_mapper, hs, cnt);
            }
        } else {
            if !active_table_mapper.all_leaves_1g(hs, cnt) {
                return Err(MemError::NotMapped);
            }
            let ghost pre = *active_table_mapper;
            active_table_mapper.remove_leaves_1g(hs, cnt);
            proof {
                lemma_huge_unmap_result_1g(pre, *active_table_mapper, hs, cnt);
            }
        }
        self.pages = AllocatedHugePages::empty(page_size);
        self.content = Vec::new();
        proof {
            assert(self.spec_pages().spec_end().spec_number() * spec_ratio_of(
                self.spec_pages().spec_page_size().spec_value(),
            ) == 0) by (nonlinear_arith)
                requires
                    self.spec_pages().spec_end().spec_number() == 0,
            ;
            assert(self.spec_bytes().len() == self.spec_pages().spec_size_in_pages()
                * self.spec_pages().spec_page_size().spec_value()) by (nonlinear_arith)
                requires
                    self.spec_bytes().len() == 0,
                    self.spec_pages().spec_size_in_pages() == 0,
            ;
            assert(self.wf());
            if ratio == 1 {
                assert forall|n: u64|
                    hs <= n < hs + cnt implies (#[trigger] active_table_mapper.spec_translate_page(
                    n,
                )) is None by {
                    let k = (n - hs) as u64;
                    assert(active_table_mapper.spec_translate_page((hs + k) as u64) is None);
                }
            }
        }
        Ok(())
    }

    /// Reinterprets `size` bytes of the mapped region starting at `offset`
    /// as a plain value, handing back their copy. Fails with `OutOfBounds`
    /// when the window would reach past the region.
    pub fn as_type(&self, offset: usize, size: usize) -> (r: Result<Vec<u8>, MemError>)
        ensures
            match r {
                Ok(v) => offset + size <= self.spec_bytes().len() && v@ == self.spec_bytes().subrange(
                    offset as int,
                    offset + size,
                ),
                Err(e) => e == MemError::OutOfBounds && offset + size > self.spec_bytes().len(),
            },
    {
        if size > self.content.len() || offset > self.content.len() - size {
            return Err(MemError::OutOfBounds);
        }
        let mut v: Vec<u8> = Vec::new();
        let mut i: usize = 0;
        while i < size
            invariant
                offset + size <= self.spec_bytes().len(),
                offset + size <= usize::MAX,
                i <= size,
                v@.len() == i,
                forall|j: int| 0 <= j < i ==> v@[j] == self.spec_bytes()[offset + j],
            decreases size - i,
        {
            v.push(self.content[offset + i]);
            i = i + 1;
        }
        proof {
            assert(v@ =~= self.spec_bytes().subrange(offset as int, offset + size));
        }
        Ok(v)
    }

    /// Writes the bytes of a plain value into the mapped region at
    /// `offset`, after checking that the mapping is writable and the
    /// window lies inside the region.
    pub fn as_type_mut(&mut self, offset: usize, value: &[u8]) -> (r: Result<(), MemError>)
        ensures
            final(self).spec_pages() == old(self).spec_pages(),
            final(self).spec_flags() == old(self).spec_flags(),
            final(self).spec_p4() == old(self).spec_p4(),
            match r {
                Ok(_) => {
                    &&& old(self).spec_flags().spec_is_writable()
                    &&& offset + value@.len() <= old(self).spec_bytes().len()
                    &&& final(self).spec_bytes().len() == old(self).spec_bytes().len()
                    &&& forall|j: int|
                        offset <= j < offset + value@.len() ==> final(self).spec_bytes()[j]
                            == value@[j - offset]
                    &&& forall|j: int|
                        0 <= j < old(self).spec_bytes().len() && !(offset <= j < offset
                            + value@.len()) ==> final(self).spec_bytes()[j] == old(self).spec_bytes()[j]
                },
                Err(e) => {
                    &&& *final(self) == *old(self)
                    &&& (e == MemError::NotWritable || e == MemError::OutOfBounds)
                    &&& (e == MemError::NotWritable <==> !old(self).spec_flags().spec_is_writable())
                    &&& (e == MemError::OutOfBounds <==> old(self).spec_flags().spec_is_writable()
                        && offset + value@.len() > old(self).spec_bytes().len())
                },
            },
    {
        if !self.flags.is_writable() {
            return Err(MemError::NotWritable);
        }
        if value.len() > self.content.len() || offset > self.content.len() - value.len() {
            return Err(MemError::OutOfBounds);
        }
        splice_bytes(&mut self.content, offset, value);
        Ok(())
    }

    /// Reinterprets part of the mapped region as a slice of `length` bytes
    /// starting at `byte_offset`, handing back their copy. Fails with
    /// `OutOfBounds` when the slice would reach past the region.
    pub fn as_slice(&self, byte_offset: usize, length: usize) -> (r: Result<Vec<u8>, MemError>)
        ensures
            match r {
                Ok(v) => byte_offset + length <= self.spec_bytes().len() && v@ == self.spec_bytes().subrange(
                    byte_offset as int,
                    byte_offset + length,
                ),
                Err(e) => e == MemError::OutOfBounds && byte_offset + length
                    > self.spec_bytes().len(),
            },
    {
        self.as_type(byte_offset, length)
    }

    /// Writes a slice of bytes into the mapped region at `byte_offset`,
    /// after checking that the mapping is writable and the slice lies
    /// inside the region.
    pub fn as_slice_mut(&mut self, byte_offset: usize, data: &[u8]) -> (r: Result<(), MemError>)
        ensures
            final(self).spec_pages() == old(self).spec_pages(),
            final(self).spec_flags() == old(self).spec_flags(),
            final(self).spec_p4() == old(self).spec_p4(),
            match r {
                Ok(_) => {
                    &&& old(self).spec_flags().spec_is_writable()
                    &&& byte_offset + data@.len() <= old(self).spec_bytes().len()
                    &&& final(self).spec_bytes().len() == old(self).spec_bytes().len()
                    &&& forall|j: int|
                        byte_offset <= j < byte_offset + data@.len() ==> final(self).spec_bytes()[j] == data@[j - byte_offset]
                    &&& forall|j: int|
                        0 <= j < old(self).spec_bytes().len() && !(byte_offset <= j < byte_offset
                            + data@.len()) ==> final(self).spec_bytes()[j] == old(self).spec_bytes()[j]
                },
                Err(e) => {
                    &&& *final(self) == *old(self)
                    &&& (e == MemError::NotWritable || e == MemError::OutOfBounds)
                    &&& (e == MemError::NotWritable <==> !old(self).spec_flags().spec_is_writable())
                    &&& (e == MemError::OutOfBounds <==> old(self).spec_flags().spec_is_writable()
                        && byte_offset + data@.len() > old(self).spec_bytes().len())
                },
            },
    {
        self.as_type_mut(byte_offset, data)
    }

    /// Creates a deep copy of this mapped huge-page region: allocates a
    /// fresh virtual range of equal size, maps it (forcing it writable so
    /// the bytes can be copied), copies the region's bytes into it, and,
    /// when the requested flags are not writable, remaps the copy to
    /// exactly those flags.
    pub fn deep_copy<A: FrameAllocator, P: PageAllocator>(
        &self,
        new_flags: Option<EntryFlags>,
        active_table_mapper: &mut Mapper,
        allocator: &mut A,
        page_allocator: &mut P,
    ) -> (r: Result<MappedHugePages, MemError>)
        requires
            self.wf(),
            old(active_table_mapper).wf(),
            self.spec_pages().spec_size_in_pages() > 0,
        ensures
            final(active_table_mapper).wf(),
            final(active_table_mapper).spec_target_p4() == old(active_table_mapper).spec_target_p4(),
            match r {
                Ok(mp2) => {
                    let fl = if new_flags is Some {
                        new_flags->0
                    } else {
                        self.spec_flags()
                    };
                    &&& mp2.spec_bytes() == self.spec_bytes()
                    &&& mp2.spec_pages().spec_size_in_pages()
                        == self.spec_pages().spec_size_in_pages()
                    &&& mp2.spec_pages().spec_page_size()
                        == self.spec_pages().spec_page_size()
                    &&& mp2.spec_flags() == fl
                    &&& mp2.spec_p4() == old(active_table_mapper).spec_target_p4()
                    &&& mp2.wf()
                },
                Err(e) => e == MemError::OutOfMemory || e == MemError::AlreadyMapped,
            },
    {
        let size_in_pages = self.pages.size_in_pages();
        let page_size = self.pages.page_size();
        let new_pages = match page_allocator.allocate_huge_pages(size_in_pages, page_size) {
            Some(p) => p,
            None => {
                return Err(MemError::OutOfMemory);
            },
        };
        let final_flags = match new_flags {
            Some(f) => f,
            None => self.flags,
        };
        let content_len = self.content.len();
        proof {
            assert(self.spec_pages().spec_size_in_pages()
                * self.spec_pages().spec_page_size().spec_value() == content_len);
        }
        let map_flags = final_flags.or(EntryFlags::writable());
        let mut new_mapped_huge_pages = match active_table_mapper.map_allocated_huge_pages(
            new_pages,
            map_flags,
            allocator,
        ) {
            Ok(mp) => mp,
            Err(e) => {
                return Err(e);
            },
        };
        new_mapped_huge_pages.content = copy_bytes(&self.content);
        if !final_flags.is_writable() {
            let ghost hs2 = new_mapped_huge_pages.spec_pages().spec_start().spec_number();
            let ghost cnt2 = new_mapped_huge_pages.spec_pages().spec_size_in_pages();
            let ghost ratio2 = spec_ratio_of(
                new_mapped_huge_pages.spec_pages().spec_page_size().spec_value(),
            );
            let ghost mapped = *active_table_mapper;
            match new_mapped_huge_pages.remap(active_table_mapper, final_flags) {
                Ok(()) => {},
                Err(_) => {
                    proof {
                        // the range was just mapped, so a leaf exists in
                        // every covered slot and the remap cannot fail
                        if cnt2 > 0 {
                            if ratio2 == 1 {
                                let k = choose|k: u64|
                                    k < cnt2 && !mapped.spec_leaves_4k().contains_key(
                                        #[trigger] ((hs2 + k) as u64),
                                    );
                                assert(mapped.spec_leaves_4k().contains_key((hs2 + k) as u64));
                            } else if ratio2 == 512 {
                                let k = choose|k: u64|
                                    k < cnt2 && !mapped.spec_leaves_2m().contains_key(
                                        #[trigger] ((hs2 + k) as u64),
                                    );
                                assert(mapped.spec_leaves_2m().contains_key((hs2 + k) as u64));
                            } else {
                                let k = choose|k: u64|
                                    k < cnt2 && !mapped.spec_leaves_1g().contains_key(
                                        #[trigger] ((hs2 + k) as u64),
                                    );
                                assert(mapped.spec_leaves_1g().contains_key((hs2 + k) as u64));
                            }
                        }
                        assert(false);
                    }
                },
            }
        }
        Ok(new_mapped_huge_pages)
    }
}

/// After a remap of 4 KiB leaves over `[hs, hs+cnt)`, every covered page
/// reports the new leaf flags.
proof fn lemma_huge_leaf_flags_4k(pre: Mapper, post: Mapper, hs: u64, cnt: u64, hl: EntryFlags)
    requires
        pre.wf(),
        post.wf(),
        hs + cnt <= u64::MAX,
        post.spec_leaves_1g() == pre.spec_leaves_1g(),
        post.spec_leaves_2m() == pre.spec_leaves_2m(),
        post.spec_p1_tables() == pre.spec_p1_tables(),
        post.spec_p2_tables() == pre.spec_p2_tables(),
        forall|k: u64|
            k < cnt ==> post.spec_leaves_4k().contains_key(#[trigger] ((hs + k) as u64))
                && post.spec_leaves_4k()[(hs + k) as u64].flags == hl,
    ensures
        forall|n: u64| hs <= n < hs + cnt ==> (#[trigger] post.spec_leaf_flags(n)) == Some(hl),
{
    assert forall|n: u64| hs <= n < hs + cnt implies (#[trigger] post.spec_leaf_flags(n)) == Some(
        hl,
    ) by {
        let k = (n - hs) as u64;
        assert(post.spec_leaves_4k().contains_key(((hs + k) as u64)));
        assert(post.spec_p1_tables().contains_key(n / 512));
        assert(!post.spec_leaves_2m().contains_key(n / 512));
        assert(post.spec_p2_tables().contains_key((n / 512) / 512));
        vstd::arithmetic::div_mod::lemma_div_denominator(n as int, 512, 512);
        assert(!post.spec_leaves_1g().contains_key(n / 262144));
    }
}

/// After a remap of 2 MiB leaves over slots `[hs, hs+cnt)`, every covered
/// page reports the new leaf flags.
proof fn lemma_huge_leaf_flags_2m(pre: Mapper, post: Mapper, hs: u64, cnt: u64, hl: EntryFlags)
    requires
        pre.wf(),
        post.wf(),
        (hs + cnt) * 512 <= u64::MAX,
        post.spec_leaves_1g() == pre.spec_leaves_1g(),
        post.spec_leaves_4k() == pre.spec_leaves_4k(),
        post.spec_p2_tables() == pre.spec_p2_tables(),
        forall|k: u64|
            k < cnt ==> post.spec_leaves_2m().contains_key(#[trigger] ((hs + k) as u64))
                && post.spec_leaves_2m()[(hs + k) as u64].flags == hl,
    ensures
        forall|n: u64|
            hs * 512 <= n < (hs + cnt) * 512 ==> (#[trigger] post.spec_leaf_flags(n)) == Some(hl),
{
    assert forall|n: u64|
        hs * 512 <= n < (hs + cnt) * 512 implies (#[trigger] post.spec_leaf_flags(n)) == Some(
        hl,
    ) by {
        let k = n / 512;
        vstd::arithmetic::div_mod::lemma_div_is_ordered((hs * 512) as int, n as int, 512);
        vstd::arithmetic::div_mod::lemma_div_by_multiple(hs as int, 512);
        vstd::arithmetic::div_mod::lemma_div_is_ordered(
            n as int,
            ((hs + cnt) * 512 - 1) as int,
            512,
        );
        vstd::arithmetic::div_mod::lemma_div_by_multiple((hs + cnt) as int, 512);
        assert(((hs + cnt) * 512 - 1) as int / 512 < (hs + cnt) as int) by (nonlinear_arith)
            requires
                (hs + cnt) * 512 <= u64::MAX,
        ;
        assert(hs <= k < hs + cnt);
        let j = (k - hs) as u64;
        assert(post.spec_leaves_2m().contains_key(((hs + j) as u64)));
        assert(post.spec_p2_tables().contains_key(k / 512));
        vstd::arithmetic::div_mod::lemma_div_denominator(n as int, 512, 512);
        assert(!post.spec_leaves_1g().contains_key(n / 262144));
    }
}

/// After a remap of 1 GiB leaves over slots `[hs, hs+cnt)`, every covered
/// page reports the new leaf flags.
proof fn lemma_huge_leaf_flags_1g(pre: Mapper, post: Mapper, hs: u64, cnt: u64, hl: EntryFlags)
    requires
        pre.wf(),
        post.wf(),
        (hs + cnt) * 262144 <= u64::MAX,
        post.spec_leaves_2m() == pre.spec_leaves_2m(),
        post.spec_leaves_4k() == pre.spec_leaves_4k(),
        forall|k: u64|
            k < cnt ==> post.spec_leaves_1g().contains_key(#[trigger] ((hs + k) as u64))
                && post.spec_leaves_1g()[(hs + k) as u64].flags == hl,
    ensures
        forall|n: u64|
            hs * 262144 <= n < (hs + cnt) * 262144 ==> (#[trigger] post.spec_leaf_flags(n))
                == Some(hl),
{
    assert forall|n: u64|
        hs * 262144 <= n < (hs + cnt) * 262144 implies (#[trigger] post.spec_leaf_flags(n))
        == Some(hl) by {
        let k = n / 262144;
        vstd::arithmetic::div_mod::lemma_div_is_ordered((hs * 262144) as int, n as int, 262144);
        vstd::arithmetic::div_mod::lemma_div_by_multiple(hs as int, 262144);
        vstd::arithmetic::div_mod::lemma_div_is_ordered(
            n as int,
            ((hs + cnt) * 262144 - 1) as int,
            262144,
        );
        vstd::arithmetic::div_mod::lemma_div_by_multiple((hs + cnt) as int, 262144);
        assert(((hs + cnt) * 262144 - 1) as int / 262144 < (hs + cnt) as int) by (nonlinear_arith)
            requires
                (hs + cnt) * 262144 <= u64::MAX,
        ;
        assert(hs <= k < hs + cnt);
        let j = (k - hs) as u64;
        assert(post.spec_leaves_1g().contains_key(((hs + j) as u64)));
    }
}

/// After removing the 2 MiB leaves of slots `[hs, hs+cnt)` that were all
/// present, every covered page translates to nothing.
proof fn lemma_huge_unmap_result_2m(pre: Mapper, post: Mapper, hs: u64, cnt: u64)
    requires
        pre.wf(),
        post.wf(),
        (hs + cnt) * 512 <= u64::MAX,
        post.spec_leaves_1g() == pre.spec_leaves_1g(),
        post.spec_leaves_4k() == pre.spec_leaves_4k(),
        post.spec_p1_tables() == pre.spec_p1_tables(),
        post.spec_p2_tables() == pre.spec_p2_tables(),
        forall|k: u64|
            k < cnt ==> pre.spec_leaves_2m().contains_key(#[trigger] ((hs + k) as u64)),
        forall|k: u64|
            k < cnt ==> !post.spec_leaves_2m().contains_key(#[trigger] ((hs + k) as u64)),
    ensures
        forall|n: u64|
            hs * 512 <= n < (hs + cnt) * 512 ==> (#[trigger] post.spec_translate_page(n)) is None,
{
    assert forall|n: u64|
        hs * 512 <= n < (hs + cnt) * 512 implies (#[trigger] post.spec_translate_page(n))
        is None by {
        let k = n / 512;
        vstd::arithmetic::div_mod::lemma_div_is_ordered((hs * 512) as int, n as int, 512);
        vstd::arithmetic::div_mod::lemma_div_by_multiple(hs as int, 512);
        vstd::arithmetic::div_mod::lemma_div_is_ordered(
            n as int,
            ((hs + cnt) * 512 - 1) as int,
            512,
        );
        vstd::arithmetic::div_mod::lemma_div_by_multiple((hs + cnt) as int, 512);
        assert(((hs + cnt) * 512 - 1) as int / 512 < (hs + cnt) as int) by (nonlinear_arith)
            requires
                (hs + cnt) * 512 <= u64::MAX,
        ;
        assert(hs <= k < hs + cnt);
        let j = (k - hs) as u64;
        assert(pre.spec_leaves_2m().contains_key(((hs + j) as u64)));
        assert(pre.spec_p2_tables().contains_key(k / 512));
        vstd::arithmetic::div_mod::lemma_div_denominator(n as int, 512, 512);
        assert(!post.spec_leaves_1g().contains_key(n / 262144));
        assert(!post.spec_leaves_2m().contains_key(((hs + j) as u64)));
        assert(!pre.spec_p1_tables().contains_key(k));
        if post.spec_leaves_4k().contains_key(n) {
            assert(post.spec_p1_tables().contains_key(n / 512));
            assert(false);
        }
    }
}

/// After removing the 1 GiB leaves of slots `[hs, hs+cnt)` that were all
/// present, every covered page translates to nothing.
proof fn lemma_huge_unmap_result_1g(pre: Mapper, post: Mapper, hs: u64, cnt: u64)
    requires
        pre.wf(),
        post.wf(),
        (hs + cnt) * 262144 <= u64::MAX,
        post.spec_leaves_2m() == pre.spec_leaves_2m(),
        post.spec_leaves_4k() == pre.spec_leaves_4k(),
        post.spec_p1_tables() == pre.spec_p1_tables(),
        post.spec_p2_tables() == pre.spec_p2_tables(),
        forall|k: u64|
            k < cnt ==> pre.spec_leaves_1g().contains_key(#[trigger] ((hs + k) as u64)),
        forall|k: u64|
            k < cnt ==> !post.spec_leaves_1g().contains_key(#[trigger] ((hs + k) as u64)),
    ensures
        forall|n: u64|
            hs * 262144 <= n < (hs + cnt) * 262144 ==> (#[trigger] post.spec_translate_page(n))
                is None,
{
    assert forall|n: u64|
        hs * 262144 <= n < (hs + cnt) * 262144 implies (#[trigger] post.spec_translate_page(n))
        is None by {
        let k = n / 262144;
        vstd::arithmetic::div_mod::lemma_div_is_ordered((hs * 262144) as int, n as int, 262144);
        vstd::arithmetic::div_mod::lemma_div_by_multiple(hs as int, 262144);
        vstd::arithmetic::div_mod::lemma_div_is_ordered(
            n as int,
            ((hs + cnt) * 262144 - 1) as int,
            262144,
        );
        vstd::arithmetic::div_mod::lemma_div_by_multiple((hs + cnt) as int, 262144);
        assert(((hs + cnt) * 262144 - 1) as int / 262144 < (hs + cnt) as int) by (nonlinear_arith)
            requires
                (hs + cnt) * 262144 <= u64::MAX,
        ;
        assert(hs <= k < hs + cnt);
        let j = (k - hs) as u64;
        assert(pre.spec_leaves_1g().contains_key(((hs + j) as u64)));
        assert(!post.spec_leaves_1g().contains_key(((hs + j) as u64)));
        assert(!pre.spec_p2_tables().contains_key(k));
        vstd::arithmetic::div_mod::lemma_div_denominator(n as int, 512, 512);
        if post.spec_leaves_2m().contains_key(n / 512) {
            assert(post.spec_p2_tables().contains_key((n / 512) / 512));
            assert(false);
        }
        if post.spec_leaves_4k().contains_key(n) {
            assert(post.spec_p1_tables().contains_key(n / 512));
            assert(post.spec_p2_tables().contains_key((n / 512) / 512));
            assert(false);
        }
    }
}

/// Exposes the teardown of a `MappedHugePages` object: removes every leaf
/// entry of its range from the given mapper and empties the handle, as the
/// destructor of a mapping would. A mapper whose page table is not the one
/// this mapping was created in is refused with `WrongPageTable`, and
/// nothing is touched.
pub fn mapped_huge_pages_unmap(mapped_pages: &mut MappedHugePages, mapper: &mut Mapper) -> (r:
    Result<(), MemError>)
    requires
        old(mapped_pages).wf(),
        old(mapper).wf(),
    ensures
        final(mapped_pages).wf(),
        final(mapper).wf(),
        final(mapper).spec_target_p4() == old(mapper).spec_target_p4(),
        match r {
            Ok(_) => {
                let cnt = old(mapped_pages).spec_pages().spec_size_in_pages();
                let ratio = spec_ratio_of(
                    old(mapped_pages).spec_pages().spec_page_size().spec_value(),
                );
                let hs = old(mapped_pages).spec_pages().spec_start().spec_number();
                &&& ratio == 1 ==> forall|n: u64|
                    hs <= n < hs + cnt ==> (#[trigger] final(mapper).spec_translate_page(n))
                        is None
                &&& ratio == 512 ==> forall|n: u64|
                    hs * 512 <= n < (hs + cnt) * 512 ==> (#[trigger] final(mapper).spec_translate_page(n)) is None
                &&& ratio == 262144 ==> forall|n: u64|
                    hs * 262144 <= n < (hs + cnt) * 262144 ==> (#[trigger] final(mapper).spec_translate_page(n)) is None
                &&& final(mapped_pages).spec_pages().spec_size_in_pages() == 0
                &&& final(mapped_pages).spec_bytes().len() == 0
            },
            Err(e) => {
                let cnt = old(mapped_pages).spec_pages().spec_size_in_pages();
                let ratio = spec_ratio_of(
                    old(mapped_pages).spec_pages().spec_page_size().spec_value(),
                );
                let hs = old(mapped_pages).spec_pages().spec_start().spec_number();
                &&& *final(mapped_pages) == *old(mapped_pages)
                &&& *final(mapper) == *old(mapper)
                &&& cnt > 0
                &&& (e == MemError::WrongPageTable || e == MemError::NotMapped)
                &&& (e == MemError::WrongPageTable <==> old(mapped_pages).spec_p4() != old(
                    mapper,
                ).spec_target_p4())
                &&& e == MemError::NotMapped ==> {
                    &&& ratio == 1 ==> exists|k: u64|
                        k < cnt && !old(mapper).spec_leaves_4k().contains_key(
                            #[trigger] ((hs + k) as u64),
                        )
                    &&& ratio == 512 ==> exists|k: u64|
                        k < cnt && !old(mapper).spec_leaves_2m().contains_key(
                            #[trigger] ((hs + k) as u64),
                        )
                    &&& ratio == 262144 ==> exists|k: u64|
                        k < cnt && !old(mapper).spec_leaves_1g().contains_key(
                            #[trigger] ((hs + k) as u64),
                        )
                }
            },
        },
{
    mapped_pages.unmap(mapper)
}

/// In a well-formed mapper no entry above a leaf carries NO_EXECUTE: the
/// flags recorded on every P3, P2 and P1 table pointer have the bit clear,
/// so a permissive leaf below them stays reachable as executable.
pub proof fn lemma_ancestors_never_no_execute(m: Mapper)
    requires
        m.wf(),
    ensures
        forall|k: u64|
            #[trigger] m.spec_p3_tables().contains_key(k)
                ==> !m.spec_p3_tables()[k].flags.no_execute,
        forall|k: u64|
            #[trigger] m.spec_p2_tables().contains_key(k)
                ==> !m.spec_p2_tables()[k].flags.no_execute,
        forall|k: u64|
            #[trigger] m.spec_p1_tables().contains_key(k)
                ==> !m.spec_p1_tables()[k].flags.no_execute,
{
}

/// In a well-formed mapper every mapped page translates through a PRESENT
/// leaf: a page with a frame always reports leaf flags, and those flags
/// carry PRESENT.
pub proof fn lemma_mapped_pages_present(m: Mapper, n: u64)
    requires
        m.wf(),
    ensures
        m.spec_translate_page(n) is Some <==> m.spec_leaf_flags(n) is Some,
        m.spec_leaf_flags(n) matches Some(f) ==> f.present,
{
}

} // verus!







