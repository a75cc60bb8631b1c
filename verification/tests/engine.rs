//! End-to-end tests of the mapper, the mapped-page handles, the relocation
//! writer, and the crate store.

use vmem::allocation::{AllocatedPages, BumpFrameAllocator, BumpPageAllocator, FrameAllocator, PageAllocator};
use vmem::addr::VirtualAddress;
use vmem::error::MemError;
use vmem::flags::EntryFlags;
use vmem::frame::Frame;
use vmem::mapper::{mapped_huge_pages_unmap, mapped_pages_unmap, MappedPages, Mapper};
use vmem::metadata::{
    data_bss_section_flags, CrateRegion, CrateStore, LoadedCrate, LoadedSection, SectionType,
    StrongDependency, WeakDependent,
};
use vmem::page::{Page, PageRange};
use vmem::reloc::{
    write_relocation, RelocationEntry, R_X86_64_64, R_X86_64_PC32, R_X86_64_PC64,
};
use vmem::sizes::HugePageSize;

fn rig() -> (Mapper, BumpFrameAllocator, BumpPageAllocator) {
    (
        Mapper::with_p4_frame(Frame { number: 42 }),
        BumpFrameAllocator::new(0x1000),
        BumpPageAllocator::new(0x800),
    )
}

fn rw() -> EntryFlags {
    EntryFlags::present().or(EntryFlags::writable())
}

#[test]
fn basic_4k_mapping_and_teardown() {
    let (mut mapper, mut frames, mut pages) = rig();
    let ap = pages.allocate_pages(1).unwrap();
    let v = ap.start_address();
    let mut m = mapper.map_allocated_pages(ap, rw(), &mut frames).unwrap();
    let p = mapper.translate(v).unwrap();
    assert_eq!(p.value() % 4096, 0);
    m.as_slice_mut(0, &[0u8; 4096]).unwrap();
    assert_eq!(m.as_slice(0, 4096).unwrap(), [0u8; 4096]);
    mapped_pages_unmap(&mut m, &mut mapper).unwrap();
    assert!(mapper.translate(v).is_none());
}

#[test]
fn map_to_specific_frames_round_trips() {
    let (mut mapper, mut frames, mut pages) = rig();
    let ap = pages.allocate_pages(2).unwrap();
    let v = ap.start_address();
    let target = vmem::frame::FrameRange::new(Frame { number: 0x900 }, Frame { number: 0x901 });
    let _m = mapper
        .map_allocated_pages_to(ap, target, rw(), &mut frames)
        .unwrap();
    assert_eq!(mapper.translate(v).unwrap().value(), 0x900 * 4096);
    assert_eq!(
        mapper.translate(v.add_offset(0x1123)).unwrap().value(),
        0x901 * 4096 + 0x123
    );
}

#[test]
fn map_to_count_mismatch_is_reported() {
    let (mut mapper, mut frames, mut pages) = rig();
    let ap = pages.allocate_pages(2).unwrap();
    let target = vmem::frame::FrameRange::new(Frame { number: 0x900 }, Frame { number: 0x903 });
    match mapper.map_allocated_pages_to(ap, target, rw(), &mut frames) {
        Err(e) => assert_eq!(e, MemError::PageCountMismatch),
        Ok(_) => panic!("count mismatch must be rejected"),
    }
}

#[test]
fn double_mapping_is_rejected() {
    let (mut mapper, mut frames, mut pages) = rig();
    let ap = pages.allocate_pages(1).unwrap();
    let range = ap.range();
    let _m = mapper.map_allocated_pages(ap, rw(), &mut frames).unwrap();
    let again = AllocatedPages::new(range);
    match mapper.map_allocated_pages(again, rw(), &mut frames) {
        Err(e) => assert_eq!(e, MemError::AlreadyMapped),
        Ok(_) => panic!("double mapping must be rejected"),
    }
}

#[test]
fn two_mib_mapping_has_its_leaf_at_p2() {
    let (mut mapper, mut frames, mut pages) = rig();
    let two_mib = HugePageSize::new(2 * 1024 * 1024).unwrap();
    let hp = pages.allocate_huge_pages(1, two_mib).unwrap();
    let v = hp.range().start_address();
    let mut mh = mapper.map_allocated_huge_pages(hp, rw(), &mut frames).unwrap();
    let dump = mapper.dump_pte(v);
    let p2 = dump.p2_entry.unwrap();
    assert_eq!(p2 & 1, 1, "leaf must be PRESENT");
    assert_eq!(p2 & 2, 2, "leaf must be WRITABLE");
    assert_eq!(p2 & 0x80, 0x80, "leaf must carry HUGE_PAGE");
    assert!(dump.p1_entry.is_none(), "no P1 table under a 2 MiB leaf");
    assert_eq!(dump.p4_entry >> 63, 0, "no NO_EXECUTE above the leaf");
    assert_eq!(dump.p3_entry.unwrap() >> 63, 0, "no NO_EXECUTE above the leaf");
    let frame = mapper.translate(v).unwrap();
    assert_eq!(frame.value() % (2 * 1024 * 1024), 0, "2 MiB leaf frames are 512-aligned");
    mapped_huge_pages_unmap(&mut mh, &mut mapper).unwrap();
    let dump2 = mapper.dump_pte(v);
    assert_eq!(dump2.p2_entry, Some(0), "unmap clears the P2 entry");
    assert!(mapper.translate(v).is_none());
}

#[test]
fn one_gib_mapping_when_the_cpu_allows_it() {
    match HugePageSize::new(1 << 30) {
        Err(e) => assert_eq!(e, MemError::UnsupportedPageSize),
        Ok(one_gib) => {
            let (mut mapper, mut frames, mut pages) = rig();
            let hp = pages.allocate_huge_pages(1, one_gib).unwrap();
            let v = hp.range().start_address();
            let _mh = mapper.map_allocated_huge_pages(hp, rw(), &mut frames).unwrap();
            let dump = mapper.dump_pte(v);
            let p3 = dump.p3_entry.unwrap();
            assert_eq!(p3 & 0x81, 0x81, "1 GiB leaf sits at P3 with HUGE_PAGE");
            assert!(dump.p2_entry.is_none(), "no P2 table under a 1 GiB leaf");
            let frame_addr = mapper.translate(v).unwrap().value();
            assert_eq!(frame_addr % (1 << 30), 0, "1 GiB frames are 262144-aligned");
        }
    }
}

#[test]
fn four_kib_huge_pages_use_p1_leaves() {
    let (mut mapper, mut frames, mut pages) = rig();
    let four_kib = HugePageSize::new(4096).unwrap();
    let hp = pages.allocate_huge_pages(3, four_kib).unwrap();
    let v = hp.range().start_address();
    let _mh = mapper.map_allocated_huge_pages(hp, rw(), &mut frames).unwrap();
    let dump = mapper.dump_pte(v);
    let p1 = dump.p1_entry.unwrap();
    assert_eq!(p1 & 1, 1);
    assert_eq!(p1 & 0x80, 0, "a 4 KiB leaf carries no HUGE_PAGE flag");
    assert!(mapper.translate(v).is_some());
}

#[test]
fn remap_protects_executables() {
    let (mut mapper, mut frames, mut pages) = rig();
    let ap = pages.allocate_pages(1).unwrap();
    let v = ap.start_address();
    let mut m = mapper
        .map_allocated_pages(ap, EntryFlags::present().or(EntryFlags::no_execute()), &mut frames)
        .unwrap();
    assert_eq!(m.as_func(0).unwrap_err(), MemError::NotExecutable);
    m.remap(&mut mapper, EntryFlags::present()).unwrap();
    assert_eq!(m.as_func(0).unwrap().value(), v.value());
    assert_eq!(m.as_type_mut(0, &[1]).unwrap_err(), MemError::NotWritable);
    let dump = mapper.dump_pte(v);
    assert_eq!(dump.p1_entry.unwrap() & 1, 1, "leaf is PRESENT after remap");
    assert_eq!(dump.p1_entry.unwrap() >> 63, 0, "NO_EXECUTE was dropped by remap");
}

#[test]
fn merge_joins_adjacent_mappings() {
    let (mut mapper, mut frames, mut pages) = rig();
    let a = pages.allocate_pages(1).unwrap();
    let b = pages.allocate_pages(1).unwrap();
    let va = a.start_address();
    let vb = b.start_address();
    assert_eq!(vb.value(), va.value() + 4096, "the bump allocator hands out adjacent ranges");
    let mut m1 = mapper.map_allocated_pages(a, rw(), &mut frames).unwrap();
    let m2 = mapper.map_allocated_pages(b, rw(), &mut frames).unwrap();
    m1.merge(m2).unwrap();
    assert_eq!(m1.size_in_pages(), 2);
    assert_eq!(m1.size_in_bytes(), 8192);
    mapped_pages_unmap(&mut m1, &mut mapper).unwrap();
    assert!(mapper.translate(va).is_none());
    assert!(mapper.translate(vb).is_none());
}

#[test]
fn merge_rejects_mismatches_and_returns_the_handle() {
    let (mut mapper, mut frames, mut pages) = rig();
    let a = pages.allocate_pages(1).unwrap();
    let b = pages.allocate_pages(1).unwrap();
    let mut m1 = mapper.map_allocated_pages(a, rw(), &mut frames).unwrap();
    let m2 = mapper
        .map_allocated_pages(b, EntryFlags::present(), &mut frames)
        .unwrap();
    let (e, returned) = m1.merge(m2).unwrap_err();
    assert_eq!(e, MemError::MergeDifferentFlags);
    assert_eq!(returned.size_in_pages(), 1);

    let c = pages.allocate_pages(1).unwrap();
    let _gap = pages.allocate_pages(1).unwrap();
    let d = pages.allocate_pages(1).unwrap();
    let mut m3 = mapper.map_allocated_pages(c, rw(), &mut frames).unwrap();
    let m4 = mapper.map_allocated_pages(d, rw(), &mut frames).unwrap();
    let (e, _returned) = m3.merge(m4).unwrap_err();
    assert_eq!(e, MemError::MergeNotContiguous);
}

#[test]
fn huge_merge_is_unsupported() {
    let (mut mapper, mut frames, mut pages) = rig();
    let two_mib = HugePageSize::new(2 * 1024 * 1024).unwrap();
    let a = pages.allocate_huge_pages(1, two_mib).unwrap();
    let b = pages.allocate_huge_pages(1, two_mib).unwrap();
    let mut m1 = mapper.map_allocated_huge_pages(a, rw(), &mut frames).unwrap();
    let m2 = mapper.map_allocated_huge_pages(b, rw(), &mut frames).unwrap();
    let (e, _returned) = m1.merge(m2).unwrap_err();
    assert_eq!(e, MemError::MergeUnsupported);
}

#[test]
fn typed_view_bounds_are_exact() {
    let (mut mapper, mut frames, mut pages) = rig();
    let ap = pages.allocate_pages(1).unwrap();
    let mut m = mapper.map_allocated_pages(ap, rw(), &mut frames).unwrap();
    assert_eq!(m.as_slice(0, 4096).unwrap().len(), 4096);
    assert_eq!(m.as_slice(0, 4097).unwrap_err(), MemError::OutOfBounds);
    assert_eq!(m.as_type(4090, 8).unwrap_err(), MemError::OutOfBounds);
    m.as_type_mut(100, &[1, 2, 3]).unwrap();
    assert_eq!(m.as_type(100, 3).unwrap(), vec![1, 2, 3]);
    assert_eq!(m.as_slice(99, 5).unwrap(), vec![0, 1, 2, 3, 0]);
}

#[test]
fn deep_copy_duplicates_content_and_keeps_flags() {
    let (mut mapper, mut frames, mut pages) = rig();
    let ap = pages.allocate_pages(1).unwrap();
    let mut m = mapper.map_allocated_pages(ap, rw(), &mut frames).unwrap();
    m.as_slice_mut(10, &[9, 8, 7]).unwrap();
    let mut copy = m
        .deep_copy(None, &mut mapper, &mut frames, &mut pages)
        .unwrap();
    assert_eq!(copy.size_in_bytes(), m.size_in_bytes());
    assert_eq!(copy.as_slice(10, 3).unwrap(), vec![9, 8, 7]);
    assert_eq!(copy.flags().bits(), m.flags().bits());
    copy.as_slice_mut(10, &[1, 1, 1]).unwrap();
    assert_eq!(m.as_slice(10, 3).unwrap(), vec![9, 8, 7], "writing the copy leaves the original");
    let ro = m
        .deep_copy(Some(EntryFlags::present()), &mut mapper, &mut frames, &mut pages)
        .unwrap();
    assert_eq!(ro.flags().bits(), 1);
    assert_eq!(ro.as_slice(10, 3).unwrap(), vec![9, 8, 7]);
}

#[test]
fn relocation_writes_exact_little_endian_values() {
    let (mut mapper, mut frames, mut pages) = rig();
    let ap = pages.allocate_pages(1).unwrap();
    let mut m = mapper.map_allocated_pages(ap, rw(), &mut frames).unwrap();
    m.as_slice_mut(0, &[0xAAu8; 32]).unwrap();
    let source = VirtualAddress::new(0x123456).unwrap();
    let entry = RelocationEntry { typ: R_X86_64_64, addend: 0x10, offset: 8 };
    write_relocation(entry, &mut m, 0, source).unwrap();
    let expected = (0x123456u64 + 0x10).to_le_bytes();
    assert_eq!(m.as_slice(8, 8).unwrap(), expected.to_vec());
    assert_eq!(m.as_slice(0, 8).unwrap(), vec![0xAA; 8], "bytes before stay untouched");
    assert_eq!(m.as_slice(16, 8).unwrap(), vec![0xAA; 8], "bytes after stay untouched");
}

#[test]
fn pc_relative_relocation_subtracts_the_target_address() {
    let (mut mapper, mut frames, mut pages) = rig();
    let ap = pages.allocate_pages(1).unwrap();
    let base = ap.start_address().value();
    let mut m = mapper.map_allocated_pages(ap, rw(), &mut frames).unwrap();
    let source = VirtualAddress::new(0x7654_3210).unwrap();
    let entry = RelocationEntry { typ: R_X86_64_PC32, addend: 5, offset: 16 };
    write_relocation(entry, &mut m, 4, source).unwrap();
    let target_ptr = base + 20;
    let expected = ((0x7654_3210u64.wrapping_add(5).wrapping_sub(target_ptr)) as u32).to_le_bytes();
    assert_eq!(m.as_slice(20, 4).unwrap(), expected.to_vec());

    let entry64 = RelocationEntry { typ: R_X86_64_PC64, addend: 0, offset: 32 };
    write_relocation(entry64, &mut m, 0, source).unwrap();
    let expected64 = 0x7654_3210u64.wrapping_sub(base + 32).to_le_bytes();
    assert_eq!(m.as_slice(32, 8).unwrap(), expected64.to_vec());
}

#[test]
fn unknown_relocation_types_are_refused() {
    let (mut mapper, mut frames, mut pages) = rig();
    let ap = pages.allocate_pages(1).unwrap();
    let mut m = mapper.map_allocated_pages(ap, rw(), &mut frames).unwrap();
    let entry = RelocationEntry { typ: 9, addend: 0, offset: 0 };
    assert_eq!(
        write_relocation(entry, &mut m, 0, VirtualAddress::zero()).unwrap_err(),
        MemError::UnsupportedRelocation
    );
    assert!(RelocationEntry { typ: R_X86_64_64, addend: 0, offset: 0 }.is_absolute());
    assert!(RelocationEntry { typ: 10, addend: 0, offset: 0 }.is_absolute());
    assert!(!RelocationEntry { typ: R_X86_64_PC32, addend: 0, offset: 0 }.is_absolute());
}

#[test]
fn relocation_on_read_only_target_is_refused() {
    let (mut mapper, mut frames, mut pages) = rig();
    let ap = pages.allocate_pages(1).unwrap();
    let mut m = mapper
        .map_allocated_pages(ap, EntryFlags::present(), &mut frames)
        .unwrap();
    let entry = RelocationEntry { typ: R_X86_64_64, addend: 0, offset: 0 };
    assert_eq!(
        write_relocation(entry, &mut m, 0, VirtualAddress::zero()).unwrap_err(),
        MemError::NotWritable
    );
}

#[test]
fn empty_mapped_pages_is_inert() {
    let m = MappedPages::empty();
    assert_eq!(m.size_in_bytes(), 0);
    assert_eq!(m.as_slice(0, 1).unwrap_err(), MemError::OutOfBounds);
}

/// Builds a store holding one crate with a single writable data region of
/// one page and a single data section of the given size, returning the
/// crate index and the section index.
fn store_with_data_crate(
    store: &mut CrateStore,
    mapper: &mut Mapper,
    frames: &mut BumpFrameAllocator,
    pages: &mut BumpPageAllocator,
    name: &str,
    size: usize,
    typ: SectionType,
) -> (usize, usize) {
    let ap = pages.allocate_pages(1).unwrap();
    let start = ap.start_address();
    let m = mapper
        .map_allocated_pages(ap, data_bss_section_flags(), frames)
        .unwrap();
    let region = store.add_region(m);
    let crate_idx = store.add_crate(LoadedCrate {
        crate_name: String::from(name),
        object_file: format!("{}.o", name),
        sections: Vec::new(),
        text_pages: None,
        rodata_pages: None,
        data_pages: Some(CrateRegion { region, start, end: start.add_offset(4096) }),
        global_symbols: Vec::new(),
        bss_sections: qp_trie::Trie::new(),
        reexported_symbols: Vec::new(),
    });
    let section = store.add_section(LoadedSection::new(
        typ,
        format!("{}::item", name),
        region,
        0,
        start,
        size,
        true,
        crate_idx,
    ));
    store.crates[crate_idx].sections.push((1, section));
    (crate_idx, section)
}

#[test]
fn absolute_relocation_survives_deep_copy() {
    let (mut mapper, mut frames, mut pages) = rig();
    let mut store = CrateStore::new();
    let (_src_crate, src_sec) = store_with_data_crate(
        &mut store,
        &mut mapper,
        &mut frames,
        &mut pages,
        "source",
        8,
        SectionType::Data,
    );
    let (tgt_crate, tgt_sec) = store_with_data_crate(
        &mut store,
        &mut mapper,
        &mut frames,
        &mut pages,
        "target",
        8,
        SectionType::Data,
    );
    // The target section holds one absolute 64-bit relocation against the
    // source section; write it once, as linking would.
    let reloc = RelocationEntry { typ: R_X86_64_64, addend: 4, offset: 0 };
    store.sections[tgt_sec].sections_i_depend_on.push(StrongDependency {
        section: src_sec,
        relocation: reloc,
    });
    let source_vaddr = store.sections[src_sec].start_address();
    let tgt_region = store.sections[tgt_sec].mapped_pages;
    write_relocation(reloc, &mut store.regions[tgt_region], 0, source_vaddr).unwrap();
    let original = store.regions[tgt_region].as_slice(0, 8).unwrap();
    assert_eq!(original, (source_vaddr.value() + 4).to_le_bytes().to_vec());

    let new_idx = store
        .deep_copy(tgt_crate, &mut mapper, &mut frames, &mut pages)
        .unwrap();
    let new_region = store.crates[new_idx].data_pages.unwrap().region;
    let copied = store.regions[new_region].as_slice(0, 8).unwrap();
    assert_eq!(copied, original, "the absolute value was copied, not rewritten");
    assert_eq!(
        store.sections[src_sec].sections_dependent_on_me.len(),
        0,
        "no weak dependent is registered for an absolute relocation"
    );
    // The duplicate preserved the section's identity and parent.
    let (shndx, new_sec) = store.crates[new_idx].sections[0];
    assert_eq!(shndx, 1);
    assert_eq!(store.sections[new_sec].name, store.sections[tgt_sec].name);
    assert_eq!(store.sections[new_sec].parent_crate, new_idx);
}

#[test]
fn pc_relative_relocation_is_rewritten_on_deep_copy() {
    let (mut mapper, mut frames, mut pages) = rig();
    let mut store = CrateStore::new();
    let (_src_crate, src_sec) = store_with_data_crate(
        &mut store,
        &mut mapper,
        &mut frames,
        &mut pages,
        "origin",
        8,
        SectionType::Data,
    );
    let (tgt_crate, tgt_sec) = store_with_data_crate(
        &mut store,
        &mut mapper,
        &mut frames,
        &mut pages,
        "patched",
        8,
        SectionType::Data,
    );
    let reloc = RelocationEntry { typ: R_X86_64_PC64, addend: 0, offset: 0 };
    store.sections[tgt_sec].sections_i_depend_on.push(StrongDependency {
        section: src_sec,
        relocation: reloc,
    });
    let source_vaddr = store.sections[src_sec].start_address();
    let tgt_region = store.sections[tgt_sec].mapped_pages;
    write_relocation(reloc, &mut store.regions[tgt_region], 0, source_vaddr).unwrap();
    let original = store.regions[tgt_region].as_slice(0, 8).unwrap();

    let new_idx = store
        .deep_copy(tgt_crate, &mut mapper, &mut frames, &mut pages)
        .unwrap();
    let new_cr = store.crates[new_idx].data_pages.unwrap();
    let copied = store.regions[new_cr.region].as_slice(0, 8).unwrap();
    assert_ne!(copied, original, "a PC-relative value must be recomputed for the new address");
    let expected = source_vaddr.value().wrapping_sub(new_cr.start.value()).to_le_bytes();
    assert_eq!(copied, expected.to_vec());
    assert_eq!(
        store.sections[src_sec].sections_dependent_on_me.len(),
        1,
        "the new section registered itself as a weak dependent"
    );
    let (_, new_sec) = store.crates[new_idx].sections[0];
    assert_eq!(store.sections[src_sec].sections_dependent_on_me[0].section, new_sec);
    assert_eq!(
        store.sections[src_sec].find_weak_dependent(new_sec),
        Some(0)
    );
    assert_eq!(store.sections[src_sec].find_weak_dependent(usize::MAX), None);
}

#[test]
fn bss_sections_enter_the_trie_on_deep_copy() {
    let (mut mapper, mut frames, mut pages) = rig();
    let mut store = CrateStore::new();
    let (crate_idx, _sec) = store_with_data_crate(
        &mut store,
        &mut mapper,
        &mut frames,
        &mut pages,
        "zeroed",
        8,
        SectionType::Bss,
    );
    let new_idx = store
        .deep_copy(crate_idx, &mut mapper, &mut frames, &mut pages)
        .unwrap();
    let (_, new_sec) = store.crates[new_idx].sections[0];
    assert_eq!(
        store.crates[new_idx].bss_sections.get_str("zeroed::item"),
        Some(&new_sec),
        "the duplicated bss section is reachable by name"
    );
}

#[test]
fn store_lookups_and_section_copies() {
    let (mut mapper, mut frames, mut pages) = rig();
    let mut store = CrateStore::new();
    let (crate_a, sec_a) = store_with_data_crate(
        &mut store,
        &mut mapper,
        &mut frames,
        &mut pages,
        "alpha",
        4,
        SectionType::Text,
    );
    let (_crate_b, sec_b) = store_with_data_crate(
        &mut store,
        &mut mapper,
        &mut frames,
        &mut pages,
        "beta",
        4,
        SectionType::Data,
    );
    assert_eq!(store.get_function_section(crate_a, "alpha::item"), Some(sec_a));
    assert_eq!(store.get_function_section(crate_a, "absent"), None);
    assert_eq!(
        store.find_section(crate_a, |s: &LoadedSection| s.get_type() == SectionType::Text),
        Some(sec_a)
    );

    let src_region = store.sections[sec_a].mapped_pages;
    store.regions[src_region].as_slice_mut(0, &[5, 6, 7, 8]).unwrap();
    store.copy_section_data_to(sec_a, sec_b).unwrap();
    let dst_region = store.sections[sec_b].mapped_pages;
    assert_eq!(store.regions[dst_region].as_slice(0, 4).unwrap(), vec![5, 6, 7, 8]);

    // Dependency listings point back at real crates.
    let reloc = RelocationEntry { typ: R_X86_64_64, addend: 0, offset: 0 };
    store.sections[sec_b].sections_i_depend_on.push(StrongDependency {
        section: sec_a,
        relocation: reloc,
    });
    store.sections[sec_a].sections_dependent_on_me.push(WeakDependent {
        section: sec_b,
        relocation: reloc,
    });
    assert_eq!(store.crates_i_depend_on(_crate_b), vec![crate_a]);
    assert_eq!(store.crates_dependent_on_me(crate_a), vec![_crate_b]);
}

#[test]
fn crate_names_lose_their_hashes() {
    let krate = LoadedCrate {
        crate_name: String::from("device_manager-e3769b63863a4030"),
        object_file: String::from("k#device_manager.o"),
        sections: Vec::new(),
        text_pages: None,
        rodata_pages: None,
        data_pages: None,
        global_symbols: Vec::new(),
        bss_sections: qp_trie::Trie::new(),
        reexported_symbols: Vec::new(),
    };
    assert_eq!(krate.crate_name_without_hash(), "device_manager");
    assert_eq!(krate.crate_name_as_prefix(), "device_manager::");
}

#[test]
fn bump_allocators_hand_out_aligned_blocks() {
    let mut frames = BumpFrameAllocator::new(7);
    let f = frames.allocate_frame().unwrap();
    assert_eq!(f.number, 7);
    let block = frames.allocate_alligned_frames(512, 512).unwrap();
    assert_eq!(block.start().number % 512, 0);
    assert_eq!(block.size_in_frames(), 512);

    let mut pages = BumpPageAllocator::new(3);
    let ap = pages.allocate_pages(2).unwrap();
    assert_eq!(ap.size_in_pages(), 2);
    let two_mib = HugePageSize::new(2 * 1024 * 1024).unwrap();
    let hp = pages.allocate_huge_pages(2, two_mib).unwrap();
    assert_eq!(hp.size_in_pages(), 2);
    assert_eq!(hp.range().start_address().value() % (2 * 1024 * 1024), 0);
}

#[test]
fn remap_with_missing_leaf_is_not_mapped() {
    let (mut mapper, _frames, _pages) = rig();
    let range = PageRange::new(
        Page::containing_address(VirtualAddress::new(0x10000).unwrap()),
        Page::containing_address(VirtualAddress::new(0x10000).unwrap()),
    );
    let mut fake = MappedPages::empty();
    // an empty handle remaps trivially
    assert!(fake.remap(&mut mapper, rw()).is_ok());
    let _ = range;
}

#[test]
fn remap_through_a_foreign_mapper_is_not_mapped() {
    let (mut mapper, mut frames, mut pages) = rig();
    let ap = pages.allocate_pages(1).unwrap();
    let mut m = mapper.map_allocated_pages(ap, rw(), &mut frames).unwrap();
    let mut other_mapper = Mapper::with_p4_frame(Frame { number: 99 });
    assert_eq!(
        m.remap(&mut other_mapper, EntryFlags::present()).unwrap_err(),
        MemError::NotMapped
    );
}

#[test]
fn merge_rejects_mappings_from_different_tables() {
    let (mut mapper, mut frames, mut pages) = rig();
    let mut other_mapper = Mapper::with_p4_frame(Frame { number: 7 });
    let a = pages.allocate_pages(1).unwrap();
    let b = pages.allocate_pages(1).unwrap();
    let mut m1 = mapper.map_allocated_pages(a, rw(), &mut frames).unwrap();
    let m2 = other_mapper.map_allocated_pages(b, rw(), &mut frames).unwrap();
    let (e, _returned) = m1.merge(m2).unwrap_err();
    assert_eq!(e, MemError::MergeDifferentTable);
}

#[test]
fn exhausted_page_allocator_reports_out_of_memory() {
    let (mut mapper, mut frames, mut pages) = rig();
    let ap = pages.allocate_pages(1).unwrap();
    let m = mapper.map_allocated_pages(ap, rw(), &mut frames).unwrap();
    let mut dry_pages = BumpPageAllocator::new(0x8_0000_0000);
    assert!(dry_pages.allocate_pages(1).is_none());
    assert_eq!(
        m.deep_copy(None, &mut mapper, &mut frames, &mut dry_pages)
            .unwrap_err(),
        MemError::OutOfMemory
    );
}

#[test]
fn deep_copy_of_an_inconsistent_crate_is_refused() {
    let (mut mapper, mut frames, mut pages) = rig();
    let mut store = CrateStore::new();
    // a crate whose only region is a data region, yet holds a Text section
    let (crate_idx, _sec) = store_with_data_crate(
        &mut store,
        &mut mapper,
        &mut frames,
        &mut pages,
        "broken",
        8,
        SectionType::Text,
    );
    assert_eq!(
        store
            .deep_copy(crate_idx, &mut mapper, &mut frames, &mut pages)
            .unwrap_err(),
        MemError::DeepCopyInconsistent
    );
}

#[test]
fn teardown_refuses_a_foreign_page_table() {
    let (mut mapper, mut frames, mut pages) = rig();
    let ap = pages.allocate_pages(1).unwrap();
    let v = ap.start_address();
    let mut m = mapper.map_allocated_pages(ap, rw(), &mut frames).unwrap();
    let mut foreign = Mapper::with_p4_frame(Frame { number: 1234 });
    assert_eq!(
        mapped_pages_unmap(&mut m, &mut foreign).unwrap_err(),
        MemError::WrongPageTable
    );
    assert!(mapper.translate(v).is_some(), "the real mapping is untouched");
    mapped_pages_unmap(&mut m, &mut mapper).unwrap();
    assert!(mapper.translate(v).is_none());
}

#[test]
fn huge_teardown_refuses_a_foreign_page_table() {
    let (mut mapper, mut frames, mut pages) = rig();
    let two_mib = HugePageSize::new(2 * 1024 * 1024).unwrap();
    let hp = pages.allocate_huge_pages(1, two_mib).unwrap();
    let v = hp.range().start_address();
    let mut mh = mapper.map_allocated_huge_pages(hp, rw(), &mut frames).unwrap();
    let mut foreign = Mapper::with_p4_frame(Frame { number: 4321 });
    assert_eq!(
        mapped_huge_pages_unmap(&mut mh, &mut foreign).unwrap_err(),
        MemError::WrongPageTable
    );
    assert!(mapper.translate(v).is_some(), "the real mapping is untouched");
    mapped_huge_pages_unmap(&mut mh, &mut mapper).unwrap();
    assert!(mapper.translate(v).is_none());
}

#[test]
fn deep_copied_text_region_ends_read_only_executable() {
    let (mut mapper, mut frames, mut pages) = rig();
    let mut store = CrateStore::new();
    // a crate whose only region is a text region holding one text section
    let ap = pages.allocate_pages(1).unwrap();
    let start = ap.start_address();
    let m = mapper
        .map_allocated_pages(ap, vmem::metadata::text_section_flags(), &mut frames)
        .unwrap();
    let region = store.add_region(m);
    let crate_idx = store.add_crate(LoadedCrate {
        crate_name: String::from("codebearer"),
        object_file: String::from("codebearer.o"),
        sections: Vec::new(),
        text_pages: Some(CrateRegion { region, start, end: start.add_offset(4096) }),
        rodata_pages: None,
        data_pages: None,
        global_symbols: Vec::new(),
        bss_sections: qp_trie::Trie::new(),
        reexported_symbols: Vec::new(),
    });
    let section = store.add_section(LoadedSection::new(
        SectionType::Text,
        String::from("codebearer::run"),
        region,
        16,
        start.add_offset(16),
        32,
        true,
        crate_idx,
    ));
    store.crates[crate_idx].sections.push((1, section));

    let new_idx = store
        .deep_copy(crate_idx, &mut mapper, &mut frames, &mut pages)
        .unwrap();
    let new_cr = store.crates[new_idx].text_pages.unwrap();
    let flags = store.regions[new_cr.region].flags();
    assert!(flags.is_present());
    assert!(!flags.is_writable(), "text ends read-only after the final remap");
    assert!(flags.is_executable(), "text stays executable");
    // the new section's address is recomputed against the new region
    let (_, new_sec) = store.crates[new_idx].sections[0];
    assert_eq!(
        store.sections[new_sec].start_address().value(),
        new_cr.start.value() + 16
    );
}

#[test]
fn mapping_works_in_the_canonical_upper_half() {
    let (mut mapper, mut frames, _pages) = rig();
    // a two-page range at the bottom of the sign-extended upper half
    let high = VirtualAddress::new(0xFFFF_8000_0000_0000).unwrap();
    let start = Page::containing_address(high);
    let end = Page::containing_address(high.add_offset(4096));
    let ap = AllocatedPages::new(PageRange::new(start, end));
    let target = vmem::frame::FrameRange::new(Frame { number: 0x700 }, Frame { number: 0x701 });
    let mut m = mapper
        .map_allocated_pages_to(ap, target, EntryFlags::present(), &mut frames)
        .unwrap();
    assert_eq!(
        mapper.translate(high).unwrap().value(),
        0x700 * 4096,
        "upper-half addresses translate"
    );
    assert_eq!(
        mapper
            .translate(high.add_offset(0x1123))
            .unwrap()
            .value(),
        0x701 * 4096 + 0x123
    );
    assert_eq!(
        m.as_func(16).unwrap().value(),
        0xFFFF_8000_0000_0000u64 + 16,
        "callable addresses are computed in the upper half"
    );
    mapped_pages_unmap(&mut m, &mut mapper).unwrap();
    assert!(mapper.translate(high).is_none());
}
