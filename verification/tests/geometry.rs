//! Tests of the address, page-size, page, frame and range primitives, the
//! entry flags, and the crate naming rules.

use vmem::addr::{PhysicalAddress, VirtualAddress};
use vmem::error::MemError;
use vmem::flags::EntryFlags;
use vmem::frame::{Frame, FrameRange};
use vmem::metadata::{CrateNameError, CrateType, LoadedSection};
use vmem::page::{HugePage, HugePageRange, Page, PageRange};
use vmem::sizes::{HugePageSize, PageSize};

#[test]
fn virtual_address_accepts_canonical_values() {
    assert_eq!(VirtualAddress::new(0).unwrap().value(), 0);
    assert_eq!(VirtualAddress::new(0x7FFF_FFFF_FFFF).unwrap().value(), 0x7FFF_FFFF_FFFF);
    assert_eq!(
        VirtualAddress::new(0xFFFF_8000_0000_0000).unwrap().value(),
        0xFFFF_8000_0000_0000
    );
}

#[test]
fn virtual_address_rejects_non_canonical_values() {
    assert_eq!(
        VirtualAddress::new(0x0000_8000_0000_0000).unwrap_err(),
        MemError::NonCanonicalAddress
    );
    assert_eq!(
        VirtualAddress::new(0x1234_0000_0000_0000).unwrap_err(),
        MemError::NonCanonicalAddress
    );
}

#[test]
fn virtual_address_new_canonical_sign_extends() {
    assert_eq!(
        VirtualAddress::new_canonical(0x0000_8000_0000_0000).value(),
        0xFFFF_8000_0000_0000
    );
    assert_eq!(VirtualAddress::new_canonical(0x1234).value(), 0x1234);
}

#[test]
fn virtual_address_page_offset() {
    let a = VirtualAddress::new(0x3456).unwrap();
    assert_eq!(a.page_offset(), 0x456);
    let two_mib = HugePageSize::new(2 * 1024 * 1024).unwrap();
    assert_eq!(a.hugepage_offset(two_mib), 0x3456);
}

#[test]
fn physical_address_checks_high_bits() {
    assert_eq!(PhysicalAddress::new(0xF_FFFF_FFFF_FFFF).unwrap().value(), 0xF_FFFF_FFFF_FFFF);
    assert_eq!(PhysicalAddress::new(1 << 52).unwrap_err(), MemError::HighBitsSet);
    assert_eq!(PhysicalAddress::new_canonical(1 << 52).value(), 0);
    assert_eq!(PhysicalAddress::zero().value(), 0);
    assert_eq!(PhysicalAddress::new(0x1789).unwrap().frame_offset(), 0x789);
}

#[test]
fn address_arithmetic_saturates() {
    let a = VirtualAddress::new(0x1000).unwrap();
    assert_eq!(a.add_offset(0x234).value(), 0x1234);
    assert_eq!(a.sub_offset(0x2000).value(), 0);
    let p = PhysicalAddress::new(0x1000).unwrap();
    assert_eq!(p.add_offset(0x234).value(), 0x1234);
    assert_eq!(p.sub_offset(0x2000).value(), 0);
}

#[test]
fn page_size_accepts_the_three_granularities() {
    assert_eq!(PageSize::new(4096).unwrap().value(), 4096);
    assert_eq!(PageSize::new(2 * 1024 * 1024).unwrap().value(), 2 * 1024 * 1024);
    assert_eq!(PageSize::new(12345).unwrap_err(), MemError::UnsupportedPageSize);
    assert_eq!(HugePageSize::new(4096).unwrap().huge_page_ratio(), 1);
    assert_eq!(HugePageSize::new(2 * 1024 * 1024).unwrap().huge_page_ratio(), 512);
}

#[test]
fn one_gib_page_size_follows_the_cpu() {
    // 1 GiB is accepted exactly when the CPU reports support for it; both
    // outcomes must be consistent between the two size types.
    let h = HugePageSize::new(1 << 30);
    let p = PageSize::new(1 << 30);
    assert_eq!(h.is_ok(), p.is_ok());
    match h {
        Ok(s) => {
            assert_eq!(s.value(), 1 << 30);
            assert_eq!(s.huge_page_ratio(), 262144);
        }
        Err(e) => assert_eq!(e, MemError::UnsupportedPageSize),
    }
}

#[test]
fn page_table_indices_decompose_the_page_number() {
    let n: u64 = (3 << 27) | (5 << 18) | (7 << 9) | 11;
    let v = VirtualAddress::new((n * 4096) as u64).unwrap();
    let page = Page::containing_address(v);
    assert_eq!(page.p4_index(), 3);
    assert_eq!(page.p3_index(), 5);
    assert_eq!(page.p2_index(), 7);
    assert_eq!(page.p1_index(), 11);
}

#[test]
fn page_and_frame_containing_addresses() {
    let v = VirtualAddress::new(0x5432).unwrap();
    let page = Page::containing_address(v);
    assert_eq!(page.start_address().value(), 0x5000);
    let p = PhysicalAddress::new(0x5432).unwrap();
    let frame = Frame::containing_address(p);
    assert_eq!(frame.number, 5);
    assert_eq!(frame.start_address().value(), 0x5000);
    let two_mib = HugePageSize::new(2 * 1024 * 1024).unwrap();
    assert_eq!(Frame::containing_huagepage_address(p, two_mib).number, 0);
    assert_eq!(Frame { number: 3 }.huagepage_start_address(two_mib).value(), 3 * 2 * 1024 * 1024);
}

#[test]
fn page_range_sizes_and_offsets() {
    let start = VirtualAddress::new(0x2000).unwrap();
    let r = PageRange::from_virt_addr(start, 0x2000);
    assert_eq!(r.size_in_pages(), 2);
    assert_eq!(r.size_in_bytes(), 0x2000);
    assert_eq!(r.start_address().value(), 0x2000);
    let inside = VirtualAddress::new(0x3500).unwrap();
    assert!(r.contains_virt_addr(inside));
    assert_eq!(r.offset_of_address(inside), Some(0x1500));
    let outside = VirtualAddress::new(0x4800).unwrap();
    assert_eq!(r.offset_of_address(outside), None);
    assert_eq!(r.address_at_offset(0x1500).unwrap().value(), 0x3500);
    assert_eq!(r.address_at_offset(0x2001), None);
    assert_eq!(PageRange::empty().size_in_pages(), 0);
}

#[test]
fn frame_range_operations() {
    let base = PhysicalAddress::new(0x2000).unwrap();
    let r = FrameRange::from_phys_addr(base, 0x2000);
    assert_eq!(r.size_in_frames(), 2);
    assert_eq!(r.start_address().value(), 0x2000);
    assert_eq!(r.start_frame().number, 2);
    assert!(r.contains_phys_addr(PhysicalAddress::new(0x3FFF).unwrap()));
    assert!(!r.contains_phys_addr(PhysicalAddress::new(0x4000).unwrap()));
    assert_eq!(r.offset_from_start(PhysicalAddress::new(0x3500).unwrap()), Some(0x1500));
    assert_eq!(r.offset_from_start(PhysicalAddress::new(0x9000).unwrap()), None);
    let wider = r.to_extended(Frame { number: 9 });
    assert_eq!(wider.start().number, 2);
    assert_eq!(wider.end().number, 9);
    let from_empty = FrameRange::empty().to_extended(Frame { number: 4 });
    assert_eq!(from_empty.size_in_frames(), 1);
}

#[test]
fn huge_page_geometry() {
    let two_mib = HugePageSize::new(2 * 1024 * 1024).unwrap();
    let v = VirtualAddress::new(5 * 2 * 1024 * 1024 + 17).unwrap();
    let hp = HugePage::containing_address(v, two_mib);
    assert_eq!(hp.start_address().value(), 5 * 2 * 1024 * 1024);
    assert_eq!(hp.page_size().value(), 2 * 1024 * 1024);
    assert_eq!(hp.corresponding_normal_page().start_address().value(), 5 * 2 * 1024 * 1024);
    assert_eq!(hp.p1_index(), 0);
    assert_eq!(hp.p2_index(), 5);
    let r = HugePageRange::from_virt_addr(
        VirtualAddress::new(0).unwrap(),
        4 * 1024 * 1024,
        two_mib,
    );
    assert_eq!(r.size_in_pages(), 2);
    assert_eq!(r.size_in_bytes(), 4 * 1024 * 1024);
    assert_eq!(r.page_size().value(), 2 * 1024 * 1024);
    assert_eq!(r.offset_of_address(VirtualAddress::new(0x20_0000).unwrap()), Some(0x20_0000));
    assert_eq!(r.address_at_offset(0x1000).unwrap().value(), 0x1000);
    assert_eq!(HugePageRange::empty(two_mib).size_in_pages(), 0);
}

#[test]
fn entry_flag_bits_match_the_hardware_positions() {
    let f = EntryFlags::present()
        .or(EntryFlags::writable())
        .or(EntryFlags::huge_page())
        .or(EntryFlags::no_execute());
    assert_eq!(f.bits(), 0x8000_0000_0000_0083);
    assert!(f.is_present());
    assert!(f.is_writable());
    assert!(f.is_huge());
    assert!(!f.is_executable());
    assert_eq!(EntryFlags::empty().bits(), 0);
    assert!(EntryFlags::empty().is_executable());
    assert_eq!(EntryFlags::present().without_no_execute().bits(), 1);
    assert_eq!(EntryFlags::writable().with_present().bits(), 3);
}

#[test]
fn module_names_parse_by_prefix() {
    let (t, ns, name) = CrateType::from_module_name("k#my_crate.o").unwrap();
    assert_eq!(t, CrateType::Kernel);
    assert_eq!(ns, "");
    assert_eq!(name, "my_crate.o");

    let (t, ns, name) = CrateType::from_module_name("ksse#my_crate.o").unwrap();
    assert_eq!(t, CrateType::Kernel);
    assert_eq!(ns, "sse");
    assert_eq!(name, "my_crate.o");

    let (t, _, _) = CrateType::from_module_name("a#app.o").unwrap();
    assert_eq!(t, CrateType::Application);
    let (t, _, _) = CrateType::from_module_name("u#proc.o").unwrap();
    assert_eq!(t, CrateType::Userspace);
}

#[test]
fn module_names_reject_bad_shapes() {
    assert_eq!(
        CrateType::from_module_name("no_delimiter").unwrap_err(),
        CrateNameError::MissingDelimiter
    );
    assert_eq!(
        CrateType::from_module_name("k#two#hashes").unwrap_err(),
        CrateNameError::ExtraDelimiter
    );
    assert_eq!(
        CrateType::from_module_name("x#unknown").unwrap_err(),
        CrateNameError::UnknownPrefix
    );
    assert_eq!(CrateType::from_module_name("#empty").unwrap_err(), CrateNameError::UnknownPrefix);
}

#[test]
fn module_name_predicates_check_the_first_letter() {
    assert!(CrateType::is_kernel("k#x.o"));
    assert!(CrateType::is_application("a#x.o"));
    assert!(CrateType::is_userspace("u#x.o"));
    assert!(!CrateType::is_kernel("a#x.o"));
    assert!(!CrateType::is_application(""));
    assert_eq!(CrateType::Kernel.default_namespace_name(), "_kernel");
    assert_eq!(CrateType::Application.default_namespace_name(), "_applications");
    assert_eq!(CrateType::Userspace.default_namespace_name(), "_userspace");
}

#[test]
fn section_names_lose_their_hash() {
    assert_eq!(
        LoadedSection::section_name_without_hash("keyboard_new::init::h832430094f98e56b"),
        "keyboard_new::init::h"
    );
    assert_eq!(LoadedSection::section_name_without_hash("start_me"), "start_me");
    assert_eq!(
        LoadedSection::section_name_without_hash("a::h1::h2f"),
        "a::h1::h"
    );
}
