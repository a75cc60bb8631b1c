//! Canonical virtual and physical address values.
//!
//! A virtual address is canonical when bits [48, 64) are a sign-extension of
//! bit 47; a physical address is valid when bits [52, 64) are zero. Both
//! properties are stated arithmetically: bit 47 of `v` is `(v / 2^47) % 2`,
//! and "bits [52, 64) are zero" is `v / 2^52 == 0`.

use bit_field::BitField;
use vstd::prelude::*;

use crate::error::MemError;
use crate::sizes::HugePageSize;
use crate::PAGE_SIZE;

verus! {

/// 2^47, the position value of bit 47.
pub const BIT_47: u64 = 0x8000_0000_0000;

/// 2^52, the position value of bit 52.
pub const BIT_52: u64 = 0x10_0000_0000_0000;

/// The value of bits [47, 64) when they are all set.
pub const HIGH_17: u64 = 0xFFFF_8000_0000_0000;

/// Reads the bits in positions [47, 64) of `value` as the low bits of the
/// result, which equal `value / 2^47`.
///
/// Relies on `bit_field::BitField::get_bits` for `u64`: the bits of the
/// given range are returned in the lowest bits of the result.
#[verifier::external_body]
fn bits_47_to_64(value: u64) -> (r: u64)
    ensures
        r == value / BIT_47,
{
    value.get_bits(47..64)
}

/// Reads the bits in positions [52, 64) of `value` as the low bits of the
/// result, which equal `value / 2^52`.
///
/// Relies on `bit_field::BitField::get_bits` for `u64`: the bits of the
/// given range are returned in the lowest bits of the result.
#[verifier::external_body]
fn bits_52_to_64(value: u64) -> (r: u64)
    ensures
        r == value / BIT_52,
{
    value.get_bits(52..64)
}

/// Returns `value` with the bits in positions [52, 64) cleared, which
/// equals `value % 2^52`.
///
/// Relies on `bit_field::BitField::set_bits` for `u64`: the bits of the
/// given range are replaced by the given bits, here all zero.
#[verifier::external_body]
fn clear_bits_52_to_64(value: u64) -> (r: u64)
    ensures
        r == value % BIT_52,
{
    let mut v = value;
    v.set_bits(52..64, 0);
    v
}

/// Whether a virtual address value is canonical: bits [48, 64) all equal
/// bit 47, i.e. the top 17 bits are all zero or all one.
pub open spec fn canonical(value: u64) -> bool {
    value / BIT_47 == 0 || value / BIT_47 == 0x1FFFF
}

/// The canonical address obtained by sign-extending bit 47 of `value` into
/// bits [48, 64): the low 47 bits, with the top 17 bits all set when bit 47
/// was set.
pub open spec fn sign_extend_47(value: u64) -> u64 {
    if (value / BIT_47) % 2 == 1 {
        (value % BIT_47 + HIGH_17) as u64
    } else {
        value % BIT_47
    }
}

/// Sign-extending always yields a canonical value, leaves a canonical value
/// unchanged, and preserves the offset within the containing page.
pub proof fn lemma_sign_extend_47(value: u64)
    ensures
        canonical(sign_extend_47(value)),
        canonical(value) ==> sign_extend_47(value) == value,
        sign_extend_47(value) % 4096 == value % 4096,
{
    let low = (value % BIT_47) as int;
    let v = value as int;
    assert(v == (v / 0x8000_0000_0000) * 0x8000_0000_0000 + low);
    if (value / BIT_47) % 2 == 1 {
        assert((low + 0xFFFF_8000_0000_0000) / 0x8000_0000_0000 == 0x1FFFF) by (nonlinear_arith)
            requires
                0 <= low < 0x8000_0000_0000,
        ;
        assert((low + 0xFFFF_8000_0000_0000) % 4096 == low % 4096) by (nonlinear_arith)
            requires
                0 <= low < 0x8000_0000_0000,
        ;
    } else {
        assert(low / 0x8000_0000_0000 == 0);
    }
    assert(low % 4096 == v % 4096) by (nonlinear_arith)
        requires
            low == v % 0x8000_0000_0000,
            0 <= v,
    ;
    if canonical(value) {
        if value / BIT_47 == 0 {
            assert(sign_extend_47(value) == value);
        } else {
            assert(value == 0x1FFFF * BIT_47 + low);
        }
    }
}

/// The saturating sum of two `u64` values, as a mathematical function.
pub open spec fn sat_add(a: u64, b: u64) -> u64 {
    if a + b > u64::MAX {
        u64::MAX
    } else {
        (a + b) as u64
    }
}

/// The saturating difference of two `u64` values, as a mathematical
/// function.
pub open spec fn sat_sub(a: u64, b: u64) -> u64 {
    if a >= b {
        (a - b) as u64
    } else {
        0
    }
}

/// A virtual memory address, a canonical 64-bit value.
#[derive(Clone, Copy, Debug, PartialEq, Eq, Structural)]
pub struct VirtualAddress(u64);

impl VirtualAddress {
    /// The underlying numeric value, as a specification value.
    pub closed spec fn spec_value(&self) -> u64 {
        self.0
    }

    /// A well-formed virtual address is canonical.
    pub open spec fn wf(&self) -> bool {
        canonical(self.spec_value())
    }

    /// Creates a new `VirtualAddress`, checking that the address is
    /// canonical, i.e., that bits [48, 64) are sign-extended from bit 47.
    pub fn new(virt_addr: u64) -> (r: Result<VirtualAddress, MemError>)
        ensures
            match r {
                Ok(a) => canonical(virt_addr) && a.spec_value() == virt_addr,
                Err(e) => !canonical(virt_addr) && e == MemError::NonCanonicalAddress,
            },
    {
        let high = bits_47_to_64(virt_addr);
        if high == 0 || high == 0x1FFFF {
            Ok(VirtualAddress(virt_addr))
        } else {
            Err(MemError::NonCanonicalAddress)
        }
    }

    /// Creates a new `VirtualAddress` that is guaranteed to be canonical, by
    /// forcing bits [48, 64) to be sign-extended from bit 47.
    pub fn new_canonical(virt_addr: u64) -> (r: VirtualAddress)
        ensures
            r.spec_value() == sign_extend_47(virt_addr),
            r.wf(),
            canonical(virt_addr) ==> r.spec_value() == virt_addr,
    {
        proof {
            lemma_sign_extend_47(virt_addr);
        }
        let high = bits_47_to_64(virt_addr);
        let low = virt_addr % BIT_47;
        if high % 2 == 1 {
            VirtualAddress(low + HIGH_17)
        } else {
            VirtualAddress(low)
        }
    }

    /// Creates a `VirtualAddress` with the value 0.
    pub fn zero() -> (r: VirtualAddress)
        ensures
            r.spec_value() == 0,
            r.wf(),
    {
        VirtualAddress(0)
    }

    /// Returns the underlying `u64` value for this `VirtualAddress`.
    #[verifier::when_used_as_spec(spec_value)]
    pub fn value(&self) -> (r: u64)
        ensures
            r == self.spec_value(),
    {
        self.0
    }

    /// Returns the offset that this `VirtualAddress` specifies into its
    /// containing 4 KiB memory page: the least significant 12 bits.
    pub fn page_offset(&self) -> (r: u64)
        ensures
            r == self.spec_value() % 4096,
    {
        self.0 % PAGE_SIZE
    }

    /// Returns the offset that this `VirtualAddress` specifies into its
    /// containing page of the given size.
    pub fn hugepage_offset(&self, page_size: HugePageSize) -> (r: u64)
        requires
            page_size.wf(),
        ensures
            r == self.spec_value() % page_size.spec_value(),
    {
        self.0 % page_size.value()
    }

    /// The address `rhs` bytes above this one; the sum saturates and is then
    /// forced canonical.
    pub fn add_offset(self, rhs: u64) -> (r: VirtualAddress)
        ensures
            r.spec_value() == sign_extend_47(sat_add(self.spec_value(), rhs)),
            r.wf(),
    {
        let sum = if self.0 <= u64::MAX - rhs {
            self.0 + rhs
        } else {
            u64::MAX
        };
        VirtualAddress::new_canonical(sum)
    }

    /// The address `rhs` bytes below this one; the difference saturates at
    /// zero and is then forced canonical.
    pub fn sub_offset(self, rhs: u64) -> (r: VirtualAddress)
        ensures
            r.spec_value() == sign_extend_47(sat_sub(self.spec_value(), rhs)),
            r.wf(),
    {
        let diff = if self.0 >= rhs {
            self.0 - rhs
        } else {
            0
        };
        VirtualAddress::new_canonical(diff)
    }
}

/// Whether a physical address value is valid: bits [52, 64) are zero.
pub open spec fn phys_valid(value: u64) -> bool {
    value / BIT_52 == 0
}

/// The physical address obtained by clearing bits [52, 64) of `value`.
pub open spec fn mask_to_52(value: u64) -> u64 {
    value % BIT_52
}

/// A physical memory address, a 64-bit value whose bits [52, 64) are zero.
#[derive(Clone, Copy, Debug, PartialEq, Eq, Structural)]
pub struct PhysicalAddress(u64);

impl PhysicalAddress {
    /// The underlying numeric value, as a specification value.
    pub closed spec fn spec_value(&self) -> u64 {
        self.0
    }

    /// A well-formed physical address has bits [52, 64) zero.
    pub open spec fn wf(&self) -> bool {
        phys_valid(self.spec_value())
    }

    /// Creates a new `PhysicalAddress`, checking that bits [52, 64) are 0.
    pub fn new(phys_addr: u64) -> (r: Result<PhysicalAddress, MemError>)
        ensures
            match r {
                Ok(a) => phys_valid(phys_addr) && a.spec_value() == phys_addr,
                Err(e) => !phys_valid(phys_addr) && e == MemError::HighBitsSet,
            },
    {
        let high = bits_52_to_64(phys_addr);
        if high == 0 {
            Ok(PhysicalAddress(phys_addr))
        } else {
            Err(MemError::HighBitsSet)
        }
    }

    /// Creates a new `PhysicalAddress` that is guaranteed to be valid by
    /// forcing bits [52, 64) to be 0.
    pub fn new_canonical(phys_addr: u64) -> (r: PhysicalAddress)
        ensures
            r.spec_value() == mask_to_52(phys_addr),
            r.wf(),
            phys_valid(phys_addr) ==> r.spec_value() == phys_addr,
    {
        PhysicalAddress(clear_bits_52_to_64(phys_addr))
    }

    /// Returns the underlying `u64` value for this `PhysicalAddress`.
    #[verifier::when_used_as_spec(spec_value)]
    pub fn value(&self) -> (r: u64)
        ensures
            r == self.spec_value(),
    {
        self.0
    }

    /// Creates a `PhysicalAddress` with the value 0.
    pub fn zero() -> (r: PhysicalAddress)
        ensures
            r.spec_value() == 0,
            r.wf(),
    {
        PhysicalAddress(0)
    }

    /// Returns the offset that this `PhysicalAddress` specifies into its
    /// containing 4 KiB memory frame: the least significant 12 bits.
    pub fn frame_offset(&self) -> (r: u64)
        ensures
            r == self.spec_value() % 4096,
    {
        self.0 % PAGE_SIZE
    }

    /// Returns the offset that this `PhysicalAddress` specifies into its
    /// containing frame block of the given size.
    pub fn hugepage_frame_offset(&self, page_size: HugePageSize) -> (r: u64)
        requires
            page_size.wf(),
        ensures
            r == self.spec_value() % page_size.spec_value(),
    {
        self.0 % page_size.value()
    }

    /// The address `rhs` bytes above this one; the sum saturates and bits
    /// [52, 64) are then cleared.
    pub fn add_offset(self, rhs: u64) -> (r: PhysicalAddress)
        ensures
            r.spec_value() == mask_to_52(sat_add(self.spec_value(), rhs)),
            r.wf(),
    {
        let sum = if self.0 <= u64::MAX - rhs {
            self.0 + rhs
        } else {
            u64::MAX
        };
        PhysicalAddress::new_canonical(sum)
    }

    /// The address `rhs` bytes below this one; the difference saturates at
    /// zero and bits [52, 64) are then cleared.
    pub fn sub_offset(self, rhs: u64) -> (r: PhysicalAddress)
        ensures
            r.spec_value() == mask_to_52(sat_sub(self.spec_value(), rhs)),
            r.wf(),
    {
        let diff = if self.0 >= rhs {
            self.0 - rhs
        } else {
            0
        };
        PhysicalAddress::new_canonical(diff)
    }
}

/// An area of physical memory, as reported by the bootloader's memory map.
#[derive(Clone, Copy, Debug)]
pub struct PhysicalMemoryArea {
    /// The starting physical address of the area.
    pub base_addr: PhysicalAddress,
    /// The length of the area in bytes.
    pub size_in_bytes: u64,
    /// The firmware type tag of the area.
    pub typ: u32,
    /// The ACPI extended attributes of the area.
    pub acpi: u32,
}

impl PhysicalMemoryArea {
    /// Builds an area from its four attributes.
    pub fn new(paddr: PhysicalAddress, size_in_bytes: u64, typ: u32, acpi: u32) -> (r:
        PhysicalMemoryArea)
        ensures
            r.base_addr == paddr,
            r.size_in_bytes == size_in_bytes,
            r.typ == typ,
            r.acpi == acpi,
    {
        PhysicalMemoryArea { base_addr: paddr, size_in_bytes, typ, acpi }
    }
}

/// The address bounds and mapping flags of one kernel section's memory
/// region.
#[derive(Clone, Copy, Debug)]
pub struct SectionMemoryBounds {
    /// The starting virtual and physical address.
    pub start: (VirtualAddress, PhysicalAddress),
    /// The ending virtual and physical address.
    pub end: (VirtualAddress, PhysicalAddress),
    /// The page-table entry flags used for mapping this section.
    pub flags: crate::flags::EntryFlags,
}

/// The address bounds and flags of the initial kernel sections that need
/// mapping: one entry per group of sections with identical flags, plus the
/// stack, which is maintained separately.
#[derive(Clone, Copy, Debug)]
pub struct AggregatedSectionMemoryBounds {
    /// The bounds of the executable sections.
    pub text: SectionMemoryBounds,
    /// The bounds of the read-only sections.
    pub rodata: SectionMemoryBounds,
    /// The bounds of the writable sections.
    pub data: SectionMemoryBounds,
    /// The bounds of the stack.
    pub stack: SectionMemoryBounds,
}

} // verus!

