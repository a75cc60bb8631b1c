//! ELF relocation entries and the writer that applies them to a mapped
//! region.

use vstd::prelude::*;

use crate::addr::VirtualAddress;
use crate::error::MemError;
use crate::mapper::MappedPages;

verus! {

/// The relocation code for a 32-bit absolute relocation.
pub const R_X86_64_32: u32 = 10;

/// The relocation code for a 64-bit absolute relocation.
pub const R_X86_64_64: u32 = 1;

/// The relocation code for a 32-bit PC-relative relocation.
pub const R_X86_64_PC32: u32 = 2;

/// The relocation code for a 32-bit PLT-relative relocation, handled like
/// a PC-relative one.
pub const R_X86_64_PLT32: u32 = 4;

/// The relocation code for a 64-bit PC-relative relocation.
pub const R_X86_64_PC64: u32 = 24;

/// The information necessary to calculate and write a relocation value: a
/// value derived from a source section's address is written somewhere in a
/// target section.
#[derive(Clone, Copy, Debug, PartialEq, Eq, Structural)]
pub struct RelocationEntry {
    /// The type of relocation calculation performed.
    pub typ: u32,
    /// The value added to the source section's address.
    pub addend: u64,
    /// The offset from the start of the target section at which the value
    /// is written.
    pub offset: u64,
}

/// An ELF relocation-with-addend record, as `xmas_elf` parses it from an
/// object file.
#[verifier::external_type_specification]
#[verifier::external_body]
#[verifier::reject_recursive_types(P)]
pub struct ExRela<P>(xmas_elf::sections::Rela<P>);

impl RelocationEntry {
    /// Extracts the type code, addend and offset of the given ELF
    /// relocation record.
    ///
    /// Relies on `xmas_elf::sections::Rela::<u64>::{get_type, get_addend,
    /// get_offset}`, which read the record's fields; the record itself is
    /// opaque here, so nothing further is promised of the values.
    #[verifier::external_body]
    pub fn from_elf_relocation(rela_entry: &xmas_elf::sections::Rela<u64>) -> RelocationEntry {
        RelocationEntry {
            typ: rela_entry.get_type(),
            addend: rela_entry.get_addend(),
            offset: rela_entry.get_offset(),
        }
    }

    /// Whether this relocation type is absolute, as a specification value.
    pub open spec fn spec_is_absolute(&self) -> bool {
        self.typ == R_X86_64_32 || self.typ == R_X86_64_64
    }

    /// Returns true when the relocation calculation does not depend on the
    /// target section's address in any way: only the source section
    /// determines the written value, so the value survives a deep copy of
    /// the target.
    #[verifier::when_used_as_spec(spec_is_absolute)]
    pub fn is_absolute(&self) -> (r: bool)
        ensures
            r == self.spec_is_absolute(),
    {
        self.typ == R_X86_64_32 || self.typ == R_X86_64_64
    }
}

/// Whether the relocation type code is one this writer supports.
pub open spec fn spec_supported_relocation(typ: u32) -> bool {
    typ == R_X86_64_32 || typ == R_X86_64_64 || typ == R_X86_64_PC32 || typ == R_X86_64_PLT32
        || typ == R_X86_64_PC64
}

/// The number of bytes a relocation of the given supported type writes.
pub open spec fn spec_relocation_width(typ: u32) -> int {
    if typ == R_X86_64_64 || typ == R_X86_64_PC64 {
        8
    } else {
        4
    }
}

/// The sum of two 64-bit values, wrapping around.
pub open spec fn wrap_add(a: u64, b: u64) -> u64 {
    if a + b > u64::MAX {
        (a + b - 0x1_0000_0000_0000_0000) as u64
    } else {
        (a + b) as u64
    }
}

/// The difference of two 64-bit values, wrapping around.
pub open spec fn wrap_sub(a: u64, b: u64) -> u64 {
    if a - b < 0 {
        (a - b + 0x1_0000_0000_0000_0000) as u64
    } else {
        (a - b) as u64
    }
}

/// The four little-endian bytes of the low 32 bits of `v`.
pub open spec fn spec_u32_le(v: u64) -> Seq<u8> {
    seq![
        (v % 256) as u8,
        ((v / 256) % 256) as u8,
        ((v / 65536) % 256) as u8,
        ((v / 16777216) % 256) as u8,
    ]
}

/// The eight little-endian bytes of `v`.
pub open spec fn spec_u64_le(v: u64) -> Seq<u8> {
    seq![
        (v % 256) as u8,
        ((v / 256) % 256) as u8,
        ((v / 65536) % 256) as u8,
        ((v / 16777216) % 256) as u8,
        ((v / 0x1_0000_0000) % 256) as u8,
        ((v / 0x100_0000_0000) % 256) as u8,
        ((v / 0x1_0000_0000_0000) % 256) as u8,
        ((v / 0x100_0000_0000_0000) % 256) as u8,
    ]
}

/// The raw 64-bit value a relocation computes before truncation to its
/// width: the source address plus the addend, minus the target location's
/// own address for PC-relative types; all arithmetic wraps.
pub open spec fn spec_relocation_value(entry: RelocationEntry, source: u64, target_ptr: u64) -> u64 {
    if entry.typ == R_X86_64_32 || entry.typ == R_X86_64_64 {
        wrap_add(source, entry.addend)
    } else {
        wrap_sub(wrap_add(source, entry.addend), target_ptr)
    }
}

/// The bytes a supported relocation writes at its target location.
pub open spec fn spec_relocation_bytes(entry: RelocationEntry, source: u64, target_ptr: u64) -> Seq<
    u8,
> {
    if spec_relocation_width(entry.typ) == 8 {
        spec_u64_le(spec_relocation_value(entry, source, target_ptr))
    } else {
        spec_u32_le(spec_relocation_value(entry, source, target_ptr))
    }
}

/// The four little-endian bytes of the low 32 bits of `v`.
fn u32_le_bytes(v: u64) -> (r: Vec<u8>)
    ensures
        r@ == spec_u32_le(v),
{
    let mut out: Vec<u8> = Vec::new();
    out.push((v % 256) as u8);
    out.push(((v / 256) % 256) as u8);
    out.push(((v / 65536) % 256) as u8);
    out.push(((v / 16777216) % 256) as u8);
    proof {
        assert(out@ =~= spec_u32_le(v));
    }
    out
}

/// The eight little-endian bytes of `v`.
fn u64_le_bytes(v: u64) -> (r: Vec<u8>)
    ensures
        r@ == spec_u64_le(v),
{
    let mut out: Vec<u8> = Vec::new();
    out.push((v % 256) as u8);
    out.push(((v / 256) % 256) as u8);
    out.push(((v / 65536) % 256) as u8);
    out.push(((v / 16777216) % 256) as u8);
    out.push(((v / 0x1_0000_0000) % 256) as u8);
    out.push(((v / 0x100_0000_0000) % 256) as u8);
    out.push(((v / 0x1_0000_0000_0000) % 256) as u8);
    out.push(((v / 0x100_0000_0000_0000) % 256) as u8);
    proof {
        assert(out@ =~= spec_u64_le(v));
    }
    out
}

/// Writes one relocation into a target mapped region: at byte offset
/// `target_sec_mapped_pages_offset + entry.offset` the computed value is
/// stored little-endian, 4 or 8 bytes wide by type, and every other byte
/// of the region is untouched. PC-relative types subtract the virtual
/// address of the written location itself. The target must be writable;
/// an unknown type is refused with `UnsupportedRelocation` (such crates
/// must be compiled with the large code model).
#[verifier::rlimit(60)]
pub fn write_relocation(
    relocation_entry: RelocationEntry,
    target_sec_mapped_pages: &mut MappedPages,
    target_sec_mapped_pages_offset: usize,
    source_sec_vaddr: VirtualAddress,
) -> (r: Result<(), MemError>)
    requires
        old(target_sec_mapped_pages).wf(),
        target_sec_mapped_pages_offset + relocation_entry.offset <= usize::MAX,
    ensures
        final(target_sec_mapped_pages).wf(),
        final(target_sec_mapped_pages).spec_pages() == old(target_sec_mapped_pages).spec_pages(),
        final(target_sec_mapped_pages).spec_flags() == old(target_sec_mapped_pages).spec_flags(),
        final(target_sec_mapped_pages).spec_p4() == old(target_sec_mapped_pages).spec_p4(),
        ({
            let to = target_sec_mapped_pages_offset + relocation_entry.offset;
            let width = spec_relocation_width(relocation_entry.typ);
            let target_ptr = (old(
                target_sec_mapped_pages,
            ).spec_pages().spec_start().spec_number() * 4096 + to) as u64;
            let bytes = spec_relocation_bytes(
                relocation_entry,
                source_sec_vaddr.value(),
                target_ptr,
            );
            match r {
                Ok(_) => {
                    &&& spec_supported_relocation(relocation_entry.typ)
                    &&& old(target_sec_mapped_pages).spec_flags().spec_is_writable()
                    &&& to + width <= old(target_sec_mapped_pages).spec_bytes().len()
                    &&& final(target_sec_mapped_pages).spec_bytes().len() == old(
                        target_sec_mapped_pages,
                    ).spec_bytes().len()
                    &&& forall|j: int|
                        to <= j < to + width ==> final(target_sec_mapped_pages).spec_bytes()[j]
                            == bytes[j - to]
                    &&& forall|j: int|
                        0 <= j < old(target_sec_mapped_pages).spec_bytes().len() && !(to <= j < to
                            + width) ==> final(target_sec_mapped_pages).spec_bytes()[j] == old(
                            target_sec_mapped_pages,
                        ).spec_bytes()[j]
                },
                Err(e) => {
                    &&& *final(target_sec_mapped_pages) == *old(target_sec_mapped_pages)
                    &&& (e == MemError::UnsupportedRelocation || e == MemError::NotWritable || e
                        == MemError::OutOfBounds)
                    &&& (e == MemError::UnsupportedRelocation <==> !spec_supported_relocation(
                        relocation_entry.typ,
                    ))
                    &&& (e == MemError::NotWritable <==> spec_supported_relocation(
                        relocation_entry.typ,
                    ) && !old(target_sec_mapped_pages).spec_flags().spec_is_writable())
                    &&& (e == MemError::OutOfBounds <==> spec_supported_relocation(
                        relocation_entry.typ,
                    ) && old(target_sec_mapped_pages).spec_flags().spec_is_writable() && to + width
                        > old(target_sec_mapped_pages).spec_bytes().len())
                },
            }
        }),
{
    let typ = relocation_entry.typ;
    if !(typ == R_X86_64_32 || typ == R_X86_64_64 || typ == R_X86_64_PC32 || typ == R_X86_64_PLT32
        || typ == R_X86_64_PC64) {
        return Err(MemError::UnsupportedRelocation);
    }
    let width: usize = if typ == R_X86_64_64 || typ == R_X86_64_PC64 {
        8
    } else {
        4
    };
    if !target_sec_mapped_pages.flags().is_writable() {
        return Err(MemError::NotWritable);
    }
    let target_offset = target_sec_mapped_pages_offset + (relocation_entry.offset as usize);
    let len = target_sec_mapped_pages.size_in_bytes();
    if width > len || target_offset > len - width {
        return Err(MemError::OutOfBounds);
    }
    let base = target_sec_mapped_pages.start_address();
    let target_ptr = base.value() + (target_offset as u64);
    proof {
        assert(old(target_sec_mapped_pages).spec_pages().spec_size_in_pages() > 0);
    }
    let source_val = if typ == R_X86_64_32 || typ == R_X86_64_64 {
        source_sec_vaddr.value().wrapping_add(relocation_entry.addend)
    } else {
        source_sec_vaddr.value().wrapping_add(relocation_entry.addend).wrapping_sub(target_ptr)
    };
    let bytes = if width == 8 {
        u64_le_bytes(source_val)
    } else {
        u32_le_bytes(source_val)
    };
    match target_sec_mapped_pages.as_type_mut(target_offset, bytes.as_slice()) {
        Ok(()) => Ok(()),
        Err(_) => {
            proof {
                assert(false);
            }
            Err(MemError::OutOfBounds)
        },
    }
}

} // verus!
