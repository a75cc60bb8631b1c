//! Metadata about loaded crates and their sections: the object-file naming
//! convention, the section kinds, the strong/weak dependency graph, and the
//! deep copy of a whole crate.
//!
//! Sections and crates live in a `CrateStore` arena: a section names its
//! parent crate, its shared mapped region and its dependencies by index.
//! Strong dependencies keep their target alive; weak dependents are the
//! back-references that make replacement possible.

use vstd::prelude::*;

use crate::allocation::{FrameAllocator, PageAllocator};
use crate::error::MemError;
use crate::flags::EntryFlags;
use crate::addr::{sat_add, sign_extend_47, VirtualAddress};
use crate::mapper::{MappedPages, Mapper};
use crate::reloc::RelocationEntry;

verus! {

/// The error kinds of parsing a crate object file's module name.
#[derive(Clone, Copy, Debug, PartialEq, Eq, Structural)]
pub enum CrateNameError {
    /// The name holds no `#` delimiter at all.
    MissingDelimiter,
    /// The name holds more than one `#` delimiter.
    ExtraDelimiter,
    /// The prefix before the delimiter does not begin with a known crate
    /// type letter.
    UnknownPrefix,
}

/// The type of a crate, based on its object file naming convention
/// `<c><namespace>#<name>.o`, where `<c>` is `k`, `a` or `u`.
#[derive(Clone, Copy, Debug, PartialEq, Eq, Structural)]
pub enum CrateType {
    Kernel,
    Application,
    Userspace,
}

/// Whether a module name is well formed: exactly one `#`, not at the
/// start, and a first character naming a known crate type.
pub open spec fn spec_module_name_ok(s: Seq<char>) -> bool {
    exists|i: int|
        {
            &&& 1 <= i < s.len()
            &&& #[trigger] s[i] == '#'
            &&& forall|j: int| 0 <= j < s.len() && j != i ==> s[j] != '#'
            &&& (s[0] == 'k' || s[0] == 'a' || s[0] == 'u')
        }
}

/// The crate type a well-formed module name's first character selects.
pub open spec fn spec_crate_type_of(c: char) -> CrateType {
    if c == 'k' {
        CrateType::Kernel
    } else if c == 'a' {
        CrateType::Application
    } else {
        CrateType::Userspace
    }
}

impl CrateType {
    /// The one-character prefix of object files of this crate type.
    fn first_char(&self) -> (r: &'static str)
        ensures
            self == CrateType::Kernel ==> r@ == seq!['k'],
            self == CrateType::Application ==> r@ == seq!['a'],
            self == CrateType::Userspace ==> r@ == seq!['u'],
    {
        proof {
            reveal_strlit("k");
            reveal_strlit("a");
            reveal_strlit("u");
        }
        match self {
            CrateType::Kernel => "k",
            CrateType::Application => "a",
            CrateType::Userspace => "u",
        }
    }

    /// Returns the string suffix used as the name of the crate object
    /// file's containing namespace.
    pub fn default_namespace_name(&self) -> (r: &'static str)
        ensures
            self == CrateType::Kernel ==> r@ =~= "_kernel"@,
            self == CrateType::Application ==> r@ =~= "_applications"@,
            self == CrateType::Userspace ==> r@ =~= "_userspace"@,
    {
        match self {
            CrateType::Kernel => "_kernel",
            CrateType::Application => "_applications",
            CrateType::Userspace => "_userspace",
        }
    }

    /// Parses `module_name` of the form `<c><namespace>#<name>`: the crate
    /// type from the first character, the namespace prefix between it and
    /// the single `#`, and the rest after the `#`. A name without a `#`, a
    /// name with a second `#`, and a prefix that does not start with a
    /// known crate type letter are each rejected.
    pub fn from_module_name(module_name: &str) -> (r: Result<
        (CrateType, String, String),
        CrateNameError,
    >)
        ensures
            r is Ok <==> spec_module_name_ok(module_name@),
            match r {
                Ok((t, ns, name)) => {
                    let s = module_name@;
                    let i = ns@.len() as int + 1;
                    &&& 1 <= i < s.len()
                    &&& s[i] == '#'
                    &&& forall|j: int| 0 <= j < s.len() && j != i ==> s[j] != '#'
                    &&& (s[0] == 'k' || s[0] == 'a' || s[0] == 'u')
                    &&& t == spec_crate_type_of(s[0])
                    &&& ns@ == s.subrange(1, i)
                    &&& name@ == s.subrange(i + 1, s.len() as int)
                },
                Err(e) => {
                    let s = module_name@;
                    &&& (e == CrateNameError::MissingDelimiter <==> forall|j: int|
                        0 <= j < s.len() ==> s[j] != '#')
                },
            },
    {
        let len = module_name.unicode_len();
        let mut i: usize = 0;
        while i < len && module_name.get_char(i) != '#'
            invariant
                i <= len,
                len == module_name@.len(),
                forall|j: int| 0 <= j < i ==> module_name@[j] != '#',
            decreases len - i,
        {
            i = i + 1;
        }
        if i == len {
            proof {
                assert forall|i2: int|
                    !(1 <= i2 < module_name@.len() && #[trigger] module_name@[i2] == '#'
                        && (forall|j2: int|
                        0 <= j2 < module_name@.len() && j2 != i2 ==> module_name@[j2] != '#')
                        && (module_name@[0] == 'k' || module_name@[0] == 'a' || module_name@[0]
                        == 'u')) by {}
            }
            return Err(CrateNameError::MissingDelimiter);
        }
        let fh = i;
        let mut j: usize = fh + 1;
        while j < len
            invariant
                fh < j <= len,
                len == module_name@.len(),
                module_name@[fh as int] == '#',
                forall|k: int| 0 <= k < fh ==> module_name@[k] != '#',
                forall|k: int| fh < k < j ==> module_name@[k] != '#',
            decreases len - j,
        {
            if module_name.get_char(j) == '#' {
                proof {
                    assert forall|i2: int|
                        !(1 <= i2 < module_name@.len() && #[trigger] module_name@[i2] == '#'
                            && (forall|j2: int|
                            0 <= j2 < module_name@.len() && j2 != i2 ==> module_name@[j2] != '#')
                            && (module_name@[0] == 'k' || module_name@[0] == 'a'
                            || module_name@[0] == 'u')) by {
                        if 1 <= i2 < module_name@.len() && module_name@[i2] == '#' {
                            if i2 == fh {
                                assert(module_name@[j as int] == '#');
                            } else {
                                assert(module_name@[fh as int] == '#');
                            }
                        }
                    }
                }
                return Err(CrateNameError::ExtraDelimiter);
            }
            j = j + 1;
        }
        if fh == 0 {
            proof {
                assert forall|i2: int|
                    !(1 <= i2 < module_name@.len() && #[trigger] module_name@[i2] == '#'
                        && (forall|j2: int|
                        0 <= j2 < module_name@.len() && j2 != i2 ==> module_name@[j2] != '#')
                        && (module_name@[0] == 'k' || module_name@[0] == 'a' || module_name@[0]
                        == 'u')) by {
                    if 1 <= i2 < module_name@.len() && module_name@[i2] == '#' {
                        assert(module_name@[0] == '#');
                        assert(i2 == 0 || module_name@[0] != '#');
                    }
                }
            }
            return Err(CrateNameError::UnknownPrefix);
        }
        let c0 = module_name.get_char(0);
        if !(c0 == 'k' || c0 == 'a' || c0 == 'u') {
            proof {
                assert forall|i2: int|
                    !(1 <= i2 < module_name@.len() && #[trigger] module_name@[i2] == '#'
                        && (forall|j2: int|
                        0 <= j2 < module_name@.len() && j2 != i2 ==> module_name@[j2] != '#')
                        && (module_name@[0] == 'k' || module_name@[0] == 'a' || module_name@[0]
                        == 'u')) by {}
            }
            return Err(CrateNameError::UnknownPrefix);
        }
        let typ = if c0 == 'k' {
            CrateType::Kernel
        } else if c0 == 'a' {
            CrateType::Application
        } else {
            CrateType::Userspace
        };
        let namespace_prefix = module_name.substring_char(1, fh).to_owned();
        let crate_name = module_name.substring_char(fh + 1, len).to_owned();
        proof {
            let s = module_name@;
            assert(1 <= fh < s.len() && s[fh as int] == '#' && (forall|j2: int|
                0 <= j2 < s.len() && j2 != fh ==> s[j2] != '#') && (s[0] == 'k' || s[0] == 'a'
                || s[0] == 'u'));
            assert(spec_module_name_ok(s));
            assert(namespace_prefix@.len() == fh - 1);
        }
        Ok((typ, namespace_prefix, crate_name))
    }

    /// Returns true when the given module name indicates an application
    /// crate: it starts with `a`.
    pub fn is_application(module_name: &str) -> (r: bool)
        ensures
            r == (module_name@.len() > 0 && module_name@[0] == 'a'),
    {
        if module_name.unicode_len() == 0 {
            return false;
        }
        module_name.get_char(0) == 'a'
    }

    /// Returns true when the given module name indicates a kernel crate:
    /// it starts with `k`.
    pub fn is_kernel(module_name: &str) -> (r: bool)
        ensures
            r == (module_name@.len() > 0 && module_name@[0] == 'k'),
    {
        if module_name.unicode_len() == 0 {
            return false;
        }
        module_name.get_char(0) == 'k'
    }

    /// Returns true when the given module name indicates a userspace
    /// crate: it starts with `u`.
    pub fn is_userspace(module_name: &str) -> (r: bool)
        ensures
            r == (module_name@.len() > 0 && module_name@[0] == 'u'),
    {
        if module_name.unicode_len() == 0 {
            return false;
        }
        module_name.get_char(0) == 'u'
    }
}

/// The possible types of sections that can be loaded from a crate object
/// file. Text sections are executable read-only; Rodata, GccExceptTable
/// and EhFrame are read-only; Data and Bss are read-write.
#[derive(Clone, Copy, Debug, PartialEq, Eq, Structural)]
pub enum SectionType {
    Text,
    Rodata,
    Data,
    Bss,
    /// The `.gcc_except_table` landing pads for exception handling.
    GccExceptTable,
    /// The `.eh_frame` stack unwinding information.
    EhFrame,
}

} // verus!

verus! {

/// Whether positions `i..i+3` of `s` hold the hash delimiter `::h` that
/// separates a section name from its trailing hash.
pub open spec fn spec_hash_marker_at(s: Seq<char>, i: int) -> bool {
    &&& 0 <= i
    &&& i + 3 <= s.len()
    &&& s[i] == ':'
    &&& s[i + 1] == ':'
    &&& s[i + 2] == 'h'
}

/// Whether two strings hold the same characters.
pub fn str_eq_chars(a: &str, b: &str) -> (r: bool)
    ensures
        r == (a@ == b@),
{
    let la = a.unicode_len();
    let lb = b.unicode_len();
    if la != lb {
        return false;
    }
    let mut i: usize = 0;
    while i < la
        invariant
            la == a@.len(),
            la == b@.len(),
            i <= la,
            forall|j: int| 0 <= j < i ==> a@[j] == b@[j],
        decreases la - i,
    {
        if a.get_char(i) != b.get_char(i) {
            return false;
        }
        i = i + 1;
    }
    proof {
        assert(a@ =~= b@);
    }
    true
}

/// `.text` sections are read-only and executable.
pub fn text_section_flags() -> (r: EntryFlags)
    ensures
        r == (EntryFlags { present: true, writable: false, huge: false, no_execute: false }),
{
    EntryFlags::present()
}

/// `.rodata` sections are read-only and non-executable.
pub fn rodata_section_flags() -> (r: EntryFlags)
    ensures
        r == (EntryFlags { present: true, writable: false, huge: false, no_execute: true }),
{
    EntryFlags::present().or(EntryFlags::no_execute())
}

/// `.data` and `.bss` sections are read-write and non-executable.
pub fn data_bss_section_flags() -> (r: EntryFlags)
    ensures
        r == (EntryFlags { present: true, writable: true, huge: false, no_execute: true }),
{
    EntryFlags::present().or(EntryFlags::writable()).or(EntryFlags::no_execute())
}

/// A representation that the owner of this struct depends on the given
/// section: a strong edge that keeps the target alive.
#[derive(Clone, Copy, Debug, PartialEq, Eq, Structural)]
pub struct StrongDependency {
    /// The arena index of the section depended on.
    pub section: usize,
    /// The details of the relocation action that was performed.
    pub relocation: RelocationEntry,
}

/// A representation that the given section depends on the owner of this
/// struct: a weak back-edge used to find dependents for replacement.
#[derive(Clone, Copy, Debug, PartialEq, Eq, Structural)]
pub struct WeakDependent {
    /// The arena index of the dependent section.
    pub section: usize,
    /// The details of the relocation action that was performed.
    pub relocation: RelocationEntry,
}

/// A dependency between two sections of the same crate, recorded by the
/// source section's index in the crate's ELF file so that a deep copy can
/// faithfully reconstruct relocations without reparsing the object file.
#[derive(Clone, Copy, Debug, PartialEq, Eq, Structural)]
pub struct InternalDependency {
    /// The details of the relocation action that was performed.
    pub relocation: RelocationEntry,
    /// The ELF section header index of the source section.
    pub source_sec_shndx: usize,
}

impl InternalDependency {
    /// Builds an internal dependency from its parts.
    pub fn new(relocation: RelocationEntry, source_sec_shndx: usize) -> (r: InternalDependency)
        ensures
            r.relocation == relocation,
            r.source_sec_shndx == source_sec_shndx,
    {
        InternalDependency { relocation, source_sec_shndx }
    }
}

/// A section that has been loaded and is part of a loaded crate. It lies
/// wholly inside one shared mapped region of its parent crate, named by
/// arena index.
#[derive(Debug)]
pub struct LoadedSection {
    /// The type of this section.
    pub typ: SectionType,
    /// The full name of this section, a fully qualified symbol.
    pub name: String,
    /// The arena index of the mapped region that covers this section.
    pub mapped_pages: usize,
    /// The offset into the mapped region where this section starts.
    pub mapped_pages_offset: usize,
    /// The starting virtual address of this section.
    pub virt_addr: VirtualAddress,
    /// The size of this section in bytes.
    pub size: usize,
    /// Whether this section's symbol is exported globally.
    pub global: bool,
    /// The arena index of the crate that owns this section.
    pub parent_crate: usize,
    /// The strong dependencies of this section: sections it requires,
    /// which must outlive it.
    pub sections_i_depend_on: Vec<StrongDependency>,
    /// The weak dependents of this section: sections that require it, kept
    /// as back-references so they can be found and rewritten.
    pub sections_dependent_on_me: Vec<WeakDependent>,
    /// The in-crate dependencies of this section, for reconstructing
    /// relocations on deep copy.
    pub internal_dependencies: Vec<InternalDependency>,
}

impl LoadedSection {
    /// Creates a new section with empty dependency lists.
    pub fn new(
        typ: SectionType,
        name: String,
        mapped_pages: usize,
        mapped_pages_offset: usize,
        virt_addr: VirtualAddress,
        size: usize,
        global: bool,
        parent_crate: usize,
    ) -> (r: LoadedSection)
        ensures
            r.typ == typ,
            r.name == name,
            r.mapped_pages == mapped_pages,
            r.mapped_pages_offset == mapped_pages_offset,
            r.virt_addr == virt_addr,
            r.size == size,
            r.global == global,
            r.parent_crate == parent_crate,
            r.sections_i_depend_on@.len() == 0,
            r.sections_dependent_on_me@.len() == 0,
            r.internal_dependencies@.len() == 0,
    {
        LoadedSection::with_dependencies(
            typ,
            name,
            mapped_pages,
            mapped_pages_offset,
            virt_addr,
            size,
            global,
            parent_crate,
            Vec::new(),
            Vec::new(),
            Vec::new(),
        )
    }

    /// Creates a new section with the given dependency lists.
    pub fn with_dependencies(
        typ: SectionType,
        name: String,
        mapped_pages: usize,
        mapped_pages_offset: usize,
        virt_addr: VirtualAddress,
        size: usize,
        global: bool,
        parent_crate: usize,
        sections_i_depend_on: Vec<StrongDependency>,
        sections_dependent_on_me: Vec<WeakDependent>,
        internal_dependencies: Vec<InternalDependency>,
    ) -> (r: LoadedSection)
        ensures
            r.typ == typ,
            r.name == name,
            r.mapped_pages == mapped_pages,
            r.mapped_pages_offset == mapped_pages_offset,
            r.virt_addr == virt_addr,
            r.size == size,
            r.global == global,
            r.parent_crate == parent_crate,
            r.sections_i_depend_on == sections_i_depend_on,
            r.sections_dependent_on_me == sections_dependent_on_me,
            r.internal_dependencies == internal_dependencies,
    {
        LoadedSection {
            typ,
            name,
            mapped_pages,
            mapped_pages_offset,
            virt_addr,
            size,
            global,
            parent_crate,
            sections_i_depend_on,
            sections_dependent_on_me,
            internal_dependencies,
        }
    }

    /// Returns the starting virtual address of this section.
    pub fn start_address(&self) -> (r: VirtualAddress)
        ensures
            r == self.virt_addr,
    {
        self.virt_addr
    }

    /// Returns the size in bytes of this section.
    pub fn size(&self) -> (r: usize)
        ensures
            r == self.size,
    {
        self.size
    }

    /// Returns the type of this section.
    pub fn get_type(&self) -> (r: SectionType)
        ensures
            r == self.typ,
    {
        self.typ
    }

    /// Returns this section's name with the trailing hash cut off, but
    /// with the hash delimiter kept.
    pub fn name_without_hash(&self) -> (r: String)
        ensures
            (forall|i: int| !spec_hash_marker_at(self.name@, i)) ==> r@ == self.name@,
            (exists|i: int| spec_hash_marker_at(self.name@, i)) ==> {
                let i = r@.len() - 3;
                &&& spec_hash_marker_at(self.name@, i)
                &&& r@ == self.name@.subrange(0, i + 3)
                &&& forall|j: int| j > i ==> !spec_hash_marker_at(self.name@, j)
            },
    {
        LoadedSection::section_name_without_hash(self.name.as_str())
    }

    /// Returns the given section name with the trailing hash cut off: the
    /// prefix through the last occurrence of the hash delimiter `::h`, or
    /// the whole name when no delimiter occurs.
    pub fn section_name_without_hash(sec_name: &str) -> (r: String)
        ensures
            (forall|i: int| !spec_hash_marker_at(sec_name@, i)) ==> r@ == sec_name@,
            (exists|i: int| spec_hash_marker_at(sec_name@, i)) ==> {
                let i = r@.len() - 3;
                &&& spec_hash_marker_at(sec_name@, i)
                &&& r@ == sec_name@.subrange(0, i + 3)
                &&& forall|j: int| j > i ==> !spec_hash_marker_at(sec_name@, j)
            },
    {
        let len = sec_name.unicode_len();
        if len < 3 {
            return sec_name.to_owned();
        }
        let mut i: usize = len - 2;
        while i > 0
            invariant
                len == sec_name@.len(),
                len >= 3,
                i <= len - 2,
                forall|j: int| j > i - 1 ==> !spec_hash_marker_at(sec_name@, j),
            decreases i,
        {
            i = i - 1;
            if sec_name.get_char(i) == ':' && sec_name.get_char(i + 1) == ':' && sec_name.get_char(
                i + 2,
            ) == 'h' {
                let r = sec_name.substring_char(0, i + 3).to_owned();
                proof {
                    assert(spec_hash_marker_at(sec_name@, i as int));
                }
                return r;
            }
        }
        sec_name.to_owned()
    }

    /// Returns the index of the first weak dependent whose section matches
    /// the given arena index.
    pub fn find_weak_dependent(&self, matching_section: usize) -> (r: Option<usize>)
        ensures
            match r {
                Some(i) => {
                    &&& i < self.sections_dependent_on_me@.len()
                    &&& self.sections_dependent_on_me@[i as int].section == matching_section
                    &&& forall|j: int|
                        0 <= j < i ==> self.sections_dependent_on_me@[j].section
                            != matching_section
                },
                None => forall|j: int|
                    0 <= j < self.sections_dependent_on_me@.len()
                        ==> self.sections_dependent_on_me@[j].section != matching_section,
            },
    {
        let mut i: usize = 0;
        while i < self.sections_dependent_on_me.len()
            invariant
                i <= self.sections_dependent_on_me@.len(),
                forall|j: int|
                    0 <= j < i ==> self.sections_dependent_on_me@[j].section != matching_section,
            decreases self.sections_dependent_on_me@.len() - i,
        {
            if self.sections_dependent_on_me[i].section == matching_section {
                return Some(i);
            }
            i = i + 1;
        }
        None
    }
}

} // verus!

verus! {

/// The contents of a bss-section name trie: which section index each name
/// maps to.
pub uninterp spec fn trie_entries(t: qp_trie::Trie<qp_trie::wrapper::BString, usize>) -> Map<
    Seq<char>,
    usize,
>;

/// A qp-trie keyed by byte strings, used for the set of `.bss` sections of
/// a crate.
#[verifier::external_type_specification]
#[verifier::external_body]
#[verifier::reject_recursive_types(K)]
#[verifier::reject_recursive_types(V)]
pub struct ExTrie<K, V>(qp_trie::Trie<K, V>);

/// A byte-string key of the bss-section trie.
#[verifier::external_type_specification]
#[verifier::external_body]
pub struct ExBString(qp_trie::wrapper::BString);

/// An empty bss-section trie.
///
/// Relies on `qp_trie::Trie::new`, which creates a trie with no entries.
#[verifier::external_body]
fn bss_trie_new() -> (r: qp_trie::Trie<qp_trie::wrapper::BString, usize>)
    ensures
        trie_entries(r) =~= Map::empty(),
{
    qp_trie::Trie::new()
}

/// Maps `key` to `value` in the bss-section trie.
///
/// Relies on `qp_trie::Trie::insert_str`, which stores the value under the
/// key's bytes, replacing any previous value for that exact key.
#[verifier::external_body]
fn bss_trie_insert(
    t: &mut qp_trie::Trie<qp_trie::wrapper::BString, usize>,
    key: &str,
    value: usize,
)
    ensures
        trie_entries(*final(t)) == trie_entries(*old(t)).insert(key@, value),
{
    t.insert_str(key, value);
}

/// One shared mapped region of a crate: the arena index of its
/// `MappedPages` and the bounds of the virtual addresses it covers.
#[derive(Clone, Copy, Debug, PartialEq, Eq, Structural)]
pub struct CrateRegion {
    /// The arena index of the mapped region.
    pub region: usize,
    /// The first covered virtual address.
    pub start: VirtualAddress,
    /// The virtual address one past the covered range.
    pub end: VirtualAddress,
}

/// A single crate whose object file has been loaded and linked. Its
/// sections live in the store's arena and are listed here keyed by their
/// ELF section header index.
pub struct LoadedCrate {
    /// The name of this crate.
    pub crate_name: String,
    /// The path of the object file this crate was loaded from.
    pub object_file: String,
    /// The sections of this crate: pairs of the section's ELF section
    /// header index and its arena index.
    pub sections: Vec<(usize, usize)>,
    /// The region holding the executable, read-only text sections.
    pub text_pages: Option<CrateRegion>,
    /// The region holding the read-only, non-executable data sections.
    pub rodata_pages: Option<CrateRegion>,
    /// The region holding the writable data and bss sections.
    pub data_pages: Option<CrateRegion>,
    /// The names of the global symbols of this crate.
    pub global_symbols: Vec<String>,
    /// The `.bss` sections of this crate, by name.
    pub bss_sections: qp_trie::Trie<qp_trie::wrapper::BString, usize>,
    /// The names this crate's globals are reexported under.
    pub reexported_symbols: Vec<String>,
}

impl LoadedCrate {
    /// Returns this crate's name with the trailing hash cut off: the
    /// prefix before the first `-`, or the whole name when none occurs.
    pub fn crate_name_without_hash(&self) -> (r: String)
        ensures
            r@.len() <= self.crate_name@.len(),
            forall|j: int| 0 <= j < r@.len() ==> r@[j] == self.crate_name@[j] && r@[j] != '-',
            r@.len() < self.crate_name@.len() ==> self.crate_name@[r@.len() as int] == '-',
    {
        let len = self.crate_name.as_str().unicode_len();
        let mut i: usize = 0;
        while i < len && self.crate_name.as_str().get_char(i) != '-'
            invariant
                i <= len,
                len == self.crate_name@.len(),
                forall|j: int| 0 <= j < i ==> self.crate_name@[j] != '-',
            decreases len - i,
        {
            i = i + 1;
        }
        let r = self.crate_name.as_str().substring_char(0, i).to_owned();
        r
    }

    /// Returns this crate's name as a symbol prefix: the name without its
    /// hash, followed by `::`.
    pub fn crate_name_as_prefix(&self) -> (r: String)
        ensures
            r@.len() >= 2,
            r@[r@.len() - 2] == ':' && r@[r@.len() - 1] == ':',
            forall|j: int|
                0 <= j < r@.len() - 2 ==> r@[j] == self.crate_name@[j] && r@[j] != '-',
    {
        let mut r = self.crate_name_without_hash();
        proof {
            reveal_strlit("::");
        }
        r.append("::");
        r
    }
}

/// The arena that holds loaded crates, their sections, and the mapped
/// regions the sections share. Sections and crates refer to one another by
/// index; a strong dependency edge names a section that must stay, a weak
/// dependent edge names a section that may go first.
pub struct CrateStore {
    /// The loaded crates.
    pub crates: Vec<LoadedCrate>,
    /// The sections of all crates.
    pub sections: Vec<LoadedSection>,
    /// The mapped regions that sections share.
    pub regions: Vec<MappedPages>,
}

impl CrateStore {
    /// Whether one crate's references into the store are within bounds.
    pub open spec fn crate_wf(self, c: LoadedCrate) -> bool {
        &&& forall|k: int|
            0 <= k < c.sections@.len() ==> (#[trigger] c.sections@[k]).1 < self.sections@.len()
        &&& c.text_pages matches Some(cr) ==> cr.region < self.regions@.len()
            && self.regions@[cr.region as int].wf()
            && self.regions@[cr.region as int].spec_pages().spec_size_in_pages() > 0
        &&& c.rodata_pages matches Some(cr) ==> cr.region < self.regions@.len()
            && self.regions@[cr.region as int].wf()
            && self.regions@[cr.region as int].spec_pages().spec_size_in_pages() > 0
        &&& c.data_pages matches Some(cr) ==> cr.region < self.regions@.len()
            && self.regions@[cr.region as int].wf()
            && self.regions@[cr.region as int].spec_pages().spec_size_in_pages() > 0
    }

    /// The well-formedness of the whole store: every index held by a crate
    /// or a section stays within the arena, and every region is well
    /// formed.
    pub open spec fn wf(self) -> bool {
        &&& forall|c: int| 0 <= c < self.crates@.len() ==> self.crate_wf(#[trigger] self.crates@[c])
        &&& forall|s: int|
            0 <= s < self.sections@.len() ==> {
                let sec = #[trigger] self.sections@[s];
                &&& sec.parent_crate < self.crates@.len()
                &&& sec.mapped_pages < self.regions@.len()
                &&& forall|d: int|
                    0 <= d < sec.sections_i_depend_on@.len() ==> (#[trigger] sec.sections_i_depend_on@[d]).section
                        < self.sections@.len()
                &&& forall|d: int|
                    0 <= d < sec.sections_dependent_on_me@.len()
                        ==> (#[trigger] sec.sections_dependent_on_me@[d]).section
                        < self.sections@.len()
            }
        &&& forall|r: int| 0 <= r < self.regions@.len() ==> (#[trigger] self.regions@[r]).wf()
    }

    /// An empty store.
    pub fn new() -> (r: CrateStore)
        ensures
            r.crates@.len() == 0,
            r.sections@.len() == 0,
            r.regions@.len() == 0,
            r.wf(),
    {
        CrateStore { crates: Vec::new(), sections: Vec::new(), regions: Vec::new() }
    }

    /// Adds a mapped region to the arena, returning its index.
    pub fn add_region(&mut self, region: MappedPages) -> (r: usize)
        requires
            old(self).wf(),
            region.wf(),
        ensures
            final(self).wf(),
            r == old(self).regions@.len(),
            final(self).regions@ == old(self).regions@.push(region),
            final(self).crates@ == old(self).crates@,
            final(self).sections@ == old(self).sections@,
    {
        let r = self.regions.len();
        self.regions.push(region);
        proof {
            assert forall|c: int|
                0 <= c < self.crates@.len() implies self.crate_wf(#[trigger] self.crates@[c]) by {
                assert(old(self).crate_wf(old(self).crates@[c]));
            }
        }
        r
    }

    /// Adds a section to the arena, returning its index.
    pub fn add_section(&mut self, section: LoadedSection) -> (r: usize)
        requires
            old(self).wf(),
            section.parent_crate < old(self).crates@.len(),
            section.mapped_pages < old(self).regions@.len(),
            forall|d: int|
                0 <= d < section.sections_i_depend_on@.len()
                    ==> (#[trigger] section.sections_i_depend_on@[d]).section < old(self).sections@.len(),
            forall|d: int|
                0 <= d < section.sections_dependent_on_me@.len()
                    ==> (#[trigger] section.sections_dependent_on_me@[d]).section < old(self).sections@.len(),
        ensures
            final(self).wf(),
            r == old(self).sections@.len(),
            final(self).sections@ == old(self).sections@.push(section),
            final(self).crates@ == old(self).crates@,
            final(self).regions@ == old(self).regions@,
    {
        let r = self.sections.len();
        self.sections.push(section);
        proof {
            assert forall|c: int|
                0 <= c < self.crates@.len() implies self.crate_wf(#[trigger] self.crates@[c]) by {
                assert(old(self).crate_wf(old(self).crates@[c]));
            }
        }
        r
    }

    /// Adds a crate to the arena, returning its index.
    pub fn add_crate(&mut self, krate: LoadedCrate) -> (r: usize)
        requires
            old(self).wf(),
            old(self).crate_wf(krate),
        ensures
            final(self).wf(),
            r == old(self).crates@.len(),
            final(self).crates@ == old(self).crates@.push(krate),
            final(self).sections@ == old(self).sections@,
            final(self).regions@ == old(self).regions@,
    {
        let r = self.crates.len();
        self.crates.push(krate);
        proof {
            assert forall|c: int|
                0 <= c < self.crates@.len() implies self.crate_wf(#[trigger] self.crates@[c]) by {
                if c < old(self).crates@.len() {
                    assert(old(self).crate_wf(old(self).crates@[c]));
                } else {
                    assert(old(self).crate_wf(krate));
                }
            }
        }
        r
    }

    /// Returns the arena index of the first section of the given crate of
    /// type Text whose name matches the requested function name. Only
    /// demangled names match.
    pub fn get_function_section(&self, crate_idx: usize, func_name: &str) -> (r: Option<usize>)
        requires
            self.wf(),
            crate_idx < self.crates@.len(),
        ensures
            match r {
                Some(idx) => {
                    &&& idx < self.sections@.len()
                    &&& self.sections@[idx as int].typ == SectionType::Text
                    &&& self.sections@[idx as int].name@ == func_name@
                    &&& exists|k: int|
                        0 <= k < self.crates@[crate_idx as int].sections@.len()
                            && (#[trigger] self.crates@[crate_idx as int].sections@[k]).1 == idx
                },
                None => forall|k: int|
                    0 <= k < self.crates@[crate_idx as int].sections@.len() ==> {
                        let idx = (#[trigger] self.crates@[crate_idx as int].sections@[k]).1;
                        self.sections@[idx as int].typ != SectionType::Text
                            || self.sections@[idx as int].name@ != func_name@
                    },
            },
    {
        let n = self.crates[crate_idx].sections.len();
        let mut k: usize = 0;
        while k < n
            invariant
                self.wf(),
                crate_idx < self.crates@.len(),
                n == self.crates@[crate_idx as int].sections@.len(),
                k <= n,
                forall|j: int|
                    0 <= j < k ==> {
                        let idx = (#[trigger] self.crates@[crate_idx as int].sections@[j]).1;
                        self.sections@[idx as int].typ != SectionType::Text
                            || self.sections@[idx as int].name@ != func_name@
                    },
            decreases n - k,
        {
            let idx = self.crates[crate_idx].sections[k].1;
            let sec = &self.sections[idx];
            if sec.typ == SectionType::Text && str_eq_chars(sec.name.as_str(), func_name) {
                return Some(idx);
            }
            k = k + 1;
        }
        None
    }

    /// Returns the parent crates of the sections that depend on sections
    /// of the given crate: one entry per weak dependent edge, duplicates
    /// included.
    pub fn crates_dependent_on_me(&self, crate_idx: usize) -> (r: Vec<usize>)
        requires
            self.wf(),
            crate_idx < self.crates@.len(),
        ensures
            forall|i: int| 0 <= i < r@.len() ==> (#[trigger] r@[i]) < self.crates@.len(),
    {
        let mut results: Vec<usize> = Vec::new();
        let n = self.crates[crate_idx].sections.len();
        let mut k: usize = 0;
        while k < n
            invariant
                self.wf(),
                crate_idx < self.crates@.len(),
                n == self.crates@[crate_idx as int].sections@.len(),
                k <= n,
                forall|i: int| 0 <= i < results@.len() ==> (#[trigger] results@[i]) < self.crates@.len(),
            decreases n - k,
        {
            let idx = self.crates[crate_idx].sections[k].1;
            let deps_len = self.sections[idx].sections_dependent_on_me.len();
            let mut d: usize = 0;
            while d < deps_len
                invariant
                    self.wf(),
                    crate_idx < self.crates@.len(),
                    idx < self.sections@.len(),
                    deps_len == self.sections@[idx as int].sections_dependent_on_me@.len(),
                    d <= deps_len,
                    forall|i: int|
                        0 <= i < results@.len() ==> (#[trigger] results@[i]) < self.crates@.len(),
                decreases deps_len - d,
            {
                let dep_sec = self.sections[idx].sections_dependent_on_me[d].section;
                results.push(self.sections[dep_sec].parent_crate);
                d = d + 1;
            }
            k = k + 1;
        }
        results
    }

    /// Returns the parent crates of the sections that sections of the
    /// given crate depend on: one entry per strong dependency edge,
    /// duplicates included. Only direct dependencies are listed.
    pub fn crates_i_depend_on(&self, crate_idx: usize) -> (r: Vec<usize>)
        requires
            self.wf(),
            crate_idx < self.crates@.len(),
        ensures
            forall|i: int| 0 <= i < r@.len() ==> (#[trigger] r@[i]) < self.crates@.len(),
    {
        let mut results: Vec<usize> = Vec::new();
        let n = self.crates[crate_idx].sections.len();
        let mut k: usize = 0;
        while k < n
            invariant
                self.wf(),
                crate_idx < self.crates@.len(),
                n == self.crates@[crate_idx as int].sections@.len(),
                k <= n,
                forall|i: int| 0 <= i < results@.len() ==> (#[trigger] results@[i]) < self.crates@.len(),
            decreases n - k,
        {
            let idx = self.crates[crate_idx].sections[k].1;
            let deps_len = self.sections[idx].sections_i_depend_on.len();
            let mut d: usize = 0;
            while d < deps_len
                invariant
                    self.wf(),
                    crate_idx < self.crates@.len(),
                    idx < self.sections@.len(),
                    deps_len == self.sections@[idx as int].sections_i_depend_on@.len(),
                    d <= deps_len,
                    forall|i: int|
                        0 <= i < results@.len() ==> (#[trigger] results@[i]) < self.crates@.len(),
                decreases deps_len - d,
            {
                let dep_sec = self.sections[idx].sections_i_depend_on[d].section;
                results.push(self.sections[dep_sec].parent_crate);
                d = d + 1;
            }
            k = k + 1;
        }
        results
    }

    /// Copies the data contents of the source section into the
    /// destination section. The two sections must have the same size and
    /// the destination's region must be writable; nothing changes on
    /// failure.
    pub fn copy_section_data_to(&mut self, source_sec: usize, destination_sec: usize) -> (r:
        Result<(), MemError>)
        requires
            old(self).wf(),
            source_sec < old(self).sections@.len(),
            destination_sec < old(self).sections@.len(),
        ensures
            final(self).wf(),
            final(self).crates@ == old(self).crates@,
            final(self).sections@ == old(self).sections@,
            final(self).regions@.len() == old(self).regions@.len(),
            ({
                let src = old(self).sections@[source_sec as int];
                let dst = old(self).sections@[destination_sec as int];
                let srcb = old(self).regions@[src.mapped_pages as int].spec_bytes();
                let dstr = dst.mapped_pages as int;
                let src_fits = src.mapped_pages_offset + src.size <= srcb.len();
                let dst_writable = old(self).regions@[dstr].spec_flags().spec_is_writable();
                let dst_fits = dst.mapped_pages_offset + dst.size <= old(self).regions@[dstr].spec_bytes().len();
                match r {
                    Ok(_) => {
                        &&& src.size == dst.size
                        &&& src_fits
                        &&& dst_writable
                        &&& dst_fits
                        &&& final(self).regions@[dstr].spec_bytes().len() == old(self).regions@[dstr].spec_bytes().len()
                        &&& forall|j: int|
                            dst.mapped_pages_offset <= j < dst.mapped_pages_offset + dst.size
                                ==> final(self).regions@[dstr].spec_bytes()[j] == srcb[j
                                - dst.mapped_pages_offset + src.mapped_pages_offset]
                        &&& forall|rr: int|
                            0 <= rr < old(self).regions@.len() && rr != dstr ==> final(self).regions@[rr] == old(self).regions@[rr]
                    },
                    Err(e) => {
                        &&& forall|rr: int|
                            0 <= rr < old(self).regions@.len() ==> final(self).regions@[rr] == old(self).regions@[rr]
                        &&& (e == MemError::PageCountMismatch || e == MemError::NotWritable || e
                            == MemError::OutOfBounds)
                        &&& (e == MemError::PageCountMismatch <==> src.size != dst.size)
                        &&& (e == MemError::OutOfBounds <==> src.size == dst.size && (!src_fits
                            || (src_fits && dst_writable && !dst_fits)))
                        &&& (e == MemError::NotWritable <==> src.size == dst.size && src_fits
                            && !dst_writable)
                    },
                }
            }),
    {
        let src_size = self.sections[source_sec].size;
        let dst_size = self.sections[destination_sec].size;
        if src_size != dst_size {
            return Err(MemError::PageCountMismatch);
        }
        let src_region = self.sections[source_sec].mapped_pages;
        let src_off = self.sections[source_sec].mapped_pages_offset;
        let dst_region = self.sections[destination_sec].mapped_pages;
        let dst_off = self.sections[destination_sec].mapped_pages_offset;
        let data = match self.regions[src_region].as_slice(src_off, src_size) {
            Ok(d) => d,
            Err(e) => {
                return Err(e);
            },
        };
        let ghost pre = *self;
        match self.regions[dst_region].as_slice_mut(dst_off, data.as_slice()) {
            Ok(()) => {
                proof {
                    assert forall|c: int|
                        0 <= c < self.crates@.len() implies self.crate_wf(
                        #[trigger] self.crates@[c],
                    ) by {
                        assert(old(self).crate_wf(old(self).crates@[c]));
                    }
                }
                Ok(())
            },
            Err(e) => {
                proof {
                    assert forall|c: int|
                        0 <= c < self.crates@.len() implies self.crate_wf(
                        #[trigger] self.crates@[c],
                    ) by {
                        assert(old(self).crate_wf(old(self).crates@[c]));
                    }
                }
                Err(e)
            },
        }
    }
}

} // verus!

verus! {

/// Whether `new_s` is a fresh duplicate of `old_s` for the crate at index
/// `parent` whose regions are `nt`/`nr`/`nd`: same type, name, offset,
/// size, globalness and dependency lists, no dependents yet, placed in the
/// region matching its type, with its address recomputed against that
/// region's start.
pub open spec fn spec_new_section_matches(
    new_s: LoadedSection,
    old_s: LoadedSection,
    parent: int,
    nt: Option<CrateRegion>,
    nr: Option<CrateRegion>,
    nd: Option<CrateRegion>,
) -> bool {
    &&& new_s.typ == old_s.typ
    &&& new_s.name@ == old_s.name@
    &&& new_s.size == old_s.size
    &&& new_s.mapped_pages_offset == old_s.mapped_pages_offset
    &&& new_s.global == old_s.global
    &&& new_s.parent_crate == parent
    &&& new_s.sections_dependent_on_me@.len() == 0
    &&& new_s.sections_i_depend_on@ == old_s.sections_i_depend_on@
    &&& new_s.internal_dependencies@ == old_s.internal_dependencies@
    &&& match old_s.typ {
        SectionType::Text => nt matches Some(cr) && new_s.mapped_pages == cr.region
            && new_s.virt_addr.spec_value() == sign_extend_47(
            sat_add(cr.start.spec_value(), old_s.mapped_pages_offset as u64),
        ),
        SectionType::Rodata | SectionType::GccExceptTable | SectionType::EhFrame => nr matches Some(
            cr,
        ) && new_s.mapped_pages == cr.region && new_s.virt_addr.spec_value() == sign_extend_47(
            sat_add(cr.start.spec_value(), old_s.mapped_pages_offset as u64),
        ),
        SectionType::Data | SectionType::Bss => nd matches Some(cr) && new_s.mapped_pages
            == cr.region && new_s.virt_addr.spec_value() == sign_extend_47(
            sat_add(cr.start.spec_value(), old_s.mapped_pages_offset as u64),
        ),
    }
}

/// Whether every dependency of `sec` is an absolute relocation: no strong
/// dependency needs a rewrite on deep copy, and there are no internal
/// dependencies.
pub open spec fn spec_only_absolute_deps(sec: LoadedSection) -> bool {
    &&& forall|d: int|
        0 <= d < sec.sections_i_depend_on@.len() ==> (#[trigger] sec.sections_i_depend_on@[d]).relocation.spec_is_absolute()
    &&& sec.internal_dependencies@.len() == 0
}

/// Whether the rewrite of relocation `entry` for a section at region
/// offset `off` writes the byte at position `b` of the region.
pub open spec fn spec_rewrite_window_covers(off: int, entry: RelocationEntry, b: int) -> bool {
    off + entry.offset <= b < off + entry.offset + crate::reloc::spec_relocation_width(entry.typ)
}

/// Whether one of the first `upto` strong dependencies of `sec` is
/// non-absolute with a rewrite window covering byte `b` of its region.
pub open spec fn spec_strong_rewrites_byte_upto(sec: LoadedSection, b: int, upto: int) -> bool {
    exists|d: int|
        0 <= d < upto && !(#[trigger] sec.sections_i_depend_on@[d]).relocation.spec_is_absolute()
            && spec_rewrite_window_covers(
            sec.mapped_pages_offset as int,
            sec.sections_i_depend_on@[d].relocation,
            b,
        )
}

/// Whether one of the first `upto` internal dependencies of `sec` has a
/// rewrite window covering byte `b` of its region.
pub open spec fn spec_internal_rewrites_byte_upto(sec: LoadedSection, b: int, upto: int) -> bool {
    exists|d: int|
        0 <= d < upto && spec_rewrite_window_covers(
            sec.mapped_pages_offset as int,
            (#[trigger] sec.internal_dependencies@[d]).relocation,
            b,
        )
}

/// Whether deep-copying `sec` performs some relocation rewrite that
/// writes the byte at position `b` of the section's own region: a
/// non-absolute strong dependency or any internal dependency whose window
/// covers it.
pub open spec fn spec_section_rewrites_byte(sec: LoadedSection, b: int) -> bool {
    ||| spec_strong_rewrites_byte_upto(sec, b, sec.sections_i_depend_on@.len() as int)
    ||| spec_internal_rewrites_byte_upto(sec, b, sec.internal_dependencies@.len() as int)
}

/// The region a section of the given type lives in, among the three new
/// regions of a copied crate; an absent region yields an impossible
/// index.
pub open spec fn spec_region_of_typ(
    typ: SectionType,
    nt: Option<CrateRegion>,
    nr: Option<CrateRegion>,
    nd: Option<CrateRegion>,
) -> int {
    match typ {
        SectionType::Text => if nt is Some {
            (nt->0).region as int
        } else {
            -1
        },
        SectionType::Rodata | SectionType::GccExceptTable | SectionType::EhFrame => if nr
            is Some {
            (nr->0).region as int
        } else {
            -1
        },
        SectionType::Data | SectionType::Bss => if nd is Some {
            (nd->0).region as int
        } else {
            -1
        },
    }
}

/// Whether some rewrite performed while deep-copying the first `upto`
/// sections of a crate writes the byte at position `b` of new region
/// `region`. `oentries` are the crate's (ELF index, arena index) pairs
/// and `osecs` the arena the originals live in.
pub open spec fn spec_rewritten_byte_upto(
    osecs: Seq<LoadedSection>,
    oentries: Seq<(usize, usize)>,
    nt: Option<CrateRegion>,
    nr: Option<CrateRegion>,
    nd: Option<CrateRegion>,
    region: int,
    b: int,
    upto: int,
) -> bool {
    exists|j: int|
        0 <= j < upto && spec_region_of_typ(
            (#[trigger] osecs[oentries[j].1 as int]).typ,
            nt,
            nr,
            nd,
        ) == region && spec_section_rewrites_byte(osecs[oentries[j].1 as int], b)
}

/// The bss-section trie a duplicate of the first `k` sections of a crate
/// carries: each Bss section's name maps to its new arena index, later
/// entries overriding earlier ones of the same name. `entries` are the
/// crate's (ELF index, arena index) pairs, `sections` the arena the
/// originals live in, and `s0` the arena index of the first duplicate.
pub open spec fn spec_bss_trie_map(
    entries: Seq<(usize, usize)>,
    sections: Seq<LoadedSection>,
    s0: int,
    k: int,
) -> Map<Seq<char>, usize>
    decreases k,
{
    if k <= 0 {
        Map::empty()
    } else {
        let prev = spec_bss_trie_map(entries, sections, s0, k - 1);
        let sec = sections[entries[k - 1].1 as int];
        if sec.typ == SectionType::Bss {
            prev.insert(sec.name@, (s0 + k - 1) as usize)
        } else {
            prev
        }
    }
}

/// Whether `new_s` is the same section as `old_s` in every field, except
/// that its weak-dependent list may have grown at the end.
pub open spec fn spec_section_preserved(old_s: LoadedSection, new_s: LoadedSection) -> bool {
    &&& new_s.typ == old_s.typ
    &&& new_s.name@ == old_s.name@
    &&& new_s.mapped_pages == old_s.mapped_pages
    &&& new_s.mapped_pages_offset == old_s.mapped_pages_offset
    &&& new_s.virt_addr == old_s.virt_addr
    &&& new_s.size == old_s.size
    &&& new_s.global == old_s.global
    &&& new_s.parent_crate == old_s.parent_crate
    &&& new_s.sections_i_depend_on@ == old_s.sections_i_depend_on@
    &&& new_s.internal_dependencies@ == old_s.internal_dependencies@
    &&& old_s.sections_dependent_on_me@.len() <= new_s.sections_dependent_on_me@.len()
    &&& forall|i: int|
        0 <= i < old_s.sections_dependent_on_me@.len()
            ==> new_s.sections_dependent_on_me@[i] == old_s.sections_dependent_on_me@[i]
}

/// A copy of a strong-dependency list.
fn copy_strong_deps(v: &Vec<StrongDependency>) -> (r: Vec<StrongDependency>)
    ensures
        r@ == v@,
{
    let mut out: Vec<StrongDependency> = Vec::new();
    let mut i: usize = 0;
    while i < v.len()
        invariant
            i <= v@.len(),
            out@.len() == i,
            forall|j: int| 0 <= j < i ==> out@[j] == v@[j],
        decreases v@.len() - i,
    {
        out.push(v[i]);
        i = i + 1;
    }
    proof {
        assert(out@ =~= v@);
    }
    out
}

/// A copy of an internal-dependency list.
fn copy_internal_deps(v: &Vec<InternalDependency>) -> (r: Vec<InternalDependency>)
    ensures
        r@ == v@,
{
    let mut out: Vec<InternalDependency> = Vec::new();
    let mut i: usize = 0;
    while i < v.len()
        invariant
            i <= v@.len(),
            out@.len() == i,
            forall|j: int| 0 <= j < i ==> out@[j] == v@[j],
        decreases v@.len() - i,
    {
        out.push(v[i]);
        i = i + 1;
    }
    proof {
        assert(out@ =~= v@);
    }
    out
}

/// A copy of a list of strings.
fn copy_strings(v: &Vec<String>) -> (r: Vec<String>)
    ensures
        r@ == v@,
{
    let mut out: Vec<String> = Vec::new();
    let mut i: usize = 0;
    while i < v.len()
        invariant
            i <= v@.len(),
            out@.len() == i,
            forall|j: int| 0 <= j < i ==> out@[j] == v@[j],
        decreases v@.len() - i,
    {
        out.push(v[i].clone());
        i = i + 1;
    }
    proof {
        assert(out@ =~= v@);
    }
    out
}

/// The arena index recorded in `new_sections` for the given ELF section
/// header index, if any entry carries it.
fn find_new_section(new_sections: &Vec<(usize, usize)>, shndx: usize) -> (r: Option<usize>)
    ensures
        r matches Some(idx) ==> exists|t: int|
            0 <= t < new_sections@.len() && (#[trigger] new_sections@[t]).0 == shndx
                && new_sections@[t].1 == idx,
        r is None ==> forall|t: int|
            0 <= t < new_sections@.len() ==> (#[trigger] new_sections@[t]).0 != shndx,
{
    let mut t: usize = 0;
    while t < new_sections.len()
        invariant
            t <= new_sections@.len(),
            forall|j: int| 0 <= j < t ==> (#[trigger] new_sections@[j]).0 != shndx,
        decreases new_sections@.len() - t,
    {
        if new_sections[t].0 == shndx {
            return Some(new_sections[t].1);
        }
        t = t + 1;
    }
    None
}

impl CrateStore {
    /// Returns the arena index of the first section of the given crate for
    /// which the predicate returns true.
    pub fn find_section<F: Fn(&LoadedSection) -> bool>(
        &self,
        crate_idx: usize,
        predicate: F,
    ) -> (r: Option<usize>)
        requires
            self.wf(),
            crate_idx < self.crates@.len(),
            forall|s: &LoadedSection| #[trigger] call_requires(predicate, (s,)),
        ensures
            r matches Some(idx) ==> idx < self.sections@.len() && exists|k: int|
                0 <= k < self.crates@[crate_idx as int].sections@.len()
                    && (#[trigger] self.crates@[crate_idx as int].sections@[k]).1 == idx,
    {
        let n = self.crates[crate_idx].sections.len();
        let mut k: usize = 0;
        while k < n
            invariant
                self.wf(),
                crate_idx < self.crates@.len(),
                n == self.crates@[crate_idx as int].sections@.len(),
                k <= n,
                forall|s: &LoadedSection| #[trigger] call_requires(predicate, (s,)),
            decreases n - k,
        {
            let idx = self.crates[crate_idx].sections[k].1;
            if predicate(&self.sections[idx]) {
                return Some(idx);
            }
            k = k + 1;
        }
        None
    }

    /// Deep-copies one region of a crate: duplicates the underlying mapped
    /// pages as a writable region, appends it to the arena, and recomputes
    /// the covered address bounds against the new region's start.
    fn deep_copy_region<A: FrameAllocator, P: PageAllocator>(
        &mut self,
        cr: CrateRegion,
        flags: EntryFlags,
        active_table_mapper: &mut Mapper,
        allocator: &mut A,
        page_allocator: &mut P,
    ) -> (r: Result<CrateRegion, MemError>)
        requires
            old(self).wf(),
            cr.region < old(self).regions@.len(),
            old(self).regions@[cr.region as int].spec_pages().spec_size_in_pages() > 0,
            old(active_table_mapper).wf(),
        ensures
            final(self).wf(),
            final(active_table_mapper).wf(),
            final(self).crates@ == old(self).crates@,
            final(self).sections@ == old(self).sections@,
            forall|rr: int|
                0 <= rr < old(self).regions@.len() ==> final(self).regions@[rr] == old(self).regions@[rr],
            match r {
                Ok(ncr) => {
                    &&& ncr.region == old(self).regions@.len()
                    &&& final(self).regions@.len() == old(self).regions@.len() + 1
                    &&& final(self).regions@[ncr.region as int].spec_bytes() == old(self).regions@[cr.region as int].spec_bytes()
                    &&& final(self).regions@[ncr.region as int].spec_flags()
                        == flags.spec_or(
                        EntryFlags {
                            present: false,
                            writable: true,
                            huge: false,
                            no_execute: false,
                        },
                    )
                    &&& final(self).regions@[ncr.region as int].spec_pages().spec_size_in_pages()
                        == old(self).regions@[cr.region as int].spec_pages().spec_size_in_pages()
                },
                Err(e) => {
                    &&& final(self).regions@.len() == old(self).regions@.len()
                    &&& (e == MemError::OutOfMemory || e == MemError::AlreadyMapped)
                },
            },
    {
        let map_flags = flags.or(EntryFlags::writable());
        let new_mp = match self.regions[cr.region].deep_copy(
            Some(map_flags),
            active_table_mapper,
            allocator,
            page_allocator,
        ) {
            Ok(mp) => mp,
            Err(e) => {
                return Err(e);
            },
        };
        let old_region_start = self.regions[cr.region].start_address();
        let offset = cr.start.value().wrapping_sub(old_region_start.value());
        let span = cr.end.value().wrapping_sub(cr.start.value());
        let new_start = new_mp.start_address().add_offset(offset);
        let new_end = new_start.add_offset(span);
        let idx = self.add_region(new_mp);
        Ok(CrateRegion { region: idx, start: new_start, end: new_end })
    }

    /// Duplicates every section of the crate `crate_idx` against the given
    /// new regions: same type, name, offset, size, globalness and
    /// dependency lists, parent `new_idx`, no dependents. Returns the new
    /// crate's section list (pairs of ELF index and arena index) and its
    /// bss-section trie.
    #[verifier::rlimit(100)]
    fn duplicate_crate_sections(
        &mut self,
        crate_idx: usize,
        new_idx: usize,
        new_text: Option<CrateRegion>,
        new_rodata: Option<CrateRegion>,
        new_data: Option<CrateRegion>,
        Ghost(base): Ghost<int>,
    ) -> (r: Result<
        (Vec<(usize, usize)>, qp_trie::Trie<qp_trie::wrapper::BString, usize>),
        MemError,
    >)
        requires
            old(self).wf(),
            crate_idx < old(self).crates@.len(),
            new_idx < old(self).crates@.len(),
            0 <= base <= old(self).regions@.len(),
            new_text matches Some(cr) ==> base <= cr.region < old(self).regions@.len(),
            new_rodata matches Some(cr) ==> base <= cr.region < old(self).regions@.len(),
            new_data matches Some(cr) ==> base <= cr.region < old(self).regions@.len(),
        ensures
            final(self).wf(),
            final(self).crates@ == old(self).crates@,
            final(self).regions@ == old(self).regions@,
            old(self).sections@.len() <= final(self).sections@.len(),
            forall|s: int|
                0 <= s < old(self).sections@.len() ==> final(self).sections@[s] == old(self).sections@[s],
            match r {
                Ok((new_sections, _trie)) => {
                    let s0 = old(self).sections@.len() as int;
                    let count = old(self).crates@[crate_idx as int].sections@.len();
                    &&& final(self).sections@.len() == s0 + count
                    &&& new_sections@.len() == count
                    &&& forall|j: int|
                        0 <= j < count ==> (#[trigger] new_sections@[j]).0 == old(self).crates@[crate_idx as int].sections@[j].0
                            && new_sections@[j].1 == s0 + j
                    &&& forall|j: int|
                        0 <= j < count ==> spec_new_section_matches(
                            #[trigger] final(self).sections@[s0 + j],
                            old(self).sections@[old(self).crates@[crate_idx as int].sections@[j].1 as int],
                            new_idx as int,
                            new_text,
                            new_rodata,
                            new_data,
                        )
                    &&& trie_entries(_trie) == spec_bss_trie_map(
                        old(self).crates@[crate_idx as int].sections@,
                        old(self).sections@,
                        s0,
                        count as int,
                    )
                },
                Err(e) => {
                    let count = old(self).crates@[crate_idx as int].sections@.len();
                    &&& e == MemError::DeepCopyInconsistent
                    &&& exists|k: int|
                        0 <= k < count && match old(self).sections@[(#[trigger] old(
                            self,
                        ).crates@[crate_idx as int].sections@[k]).1 as int].typ {
                            SectionType::Text => new_text is None,
                            SectionType::Rodata | SectionType::GccExceptTable
                                | SectionType::EhFrame => new_rodata is None,
                            SectionType::Data | SectionType::Bss => new_data is None,
                        }
                },
            },
    {
        let s0 = self.sections.len();
        let count = self.crates[crate_idx].sections.len();
        let mut new_sections: Vec<(usize, usize)> = Vec::new();
        let mut new_bss_sections = bss_trie_new();
        let mut k: usize = 0;
        while k < count
            invariant
                old(self).wf(),
                self.wf(),
                crate_idx < self.crates@.len(),
                new_idx < self.crates@.len(),
                0 <= base <= old(self).regions@.len(),
                new_text matches Some(cr) ==> base <= cr.region < old(self).regions@.len(),
                new_rodata matches Some(cr) ==> base <= cr.region < old(self).regions@.len(),
                new_data matches Some(cr) ==> base <= cr.region < old(self).regions@.len(),
                self.crates@ == old(self).crates@,
                self.regions@ == old(self).regions@,
                s0 == old(self).sections@.len(),
                count == self.crates@[crate_idx as int].sections@.len(),
                k <= count,
                self.sections@.len() == s0 + k,
                forall|s: int| 0 <= s < s0 ==> self.sections@[s] == old(self).sections@[s],
                new_sections@.len() == k,
                forall|j: int|
                    0 <= j < k ==> (#[trigger] new_sections@[j]).0
                        == self.crates@[crate_idx as int].sections@[j].0 && new_sections@[j].1
                        == s0 + j,
                forall|j: int|
                    0 <= j < k ==> spec_new_section_matches(
                        #[trigger] self.sections@[s0 + j],
                        old(self).sections@[self.crates@[crate_idx as int].sections@[j].1 as int],
                        new_idx as int,
                        new_text,
                        new_rodata,
                        new_data,
                    ),
                trie_entries(new_bss_sections) == spec_bss_trie_map(
                    self.crates@[crate_idx as int].sections@,
                    old(self).sections@,
                    s0 as int,
                    k as int,
                ),
            decreases count - k,
        {
            proof {
                assert(old(self).crate_wf(old(self).crates@[crate_idx as int]));
            }
            let old_sec_idx = self.crates[crate_idx].sections[k].1;
            let shndx = self.crates[crate_idx].sections[k].0;
            proof {
                assert(old_sec_idx < s0);
                assert(self.sections@[old_sec_idx as int] == old(self).sections@[old_sec_idx as int]);
            }
            let new_region = match self.sections[old_sec_idx].typ {
                SectionType::Text => {
                    match new_text {
                        Some(ncr) => ncr,
                        None => {
                            return Err(MemError::DeepCopyInconsistent);
                        },
                    }
                },
                SectionType::Rodata | SectionType::GccExceptTable | SectionType::EhFrame => {
                    match new_rodata {
                        Some(ncr) => ncr,
                        None => {
                            return Err(MemError::DeepCopyInconsistent);
                        },
                    }
                },
                SectionType::Data | SectionType::Bss => {
                    match new_data {
                        Some(ncr) => ncr,
                        None => {
                            return Err(MemError::DeepCopyInconsistent);
                        },
                    }
                },
            };
            let offset = self.sections[old_sec_idx].mapped_pages_offset;
            let new_virt_addr = new_region.start.add_offset(offset as u64);
            let new_sec = LoadedSection::with_dependencies(
                self.sections[old_sec_idx].typ,
                self.sections[old_sec_idx].name.clone(),
                new_region.region,
                offset,
                new_virt_addr,
                self.sections[old_sec_idx].size,
                self.sections[old_sec_idx].global,
                new_idx,
                copy_strong_deps(&self.sections[old_sec_idx].sections_i_depend_on),
                Vec::new(),
                copy_internal_deps(&self.sections[old_sec_idx].internal_dependencies),
            );
            let is_bss = self.sections[old_sec_idx].typ == SectionType::Bss;
            let bss_name = if is_bss {
                Some(self.sections[old_sec_idx].name.clone())
            } else {
                None
            };
            let pushed = self.add_section(new_sec);
            if let Some(name) = bss_name {
                bss_trie_insert(&mut new_bss_sections, name.as_str(), pushed);
            }
            new_sections.push((shndx, pushed));
            k = k + 1;
        }
        Ok((new_sections, new_bss_sections))
    }

    /// Re-runs the relocations of the freshly duplicated section at
    /// `sec_idx`: every non-absolute strong dependency and every internal
    /// dependency is written into the section's (new) region, and the
    /// section registers itself as a weak dependent of each rewritten
    /// strong source. Absolute relocations need no rewrite.
    fn rewrite_relocations_for(
        &mut self,
        sec_idx: usize,
        new_sections: &Vec<(usize, usize)>,
        Ghost(base): Ghost<int>,
        Ghost(s0): Ghost<int>,
    ) -> (r: Result<(), MemError>)
        requires
            old(self).wf(),
            0 <= base <= old(self).regions@.len(),
            0 <= s0 <= sec_idx < old(self).sections@.len(),
            base <= old(self).sections@[sec_idx as int].mapped_pages,
            forall|j: int|
                0 <= j < new_sections@.len() ==> s0 <= (#[trigger] new_sections@[j]).1 < old(self).sections@.len(),
            forall|d: int|
                0 <= d < old(self).sections@[sec_idx as int].sections_i_depend_on@.len()
                    ==> (#[trigger] old(self).sections@[sec_idx as int].sections_i_depend_on@[d]).section < s0,
        ensures
            final(self).wf(),
            final(self).crates@ == old(self).crates@,
            final(self).regions@.len() == old(self).regions@.len(),
            forall|rr: int|
                0 <= rr < base ==> final(self).regions@[rr] == old(self).regions@[rr],
            final(self).sections@.len() == old(self).sections@.len(),
            forall|rr: int|
                0 <= rr < old(self).regions@.len() ==> (#[trigger] final(self).regions@[rr]).spec_flags() == old(self).regions@[rr].spec_flags(),
            forall|rr: int|
                0 <= rr < old(self).regions@.len() && rr != old(self).sections@[sec_idx as int].mapped_pages ==> (#[trigger] final(self).regions@[rr]) == old(self).regions@[rr],
            final(self).regions@[old(self).sections@[sec_idx as int].mapped_pages as int].spec_bytes().len() == old(self).regions@[old(self).sections@[sec_idx as int].mapped_pages as int].spec_bytes().len(),
            forall|b: int|
                #![trigger final(self).regions@[old(self).sections@[sec_idx as int].mapped_pages as int].spec_bytes()[b]]
                0 <= b < old(self).regions@[old(self).sections@[sec_idx as int].mapped_pages as int].spec_bytes().len()
                    && !spec_section_rewrites_byte(old(self).sections@[sec_idx as int], b)
                    ==> final(self).regions@[old(self).sections@[sec_idx as int].mapped_pages as int].spec_bytes()[b] == old(self).regions@[old(self).sections@[sec_idx as int].mapped_pages as int].spec_bytes()[b],
            forall|s: int|
                s0 <= s < old(self).sections@.len() ==> final(self).sections@[s] == old(self).sections@[s],
            forall|s: int|
                0 <= s < s0 ==> spec_section_preserved(
                    old(self).sections@[s],
                    #[trigger] final(self).sections@[s],
                ),
            spec_only_absolute_deps(old(self).sections@[sec_idx as int]) ==> final(self).regions@
                == old(self).regions@ && final(self).sections@ == old(self).sections@,
            r is Ok ==> forall|d: int|
                0 <= d < old(self).sections@[sec_idx as int].sections_i_depend_on@.len() ==> {
                    let dep = #[trigger] old(self).sections@[sec_idx as int].sections_i_depend_on@[d];
                    dep.relocation.spec_is_absolute() || exists|i: int|
                        0 <= i < final(self).sections@[dep.section as int].sections_dependent_on_me@.len()
                            && final(self).sections@[dep.section as int].sections_dependent_on_me@[i]
                            == (WeakDependent { section: sec_idx, relocation: dep.relocation })
                },
            r matches Err(e) ==> e == MemError::DeepCopyInconsistent ==> exists|d: int|
                #![trigger old(self).sections@[sec_idx as int].internal_dependencies@[d]]
                0 <= d < old(self).sections@[sec_idx as int].internal_dependencies@.len()
                    && forall|j: int|
                    0 <= j < new_sections@.len() ==> (#[trigger] new_sections@[j]).0 != old(self).sections@[sec_idx as int].internal_dependencies@[d].source_sec_shndx,
    {
        let ndeps = self.sections[sec_idx].sections_i_depend_on.len();
        let mut d: usize = 0;
        while d < ndeps
            invariant
                old(self).wf(),
                self.wf(),
                0 <= base <= old(self).regions@.len(),
                0 <= s0 <= sec_idx < old(self).sections@.len(),
                base <= old(self).sections@[sec_idx as int].mapped_pages,
                d <= ndeps,
                ndeps == self.sections@[sec_idx as int].sections_i_depend_on@.len(),
                self.crates@ == old(self).crates@,
                self.regions@.len() == old(self).regions@.len(),
                forall|rr: int|
                    0 <= rr < base ==> self.regions@[rr] == old(self).regions@[rr],
                forall|rr: int|
                    0 <= rr < old(self).regions@.len() ==> (#[trigger] self.regions@[rr]).spec_flags() == old(self).regions@[rr].spec_flags(),
                self.sections@.len() == old(self).sections@.len(),
                forall|s: int|
                    s0 <= s < old(self).sections@.len() ==> self.sections@[s] == old(self).sections@[s],
                forall|s: int|
                    0 <= s < s0 ==> spec_section_preserved(
                        old(self).sections@[s],
                        #[trigger] self.sections@[s],
                    ),
                forall|dd: int|
                    0 <= dd < old(self).sections@[sec_idx as int].sections_i_depend_on@.len()
                        ==> (#[trigger] old(self).sections@[sec_idx as int].sections_i_depend_on@[dd]).section < s0,
                spec_only_absolute_deps(old(self).sections@[sec_idx as int]) ==> self.regions@
                    == old(self).regions@ && self.sections@ == old(self).sections@,
                forall|rr: int|
                    0 <= rr < old(self).regions@.len() && rr != old(self).sections@[sec_idx as int].mapped_pages ==> (#[trigger] self.regions@[rr]) == old(self).regions@[rr],
                self.regions@[old(self).sections@[sec_idx as int].mapped_pages as int].spec_bytes().len() == old(self).regions@[old(self).sections@[sec_idx as int].mapped_pages as int].spec_bytes().len(),
                forall|b: int|
                    #![trigger self.regions@[old(self).sections@[sec_idx as int].mapped_pages as int].spec_bytes()[b]]
                    0 <= b < old(self).regions@[old(self).sections@[sec_idx as int].mapped_pages as int].spec_bytes().len()
                        && !spec_strong_rewrites_byte_upto(old(self).sections@[sec_idx as int], b, d as int)
                        ==> self.regions@[old(self).sections@[sec_idx as int].mapped_pages as int].spec_bytes()[b] == old(self).regions@[old(self).sections@[sec_idx as int].mapped_pages as int].spec_bytes()[b],
                forall|dd: int|
                    0 <= dd < d ==> {
                        let dep = #[trigger] old(self).sections@[sec_idx as int].sections_i_depend_on@[dd];
                        dep.relocation.spec_is_absolute() || exists|i: int|
                            0 <= i < self.sections@[dep.section as int].sections_dependent_on_me@.len()
                                && self.sections@[dep.section as int].sections_dependent_on_me@[i]
                                == (WeakDependent { section: sec_idx, relocation: dep.relocation })
                    },
            decreases ndeps - d,
        {
            proof {
                assert(self.sections@[sec_idx as int] == old(self).sections@[sec_idx as int]);
            }
            let dep = self.sections[sec_idx].sections_i_depend_on[d];
            if !dep.relocation.is_absolute() {
                let src_vaddr = self.sections[dep.section].virt_addr;
                let tgt_region = self.sections[sec_idx].mapped_pages;
                let tgt_off = self.sections[sec_idx].mapped_pages_offset;
                if dep.relocation.offset > (usize::MAX - tgt_off) as u64 {
                    return Err(MemError::OutOfBounds);
                }
                let ghost pre = *self;
                match crate::reloc::write_relocation(
                    dep.relocation,
                    &mut self.regions[tgt_region],
                    tgt_off,
                    src_vaddr,
                ) {
                    Ok(()) => {},
                    Err(e) => {
                        proof {
                            lemma_store_wf_region_update(pre, *self, tgt_region as int);
                        }
                        return Err(e);
                    },
                }
                proof {
                    lemma_store_wf_region_update(pre, *self, tgt_region as int);
                }
                let ghost pre2 = *self;
                let weak = WeakDependent { section: sec_idx, relocation: dep.relocation };
                self.sections[dep.section].sections_dependent_on_me.push(weak);
                proof {
                    lemma_store_wf_weak_push(pre2, *self, dep.section as int, weak);
                    assert forall|ss: int|
                        0 <= ss < s0 implies spec_section_preserved(
                        old(self).sections@[ss],
                        #[trigger] self.sections@[ss],
                    ) by {
                        assert(spec_section_preserved(old(self).sections@[ss], pre2.sections@[ss]));
                    }
                    assert(self.sections@[dep.section as int].sections_dependent_on_me@[self.sections@[dep.section as int].sections_dependent_on_me@.len() - 1] == weak);
                    assert forall|dd: int| 0 <= dd < d + 1 implies {
                        let depd = #[trigger] old(self).sections@[sec_idx as int].sections_i_depend_on@[dd];
                        depd.relocation.spec_is_absolute() || exists|i: int|
                            0 <= i < self.sections@[depd.section as int].sections_dependent_on_me@.len()
                                && self.sections@[depd.section as int].sections_dependent_on_me@[i]
                                == (WeakDependent { section: sec_idx, relocation: depd.relocation })
                    } by {
                        let depd = old(self).sections@[sec_idx as int].sections_i_depend_on@[dd];
                        if dd < d && !depd.relocation.spec_is_absolute() {
                            let i = choose|i: int|
                                0 <= i < pre2.sections@[depd.section as int].sections_dependent_on_me@.len()
                                    && pre2.sections@[depd.section as int].sections_dependent_on_me@[i]
                                    == (WeakDependent { section: sec_idx, relocation: depd.relocation });
                            assert(self.sections@[depd.section as int].sections_dependent_on_me@[i]
                                == (WeakDependent { section: sec_idx, relocation: depd.relocation }));
                        }
                    }
                }
            }
            d = d + 1;
        }
        let nideps = self.sections[sec_idx].internal_dependencies.len();
        let mut d2: usize = 0;
        while d2 < nideps
            invariant
                old(self).wf(),
                self.wf(),
                0 <= base <= old(self).regions@.len(),
                0 <= s0 <= sec_idx < old(self).sections@.len(),
                base <= old(self).sections@[sec_idx as int].mapped_pages,
                d2 <= nideps,
                nideps == self.sections@[sec_idx as int].internal_dependencies@.len(),
                self.crates@ == old(self).crates@,
                self.regions@.len() == old(self).regions@.len(),
                forall|rr: int|
                    0 <= rr < base ==> self.regions@[rr] == old(self).regions@[rr],
                forall|rr: int|
                    0 <= rr < old(self).regions@.len() ==> (#[trigger] self.regions@[rr]).spec_flags() == old(self).regions@[rr].spec_flags(),
                self.sections@.len() == old(self).sections@.len(),
                forall|s: int|
                    s0 <= s < old(self).sections@.len() ==> self.sections@[s] == old(self).sections@[s],
                forall|s: int|
                    0 <= s < s0 ==> spec_section_preserved(
                        old(self).sections@[s],
                        #[trigger] self.sections@[s],
                    ),
                forall|j: int|
                    0 <= j < new_sections@.len() ==> s0 <= (#[trigger] new_sections@[j]).1 < old(self).sections@.len(),
                spec_only_absolute_deps(old(self).sections@[sec_idx as int]) ==> self.regions@
                    == old(self).regions@ && self.sections@ == old(self).sections@,
                forall|rr: int|
                    0 <= rr < old(self).regions@.len() && rr != old(self).sections@[sec_idx as int].mapped_pages ==> (#[trigger] self.regions@[rr]) == old(self).regions@[rr],
                self.regions@[old(self).sections@[sec_idx as int].mapped_pages as int].spec_bytes().len() == old(self).regions@[old(self).sections@[sec_idx as int].mapped_pages as int].spec_bytes().len(),
                forall|b: int|
                    #![trigger self.regions@[old(self).sections@[sec_idx as int].mapped_pages as int].spec_bytes()[b]]
                    0 <= b < old(self).regions@[old(self).sections@[sec_idx as int].mapped_pages as int].spec_bytes().len()
                        && !spec_strong_rewrites_byte_upto(
                        old(self).sections@[sec_idx as int],
                        b,
                        old(self).sections@[sec_idx as int].sections_i_depend_on@.len() as int,
                    ) && !spec_internal_rewrites_byte_upto(
                        old(self).sections@[sec_idx as int],
                        b,
                        d2 as int,
                    ) ==> self.regions@[old(self).sections@[sec_idx as int].mapped_pages as int].spec_bytes()[b] == old(self).regions@[old(self).sections@[sec_idx as int].mapped_pages as int].spec_bytes()[b],
                forall|dd: int|
                    0 <= dd < old(self).sections@[sec_idx as int].sections_i_depend_on@.len()
                        ==> {
                        let dep = #[trigger] old(self).sections@[sec_idx as int].sections_i_depend_on@[dd];
                        dep.relocation.spec_is_absolute() || exists|i: int|
                            0 <= i < self.sections@[dep.section as int].sections_dependent_on_me@.len()
                                && self.sections@[dep.section as int].sections_dependent_on_me@[i]
                                == (WeakDependent { section: sec_idx, relocation: dep.relocation })
                    },
            decreases nideps - d2,
        {
            proof {
                assert(self.sections@[sec_idx as int] == old(self).sections@[sec_idx as int]);
            }
            let idep = self.sections[sec_idx].internal_dependencies[d2];
            let src_new = match find_new_section(new_sections, idep.source_sec_shndx) {
                Some(idx) => idx,
                None => {
                    return Err(MemError::DeepCopyInconsistent);
                },
            };
            let src_vaddr = self.sections[src_new].virt_addr;
            let tgt_region = self.sections[sec_idx].mapped_pages;
            let tgt_off = self.sections[sec_idx].mapped_pages_offset;
            if idep.relocation.offset > (usize::MAX - tgt_off) as u64 {
                return Err(MemError::OutOfBounds);
            }
            let ghost pre = *self;
            match crate::reloc::write_relocation(
                idep.relocation,
                &mut self.regions[tgt_region],
                tgt_off,
                src_vaddr,
            ) {
                Ok(()) => {},
                Err(e) => {
                    proof {
                        lemma_store_wf_region_update(pre, *self, tgt_region as int);
                    }
                    return Err(e);
                },
            }
            proof {
                lemma_store_wf_region_update(pre, *self, tgt_region as int);
            }
            d2 = d2 + 1;
        }
        Ok(())
    }

    /// Deep-copies the up-to-three shared regions of the crate
    /// `crate_idx`, each mapped writable for the copying that follows.
    fn copy_crate_regions<A: FrameAllocator, P: PageAllocator>(
        &mut self,
        crate_idx: usize,
        active_table_mapper: &mut Mapper,
        allocator: &mut A,
        page_allocator: &mut P,
    ) -> (r: Result<(Option<CrateRegion>, Option<CrateRegion>, Option<CrateRegion>), MemError>)
        requires
            old(self).wf(),
            crate_idx < old(self).crates@.len(),
            old(active_table_mapper).wf(),
        ensures
            final(self).wf(),
            final(active_table_mapper).wf(),
            final(self).crates@ == old(self).crates@,
            final(self).sections@ == old(self).sections@,
            old(self).regions@.len() <= final(self).regions@.len(),
            forall|rr: int|
                0 <= rr < old(self).regions@.len() ==> final(self).regions@[rr] == old(self).regions@[rr],
            match r {
                Ok((nt, nr, nd)) => {
                    let oc = old(self).crates@[crate_idx as int];
                    &&& (nt is Some <==> oc.text_pages is Some)
                    &&& (nr is Some <==> oc.rodata_pages is Some)
                    &&& (nd is Some <==> oc.data_pages is Some)
                    &&& (nt matches Some(cr) ==> old(self).regions@.len() <= cr.region < final(self).regions@.len())
                    &&& (nr matches Some(cr) ==> old(self).regions@.len() <= cr.region < final(self).regions@.len())
                    &&& (nd matches Some(cr) ==> old(self).regions@.len() <= cr.region < final(self).regions@.len())
                    &&& (nt matches Some(cr) ==> final(self).regions@[cr.region as int].spec_pages().spec_size_in_pages() > 0)
                    &&& (nr matches Some(cr) ==> final(self).regions@[cr.region as int].spec_pages().spec_size_in_pages() > 0)
                    &&& (nd matches Some(cr) ==> final(self).regions@[cr.region as int].spec_pages().spec_size_in_pages() > 0)
                    &&& (nt matches Some(cr) ==> final(self).regions@[cr.region as int].spec_bytes()
                        == old(self).regions@[(oc.text_pages->0).region as int].spec_bytes())
                    &&& (nr matches Some(cr) ==> final(self).regions@[cr.region as int].spec_bytes()
                        == old(self).regions@[(oc.rodata_pages->0).region as int].spec_bytes())
                    &&& (nd matches Some(cr) ==> final(self).regions@[cr.region as int].spec_bytes()
                        == old(self).regions@[(oc.data_pages->0).region as int].spec_bytes())
                    &&& (nt matches Some(cr) ==> final(self).regions@[cr.region as int].spec_flags()
                        == (EntryFlags {
                        present: true,
                        writable: true,
                        huge: false,
                        no_execute: false,
                    }))
                    &&& (nr matches Some(cr) ==> final(self).regions@[cr.region as int].spec_flags()
                        == (EntryFlags {
                        present: true,
                        writable: true,
                        huge: false,
                        no_execute: true,
                    }))
                    &&& (nd matches Some(cr) ==> final(self).regions@[cr.region as int].spec_flags()
                        == (EntryFlags {
                        present: true,
                        writable: true,
                        huge: false,
                        no_execute: true,
                    }))
                    &&& (nt is Some && nr is Some ==> (nt->0).region != (nr->0).region)
                    &&& (nt is Some && nd is Some ==> (nt->0).region != (nd->0).region)
                    &&& (nr is Some && nd is Some ==> (nr->0).region != (nd->0).region)
                },
                Err(e) => e == MemError::OutOfMemory || e == MemError::AlreadyMapped,
            },
    {
        let old_text = self.crates[crate_idx].text_pages;
        let old_rodata = self.crates[crate_idx].rodata_pages;
        let old_data = self.crates[crate_idx].data_pages;
        proof {
            assert(old(self).crate_wf(old(self).crates@[crate_idx as int]));
        }
        let new_text = match old_text {
            Some(cr) => {
                match self.deep_copy_region(
                    cr,
                    text_section_flags(),
                    active_table_mapper,
                    allocator,
                    page_allocator,
                ) {
                    Ok(ncr) => Some(ncr),
                    Err(e) => {
                        return Err(e);
                    },
                }
            },
            None => None,
        };
        let new_rodata = match old_rodata {
            Some(cr) => {
                match self.deep_copy_region(
                    cr,
                    rodata_section_flags(),
                    active_table_mapper,
                    allocator,
                    page_allocator,
                ) {
                    Ok(ncr) => Some(ncr),
                    Err(e) => {
                        return Err(e);
                    },
                }
            },
            None => None,
        };
        let new_data = match old_data {
            Some(cr) => {
                match self.deep_copy_region(
                    cr,
                    data_bss_section_flags(),
                    active_table_mapper,
                    allocator,
                    page_allocator,
                ) {
                    Ok(ncr) => Some(ncr),
                    Err(e) => {
                        return Err(e);
                    },
                }
            },
            None => None,
        };
        Ok((new_text, new_rodata, new_data))
    }

    /// Re-runs the relocations of every freshly duplicated section of a
    /// copied crate. `osecs` and `oentries` are the arena's sections and
    /// the original crate's section entries as they stood before the copy;
    /// `base` is the index of the first new region, `s0` that of the first
    /// duplicated section, and `new_parent` the new crate's index.
    #[verifier::rlimit(100)]
    #[verifier::spinoff_prover]
    fn rewrite_crate_relocations(
        &mut self,
        new_sections: &Vec<(usize, usize)>,
        new_text: Option<CrateRegion>,
        new_rodata: Option<CrateRegion>,
        new_data: Option<CrateRegion>,
        Ghost(osecs): Ghost<Seq<LoadedSection>>,
        Ghost(oentries): Ghost<Seq<(usize, usize)>>,
        Ghost(base): Ghost<int>,
        Ghost(s0): Ghost<int>,
        Ghost(new_parent): Ghost<int>,
    ) -> (r: Result<(), MemError>)
        requires
            old(self).wf(),
            0 <= base <= old(self).regions@.len(),
            0 <= s0,
            s0 + new_sections@.len() == old(self).sections@.len(),
            new_sections@.len() == oentries.len(),
            forall|j: int| 0 <= j < oentries.len() ==> (#[trigger] oentries[j]).1 < osecs.len(),
            forall|j: int|
                0 <= j < new_sections@.len() ==> (#[trigger] new_sections@[j]).0 == oentries[j].0
                    && new_sections@[j].1 == s0 + j,
            forall|j: int|
                0 <= j < oentries.len() ==> spec_new_section_matches(
                    #[trigger] old(self).sections@[s0 + j],
                    osecs[oentries[j].1 as int],
                    new_parent,
                    new_text,
                    new_rodata,
                    new_data,
                ),
            forall|j: int|
                0 <= j < new_sections@.len() ==> base <= old(self).sections@[(#[trigger] new_sections@[j]).1 as int].mapped_pages,
            forall|j: int|
                0 <= j < new_sections@.len() ==> forall|dd: int|
                    0 <= dd < old(self).sections@[(#[trigger] new_sections@[j]).1 as int].sections_i_depend_on@.len()
                        ==> (#[trigger] old(self).sections@[new_sections@[j].1 as int].sections_i_depend_on@[dd]).section
                        < s0,
            new_text matches Some(cr) ==> base <= cr.region < old(self).regions@.len(),
            new_rodata matches Some(cr) ==> base <= cr.region < old(self).regions@.len(),
            new_data matches Some(cr) ==> base <= cr.region < old(self).regions@.len(),
        ensures
            final(self).wf(),
            final(self).crates@ == old(self).crates@,
            final(self).regions@.len() == old(self).regions@.len(),
            forall|rr: int| 0 <= rr < base ==> final(self).regions@[rr] == old(self).regions@[rr],
            forall|rr: int|
                0 <= rr < old(self).regions@.len() ==> (#[trigger] final(self).regions@[rr]).spec_flags() == old(self).regions@[rr].spec_flags(),
            final(self).sections@.len() == old(self).sections@.len(),
            forall|s: int|
                s0 <= s < old(self).sections@.len() ==> final(self).sections@[s] == old(self).sections@[s],
            forall|s: int|
                0 <= s < s0 ==> spec_section_preserved(
                    old(self).sections@[s],
                    #[trigger] final(self).sections@[s],
                ),
            r is Ok ==> (new_text matches Some(cr) ==> final(self).regions@[cr.region as int].spec_bytes().len() == old(self).regions@[cr.region as int].spec_bytes().len() && forall|b: int|
                #![trigger final(self).regions@[cr.region as int].spec_bytes()[b]]
                0 <= b < old(self).regions@[cr.region as int].spec_bytes().len() && !spec_rewritten_byte_upto(osecs, oentries, new_text, new_rodata, new_data, cr.region as int, b, oentries.len() as int) ==> final(self).regions@[cr.region as int].spec_bytes()[b] == old(self).regions@[cr.region as int].spec_bytes()[b]),
            r is Ok ==> (new_rodata matches Some(cr) ==> final(self).regions@[cr.region as int].spec_bytes().len() == old(self).regions@[cr.region as int].spec_bytes().len() && forall|b: int|
                #![trigger final(self).regions@[cr.region as int].spec_bytes()[b]]
                0 <= b < old(self).regions@[cr.region as int].spec_bytes().len() && !spec_rewritten_byte_upto(osecs, oentries, new_text, new_rodata, new_data, cr.region as int, b, oentries.len() as int) ==> final(self).regions@[cr.region as int].spec_bytes()[b] == old(self).regions@[cr.region as int].spec_bytes()[b]),
            r is Ok ==> (new_data matches Some(cr) ==> final(self).regions@[cr.region as int].spec_bytes().len() == old(self).regions@[cr.region as int].spec_bytes().len() && forall|b: int|
                #![trigger final(self).regions@[cr.region as int].spec_bytes()[b]]
                0 <= b < old(self).regions@[cr.region as int].spec_bytes().len() && !spec_rewritten_byte_upto(osecs, oentries, new_text, new_rodata, new_data, cr.region as int, b, oentries.len() as int) ==> final(self).regions@[cr.region as int].spec_bytes()[b] == old(self).regions@[cr.region as int].spec_bytes()[b]),
            r is Ok ==> forall|j: int, d: int|
                0 <= j < oentries.len() && 0 <= d < old(self).sections@[s0 + j].sections_i_depend_on@.len() ==> {
                    let dep = #[trigger] old(self).sections@[s0 + j].sections_i_depend_on@[d];
                    dep.relocation.spec_is_absolute() || exists|i: int|
                        0 <= i < final(self).sections@[dep.section as int].sections_dependent_on_me@.len()
                            && final(self).sections@[dep.section as int].sections_dependent_on_me@[i]
                            == (WeakDependent { section: (s0 + j) as usize, relocation: dep.relocation })
                },
            r matches Err(e) ==> e == MemError::DeepCopyInconsistent ==> exists|k: int, d: int|
                #![trigger osecs[oentries[k].1 as int].internal_dependencies@[d]]
                0 <= k < oentries.len() && 0 <= d < osecs[oentries[k].1 as int].internal_dependencies@.len()
                    && forall|j: int|
                    0 <= j < oentries.len() ==> (#[trigger] oentries[j]).0 != osecs[oentries[k].1 as int].internal_dependencies@[d].source_sec_shndx,
    {
        let count = new_sections.len();
        let mut k2: usize = 0;
        while k2 < count
            invariant
                old(self).wf(),
                self.wf(),
                0 <= base <= old(self).regions@.len(),
                0 <= s0,
                s0 + count == old(self).sections@.len(),
                count == new_sections@.len(),
                count == oentries.len(),
                k2 <= count,
                forall|j: int| 0 <= j < oentries.len() ==> (#[trigger] oentries[j]).1 < osecs.len(),
                forall|j: int|
                    0 <= j < count ==> (#[trigger] new_sections@[j]).0 == oentries[j].0
                        && new_sections@[j].1 == s0 + j,
                forall|j: int|
                    0 <= j < count ==> spec_new_section_matches(
                        #[trigger] old(self).sections@[s0 + j],
                        osecs[oentries[j].1 as int],
                        new_parent,
                        new_text,
                        new_rodata,
                        new_data,
                    ),
                forall|j: int|
                    0 <= j < count ==> base <= old(self).sections@[(#[trigger] new_sections@[j]).1 as int].mapped_pages,
                forall|j: int|
                    0 <= j < count ==> forall|dd: int|
                        0 <= dd < old(self).sections@[(#[trigger] new_sections@[j]).1 as int].sections_i_depend_on@.len()
                            ==> (#[trigger] old(self).sections@[new_sections@[j].1 as int].sections_i_depend_on@[dd]).section
                            < s0,
                new_text matches Some(cr) ==> base <= cr.region < old(self).regions@.len(),
                new_rodata matches Some(cr) ==> base <= cr.region < old(self).regions@.len(),
                new_data matches Some(cr) ==> base <= cr.region < old(self).regions@.len(),
                self.crates@ == old(self).crates@,
                self.regions@.len() == old(self).regions@.len(),
                forall|rr: int| 0 <= rr < base ==> self.regions@[rr] == old(self).regions@[rr],
                forall|rr: int|
                    0 <= rr < old(self).regions@.len() ==> (#[trigger] self.regions@[rr]).spec_flags() == old(self).regions@[rr].spec_flags(),
                self.sections@.len() == old(self).sections@.len(),
                forall|s: int|
                    s0 <= s < old(self).sections@.len() ==> self.sections@[s] == old(self).sections@[s],
                forall|s: int|
                    0 <= s < s0 ==> spec_section_preserved(
                        old(self).sections@[s],
                        #[trigger] self.sections@[s],
                    ),
                new_text matches Some(cr) ==> self.regions@[cr.region as int].spec_bytes().len() == old(self).regions@[cr.region as int].spec_bytes().len() && forall|b: int|
                    #![trigger self.regions@[cr.region as int].spec_bytes()[b]]
                    0 <= b < old(self).regions@[cr.region as int].spec_bytes().len() && !spec_rewritten_byte_upto(osecs, oentries, new_text, new_rodata, new_data, cr.region as int, b, k2 as int) ==> self.regions@[cr.region as int].spec_bytes()[b] == old(self).regions@[cr.region as int].spec_bytes()[b],
                new_rodata matches Some(cr) ==> self.regions@[cr.region as int].spec_bytes().len() == old(self).regions@[cr.region as int].spec_bytes().len() && forall|b: int|
                    #![trigger self.regions@[cr.region as int].spec_bytes()[b]]
                    0 <= b < old(self).regions@[cr.region as int].spec_bytes().len() && !spec_rewritten_byte_upto(osecs, oentries, new_text, new_rodata, new_data, cr.region as int, b, k2 as int) ==> self.regions@[cr.region as int].spec_bytes()[b] == old(self).regions@[cr.region as int].spec_bytes()[b],
                new_data matches Some(cr) ==> self.regions@[cr.region as int].spec_bytes().len() == old(self).regions@[cr.region as int].spec_bytes().len() && forall|b: int|
                    #![trigger self.regions@[cr.region as int].spec_bytes()[b]]
                    0 <= b < old(self).regions@[cr.region as int].spec_bytes().len() && !spec_rewritten_byte_upto(osecs, oentries, new_text, new_rodata, new_data, cr.region as int, b, k2 as int) ==> self.regions@[cr.region as int].spec_bytes()[b] == old(self).regions@[cr.region as int].spec_bytes()[b],
                forall|j: int, d: int|
                    0 <= j < k2 && 0 <= d < old(self).sections@[s0 + j].sections_i_depend_on@.len()
                        ==> {
                        let dep = #[trigger] old(self).sections@[s0 + j].sections_i_depend_on@[d];
                        dep.relocation.spec_is_absolute() || exists|i: int|
                            0 <= i < self.sections@[dep.section as int].sections_dependent_on_me@.len()
                                && self.sections@[dep.section as int].sections_dependent_on_me@[i]
                                == (WeakDependent {
                                section: (s0 + j) as usize,
                                relocation: dep.relocation,
                            })
                    },
            decreases count - k2,
        {
            let sec_idx = new_sections[k2].1;
            proof {
                assert(self.sections@[sec_idx as int] == old(self).sections@[(s0 + k2) as int]);
                assert(spec_new_section_matches(
                    old(self).sections@[(s0 + k2) as int],
                    osecs[oentries[k2 as int].1 as int],
                    new_parent,
                    new_text,
                    new_rodata,
                    new_data,
                ));
                assert forall|d: int|
                    0 <= d < self.sections@[sec_idx as int].sections_i_depend_on@.len() implies (
                #[trigger] self.sections@[sec_idx as int].sections_i_depend_on@[d]).section
                    < s0 by {
                    assert(old(self).sections@[new_sections@[k2 as int].1 as int].sections_i_depend_on@[d].section
                        < s0);
                }
            }
            let ghost pre = *self;
            match self.rewrite_relocations_for(sec_idx, new_sections, Ghost(base), Ghost(s0)) {
                Ok(()) => {},
                Err(e) => {
                    proof {
                        lemma_preserved_trans(*old(self), pre, *self, s0);
                        if e == MemError::DeepCopyInconsistent {
                            assert(pre.sections@[sec_idx as int] == old(self).sections@[(s0
                                + k2) as int]);
                            assert(pre.sections@[sec_idx as int].internal_dependencies@
                                == osecs[oentries[k2 as int].1 as int].internal_dependencies@);
                            lemma_internal_dep_unresolved(
                                osecs,
                                oentries,
                                pre.sections@[sec_idx as int],
                                new_sections@,
                                k2 as int,
                            );
                        }
                    }
                    return Err(e);
                },
            }
            proof {
                lemma_preserved_trans(*old(self), pre, *self, s0);
                let old_s = osecs[oentries[k2 as int].1 as int];
                assert(pre.sections@[(s0 + k2) as int] == old(self).sections@[(s0 + k2) as int]);
                assert(pre.sections@[(s0 + k2) as int].mapped_pages as int == spec_region_of_typ(
                    old_s.typ,
                    new_text,
                    new_rodata,
                    new_data,
                ));
                if new_text is Some {
                    lemma_bytes_preserved_step(
                        *old(self),
                        pre,
                        *self,
                        osecs,
                        oentries,
                        new_text,
                        new_rodata,
                        new_data,
                        (new_text->0).region as int,
                        s0,
                        k2 as int,
                    );
                }
                if new_rodata is Some {
                    lemma_bytes_preserved_step(
                        *old(self),
                        pre,
                        *self,
                        osecs,
                        oentries,
                        new_text,
                        new_rodata,
                        new_data,
                        (new_rodata->0).region as int,
                        s0,
                        k2 as int,
                    );
                }
                if new_data is Some {
                    lemma_bytes_preserved_step(
                        *old(self),
                        pre,
                        *self,
                        osecs,
                        oentries,
                        new_text,
                        new_rodata,
                        new_data,
                        (new_data->0).region as int,
                        s0,
                        k2 as int,
                    );
                }
                assert forall|j: int, d: int|
                    0 <= j < k2 + 1 && 0 <= d < old(self).sections@[s0 + j].sections_i_depend_on@.len() implies {
                    let dep = #[trigger] old(self).sections@[s0 + j].sections_i_depend_on@[d];
                    dep.relocation.spec_is_absolute() || exists|i: int|
                        0 <= i < self.sections@[dep.section as int].sections_dependent_on_me@.len()
                            && self.sections@[dep.section as int].sections_dependent_on_me@[i]
                            == (WeakDependent { section: (s0 + j) as usize, relocation: dep.relocation })
                } by {
                    let dep = old(self).sections@[s0 + j].sections_i_depend_on@[d];
                    if !dep.relocation.spec_is_absolute() {
                        if j == k2 {
                            assert(pre.sections@[sec_idx as int] == old(self).sections@[s0 + j]);
                            assert(dep == pre.sections@[sec_idx as int].sections_i_depend_on@[d]);
                        } else {
                            let i = choose|i: int|
                                0 <= i < pre.sections@[dep.section as int].sections_dependent_on_me@.len()
                                    && pre.sections@[dep.section as int].sections_dependent_on_me@[i]
                                    == (WeakDependent {
                                    section: (s0 + j) as usize,
                                    relocation: dep.relocation,
                                });
                            assert(new_sections@[j].1 == s0 + j);
                            assert(old(self).sections@[new_sections@[j].1 as int].sections_i_depend_on@[d].section
                                < s0);
                            assert(dep.section < s0);
                            assert(spec_section_preserved(
                                pre.sections@[dep.section as int],
                                self.sections@[dep.section as int],
                            ));
                            assert(self.sections@[dep.section as int].sections_dependent_on_me@[i]
                                == (WeakDependent {
                                section: (s0 + j) as usize,
                                relocation: dep.relocation,
                            }));
                        }
                    }
                }
            }
            k2 = k2 + 1;
        }
        Ok(())
    }

    /// Creates a complete copy of the given crate: deep-copies its mapped
    /// regions (writable at first), duplicates every section against the
    /// new regions with its dependency lists preserved and no dependents,
    /// re-runs every non-absolute strong relocation and every internal
    /// relocation against the new regions while registering the new
    /// sections as weak dependents of their sources, and finally remaps
    /// the text and rodata regions to their intended permissions. Returns
    /// the arena index of the new crate.
    ///
    /// Absolute relocations are not rewritten: their value depends only on
    /// the unchanged source section, so the copied bytes stand.
    #[verifier::rlimit(100)]
    #[verifier::spinoff_prover]
    pub fn deep_copy<A: FrameAllocator, P: PageAllocator>(
        &mut self,
        crate_idx: usize,
        active_table_mapper: &mut Mapper,
        allocator: &mut A,
        page_allocator: &mut P,
    ) -> (r: Result<usize, MemError>)
        requires
            old(self).wf(),
            crate_idx < old(self).crates@.len(),
            old(active_table_mapper).wf(),
        ensures
            final(self).wf(),
            final(active_table_mapper).wf(),
            forall|c: int|
                0 <= c < old(self).crates@.len() ==> final(self).crates@[c] == old(self).crates@[c],
            forall|rr: int|
                0 <= rr < old(self).regions@.len() ==> final(self).regions@[rr] == old(self).regions@[rr],
            forall|s: int|
                0 <= s < old(self).sections@.len() ==> spec_section_preserved(
                    old(self).sections@[s],
                    #[trigger] final(self).sections@[s],
                ),
            match r {
                Ok(new_idx) => {
                    let oc = old(self).crates@[crate_idx as int];
                    let nc = final(self).crates@[new_idx as int];
                    &&& new_idx == old(self).crates@.len()
                    &&& final(self).crates@.len() == old(self).crates@.len() + 1
                    &&& nc.crate_name@ == oc.crate_name@
                    &&& nc.sections@.len() == oc.sections@.len()
                    &&& (nc.text_pages is Some <==> oc.text_pages is Some)
                    &&& (nc.rodata_pages is Some <==> oc.rodata_pages is Some)
                    &&& (nc.data_pages is Some <==> oc.data_pages is Some)
                    &&& forall|k: int|
                        0 <= k < oc.sections@.len() ==> (#[trigger] nc.sections@[k]).0
                            == oc.sections@[k].0 && nc.sections@[k].1 == old(self).sections@.len() + k
                    &&& forall|k: int|
                        0 <= k < oc.sections@.len() ==> spec_new_section_matches(
                            #[trigger] final(self).sections@[old(self).sections@.len() + k],
                            old(self).sections@[oc.sections@[k].1 as int],
                            new_idx as int,
                            nc.text_pages,
                            nc.rodata_pages,
                            nc.data_pages,
                        )
                    &&& (nc.text_pages matches Some(cr) ==> final(self).regions@[cr.region as int].spec_flags() == (EntryFlags {
                        present: true,
                        writable: false,
                        huge: false,
                        no_execute: false,
                    }))
                    &&& (nc.rodata_pages matches Some(cr) ==> final(self).regions@[cr.region as int].spec_flags() == (EntryFlags {
                        present: true,
                        writable: false,
                        huge: false,
                        no_execute: true,
                    }))
                    &&& (nc.data_pages matches Some(cr) ==> final(self).regions@[cr.region as int].spec_flags() == (EntryFlags {
                        present: true,
                        writable: true,
                        huge: false,
                        no_execute: true,
                    }))
                    &&& trie_entries(nc.bss_sections) == spec_bss_trie_map(
                        oc.sections@,
                        old(self).sections@,
                        old(self).sections@.len() as int,
                        oc.sections@.len() as int,
                    )
                    &&& forall|k: int, d: int|
                        0 <= k < oc.sections@.len() && 0 <= d < old(self).sections@[oc.sections@[k].1 as int].sections_i_depend_on@.len() ==> {
                            let dep = #[trigger] old(self).sections@[oc.sections@[k].1 as int].sections_i_depend_on@[d];
                            dep.relocation.spec_is_absolute() || exists|i: int|
                                0 <= i < final(self).sections@[dep.section as int].sections_dependent_on_me@.len()
                                    && final(self).sections@[dep.section as int].sections_dependent_on_me@[i]
                                    == (WeakDependent {
                                    section: (old(self).sections@.len() + k) as usize,
                                    relocation: dep.relocation,
                                })
                        }
                    &&& (nc.text_pages matches Some(cr) ==> final(self).regions@[cr.region as int].spec_bytes().len() == old(self).regions@[(oc.text_pages->0).region as int].spec_bytes().len() && forall|b: int|
                        #![trigger final(self).regions@[cr.region as int].spec_bytes()[b]]
                        0 <= b < final(self).regions@[cr.region as int].spec_bytes().len() && !spec_rewritten_byte_upto(old(self).sections@, oc.sections@, nc.text_pages, nc.rodata_pages, nc.data_pages, cr.region as int, b, oc.sections@.len() as int) ==> final(self).regions@[cr.region as int].spec_bytes()[b] == old(self).regions@[(oc.text_pages->0).region as int].spec_bytes()[b])
                    &&& (nc.rodata_pages matches Some(cr) ==> final(self).regions@[cr.region as int].spec_bytes().len() == old(self).regions@[(oc.rodata_pages->0).region as int].spec_bytes().len() && forall|b: int|
                        #![trigger final(self).regions@[cr.region as int].spec_bytes()[b]]
                        0 <= b < final(self).regions@[cr.region as int].spec_bytes().len() && !spec_rewritten_byte_upto(old(self).sections@, oc.sections@, nc.text_pages, nc.rodata_pages, nc.data_pages, cr.region as int, b, oc.sections@.len() as int) ==> final(self).regions@[cr.region as int].spec_bytes()[b] == old(self).regions@[(oc.rodata_pages->0).region as int].spec_bytes()[b])
                    &&& (nc.data_pages matches Some(cr) ==> final(self).regions@[cr.region as int].spec_bytes().len() == old(self).regions@[(oc.data_pages->0).region as int].spec_bytes().len() && forall|b: int|
                        #![trigger final(self).regions@[cr.region as int].spec_bytes()[b]]
                        0 <= b < final(self).regions@[cr.region as int].spec_bytes().len() && !spec_rewritten_byte_upto(old(self).sections@, oc.sections@, nc.text_pages, nc.rodata_pages, nc.data_pages, cr.region as int, b, oc.sections@.len() as int) ==> final(self).regions@[cr.region as int].spec_bytes()[b] == old(self).regions@[(oc.data_pages->0).region as int].spec_bytes()[b])
                },
                Err(e) => {
                    let oc = old(self).crates@[crate_idx as int];
                    &&& final(self).crates@.len() == old(self).crates@.len() || (final(self).crates@.len() == old(self).crates@.len() + 1 && final(self).crates@[old(self).crates@.len() as int].sections@.len() == 0)
                    &&& e == MemError::DeepCopyInconsistent ==> {
                        ||| exists|k: int|
                            0 <= k < oc.sections@.len() && match old(self).sections@[(#[trigger] oc.sections@[k]).1 as int].typ {
                                SectionType::Text => oc.text_pages is None,
                                SectionType::Rodata | SectionType::GccExceptTable
                                    | SectionType::EhFrame => oc.rodata_pages is None,
                                SectionType::Data | SectionType::Bss => oc.data_pages is None,
                            }
                        ||| exists|k: int, d: int|
                            #![trigger old(self).sections@[oc.sections@[k].1 as int].internal_dependencies@[d]]
                            0 <= k < oc.sections@.len() && 0 <= d < old(self).sections@[oc.sections@[k].1 as int].internal_dependencies@.len() && forall|j: int|
                                0 <= j < oc.sections@.len() ==> (#[trigger] oc.sections@[j]).0 != old(self).sections@[oc.sections@[k].1 as int].internal_dependencies@[d].source_sec_shndx
                    }
                },
            },
    {
        let ghost base = old(self).regions@.len() as int;
        // First, deep copy all of the memory regions, mapped writable for
        // the copying and relocation writing below.
        let (new_text, new_rodata, new_data) = match self.copy_crate_regions(
            crate_idx,
            active_table_mapper,
            allocator,
            page_allocator,
        ) {
            Ok(triple) => triple,
            Err(e) => {
                return Err(e);
            },
        };
        let new_idx = self.crates.len();
        // The new crate enters the arena first, with an empty section
        // list, so that its sections can name it as their parent; the
        // lists are filled in at the end.
        let new_crate = LoadedCrate {
            crate_name: self.crates[crate_idx].crate_name.clone(),
            object_file: self.crates[crate_idx].object_file.clone(),
            sections: Vec::new(),
            text_pages: new_text,
            rodata_pages: new_rodata,
            data_pages: new_data,
            global_symbols: copy_strings(&self.crates[crate_idx].global_symbols),
            bss_sections: bss_trie_new(),
            reexported_symbols: copy_strings(&self.crates[crate_idx].reexported_symbols),
        };
        self.add_crate(new_crate);
        let ghost s0 = self.sections@.len() as int;
        // Second, duplicate the sections.
        let (new_sections, new_bss_sections) = match self.duplicate_crate_sections(
            crate_idx,
            new_idx,
            new_text,
            new_rodata,
            new_data,
            Ghost(base),
        ) {
            Ok(pair) => pair,
            Err(e) => {
                proof {
                    let oc = old(self).crates@[crate_idx as int];
                    let k = choose|k: int|
                        0 <= k < oc.sections@.len() && match old(self).sections@[(#[trigger] oc.sections@[k]).1 as int].typ {
                            SectionType::Text => new_text is None,
                            SectionType::Rodata | SectionType::GccExceptTable
                                | SectionType::EhFrame => new_rodata is None,
                            SectionType::Data | SectionType::Bss => new_data is None,
                        };
                    assert(0 <= k < oc.sections@.len() && match old(self).sections@[oc.sections@[k].1 as int].typ {
                        SectionType::Text => oc.text_pages is None,
                        SectionType::Rodata | SectionType::GccExceptTable
                            | SectionType::EhFrame => oc.rodata_pages is None,
                        SectionType::Data | SectionType::Bss => oc.data_pages is None,
                    });
                }
                return Err(e);
            },
        };
        let ghost mid = *self;
        let ghost osecs = old(self).sections@;
        let ghost oentries = old(self).crates@[crate_idx as int].sections@;
        // Third, re-run the relocations of every new section.
        proof {
            assert(old(self).crate_wf(old(self).crates@[crate_idx as int]));
        }
        match self.rewrite_crate_relocations(
            &new_sections,
            new_text,
            new_rodata,
            new_data,
            Ghost(osecs),
            Ghost(oentries),
            Ghost(base),
            Ghost(s0),
            Ghost(new_idx as int),
        ) {
            Ok(()) => {},
            Err(e) => {
                proof {
                    assert forall|rr: int|
                        0 <= rr < old(self).regions@.len() implies self.regions@[rr] == old(
                        self,
                    ).regions@[rr] by {
                        assert(self.regions@[rr] == mid.regions@[rr]);
                        assert(mid.regions@[rr] == old(self).regions@[rr]);
                    }
                    assert forall|s: int|
                        0 <= s < old(self).sections@.len() implies spec_section_preserved(
                        old(self).sections@[s],
                        self.sections@[s],
                    ) by {
                        assert(mid.sections@[s] == old(self).sections@[s]);
                        assert(spec_section_preserved(mid.sections@[s], self.sections@[s]));
                    }
                }
                return Err(e);
            },
        }
        proof {
            assert forall|rr: int|
                0 <= rr < old(self).regions@.len() implies self.regions@[rr] == old(self).regions@[rr] by {
                assert(mid.regions@[rr] == old(self).regions@[rr]);
            }
            assert forall|s: int|
                0 <= s < old(self).sections@.len() implies spec_section_preserved(
                old(self).sections@[s],
                self.sections@[s],
            ) by {
                assert(mid.sections@[s] == old(self).sections@[s]);
                assert(spec_section_preserved(mid.sections@[s], self.sections@[s]));
            }
        }
        // Fourth, remap the text and rodata regions back to their intended
        // permissions; data and bss remain writable.
        if let Some(ncr) = new_text {
            let ghost pre = *self;
            proof {
                assert(self.regions@[ncr.region as int].wf());
            }
            match self.regions[ncr.region].remap(active_table_mapper, text_section_flags()) {
                Ok(()) => {},
                Err(e) => {
                    proof {
                        lemma_store_wf_region_update(pre, *self, ncr.region as int);
                    }
                    return Err(e);
                },
            }
            proof {
                lemma_store_wf_region_update(pre, *self, ncr.region as int);
            }
        }
        if let Some(ncr) = new_rodata {
            let ghost pre = *self;
            proof {
                assert(self.regions@[ncr.region as int].wf());
            }
            match self.regions[ncr.region].remap(active_table_mapper, rodata_section_flags()) {
                Ok(()) => {},
                Err(e) => {
                    proof {
                        lemma_store_wf_region_update(pre, *self, ncr.region as int);
                    }
                    return Err(e);
                },
            }
            proof {
                lemma_store_wf_region_update(pre, *self, ncr.region as int);
            }
        }
        // Finally, hand the new crate its section list and bss trie.
        let ghost pre3 = *self;
        self.crates[new_idx].sections = new_sections;
        self.crates[new_idx].bss_sections = new_bss_sections;
        proof {
            assert forall|c: int|
                0 <= c < self.crates@.len() implies self.crate_wf(#[trigger] self.crates@[c]) by {
                if c != new_idx {
                    assert(pre3.crate_wf(pre3.crates@[c]));
                }
            }
            let oc = old(self).crates@[crate_idx as int];
            let nc = self.crates@[new_idx as int];
            assert(nc.crate_name@ == oc.crate_name@);
            assert(nc.sections@.len() == oc.sections@.len());
            assert forall|k: int|
                0 <= k < oc.sections@.len() implies spec_new_section_matches(
                #[trigger] self.sections@[old(self).sections@.len() + k],
                old(self).sections@[oc.sections@[k].1 as int],
                new_idx as int,
                nc.text_pages,
                nc.rodata_pages,
                nc.data_pages,
            ) by {
                assert(self.sections@[s0 + k] == mid.sections@[s0 + k]);
                assert(spec_new_section_matches(
                    mid.sections@[s0 + k],
                    old(self).sections@[oc.sections@[k].1 as int],
                    new_idx as int,
                    new_text,
                    new_rodata,
                    new_data,
                ));
            }
            assert forall|k: int, d: int|
                0 <= k < oc.sections@.len() && 0 <= d < old(self).sections@[oc.sections@[k].1 as int].sections_i_depend_on@.len() implies {
                let dep = #[trigger] old(self).sections@[oc.sections@[k].1 as int].sections_i_depend_on@[d];
                dep.relocation.spec_is_absolute() || exists|i: int|
                    0 <= i < self.sections@[dep.section as int].sections_dependent_on_me@.len()
                        && self.sections@[dep.section as int].sections_dependent_on_me@[i] == (
                    WeakDependent {
                        section: (old(self).sections@.len() + k) as usize,
                        relocation: dep.relocation,
                    })
            } by {
                assert(mid.sections@[s0 + k].sections_i_depend_on@ == old(self).sections@[oc.sections@[k].1 as int].sections_i_depend_on@);
            }
        }
        Ok(new_idx)
    }
}

/// When a duplicated section still holds an internal dependency whose ELF
/// section index matches no entry of the new crate's section list, the
/// original crate's own section list lacks that index too.
proof fn lemma_internal_dep_unresolved(
    osecs: Seq<LoadedSection>,
    oentries: Seq<(usize, usize)>,
    pre_sec: LoadedSection,
    new_sections: Seq<(usize, usize)>,
    k2: int,
)
    requires
        0 <= k2 < oentries.len(),
        oentries[k2].1 < osecs.len(),
        pre_sec.internal_dependencies@ == osecs[oentries[k2].1 as int].internal_dependencies@,
        new_sections.len() == oentries.len(),
        forall|j: int|
            0 <= j < new_sections.len() ==> (#[trigger] new_sections[j]).0 == oentries[j].0,
        exists|d: int|
            #![trigger pre_sec.internal_dependencies@[d]]
            0 <= d < pre_sec.internal_dependencies@.len() && forall|j: int|
                0 <= j < new_sections.len() ==> (#[trigger] new_sections[j]).0 != pre_sec.internal_dependencies@[d].source_sec_shndx,
    ensures
        exists|k: int, d: int|
            #![trigger osecs[oentries[k].1 as int].internal_dependencies@[d]]
            0 <= k < oentries.len() && 0 <= d < osecs[oentries[k].1 as int].internal_dependencies@.len()
                && forall|j: int|
                0 <= j < oentries.len() ==> (#[trigger] oentries[j]).0 != osecs[oentries[k].1 as int].internal_dependencies@[d].source_sec_shndx,
{
    let d = choose|d: int|
        #![trigger pre_sec.internal_dependencies@[d]]
        0 <= d < pre_sec.internal_dependencies@.len() && forall|j: int|
            0 <= j < new_sections.len() ==> (#[trigger] new_sections[j]).0 != pre_sec.internal_dependencies@[d].source_sec_shndx;
    assert forall|j: int|
        0 <= j < oentries.len() implies (#[trigger] oentries[j]).0 != osecs[oentries[k2].1 as int].internal_dependencies@[d].source_sec_shndx by {
        assert(new_sections[j].0 != pre_sec.internal_dependencies@[d].source_sec_shndx);
    }
    assert(0 <= k2 < oentries.len() && 0 <= d < osecs[oentries[k2].1 as int].internal_dependencies@.len() && forall|j: int|
        0 <= j < oentries.len() ==> (#[trigger] oentries[j]).0 != osecs[oentries[k2].1 as int].internal_dependencies@[d].source_sec_shndx);
}

/// Whether a section's rewrites cover a byte depends only on its
/// dependency lists and its region offset.
proof fn lemma_rewrites_byte_same(a: LoadedSection, c: LoadedSection, b: int)
    requires
        a.sections_i_depend_on@ == c.sections_i_depend_on@,
        a.internal_dependencies@ == c.internal_dependencies@,
        a.mapped_pages_offset == c.mapped_pages_offset,
    ensures
        spec_section_rewrites_byte(a, b) == spec_section_rewrites_byte(c, b),
{
    let ns = a.sections_i_depend_on@.len() as int;
    let ni = a.internal_dependencies@.len() as int;
    if spec_strong_rewrites_byte_upto(a, b, ns) {
        let d = choose|d: int|
            0 <= d < ns && !(#[trigger] a.sections_i_depend_on@[d]).relocation.spec_is_absolute()
                && spec_rewrite_window_covers(
                a.mapped_pages_offset as int,
                a.sections_i_depend_on@[d].relocation,
                b,
            );
        assert(!c.sections_i_depend_on@[d].relocation.spec_is_absolute()
            && spec_rewrite_window_covers(
            c.mapped_pages_offset as int,
            c.sections_i_depend_on@[d].relocation,
            b,
        ));
    }
    if spec_strong_rewrites_byte_upto(c, b, ns) {
        let d = choose|d: int|
            0 <= d < ns && !(#[trigger] c.sections_i_depend_on@[d]).relocation.spec_is_absolute()
                && spec_rewrite_window_covers(
                c.mapped_pages_offset as int,
                c.sections_i_depend_on@[d].relocation,
                b,
            );
        assert(!a.sections_i_depend_on@[d].relocation.spec_is_absolute()
            && spec_rewrite_window_covers(
            a.mapped_pages_offset as int,
            a.sections_i_depend_on@[d].relocation,
            b,
        ));
    }
    if spec_internal_rewrites_byte_upto(a, b, ni) {
        let d = choose|d: int|
            0 <= d < ni && spec_rewrite_window_covers(
                a.mapped_pages_offset as int,
                (#[trigger] a.internal_dependencies@[d]).relocation,
                b,
            );
        assert(spec_rewrite_window_covers(
            c.mapped_pages_offset as int,
            c.internal_dependencies@[d].relocation,
            b,
        ));
    }
    if spec_internal_rewrites_byte_upto(c, b, ni) {
        let d = choose|d: int|
            0 <= d < ni && spec_rewrite_window_covers(
                c.mapped_pages_offset as int,
                (#[trigger] c.internal_dependencies@[d]).relocation,
                b,
            );
        assert(spec_rewrite_window_covers(
            a.mapped_pages_offset as int,
            a.internal_dependencies@[d].relocation,
            b,
        ));
    }
}

/// One rewritten section extends the set of possibly written bytes of a
/// region by exactly its own windows: bytes outside them keep the value
/// they had, and bytes untouched so far keep the copied original.
proof fn lemma_bytes_preserved_step(
    mid: CrateStore,
    pre: CrateStore,
    post: CrateStore,
    osecs: Seq<LoadedSection>,
    oentries: Seq<(usize, usize)>,
    nt: Option<CrateRegion>,
    nr: Option<CrateRegion>,
    nd: Option<CrateRegion>,
    region: int,
    s0: int,
    k2: int,
)
    requires
        0 <= k2 < oentries.len(),
        oentries[k2].1 < osecs.len(),
        0 <= s0 + k2 < pre.sections@.len(),
        0 <= region < pre.regions@.len(),
        pre.regions@.len() == post.regions@.len(),
        mid.regions@.len() == pre.regions@.len(),
        0 <= (pre.sections@[s0 + k2].mapped_pages as int) < pre.regions@.len(),
        pre.sections@[s0 + k2].sections_i_depend_on@ == osecs[oentries[k2].1 as int].sections_i_depend_on@,
        pre.sections@[s0 + k2].internal_dependencies@ == osecs[oentries[k2].1 as int].internal_dependencies@,
        pre.sections@[s0 + k2].mapped_pages_offset == osecs[oentries[k2].1 as int].mapped_pages_offset,
        pre.sections@[s0 + k2].mapped_pages as int == spec_region_of_typ(
            osecs[oentries[k2].1 as int].typ,
            nt,
            nr,
            nd,
        ),
        forall|rr: int|
            0 <= rr < pre.regions@.len() && rr != pre.sections@[s0 + k2].mapped_pages ==> (
            #[trigger] post.regions@[rr]) == pre.regions@[rr],
        post.regions@[pre.sections@[s0 + k2].mapped_pages as int].spec_bytes().len() == pre.regions@[pre.sections@[s0 + k2].mapped_pages as int].spec_bytes().len(),
        forall|b: int|
            #![trigger post.regions@[pre.sections@[s0 + k2].mapped_pages as int].spec_bytes()[b]]
            0 <= b < pre.regions@[pre.sections@[s0 + k2].mapped_pages as int].spec_bytes().len()
                && !spec_section_rewrites_byte(pre.sections@[s0 + k2], b) ==> post.regions@[pre.sections@[s0 + k2].mapped_pages as int].spec_bytes()[b] == pre.regions@[pre.sections@[s0 + k2].mapped_pages as int].spec_bytes()[b],
        pre.regions@[region].spec_bytes().len() == mid.regions@[region].spec_bytes().len(),
        forall|b: int|
            #![trigger pre.regions@[region].spec_bytes()[b]]
            0 <= b < mid.regions@[region].spec_bytes().len() && !spec_rewritten_byte_upto(
                osecs,
                oentries,
                nt,
                nr,
                nd,
                region,
                b,
                k2,
            ) ==> pre.regions@[region].spec_bytes()[b] == mid.regions@[region].spec_bytes()[b],
    ensures
        post.regions@[region].spec_bytes().len() == mid.regions@[region].spec_bytes().len(),
        forall|b: int|
            #![trigger post.regions@[region].spec_bytes()[b]]
            0 <= b < mid.regions@[region].spec_bytes().len() && !spec_rewritten_byte_upto(
                osecs,
                oentries,
                nt,
                nr,
                nd,
                region,
                b,
                k2 + 1,
            ) ==> post.regions@[region].spec_bytes()[b] == mid.regions@[region].spec_bytes()[b],
{
    let own = pre.sections@[s0 + k2].mapped_pages as int;
    let old_s = osecs[oentries[k2].1 as int];
    assert forall|b: int|
        0 <= b < mid.regions@[region].spec_bytes().len() && !spec_rewritten_byte_upto(
            osecs,
            oentries,
            nt,
            nr,
            nd,
            region,
            b,
            k2 + 1,
        ) implies #[trigger] post.regions@[region].spec_bytes()[b] == mid.regions@[region].spec_bytes()[b] by {
        if spec_rewritten_byte_upto(osecs, oentries, nt, nr, nd, region, b, k2) {
            let j = choose|j: int|
                0 <= j < k2 && spec_region_of_typ(
                    (#[trigger] osecs[oentries[j].1 as int]).typ,
                    nt,
                    nr,
                    nd,
                ) == region && spec_section_rewrites_byte(osecs[oentries[j].1 as int], b);
            assert(spec_rewritten_byte_upto(osecs, oentries, nt, nr, nd, region, b, k2 + 1));
        }
        if region == own {
            if spec_section_rewrites_byte(old_s, b) {
                assert(spec_rewritten_byte_upto(osecs, oentries, nt, nr, nd, region, b, k2 + 1));
            }
            lemma_rewrites_byte_same(old_s, pre.sections@[s0 + k2], b);
            assert(post.regions@[own].spec_bytes()[b] == pre.regions@[own].spec_bytes()[b]);
        } else {
            assert(post.regions@[region] == pre.regions@[region]);
        }
        assert(pre.regions@[region].spec_bytes()[b] == mid.regions@[region].spec_bytes()[b]);
    }
}

/// Section preservation composes.
proof fn lemma_preserved_trans(a: CrateStore, b: CrateStore, c: CrateStore, s0: int)
    requires
        0 <= s0 <= a.sections@.len(),
        a.sections@.len() == b.sections@.len() == c.sections@.len(),
        forall|s: int|
            0 <= s < s0 ==> spec_section_preserved(a.sections@[s], #[trigger] b.sections@[s]),
        forall|s: int|
            0 <= s < s0 ==> spec_section_preserved(b.sections@[s], #[trigger] c.sections@[s]),
    ensures
        forall|s: int|
            0 <= s < s0 ==> spec_section_preserved(a.sections@[s], #[trigger] c.sections@[s]),
{
    assert forall|s: int|
        0 <= s < s0 implies spec_section_preserved(a.sections@[s], #[trigger] c.sections@[s]) by {
        assert(spec_section_preserved(a.sections@[s], b.sections@[s]));
        assert(spec_section_preserved(b.sections@[s], c.sections@[s]));
    }
}

/// Replacing one region of a store, keeping its well-formedness and its
/// page range, preserves the store invariant.
proof fn lemma_store_wf_region_update(pre: CrateStore, post: CrateStore, r: int)
    requires
        pre.wf(),
        post.crates@ == pre.crates@,
        post.sections@ == pre.sections@,
        post.regions@.len() == pre.regions@.len(),
        0 <= r < pre.regions@.len(),
        forall|rr: int| 0 <= rr < pre.regions@.len() && rr != r ==> post.regions@[rr] == pre.regions@[rr],
        post.regions@[r].wf(),
        post.regions@[r].spec_pages() == pre.regions@[r].spec_pages(),
    ensures
        post.wf(),
{
    assert forall|c: int|
        0 <= c < post.crates@.len() implies post.crate_wf(#[trigger] post.crates@[c]) by {
        assert(pre.crate_wf(pre.crates@[c]));
    }
}

/// Appending a weak dependent with a valid section index to one section
/// preserves the store invariant.
proof fn lemma_store_wf_weak_push(pre: CrateStore, post: CrateStore, s: int, weak: WeakDependent)
    requires
        pre.wf(),
        post.crates@ == pre.crates@,
        post.regions@ == pre.regions@,
        post.sections@.len() == pre.sections@.len(),
        0 <= s < pre.sections@.len(),
        weak.section < pre.sections@.len(),
        forall|ss: int| 0 <= ss < pre.sections@.len() && ss != s ==> post.sections@[ss] == pre.sections@[ss],
        post.sections@[s].sections_dependent_on_me@ == pre.sections@[s].sections_dependent_on_me@.push(weak),
        post.sections@[s].typ == pre.sections@[s].typ,
        post.sections@[s].name == pre.sections@[s].name,
        post.sections@[s].mapped_pages == pre.sections@[s].mapped_pages,
        post.sections@[s].mapped_pages_offset == pre.sections@[s].mapped_pages_offset,
        post.sections@[s].virt_addr == pre.sections@[s].virt_addr,
        post.sections@[s].size == pre.sections@[s].size,
        post.sections@[s].global == pre.sections@[s].global,
        post.sections@[s].parent_crate == pre.sections@[s].parent_crate,
        post.sections@[s].sections_i_depend_on == pre.sections@[s].sections_i_depend_on,
        post.sections@[s].internal_dependencies == pre.sections@[s].internal_dependencies,
    ensures
        post.wf(),
{
    assert forall|c: int|
        0 <= c < post.crates@.len() implies post.crate_wf(#[trigger] post.crates@[c]) by {
        assert(pre.crate_wf(pre.crates@[c]));
    }
}

} // verus!
