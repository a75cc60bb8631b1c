//! Page-table entry flags.
//!
//! Only the four flag bits the engine reasons about are modeled: PRESENT
//! (bit 0), WRITABLE (bit 1), HUGE_PAGE (bit 7), and NO_EXECUTE (bit 63).

use vstd::prelude::*;

verus! {

/// The flag set of one page-table entry. A flag is executable when
/// NO_EXECUTE is clear.
#[derive(Clone, Copy, Debug, PartialEq, Eq, Structural)]
pub struct EntryFlags {
    /// PRESENT, hardware bit 0.
    pub present: bool,
    /// WRITABLE, hardware bit 1.
    pub writable: bool,
    /// HUGE_PAGE, hardware bit 7.
    pub huge: bool,
    /// NO_EXECUTE, hardware bit 63.
    pub no_execute: bool,
}

impl EntryFlags {
    /// The numeric value of the flag set, with each flag at its hardware
    /// bit position.
    pub open spec fn spec_bits(&self) -> u64 {
        ((if self.present { 1u64 } else { 0u64 })
            + (if self.writable { 2u64 } else { 0u64 })
            + (if self.huge { 0x80u64 } else { 0u64 })
            + (if self.no_execute { 0x8000_0000_0000_0000u64 } else { 0u64 })) as u64
    }

    /// The empty flag set.
    pub fn empty() -> (r: EntryFlags)
        ensures
            r == (EntryFlags { present: false, writable: false, huge: false, no_execute: false }),
    {
        EntryFlags { present: false, writable: false, huge: false, no_execute: false }
    }

    /// The flag set holding only PRESENT.
    pub fn present() -> (r: EntryFlags)
        ensures
            r == (EntryFlags { present: true, writable: false, huge: false, no_execute: false }),
    {
        EntryFlags { present: true, writable: false, huge: false, no_execute: false }
    }

    /// The flag set holding only WRITABLE.
    pub fn writable() -> (r: EntryFlags)
        ensures
            r == (EntryFlags { present: false, writable: true, huge: false, no_execute: false }),
    {
        EntryFlags { present: false, writable: true, huge: false, no_execute: false }
    }

    /// The flag set holding only HUGE_PAGE.
    pub fn huge_page() -> (r: EntryFlags)
        ensures
            r == (EntryFlags { present: false, writable: false, huge: true, no_execute: false }),
    {
        EntryFlags { present: false, writable: false, huge: true, no_execute: false }
    }

    /// The flag set holding only NO_EXECUTE.
    pub fn no_execute() -> (r: EntryFlags)
        ensures
            r == (EntryFlags { present: false, writable: false, huge: false, no_execute: true }),
    {
        EntryFlags { present: false, writable: false, huge: false, no_execute: true }
    }

    /// The union of two flag sets, as a specification value.
    pub open spec fn spec_or(self, other: EntryFlags) -> EntryFlags {
        EntryFlags {
            present: self.present || other.present,
            writable: self.writable || other.writable,
            huge: self.huge || other.huge,
            no_execute: self.no_execute || other.no_execute,
        }
    }

    /// The union of two flag sets: a flag is set in the result when it is
    /// set in either operand.
    #[verifier::when_used_as_spec(spec_or)]
    pub fn or(self, other: EntryFlags) -> (r: EntryFlags)
        ensures
            r == self.spec_or(other),
    {
        EntryFlags {
            present: self.present || other.present,
            writable: self.writable || other.writable,
            huge: self.huge || other.huge,
            no_execute: self.no_execute || other.no_execute,
        }
    }

    /// Whether PRESENT is set, as a specification value.
    pub open spec fn spec_is_present(&self) -> bool {
        self.present
    }

    /// Whether PRESENT is set.
    #[verifier::when_used_as_spec(spec_is_present)]
    pub fn is_present(&self) -> (r: bool)
        ensures
            r == self.spec_is_present(),
    {
        self.present
    }

    /// Whether WRITABLE is set, as a specification value.
    pub open spec fn spec_is_writable(&self) -> bool {
        self.writable
    }

    /// Whether WRITABLE is set.
    #[verifier::when_used_as_spec(spec_is_writable)]
    pub fn is_writable(&self) -> (r: bool)
        ensures
            r == self.spec_is_writable(),
    {
        self.writable
    }

    /// Whether HUGE_PAGE is set, as a specification value.
    pub open spec fn spec_is_huge(&self) -> bool {
        self.huge
    }

    /// Whether HUGE_PAGE is set.
    #[verifier::when_used_as_spec(spec_is_huge)]
    pub fn is_huge(&self) -> (r: bool)
        ensures
            r == self.spec_is_huge(),
    {
        self.huge
    }

    /// Whether the flags permit execution: NO_EXECUTE is clear, as a
    /// specification value.
    pub open spec fn spec_is_executable(&self) -> bool {
        !self.no_execute
    }

    /// Whether the flags permit execution: NO_EXECUTE is clear.
    #[verifier::when_used_as_spec(spec_is_executable)]
    pub fn is_executable(&self) -> (r: bool)
        ensures
            r == self.spec_is_executable(),
    {
        !self.no_execute
    }

    /// This flag set with PRESENT added, as a specification value.
    pub open spec fn spec_with_present(self) -> EntryFlags {
        EntryFlags { present: true, ..self }
    }

    /// This flag set with PRESENT added.
    #[verifier::when_used_as_spec(spec_with_present)]
    pub fn with_present(self) -> (r: EntryFlags)
        ensures
            r == self.spec_with_present(),
    {
        EntryFlags { present: true, ..self }
    }

    /// This flag set with NO_EXECUTE cleared: the form used for entries
    /// above the leaf level, as a specification value.
    pub open spec fn spec_without_no_execute(self) -> EntryFlags {
        EntryFlags { no_execute: false, ..self }
    }

    /// This flag set with NO_EXECUTE cleared: the form used for entries
    /// above the leaf level, so that an executable leaf below stays
    /// reachable as executable.
    #[verifier::when_used_as_spec(spec_without_no_execute)]
    pub fn without_no_execute(self) -> (r: EntryFlags)
        ensures
            r == self.spec_without_no_execute(),
    {
        EntryFlags { no_execute: false, ..self }
    }

    /// The numeric value of the flag set, with each flag at its hardware
    /// bit position: PRESENT at bit 0, WRITABLE at bit 1, HUGE_PAGE at
    /// bit 7, NO_EXECUTE at bit 63.
    pub fn bits(&self) -> (r: u64)
        ensures
            r == self.spec_bits(),
    {
        let mut r: u64 = 0;
        if self.present {
            r = r + 1;
        }
        if self.writable {
            r = r + 2;
        }
        if self.huge {
            r = r + 0x80;
        }
        if self.no_execute {
            r = r + 0x8000_0000_0000_0000;
        }
        r
    }
}

impl Default for EntryFlags {
    /// The default flag set is empty.
    fn default() -> (r: Self)
        ensures
            r == (EntryFlags { present: false, writable: false, huge: false, no_execute: false }),
    {
        EntryFlags { present: false, writable: false, huge: false, no_execute: false }
    }
}

} // verus!
