//! The five ways in which a layer can modify an environment variable.

use std::cmp::Ordering;
use vstd::prelude::*;
use vstd::std_specs::cmp::PartialOrdSpecImpl;
use vstd::string::*;
use crate::bytes::bytes_eq;

verus! {

/// How an entry of a layer's environment changes its variable.
#[derive(Debug, Clone, Copy, PartialEq, Eq, Structural)]
pub enum ModificationBehavior {
    /// The value is put behind the variable's current value.
    Append,
    /// The value is used only where the variable is not set.
    Default,
    /// The value separates what `Append` and `Prepend` join; it changes no
    /// variable itself.
    Delimiter,
    /// The value replaces the variable's current value.
    Override,
    /// The value is put in front of the variable's current value.
    Prepend,
}

/// How two ranks compare.
pub open spec fn rank_order(left: nat, right: nat) -> Ordering {
    if left < right {
        Ordering::Less
    } else if left == right {
        Ordering::Equal
    } else {
        Ordering::Greater
    }
}

impl ModificationBehavior {
    /// The place of a behavior in the fixed order in which entries are applied
    /// and written. It is stated here variant by variant, so that the order of
    /// the declaration above carries no meaning.
    pub open spec fn rank(self) -> nat {
        match self {
            ModificationBehavior::Append => 0,
            ModificationBehavior::Default => 1,
            ModificationBehavior::Delimiter => 2,
            ModificationBehavior::Override => 3,
            ModificationBehavior::Prepend => 4,
        }
    }

    /// The file name extension that stands for a behavior.
    pub open spec fn extension_bytes(self) -> Seq<u8> {
        match self {
            ModificationBehavior::Append => "append".spec_bytes(),
            ModificationBehavior::Default => "default".spec_bytes(),
            ModificationBehavior::Delimiter => "delim".spec_bytes(),
            ModificationBehavior::Override => "override".spec_bytes(),
            ModificationBehavior::Prepend => "prepend".spec_bytes(),
        }
    }

    /// The behavior that a file name extension stands for, if it is one of the
    /// five known extensions.
    pub open spec fn of_extension(extension: Seq<u8>) -> Option<ModificationBehavior> {
        if extension == "append".spec_bytes() {
            Some(ModificationBehavior::Append)
        } else if extension == "default".spec_bytes() {
            Some(ModificationBehavior::Default)
        } else if extension == "delim".spec_bytes() {
            Some(ModificationBehavior::Delimiter)
        } else if extension == "override".spec_bytes() {
            Some(ModificationBehavior::Override)
        } else if extension == "prepend".spec_bytes() {
            Some(ModificationBehavior::Prepend)
        } else {
            None
        }
    }

    /// The rank of this behavior.
    pub fn index(&self) -> (i: u8)
        ensures
            i == self.rank(),
    {
        match self {
            ModificationBehavior::Append => 0,
            ModificationBehavior::Default => 1,
            ModificationBehavior::Delimiter => 2,
            ModificationBehavior::Override => 3,
            ModificationBehavior::Prepend => 4,
        }
    }

    /// Compares two behaviors by rank.
    pub fn cmp(&self, other: &Self) -> (order: Ordering)
        ensures
            order == rank_order(self.rank(), other.rank()),
    {
        let left: u8 = self.index();
        let right: u8 = other.index();
        if left < right {
            Ordering::Less
        } else if left == right {
            Ordering::Equal
        } else {
            Ordering::Greater
        }
    }

    /// The file name extension of this behavior.
    pub fn extension(&self) -> (extension: &'static [u8])
        ensures
            extension@ == self.extension_bytes(),
    {
        match self {
            ModificationBehavior::Append => "append".as_bytes(),
            ModificationBehavior::Default => "default".as_bytes(),
            ModificationBehavior::Delimiter => "delim".as_bytes(),
            ModificationBehavior::Override => "override".as_bytes(),
            ModificationBehavior::Prepend => "prepend".as_bytes(),
        }
    }

    /// The behavior that a file name extension stands for. Any extension but
    /// the five known ones stands for none.
    pub fn from_extension(extension: &[u8]) -> (behavior: Option<Self>)
        ensures
            behavior == Self::of_extension(extension@),
    {
        if bytes_eq(extension, "append".as_bytes()) {
            Some(ModificationBehavior::Append)
        } else if bytes_eq(extension, "default".as_bytes()) {
            Some(ModificationBehavior::Default)
        } else if bytes_eq(extension, "delim".as_bytes()) {
            Some(ModificationBehavior::Delimiter)
        } else if bytes_eq(extension, "override".as_bytes()) {
            Some(ModificationBehavior::Override)
        } else if bytes_eq(extension, "prepend".as_bytes()) {
            Some(ModificationBehavior::Prepend)
        } else {
            None
        }
    }

    /// An extension is read back as the behavior it was written for, holds no
    /// dot and is not empty.
    pub proof fn lemma_extension(self)
        ensures
            Self::of_extension(self.extension_bytes()) == Some(self),
            self.extension_bytes().len() > 0,
            forall|i: int|
                0 <= i < self.extension_bytes().len() ==> self.extension_bytes()[i] != 46u8,
    {
        reveal_strlit("append");
        reveal_strlit("default");
        reveal_strlit("delim");
        reveal_strlit("override");
        reveal_strlit("prepend");
        is_ascii_spec_bytes("append");
        is_ascii_spec_bytes("default");
        is_ascii_spec_bytes("delim");
        is_ascii_spec_bytes("override");
        is_ascii_spec_bytes("prepend");
        assert("append".spec_bytes()[0] == 97u8);
        assert("default".spec_bytes()[2] == 102u8);
        assert("delim".spec_bytes()[2] == 108u8);
        assert("override".spec_bytes()[0] == 111u8);
        assert("prepend".spec_bytes()[0] == 112u8);
    }
}

impl PartialOrd for ModificationBehavior {
    fn partial_cmp(&self, other: &Self) -> (order: Option<Ordering>) {
        Some(self.cmp(other))
    }
}

impl PartialOrdSpecImpl for ModificationBehavior {
    open spec fn obeys_partial_cmp_spec() -> bool {
        true
    }

    open spec fn partial_cmp_spec(&self, other: &Self) -> Option<Ordering> {
        Some(rank_order(self.rank(), other.rank()))
    }
}

} // verus!
