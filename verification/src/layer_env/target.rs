//! The phases and processes that a layer's entries can be meant for.

use vstd::prelude::*;
use vstd::std_specs::cmp::PartialEqSpecImpl;
use vstd::string::*;
use vstd::utf8::{encode_utf8, encode_utf8_decode_utf8};
use crate::bytes::bytes_eq;

verus! {

/// For which phase, or for which process at launch, entries are meant.
#[derive(Debug)]
pub enum TargetLifecycle {
    /// Every phase and every process.
    All,
    /// The build.
    Build,
    /// The launch of any process.
    Launch,
    /// The launch of the process type of this name.
    Process(String),
}

/// A target as contracts speak of it. A process type is identified by the bytes
/// of its name.
pub enum Target {
    /// Every phase and every process.
    All,
    /// The build.
    Build,
    /// The launch of any process.
    Launch,
    /// The launch of the process type whose name has these bytes.
    Process(Seq<u8>),
}

impl View for TargetLifecycle {
    type V = Target;

    open spec fn view(&self) -> Target {
        match self {
            TargetLifecycle::All => Target::All,
            TargetLifecycle::Build => Target::Build,
            TargetLifecycle::Launch => Target::Launch,
            TargetLifecycle::Process(name) => Target::Process(encode_utf8(name@)),
        }
    }
}

/// Process types of different names are different targets.
pub proof fn lemma_process_names_distinct(first: Seq<char>, second: Seq<char>)
    requires
        first != second,
    ensures
        encode_utf8(first) != encode_utf8(second),
{
    encode_utf8_decode_utf8(first);
    encode_utf8_decode_utf8(second);
}

impl PartialEq for TargetLifecycle {
    fn eq(&self, other: &Self) -> (same: bool) {
        match (self, other) {
            (TargetLifecycle::All, TargetLifecycle::All) => true,
            (TargetLifecycle::Build, TargetLifecycle::Build) => true,
            (TargetLifecycle::Launch, TargetLifecycle::Launch) => true,
            (TargetLifecycle::Process(mine), TargetLifecycle::Process(theirs)) => bytes_eq(
                mine.as_str().as_bytes(),
                theirs.as_str().as_bytes(),
            ),
            _ => false,
        }
    }
}

impl PartialEqSpecImpl for TargetLifecycle {
    open spec fn obeys_eq_spec() -> bool {
        true
    }

    open spec fn eq_spec(&self, other: &Self) -> bool {
        self@ == other@
    }
}

impl Eq for TargetLifecycle {

}

} // verus!
