//! What kind of buildpack a directory holds.

use vstd::prelude::*;

verus! {

/// The kinds of buildpack that are told apart.
#[derive(Debug, Clone, Copy, PartialEq, Eq, Structural)]
pub enum BuildpackKind {
    /// A buildpack with a Cargo manifest beside its descriptor.
    LibCnbRs,
    /// A buildpack that only orders other buildpacks.
    Meta,
    /// Any other buildpack with a valid descriptor.
    Other,
}

/// The two forms that a buildpack descriptor can have.
#[derive(Debug, Clone, Copy, PartialEq, Eq, Structural)]
pub enum DescriptorKind {
    /// The descriptor of a buildpack that builds.
    Component,
    /// The descriptor of a buildpack that orders other buildpacks.
    Composite,
}

/// The form of the descriptor that a text is parsed as; `None` where the text
/// is no valid descriptor.
pub uninterp spec fn parsed_descriptor_kind(contents: Seq<char>) -> Option<DescriptorKind>;

/// Parses `contents` as a buildpack descriptor with `toml::from_str`, at the type
/// `libcnb_data::buildpack::BuildpackDescriptor`, and tells which of the two
/// variants came back. Nothing is proved of the parser: the contract only gives
/// its outcome a name, which rests on the parser being a function of the text
/// alone.
#[verifier::external_body]
fn parse_descriptor_kind(contents: &str) -> (kind: Option<DescriptorKind>)
    ensures
        kind == parsed_descriptor_kind(contents@),
{
    match toml::from_str::<libcnb_data::buildpack::BuildpackDescriptor>(contents) {
        Ok(libcnb_data::buildpack::BuildpackDescriptor::Component(_)) => Some(
            DescriptorKind::Component,
        ),
        Ok(libcnb_data::buildpack::BuildpackDescriptor::Composite(_)) => Some(
            DescriptorKind::Composite,
        ),
        Err(_) => None,
    }
}

/// The kind of a buildpack with a descriptor of the given form.
pub open spec fn kind_for(descriptor: DescriptorKind, has_cargo_manifest: bool) -> BuildpackKind {
    match descriptor {
        DescriptorKind::Component => if has_cargo_manifest {
            BuildpackKind::LibCnbRs
        } else {
            BuildpackKind::Other
        },
        DescriptorKind::Composite => BuildpackKind::Meta,
    }
}

/// The kind of the buildpack in a directory: `descriptor` is the form of the
/// descriptor parsed from its `buildpack.toml`, if the file could be read and
/// parsed, and `has_cargo_manifest` says whether the directory holds a file
/// `Cargo.toml`.
pub open spec fn kind_of_parsed(
    descriptor: Option<DescriptorKind>,
    has_cargo_manifest: bool,
) -> Option<BuildpackKind> {
    match descriptor {
        Some(descriptor) => Some(kind_for(descriptor, has_cargo_manifest)),
        None => None,
    }
}

/// The kind of a buildpack whose descriptor has the given form.
pub fn buildpack_kind_for(descriptor: DescriptorKind, has_cargo_manifest: bool) -> (kind:
    BuildpackKind)
    ensures
        kind == kind_for(descriptor, has_cargo_manifest),
{
    match descriptor {
        DescriptorKind::Component => {
            if has_cargo_manifest {
                BuildpackKind::LibCnbRs
            } else {
                BuildpackKind::Other
            }
        },
        DescriptorKind::Composite => BuildpackKind::Meta,
    }
}

/// The kind of the buildpack in a directory, from what was found there:
/// `descriptor` holds the contents of its `buildpack.toml`, if that file could
/// be read, and `has_cargo_manifest` says whether the directory holds a file
/// `Cargo.toml`. There is no kind where the descriptor is missing or invalid.
pub fn determine_buildpack_kind(descriptor: Option<&str>, has_cargo_manifest: bool) -> (kind:
    Option<BuildpackKind>)
    ensures
        kind == match descriptor {
            Some(contents) => kind_of_parsed(
                parsed_descriptor_kind(contents@),
                has_cargo_manifest,
            ),
            None => None,
        },
{
    match descriptor {
        Some(contents) => match parse_descriptor_kind(contents) {
            Some(parsed) => Some(buildpack_kind_for(parsed, has_cargo_manifest)),
            None => None,
        },
        None => None,
    }
}

} // verus!
