//! A layer directory, as far as the environment of the layer is concerned:
//! which directories it holds, and the files of its environment directories.

use vstd::prelude::*;
use vstd::string::*;
use crate::layer_env::behavior::ModificationBehavior;
use crate::layer_env::codec::{decode_files, file_views, EnvFile};
use crate::layer_env::merge::DeltaMap;
use crate::path::{join_path, joined};

verus! {

/// What was found in a layer directory.
#[derive(Debug)]
pub struct LayerDir {
    /// The path of the layer directory.
    pub path: Vec<u8>,
    /// Whether it holds a directory `bin`.
    pub has_bin: bool,
    /// Whether it holds a directory `lib`.
    pub has_lib: bool,
    /// The files of its directory `env`, if it holds one.
    pub env: Option<Vec<EnvFile>>,
    /// The files of its directory `env.build`, if it holds one.
    pub env_build: Option<Vec<EnvFile>>,
    /// The files of its directory `env.launch`, if it holds one.
    pub env_launch: Option<Vec<EnvFile>>,
}

/// An environment directory to be written: its path and its files. Whatever
/// is at that path before is to be replaced.
#[derive(Debug)]
pub struct EnvDir {
    /// The path of the directory.
    pub path: Vec<u8>,
    /// The files that the directory is to hold, and nothing else.
    pub files: Vec<EnvFile>,
}

/// The name of the directory of executables of a layer.
pub open spec fn bin_name() -> Seq<u8> {
    "bin".spec_bytes()
}

/// The name of the directory of libraries of a layer.
pub open spec fn lib_name() -> Seq<u8> {
    "lib".spec_bytes()
}

/// The name of the directory of entries for every phase.
pub open spec fn env_name() -> Seq<u8> {
    "env".spec_bytes()
}

/// The name of the directory of entries for the build.
pub open spec fn env_build_name() -> Seq<u8> {
    "env.build".spec_bytes()
}

/// The name of the directory of entries for the launch. The entries of a
/// process type are in the directory of its name below this one.
pub open spec fn env_launch_name() -> Seq<u8> {
    "env.launch".spec_bytes()
}

/// What separates the paths of a list of paths in one value.
pub open spec fn path_list_separator() -> Seq<u8> {
    ":".spec_bytes()
}

/// The path of the directory of executables of a layer.
pub fn bin_path(layer_dir: &[u8]) -> (path: Vec<u8>)
    ensures
        path@ == joined(layer_dir@, bin_name()),
{
    join_path(layer_dir, "bin".as_bytes())
}

/// The path of the directory of libraries of a layer.
pub fn lib_path(layer_dir: &[u8]) -> (path: Vec<u8>)
    ensures
        path@ == joined(layer_dir@, lib_name()),
{
    join_path(layer_dir, "lib".as_bytes())
}

/// The path of the directory of entries for every phase.
pub fn env_path(layer_dir: &[u8]) -> (path: Vec<u8>)
    ensures
        path@ == joined(layer_dir@, env_name()),
{
    join_path(layer_dir, "env".as_bytes())
}

/// The path of the directory of entries for the build.
pub fn env_build_path(layer_dir: &[u8]) -> (path: Vec<u8>)
    ensures
        path@ == joined(layer_dir@, env_build_name()),
{
    join_path(layer_dir, "env.build".as_bytes())
}

/// The path of the directory of entries for the launch.
pub fn env_launch_path(layer_dir: &[u8]) -> (path: Vec<u8>)
    ensures
        path@ == joined(layer_dir@, env_launch_name()),
{
    join_path(layer_dir, "env.launch".as_bytes())
}

/// The entries that a directory of executables brings: its path is put in
/// front of `PATH`.
pub open spec fn with_bin_entries(delta: DeltaMap, layer_dir: Seq<u8>) -> DeltaMap {
    delta.insert(
        (ModificationBehavior::Prepend, "PATH".spec_bytes()),
        joined(layer_dir, bin_name()),
    ).insert((ModificationBehavior::Delimiter, "PATH".spec_bytes()), path_list_separator())
}

/// The entries that a directory of libraries brings: its path is put in front
/// of `LIBRARY_PATH` and of `LD_LIBRARY_PATH`.
pub open spec fn with_lib_entries(delta: DeltaMap, layer_dir: Seq<u8>) -> DeltaMap {
    delta.insert(
        (ModificationBehavior::Prepend, "LIBRARY_PATH".spec_bytes()),
        joined(layer_dir, lib_name()),
    ).insert(
        (ModificationBehavior::Delimiter, "LIBRARY_PATH".spec_bytes()),
        path_list_separator(),
    ).insert(
        (ModificationBehavior::Prepend, "LD_LIBRARY_PATH".spec_bytes()),
        joined(layer_dir, lib_name()),
    ).insert(
        (ModificationBehavior::Delimiter, "LD_LIBRARY_PATH".spec_bytes()),
        path_list_separator(),
    )
}

/// The entries that follow from the conventional directories of a layer.
pub open spec fn layer_paths_delta(layer_dir: Seq<u8>, has_bin: bool, has_lib: bool) -> DeltaMap {
    let from_bin = if has_bin {
        with_bin_entries(Map::empty(), layer_dir)
    } else {
        Map::empty()
    };
    if has_lib {
        with_lib_entries(from_bin, layer_dir)
    } else {
        from_bin
    }
}

/// The entries of an environment directory: none where the directory is
/// missing.
pub open spec fn dir_delta(files: Option<Vec<EnvFile>>) -> DeltaMap {
    match files {
        Some(files) => decode_files(file_views(files@)),
        None => Map::empty(),
    }
}

} // verus!
