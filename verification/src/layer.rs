//! A layer: its name, where its contents and its metadata are, and the
//! metadata itself.

use vstd::prelude::*;
use vstd::string::*;
use vstd::utf8::encode_utf8;
use crate::bytes::{copy_bytes, push_bytes};
use crate::path::{join_path, joined};

verus! {

/// Declares `toml::map::Map`, the type of a TOML table, so that the metadata of
/// a layer can hold one. Nothing is claimed of what a table holds.
#[verifier::external_type_specification]
#[verifier::external_body]
#[verifier::reject_recursive_types(K)]
#[verifier::reject_recursive_types(V)]
pub struct ExTomlMap<K, V>(toml::map::Map<K, V>);

/// Declares `toml::Value`, the type of the values of a TOML table. Nothing is
/// claimed of what a value holds.
#[verifier::external_type_specification]
#[verifier::external_body]
pub struct ExTomlValue(toml::Value);

/// The keys of a TOML table.
pub uninterp spec fn table_keys(table: toml::map::Map<String, toml::Value>) -> Set<Seq<char>>;

/// Makes an empty TOML table with `toml::map::Map::new`. The contract claims
/// that the new table has no keys.
#[verifier::external_body]
fn empty_table() -> (table: toml::map::Map<String, toml::Value>)
    ensures
        table_keys(table) == Set::<Seq<char>>::empty(),
{
    toml::map::Map::new()
}

/// What is recorded about the contents of a layer.
#[derive(Debug)]
pub struct ContentMetadata {
    /// Whether the layer is there at launch.
    pub launch: bool,
    /// Whether the layer is there for later buildpacks during the build.
    pub build: bool,
    /// Whether the layer is kept for the next build.
    pub cache: bool,
    /// Whatever else the buildpack records about the layer.
    pub metadata: toml::map::Map<String, toml::Value>,
}

impl ContentMetadata {
    /// The metadata of a layer about which nothing is recorded yet.
    pub fn new() -> (content_metadata: Self)
        ensures
            !content_metadata.launch,
            !content_metadata.build,
            !content_metadata.cache,
            table_keys(content_metadata.metadata) == Set::<Seq<char>>::empty(),
    {
        ContentMetadata { launch: false, build: false, cache: false, metadata: empty_table() }
    }
}

/// The extension of the file that holds the metadata of a layer, dot included.
pub open spec fn metadata_extension() -> Seq<u8> {
    ".toml".spec_bytes()
}

/// The path of the contents of the layer `name` below `layers_dir`.
pub open spec fn layer_path_of(layers_dir: Seq<u8>, name: Seq<char>) -> Seq<u8> {
    joined(layers_dir, encode_utf8(name))
}

/// The path of the file that holds the metadata of the layer `name` below
/// `layers_dir`.
pub open spec fn content_metadata_path_of(layers_dir: Seq<u8>, name: Seq<char>) -> Seq<u8> {
    joined(layers_dir, encode_utf8(name) + metadata_extension())
}

/// The path of the contents of the layer `name` below `layers_dir`.
pub fn layer_path(layers_dir: &[u8], name: &str) -> (path: Vec<u8>)
    ensures
        path@ == layer_path_of(layers_dir@, name@),
{
    join_path(layers_dir, name.as_bytes())
}

/// The path of the file that holds the metadata of the layer `name` below
/// `layers_dir`.
pub fn content_metadata_path(layers_dir: &[u8], name: &str) -> (path: Vec<u8>)
    ensures
        path@ == content_metadata_path_of(layers_dir@, name@),
{
    let mut file_name = copy_bytes(name.as_bytes());
    push_bytes(&mut file_name, ".toml".as_bytes());
    join_path(layers_dir, file_name.as_slice())
}

/// A layer.
#[derive(Debug)]
pub struct Layer {
    /// The name of the layer.
    pub name: String,
    path: Vec<u8>,
    content_metadata_path: Vec<u8>,
    content_metadata: ContentMetadata,
}

impl Layer {
    /// The name of the layer.
    pub closed spec fn layer_name(&self) -> String {
        self.name
    }

    /// The path of the contents of the layer.
    pub closed spec fn path(&self) -> Seq<u8> {
        self.path@
    }

    /// The path of the file that holds the metadata of the layer.
    pub closed spec fn metadata_path(&self) -> Seq<u8> {
        self.content_metadata_path@
    }

    /// The metadata of the layer.
    pub closed spec fn metadata(&self) -> ContentMetadata {
        self.content_metadata
    }

    /// The layer `name` below `layers_dir`. Its contents are in the directory
    /// of its name, its metadata in the file of its name with the extension
    /// `.toml` beside that directory. `content_metadata` is what that file
    /// holds; where there is no such file, nothing is recorded about the layer.
    pub fn new(name: String, layers_dir: &[u8], content_metadata: Option<ContentMetadata>) -> (layer:
        Self)
        ensures
            layer.layer_name() == name,
            layer.path() == layer_path_of(layers_dir@, name@),
            layer.metadata_path() == content_metadata_path_of(layers_dir@, name@),
            match content_metadata {
                Some(found) => layer.metadata() == found,
                None => {
                    &&& !layer.metadata().launch
                    &&& !layer.metadata().build
                    &&& !layer.metadata().cache
                    &&& table_keys(layer.metadata().metadata) == Set::<Seq<char>>::empty()
                },
            },
    {
        let path = layer_path(layers_dir, name.as_str());
        let content_metadata_path = content_metadata_path(layers_dir, name.as_str());
        let content_metadata = match content_metadata {
            Some(found) => found,
            None => ContentMetadata::new(),
        };
        Layer { name, path, content_metadata_path, content_metadata }
    }

    /// The path of the contents of the layer.
    pub fn as_path(&self) -> (path: &[u8])
        ensures
            path@ == self.path(),
    {
        self.path.as_slice()
    }

    /// The path of the file that holds the metadata of the layer.
    pub fn content_metadata_path(&self) -> (path: &[u8])
        ensures
            path@ == self.metadata_path(),
    {
        self.content_metadata_path.as_slice()
    }

    /// The metadata of the layer.
    pub fn content_metadata(&self) -> (content_metadata: &ContentMetadata)
        ensures
            *content_metadata == self.metadata(),
    {
        &self.content_metadata
    }

    /// The metadata of the layer, to be changed in place. Nothing else of the
    /// layer changes.
    pub fn mut_content_metadata(&mut self) -> (content_metadata: &mut ContentMetadata)
        ensures
            *content_metadata == old(self).metadata(),
            final(self).metadata() == *final(content_metadata),
            final(self).layer_name() == old(self).layer_name(),
            final(self).path() == old(self).path(),
            final(self).metadata_path() == old(self).metadata_path(),
    {
        &mut self.content_metadata
    }
}

} // verus!
