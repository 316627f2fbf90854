//! Environment modifications of Cloud Native Buildpack layers.
//!
//! Names, values and paths are raw byte strings throughout: nothing here assumes
//! that a variable name, a value or a file name is valid Unicode.

pub mod buildpack_kind;
pub mod bytes;
pub mod env;
pub mod layer;
pub mod layer_env;
pub mod path;
pub mod table;

pub use env::Env;
