//! The environment that a layer contributes: which variables it modifies, how,
//! and for which phase.

pub mod behavior;
pub mod codec;
pub mod delta;
pub mod layer_dir;
pub mod merge;
pub mod scopes;
pub mod sequence;
pub mod target;

pub use behavior::ModificationBehavior;
pub use codec::EnvFile;
pub use delta::LayerEnvDelta;
pub use layer_dir::{EnvDir, LayerDir};
pub use scopes::LayerEnv;
pub use target::TargetLifecycle;
pub use crate::env::Env;
