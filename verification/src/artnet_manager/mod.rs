pub mod error;
pub mod fade;
pub mod manager;
pub mod runtime_nodes;
pub mod universe;

pub use error::ArtnetError;
pub use manager::ArtnetManager;
pub use runtime_nodes::EffectNodeRuntime;
pub use universe::Universe;
