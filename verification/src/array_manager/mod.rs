pub mod effects;
pub mod error;
pub mod lights;
pub mod manager;
pub mod scope;
pub mod values;
pub mod verify;

pub use error::{ChannelUsage, DmxArrayError};
pub use manager::ArrayManager;
pub use scope::Scope;
