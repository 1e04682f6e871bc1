//! The records that a run keeps.

pub mod blob;
pub mod block;
pub mod settings;

pub use blob::Blob;
pub use block::Block;
pub use settings::Settings;
