//! The document model and the checks made when a document is loaded.
pub mod loader;
pub mod types;

pub use types::Document;
