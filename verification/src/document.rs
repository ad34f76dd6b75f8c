//! The document type, also reachable at the crate's root.
pub use crate::editor::document::Document;
