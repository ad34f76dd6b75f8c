pub mod cursor;
pub mod document;
pub mod explorer;
pub mod laws;
pub mod syntax;
