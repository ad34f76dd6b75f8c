pub mod lsp;
pub mod management;
pub mod mode;
pub mod text;
pub mod paths;
pub mod ui;
pub mod app;
pub mod editor;
pub mod document;
