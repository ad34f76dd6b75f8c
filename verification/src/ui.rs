pub mod colors;
pub mod utils;
pub mod overlays;
pub mod layout;
pub mod screen;
pub mod context_menu;
