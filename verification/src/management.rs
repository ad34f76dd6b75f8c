pub mod history_management;
pub mod input_management;
pub mod selection_management;
pub mod tab_management;
pub mod handle_key;
pub mod handle_mouse;
