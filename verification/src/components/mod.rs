//! The parts of the terminal interface.

pub mod agent_picker;
pub mod chrome;
pub mod list_navigation;
pub mod panels;
pub mod session;
pub mod sessions;
pub mod static_page;
pub mod text_input;
pub mod turns;
