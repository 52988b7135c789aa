//! What the windows of the application say to the rest of it.

pub mod tool_bar;
pub mod utils;

pub use tool_bar::ToolBarResponse;
pub use utils::{TextEditBind, TextEditFromStrBind};
