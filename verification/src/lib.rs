//! Key handling and tmux integration of a terminal session manager.

pub mod error;
pub mod key;
pub mod keybindings;
pub mod text;
pub mod text_map;
pub mod tmux;
pub mod ui;
