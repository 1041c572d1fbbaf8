//! What is asked of a tmux server, and what its answers mean.

pub mod attach;
pub mod command;
pub mod effect;
pub mod quote;
pub mod status_bar;
pub mod store;
