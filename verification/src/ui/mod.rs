//! What the terminal user interface computes.

pub mod key_encode;
pub mod statusbar;
