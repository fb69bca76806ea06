//! The single-process interface: its own strip and palette list.

pub mod command_palette;
pub mod status_right;
