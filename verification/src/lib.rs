//! Status strip, command palette, and tab bar chrome of a terminal multiplexer.

pub mod api;
pub mod app;
pub mod canvas;
pub mod client;
pub mod clock;
pub mod format;
pub mod lists;
pub mod palette;
pub mod strip;
pub mod table;
pub mod text;
pub mod time;
pub mod ui;
pub mod width;
