//! What the two command palettes share: matching, ordering and selection.

pub mod actions;
pub mod fuzzy;
pub mod rows;
