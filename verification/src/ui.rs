//! Decisions of the presentation layer that need no window.

pub mod menu;
pub mod overlay;
