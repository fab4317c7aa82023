//! The tray menu of plugins.

pub mod menu;
