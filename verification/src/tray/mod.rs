//! The tray icon.

pub mod icon;
