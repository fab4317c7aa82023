//! Plugin lifecycle and event dispatch for a desktop tray host.

pub mod daemon;
pub mod dev;
pub mod features;
pub mod hotkeys;
pub mod menu;
pub mod paths;
pub mod plugins;
pub mod text;
pub mod tray;
pub mod updates;
pub mod version;
