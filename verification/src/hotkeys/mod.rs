//! Global hotkeys: parsing of key combinations, native registration and the
//! dispatch of key presses to plugin actions.

pub mod listener;
pub mod manager;
pub mod native;
pub mod parse;
pub mod types;

pub use listener::{find_plugin_script, trigger_reload, ReloadQueue};
pub use manager::{HotkeyError, HotkeyManager};
pub use parse::{parse_hotkey, parse_key_code};
pub use types::{HotkeyAction, HotkeyBinding, HotkeyConfig, KeyCode, KeyCombo, ModifierSet, ScriptInfo};
