//! Help for plugin developers: finding plugins in source trees and linking
//! them into the plugin directory.

pub mod config;
pub mod discovery;
pub mod linking;

pub use config::DevConfig;
pub use discovery::{discover_plugins, DiscoveredPlugin};
pub use linking::{create_link, remove_link, LinkRequest, LinkedPlugin};
