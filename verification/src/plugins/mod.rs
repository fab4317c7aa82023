//! Plugins: their manifests, their runtimes and the registry that owns them.

pub mod config;
pub mod loader;
pub mod manager;
pub mod manifest;
pub mod orphans;
pub mod supervisor;

pub use config::PluginConfigManager;
pub use loader::PluginLoader;
pub use manager::{DaemonFailure, LoadReport, PluginManager, StartReport};
pub use manifest::{ActionType, MenuItem, PluginManifest};
pub use supervisor::{DaemonError, Plugin};
