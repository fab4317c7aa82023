//! Where plugin configurations are kept.

use vstd::prelude::*;
use crate::paths::{app_file, join, joined, plugin_configs_path, plugins_dir, PathError};

verus! {

/// The file `config.json` of the plugin `plugin_id` below the plugin
/// directory `plugins_dir`.
pub open spec fn plugin_config_file(plugins_dir: Seq<char>, plugin_id: Seq<char>) -> Seq<char> {
    joined(joined(plugins_dir, plugin_id), "config.json"@)
}

/// Keeps the plugins' configurations: each in its plugin's directory, and a
/// copy of all of them in one file of the host.
pub struct PluginConfigManager {
    config_path: String,
}

impl PluginConfigManager {
    /// The file that holds the copy of all configurations.
    pub closed spec fn backup_path(&self) -> Seq<char> {
        self.config_path@
    }

    /// A manager on the host's own file. Fails only where the platform names
    /// no configuration directory.
    pub fn new() -> (r: Result<Self, PathError>)
        ensures
            r matches Ok(m) ==> exists|root: Seq<char>|
                m.backup_path() == app_file(root, "plugin-configs.json"@),
            r matches Err(e) ==> e == PathError::NoConfigDir,
    {
        match plugin_configs_path() {
            Ok(config_path) => Ok(Self { config_path }),
            Err(e) => Err(e),
        }
    }

    /// A manager that keeps the copy of all configurations in `config_path`.
    pub fn at(config_path: String) -> (r: Self)
        ensures
            r.backup_path() == config_path@,
    {
        Self { config_path }
    }

    /// The file that holds the copy of all configurations.
    pub fn config_path(&self) -> (r: &str)
        ensures
            r@ == self.backup_path(),
    {
        self.config_path.as_str()
    }

    /// The configuration file of the plugin `plugin_id` below `plugins_dir`.
    pub fn plugin_config_path_in(plugins_dir: &str, plugin_id: &str) -> (r: String)
        ensures
            r@ == plugin_config_file(plugins_dir@, plugin_id@),
    {
        let dir = join(plugins_dir, plugin_id);
        join(dir.as_str(), "config.json")
    }

    /// The configuration file of the plugin `plugin_id` in the host's plugin
    /// directory.
    pub fn plugin_config_path(plugin_id: &str) -> (r: Result<String, PathError>)
        ensures
            r matches Ok(p) ==> exists|root: Seq<char>|
                p@ == plugin_config_file(app_file(root, "plugins"@), plugin_id@),
            r matches Err(e) ==> e == PathError::NoConfigDir,
    {
        match plugins_dir() {
            Ok(dir) => Ok(Self::plugin_config_path_in(dir.as_str(), plugin_id)),
            Err(e) => Err(e),
        }
    }
}

} // verus!
