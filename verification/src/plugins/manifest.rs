//! What a plugin declares about itself.

use vstd::prelude::*;
use crate::text::{chars_of, is_literal, same_chars};

verus! {

/// A plugin's description: who it is, the menu it offers, the background
/// process it wants, and the binaries it needs.
#[derive(Debug)]
pub struct PluginManifest {
    pub plugin: PluginInfo,
    pub menu: MenuConfig,
    pub daemon: Option<DaemonConfig>,
    pub dependencies: Option<Dependencies>,
}

/// The binaries a plugin needs beside its own files.
#[derive(Debug, Clone, Default)]
pub struct Dependencies {
    pub binaries: Vec<BinaryDependency>,
}

/// One binary, published as a release asset of a repository.
#[derive(Debug, Clone)]
pub struct BinaryDependency {
    pub name: String,
    pub repo: String,
    pub pattern: String,
}

/// Name, description and version of a plugin, and where it runs.
#[derive(Debug, Clone)]
pub struct PluginInfo {
    pub name: String,
    pub description: String,
    pub version: String,
    pub author: Option<String>,
    pub platforms: Option<Vec<String>>,
}

/// The menu of a plugin.
#[derive(Debug)]
pub struct MenuConfig {
    pub label: String,
    pub icon: Option<String>,
    pub items: Vec<MenuItem>,
}

/// One entry of a plugin's menu.
#[derive(Debug)]
pub enum MenuItem {
    Action { id: String, label: String, action: ActionType, config_key: Option<String> },
    Checkbox {
        id: String,
        label: String,
        checked: bool,
        action: ActionType,
        config_key: Option<String>,
    },
    Separator,
    Submenu { id: String, label: String, items: Vec<MenuItem> },
}

/// What choosing a menu entry does.
#[derive(Debug, Clone, Copy, PartialEq, Eq, Structural)]
pub enum ActionType {
    Run,
    Settings,
    ToggleConfig,
}

/// The background process of a plugin.
#[derive(Debug, Clone)]
pub struct DaemonConfig {
    pub enabled: bool,
    pub command: String,
}

/// `name` is one of the names of `list`.
pub open spec fn listed(list: Seq<String>, name: Seq<char>) -> bool {
    exists|i: int| 0 <= i < list.len() && (#[trigger] list[i])@ == name
}

/// A platform list admits `os`: there is no list, or `os` is on it.
pub open spec fn platform_allowed(platforms: Option<Vec<String>>, os: Seq<char>) -> bool {
    match platforms {
        None => true,
        Some(list) => listed(list@, os),
    }
}

/// Whether `name` is one of the names of `list`, compared exactly.
pub fn is_listed(list: &Vec<String>, name: &str) -> (r: bool)
    ensures
        r == listed(list@, name@),
{
    let wanted = chars_of(name);
    let mut i: usize = 0;
    while i < list.len()
        invariant
            i <= list.len(),
            wanted@ == name@,
            forall|j: int| 0 <= j < i ==> (#[trigger] list@[j])@ != name@,
        decreases list.len() - i,
    {
        let candidate = chars_of(list[i].as_str());
        if same_chars(&candidate, &wanted) {
            return true;
        }
        i += 1;
    }
    false
}

/// Whether `os` is admitted by the platform list `platforms`.
pub fn platform_listed(platforms: &Option<Vec<String>>, os: &str) -> (r: bool)
    ensures
        r == platform_allowed(*platforms, os@),
{
    match platforms {
        None => true,
        Some(list) => is_listed(list, os),
    }
}

impl PluginInfo {
    /// Whether the plugin runs on the platform named `os`. A plugin without
    /// a platform list runs everywhere; names are compared exactly.
    pub fn supports_platform(&self, os: &str) -> (r: bool)
        ensures
            r == platform_allowed(self.platforms, os@),
    {
        platform_listed(&self.platforms, os)
    }
}

impl PluginManifest {
    /// The plugin declares a background process and has it switched on.
    pub open spec fn wants_daemon(&self) -> bool {
        match self.daemon {
            Some(d) => d.enabled,
            None => false,
        }
    }
}

impl ActionType {
    /// The action that a manifest names `name`.
    pub open spec fn named(name: Seq<char>) -> Option<ActionType> {
        if name == "run"@ {
            Some(ActionType::Run)
        } else if name == "settings"@ {
            Some(ActionType::Settings)
        } else if name == "toggle-config"@ {
            Some(ActionType::ToggleConfig)
        } else {
            None
        }
    }

    /// Reads an action from the name a manifest gives it.
    pub fn from_name(name: &str) -> (r: Option<ActionType>)
        ensures
            r == ActionType::named(name@),
    {
        let v = chars_of(name);
        if is_literal(&v, "run") {
            Some(ActionType::Run)
        } else if is_literal(&v, "settings") {
            Some(ActionType::Settings)
        } else if is_literal(&v, "toggle-config") {
            Some(ActionType::ToggleConfig)
        } else {
            None
        }
    }
}

} // verus!
