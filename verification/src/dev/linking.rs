//! Linking a plugin under development into the plugin directory.

use vstd::prelude::*;
use crate::paths::{extension_replaced, join, joined, with_extension};

verus! {

/// An entry of the plugin directory, linked or installed.
#[derive(Debug, Clone)]
pub struct LinkedPlugin {
    pub id: String,
    pub name: String,
    pub is_symlink: bool,
    pub target: Option<String>,
}

/// A request to link the plugin at `path`.
#[derive(Debug, Clone)]
pub struct LinkRequest {
    pub path: String,
}

/// What stands at a place in the plugin directory.
#[derive(Debug, Clone, Copy, PartialEq, Eq, Structural)]
pub enum Existing {
    /// Nothing.
    Nothing,
    /// A link.
    Link,
    /// A directory or a file.
    Other,
}

/// What the host found of a directory that is to be linked.
#[derive(Debug, Clone)]
pub struct SourceProbe {
    /// Whether the directory exists.
    pub exists: bool,
    /// Whether it holds a manifest file.
    pub has_manifest: bool,
    /// Its name, where it has one.
    pub name: Option<String>,
}

/// What the host has to do to link a plugin.
#[derive(Debug, Clone)]
pub struct LinkPlan {
    /// The identifier of the plugin: the name of the linked directory.
    pub plugin_id: String,
    /// Where the link is made.
    pub link_path: String,
    /// Where what stands at `link_path` is moved first, if anything stands there.
    pub backup_path: Option<String>,
}

/// The place of the backup of `path`: `path` with `backup` as the
/// extension of its last component, in place of the one it has.
pub open spec fn backup_of(path: Seq<char>) -> Seq<char> {
    extension_replaced(path, "backup"@)
}

/// The place of the backup of `path`.
pub fn backup_path(path: &str) -> (r: String)
    ensures
        r@ == backup_of(path@),
{
    with_extension(path, "backup")
}

/// Plans the link of the directory described by `source` into the plugin
/// directory `plugins_dir`, where `existing` stands at the place of the link.
///
/// A directory that does not exist, one without a manifest and one without
/// a name are refused, and so is a plugin that is linked already. What else
/// stands at the place of the link is moved to its backup first.
pub fn create_link(source: &SourceProbe, plugins_dir: &str, existing: Existing) -> (r: Result<
    LinkPlan,
    String,
>)
    ensures
        match r {
            Ok(plan) => source.exists && source.has_manifest && source.name is Some && existing
                != Existing::Link && plan.plugin_id@ == source.name->0@ && plan.link_path@
                == joined(plugins_dir@, source.name->0@) && match plan.backup_path {
                Some(b) => existing == Existing::Other && b@ == backup_of(plan.link_path@),
                None => existing == Existing::Nothing,
            },
            Err(message) => if !source.exists {
                message@ == "Source path does not exist"@
            } else if !source.has_manifest {
                message@ == "No plugin.toml found in source"@
            } else if source.name is None {
                message@ == "Invalid path"@
            } else {
                existing == Existing::Link && message@ == "Already linked"@
            },
        },
{
    if !source.exists {
        return Err("Source path does not exist".to_owned());
    }
    if !source.has_manifest {
        return Err("No plugin.toml found in source".to_owned());
    }
    let plugin_id = match &source.name {
        Some(name) => name.clone(),
        None => {
            return Err("Invalid path".to_owned());
        },
    };
    let link_path = join(plugins_dir, plugin_id.as_str());
    match existing {
        Existing::Link => Err("Already linked".to_owned()),
        Existing::Other => {
            let backup = backup_path(link_path.as_str());
            Ok(LinkPlan { plugin_id, link_path, backup_path: Some(backup) })
        },
        Existing::Nothing => Ok(LinkPlan { plugin_id, link_path, backup_path: None }),
    }
}

/// What the host has to do to remove a link.
#[derive(Debug, Clone)]
pub struct UnlinkPlan {
    /// The link to remove.
    pub link_path: String,
    /// The backup to move back to `link_path` afterwards, if it exists.
    pub backup_path: String,
}

/// Plans the removal of the link of the plugin `id` from the plugin
/// directory `plugins_dir`, where `existing` stands at its place. Only a
/// link is removed.
pub fn remove_link(id: &str, plugins_dir: &str, existing: Existing) -> (r: Result<UnlinkPlan, String>)
    ensures
        match r {
            Ok(plan) => existing == Existing::Link && plan.link_path@ == joined(plugins_dir@, id@)
                && plan.backup_path@ == backup_of(plan.link_path@),
            Err(message) => match existing {
                Existing::Nothing => message@ == "Plugin not found"@,
                Existing::Other => message@ == "Not a symlink - use uninstall instead"@,
                Existing::Link => false,
            },
        },
{
    match existing {
        Existing::Nothing => Err("Plugin not found".to_owned()),
        Existing::Other => Err("Not a symlink - use uninstall instead".to_owned()),
        Existing::Link => {
            let link_path = join(plugins_dir, id);
            let backup = backup_path(link_path.as_str());
            Ok(UnlinkPlan { link_path, backup_path: backup })
        },
    }
}

} // verus!
