//! What the store's interface answers: the lists of plugins, and the
//! checks that are made before anything is served or stored.

use vstd::prelude::*;
use crate::daemon::state::DiscoveryStatus;
use crate::features::plugin_store::github::PluginMetadata;
use crate::paths::{is_safe_path_component, safe_component};
use crate::plugins::manifest::{is_listed, listed, platform_allowed, MenuItem};
use crate::plugins::supervisor::Plugin;
use crate::text::{
    append_chars, chars_of, contains, ends_with, has_infix, has_suffix, string_of,
};
use crate::version::{newer, version_parts, Version};

verus! {

/// The largest cover image that is served, in bytes.
pub const MAX_COVER_SIZE: usize = 5242880;

/// The largest configuration that is stored, in bytes.
pub const MAX_CONFIG_SIZE: usize = 1048576;

/// A plugin of the index, as the store lists it.
#[derive(Debug, Clone)]
pub struct PluginInfo {
    pub id: String,
    pub name: String,
    pub description: String,
    pub version: String,
    pub installed: bool,
}

/// An action of a plugin that can be bound to a hotkey.
#[derive(Debug, Clone)]
pub struct PluginAction {
    pub id: String,
    pub label: String,
}

/// An installed plugin, as the store lists it.
#[derive(Debug, Clone)]
pub struct InstalledPlugin {
    pub id: String,
    pub name: String,
    pub description: String,
    pub version: String,
    pub has_cover: bool,
    pub has_ui: bool,
    pub available_version: Option<String>,
    pub update_available: bool,
    pub actions: Vec<PluginAction>,
}

/// The content type of an embedded file, by the end of its path.
pub open spec fn embedded_mime_of(path: Seq<char>) -> Seq<char> {
    if has_suffix(path, ".html"@) {
        "text/html"@
    } else if has_suffix(path, ".css"@) {
        "text/css"@
    } else if has_suffix(path, ".js"@) {
        "application/javascript"@
    } else if has_suffix(path, ".png"@) {
        "image/png"@
    } else if has_suffix(path, ".svg"@) {
        "image/svg+xml"@
    } else {
        "application/octet-stream"@
    }
}

/// The content type of the embedded file `path`.
pub fn serve_embedded_file(path: &str) -> (r: &'static str)
    ensures
        r@ == embedded_mime_of(path@),
{
    let p = chars_of(path);
    if ends_with(&p, &chars_of(".html")) {
        "text/html"
    } else if ends_with(&p, &chars_of(".css")) {
        "text/css"
    } else if ends_with(&p, &chars_of(".js")) {
        "application/javascript"
    } else if ends_with(&p, &chars_of(".png")) {
        "image/png"
    } else if ends_with(&p, &chars_of(".svg")) {
        "image/svg+xml"
    } else {
        "application/octet-stream"
    }
}

/// Whether the version `available` is newer than the version `installed`.
pub fn is_newer_version(available: &str, installed: &str) -> (r: bool)
    ensures
        r == newer(version_parts(available@), version_parts(installed@)),
{
    Version::parse(available).is_newer_than(&Version::parse(installed))
}

/// The mathematical content of a plugin action.
pub struct ActionEntry {
    pub id: Seq<char>,
    pub label: Seq<char>,
}

/// The actions of the menu item `item`: itself if it is an action, and the
/// actions of its items if it is a submenu.
pub open spec fn actions_of(item: MenuItem) -> Seq<ActionEntry>
    decreases item,
{
    match item {
        MenuItem::Action { id, label, action, config_key } => seq![
            ActionEntry { id: id@, label: label@ },
        ],
        MenuItem::Submenu { id, label, items } => actions_in(items@),
        _ => Seq::empty(),
    }
}

/// The actions of the menu items `items`, in order.
pub open spec fn actions_in(items: Seq<MenuItem>) -> Seq<ActionEntry>
    decreases items,
{
    if items.len() == 0 {
        Seq::empty()
    } else {
        actions_in(items.drop_last()) + actions_of(items.last())
    }
}

/// The contents of the plugin actions `list`.
pub open spec fn action_entries(list: Seq<PluginAction>) -> Seq<ActionEntry> {
    list.map_values(|a: PluginAction| ActionEntry { id: a.id@, label: a.label@ })
}

/// Adds the actions of `item` to `out`.
fn collect_actions(item: &MenuItem, out: &mut Vec<PluginAction>)
    ensures
        action_entries(final(out)@) == action_entries(old(out)@) + actions_of(*item),
    decreases item,
{
    match item {
        MenuItem::Action { id, label, action, config_key } => {
            out.push(PluginAction { id: id.clone(), label: label.clone() });
            assert(action_entries(out@) =~= action_entries(old(out)@) + actions_of(*item));
        },
        MenuItem::Submenu { id, label, items } => {
            let mut i: usize = 0;
            assert(action_entries(out@) =~= action_entries(old(out)@) + actions_in(
                items@.take(0),
            ));
            while i < items.len()
                invariant
                    i <= items.len(),
                    decreases_to!(item => items),
                    action_entries(out@) == action_entries(old(out)@) + actions_in(
                        items@.take(i as int),
                    ),
                decreases items.len() - i,
            {
                proof {
                    let next = items@.take(i + 1);
                    assert(next.drop_last() == items@.take(i as int));
                    assert(next.last() == items@[i as int]);
                }
                collect_actions(&items[i], out);
                assert(action_entries(out@) =~= action_entries(old(out)@) + actions_in(
                    items@.take(i + 1),
                ));
                i += 1;
            }
            assert(items@.take(items.len() as int) == items@);
        },
        _ => {
            assert(action_entries(out@) =~= action_entries(old(out)@) + actions_of(*item));
        },
    }
}

/// The actions of a plugin's menu that can be bound to hotkeys: every
/// action, also inside submenus, in the order of the menu. Checkboxes and
/// separators are none.
pub fn extract_actions(items: &Vec<MenuItem>) -> (r: Vec<PluginAction>)
    ensures
        action_entries(r@) == actions_in(items@),
{
    let mut out: Vec<PluginAction> = Vec::new();
    let mut i: usize = 0;
    assert(action_entries(out@) =~= actions_in(items@.take(0)));
    while i < items.len()
        invariant
            i <= items.len(),
            action_entries(out@) == actions_in(items@.take(i as int)),
        decreases items.len() - i,
    {
        proof {
            let next = items@.take(i + 1);
            assert(next.drop_last() == items@.take(i as int));
            assert(next.last() == items@[i as int]);
        }
        collect_actions(&items[i], &mut out);
        i += 1;
    }
    assert(items@.take(items.len() as int) == items@);
    out
}

/// The plugin `m` of the index runs on `os`.
pub open spec fn is_available(m: PluginMetadata, os: Seq<char>) -> bool {
    platform_allowed(m.platforms, os)
}

/// The positions of the plugins of `index` that run on `os`, in order.
pub open spec fn available_positions(index: Seq<PluginMetadata>, os: Seq<char>) -> Seq<int>
    decreases index.len(),
{
    if index.len() == 0 {
        Seq::empty()
    } else {
        let before = available_positions(index.drop_last(), os);
        if is_available(index.last(), os) {
            before.push(index.len() - 1)
        } else {
            before
        }
    }
}

/// `info` is what the store lists of the plugin `m` of the index, where
/// `installed` are the names that stand in the plugin directory.
pub open spec fn is_listing_of(info: PluginInfo, m: PluginMetadata, installed: Seq<String>) -> bool {
    &&& info.id@ == m.id@
    &&& info.name@ == m.name@
    &&& info.description@ == m.description@
    &&& info.version@ == m.version@
    &&& info.installed == listed(installed, m.id@)
}

/// `list` are the listings of the plugins of `index` at `positions`.
pub open spec fn listings_at(
    list: Seq<PluginInfo>,
    index: Seq<PluginMetadata>,
    positions: Seq<int>,
    installed: Seq<String>,
) -> bool {
    &&& list.len() == positions.len()
    &&& forall|k: int|
        0 <= k < list.len() ==> 0 <= #[trigger] positions[k] < index.len() && is_listing_of(
            list[k],
            index[positions[k]],
            installed,
        )
}

/// The plugins that the store offers: those of the index that run on
/// `os`, in order, each marked as installed if its identifier is the name
/// of an entry of the plugin directory.
pub fn list_plugins(index: &Vec<PluginMetadata>, installed: &Vec<String>, os: &str) -> (r: Vec<
    PluginInfo,
>)
    ensures
        listings_at(r@, index@, available_positions(index@, os@), installed@),
{
    let mut r: Vec<PluginInfo> = Vec::new();
    let mut i: usize = 0;
    while i < index.len()
        invariant
            i <= index.len(),
            listings_at(r@, index@, available_positions(index@.take(i as int), os@), installed@),
        decreases index.len() - i,
    {
        proof {
            let next = index@.take(i + 1);
            assert(next.drop_last() == index@.take(i as int));
            assert(next.last() == index@[i as int]);
        }
        let ghost before = r@;
        let ghost found = available_positions(index@.take(i as int), os@);
        let m = &index[i];
        if m.supports_platform(os) {
            r.push(
                PluginInfo {
                    id: m.id.clone(),
                    name: m.name.clone(),
                    description: m.description.clone(),
                    version: m.version.clone(),
                    installed: is_listed(installed, m.id.as_str()),
                },
            );
            proof {
                let grown = available_positions(index@.take(i + 1), os@);
                assert(grown == found.push(i as int));
                assert forall|k: int| 0 <= k < r@.len() implies 0 <= #[trigger] grown[k]
                    < index@.len() && is_listing_of(r@[k], index@[grown[k]], installed@) by {
                    if k < before.len() {
                        assert(r@[k] == before[k]);
                        assert(grown[k] == found[k]);
                    }
                }
            }
        }
        i += 1;
    }
    assert(index@.take(index.len() as int) == index@);
    r
}

/// What the store lists of the installed plugin `plugin`: whether it has a
/// cover and a page, the version that the index offers, and whether that
/// version is newer than the installed one.
pub fn list_installed(plugin: &Plugin, has_cover: bool, has_ui: bool, available: Option<String>) -> (r:
    InstalledPlugin)
    ensures
        r.id@ == plugin.id@,
        r.name@ == plugin.manifest.plugin.name@,
        r.description@ == plugin.manifest.plugin.description@,
        r.version@ == plugin.manifest.plugin.version@,
        r.has_cover == has_cover,
        r.has_ui == has_ui,
        r.available_version == available,
        r.update_available == match available {
            Some(v) => newer(version_parts(v@), version_parts(plugin.manifest.plugin.version@)),
            None => false,
        },
        action_entries(r.actions@) == actions_in(plugin.manifest.menu.items@),
{
    let update_available = match &available {
        Some(v) => is_newer_version(v.as_str(), plugin.manifest.plugin.version.as_str()),
        None => false,
    };
    InstalledPlugin {
        id: plugin.id.clone(),
        name: plugin.manifest.plugin.name.clone(),
        description: plugin.manifest.plugin.description.clone(),
        version: plugin.manifest.plugin.version.clone(),
        has_cover,
        has_ui,
        available_version: available,
        update_available,
        actions: extract_actions(&plugin.manifest.menu.items),
    }
}

/// The address of the repository of the plugin `id`.
pub fn repo_url(id: &str) -> (r: String)
    ensures
        r@ == "https://github.com/qol-tools/"@ + id@ + ".git"@,
{
    let mut out = chars_of("https://github.com/qol-tools/");
    append_chars(&mut out, &chars_of(id));
    append_chars(&mut out, &chars_of(".git"));
    string_of(&out)
}

/// How the store answers a request that names a plugin or carries data.
#[derive(Debug, Clone, Copy, PartialEq, Eq, Structural)]
pub enum RequestCheck {
    /// The request may go on.
    Proceed,
    /// 400: the plugin's name is no safe path component.
    InvalidPluginId,
    /// 404: there is nothing to serve.
    NotFound,
    /// 413: the data is too large.
    TooLarge,
}

/// The check of a request for the cover of the plugin `plugin_id`: `size`
/// is the size of the cover in bytes, or none where there is no cover.
pub fn serve_cover(plugin_id: &str, size: Option<usize>) -> (r: RequestCheck)
    ensures
        r == if !safe_component(plugin_id@) {
            RequestCheck::InvalidPluginId
        } else {
            match size {
                None => RequestCheck::NotFound,
                Some(n) => if n > MAX_COVER_SIZE {
                    RequestCheck::TooLarge
                } else {
                    RequestCheck::Proceed
                },
            }
        },
{
    if !is_safe_path_component(plugin_id) {
        return RequestCheck::InvalidPluginId;
    }
    match size {
        None => RequestCheck::NotFound,
        Some(n) => {
            if n > MAX_COVER_SIZE {
                RequestCheck::TooLarge
            } else {
                RequestCheck::Proceed
            }
        },
    }
}

/// The check of a request to store a configuration of `size` bytes for the
/// plugin `plugin_id`.
pub fn set_plugin_config(plugin_id: &str, size: usize) -> (r: RequestCheck)
    ensures
        r == if !safe_component(plugin_id@) {
            RequestCheck::InvalidPluginId
        } else if size > MAX_CONFIG_SIZE {
            RequestCheck::TooLarge
        } else {
            RequestCheck::Proceed
        },
{
    if !is_safe_path_component(plugin_id) {
        RequestCheck::InvalidPluginId
    } else if size > MAX_CONFIG_SIZE {
        RequestCheck::TooLarge
    } else {
        RequestCheck::Proceed
    }
}

/// The status with which the store answers a link that failed with
/// `message`: 409 for a plugin that is linked already, 400 for a source
/// that is missing or holds no manifest, and 500 otherwise.
pub fn create_link(message: &str) -> (r: u16)
    ensures
        r == if has_infix(message@, "Already linked"@) {
            409u16
        } else if has_infix(message@, "does not exist"@) || has_infix(
            message@,
            "No plugin.toml"@,
        ) {
            400u16
        } else {
            500u16
        },
{
    let m = chars_of(message);
    if contains(&m, &chars_of("Already linked")) {
        409
    } else if contains(&m, &chars_of("does not exist")) || contains(
        &m,
        &chars_of("No plugin.toml"),
    ) {
        400
    } else {
        500
    }
}

/// The name under which the store reports where a search stands.
pub fn get_discovery_state(status: DiscoveryStatus) -> (r: &'static str)
    ensures
        r@ == match status {
            DiscoveryStatus::Idle => "idle"@,
            DiscoveryStatus::Discovering => "discovering"@,
            DiscoveryStatus::Complete => "complete"@,
        },
{
    match status {
        DiscoveryStatus::Idle => "idle",
        DiscoveryStatus::Discovering => "discovering",
        DiscoveryStatus::Complete => "complete",
    }
}

} // verus!
