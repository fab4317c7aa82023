//! Finding the plugins of a plugin directory.
//!
//! The host reads the directory and the manifest files; what it found is
//! handed over as plain values, and the decisions are made here.

use vstd::prelude::*;
use crate::paths::{app_file, plugins_dir, PathError};
use crate::plugins::manifest::{platform_allowed, PluginManifest};
use crate::plugins::supervisor::Plugin;
use crate::text::{chars_of, ends_with, has_suffix};

verus! {

/// Why a directory yields no plugin.
#[derive(Debug, Clone)]
pub enum ManifestError {
    /// The directory holds no manifest file.
    NotFound,
    /// The manifest file could not be read.
    Unreadable(String),
    /// The manifest file does not describe a plugin.
    Invalid(String),
    /// The name of the directory cannot be an identifier.
    BadDirectoryName,
}

/// What the host found of a directory's manifest file.
#[derive(Debug)]
pub enum ManifestSource {
    /// There is no manifest file.
    Missing,
    /// The file could not be read.
    Unreadable(String),
    /// The file could not be parsed.
    Invalid(String),
    /// The parsed manifest.
    Parsed(PluginManifest),
}

/// One entry of the plugin directory as the host found it.
#[derive(Debug)]
pub struct PluginDir {
    /// The path of the entry.
    pub path: String,
    /// The name of the entry, where it is text.
    pub name: Option<String>,
    /// Whether the entry is a directory, links followed.
    pub is_dir: bool,
    /// The manifest file inside it.
    pub manifest: ManifestSource,
}

/// The name ends in the extension `.backup`.
pub open spec fn backup_name(name: Seq<char>) -> bool {
    has_suffix(name, ".backup"@) && name.len() > ".backup"@.len()
}

/// The entry can be loaded: its manifest was parsed and its name is text.
pub open spec fn is_loadable(dir: PluginDir) -> bool {
    dir.manifest is Parsed && dir.name is Some
}

/// The entry yields a plugin on the platform `os`: it is a directory, it
/// can be loaded, and its manifest does not exclude `os`. Nothing else
/// keeps an entry out, whatever its name.
pub open spec fn yields_plugin(dir: PluginDir, os: Seq<char>) -> bool {
    &&& dir.is_dir
    &&& is_loadable(dir)
    &&& platform_allowed(dir.manifest->Parsed_0.plugin.platforms, os)
}

/// `plugin` is what the entry `dir` yields: its name as identifier, its
/// manifest, its path, and no daemon.
pub open spec fn is_plugin_of(plugin: Plugin, dir: PluginDir) -> bool {
    &&& dir.name matches Some(name)
    &&& dir.manifest matches ManifestSource::Parsed(manifest)
    &&& plugin.id == name
    &&& plugin.manifest == manifest
    &&& plugin.path == dir.path
    &&& plugin.daemon() is None
}

/// The indices of the entries of `entries` that yield a plugin on `os`, in order.
pub open spec fn loaded_indices(entries: Seq<PluginDir>, os: Seq<char>) -> Seq<int>
    decreases entries.len(),
{
    if entries.len() == 0 {
        Seq::empty()
    } else {
        let before = loaded_indices(entries.drop_last(), os);
        if yields_plugin(entries.last(), os) {
            before.push(entries.len() - 1)
        } else {
            before
        }
    }
}

/// `loaded` are the plugins of the entries `entries` on the platform `os`:
/// one for each entry that yields a plugin, in the order of the entries.
pub open spec fn is_load_of(entries: Seq<PluginDir>, os: Seq<char>, loaded: Seq<Plugin>) -> bool {
    &&& loaded.len() == loaded_indices(entries, os).len()
    &&& forall|k: int|
        0 <= k < loaded.len() ==> 0 <= loaded_indices(entries, os)[k] < entries.len()
            && is_plugin_of(#[trigger] loaded[k], entries[loaded_indices(entries, os)[k]])
}

/// Loads plugins from the directories below the plugin directory.
pub struct PluginLoader;

impl PluginLoader {
    /// The host's plugin directory.
    pub fn default_plugin_dir() -> (r: Result<String, PathError>)
        ensures
            r matches Ok(p) ==> exists|root: Seq<char>| p@ == app_file(root, "plugins"@),
            r matches Err(e) ==> e == PathError::NoConfigDir,
    {
        plugins_dir()
    }

    /// Whether an entry of this name is a backup of a plugin directory, as
    /// linking a plugin leaves one behind. A host that wants such
    /// directories hidden leaves them out of the entries that it hands over.
    pub fn is_backup(name: &str) -> (r: bool)
        ensures
            r == backup_name(name@),
    {
        let n = chars_of(name);
        let ext = chars_of(".backup");
        ends_with(&n, &ext) && n.len() > ext.len()
    }

    /// Makes a plugin of one directory. The identifier of the plugin is the
    /// name of the directory.
    pub fn load_plugin(dir: PluginDir) -> (r: Result<Plugin, ManifestError>)
        ensures
            match r {
                Ok(plugin) => is_loadable(dir) && is_plugin_of(plugin, dir),
                Err(e) => !is_loadable(dir) && match dir.manifest {
                    ManifestSource::Missing => e is NotFound,
                    ManifestSource::Unreadable(m) => e matches ManifestError::Unreadable(t) && t
                        == m,
                    ManifestSource::Invalid(m) => e matches ManifestError::Invalid(t) && t == m,
                    ManifestSource::Parsed(_) => e is BadDirectoryName,
                },
            },
    {
        match dir.manifest {
            ManifestSource::Missing => Err(ManifestError::NotFound),
            ManifestSource::Unreadable(m) => Err(ManifestError::Unreadable(m)),
            ManifestSource::Invalid(m) => Err(ManifestError::Invalid(m)),
            ManifestSource::Parsed(manifest) => match dir.name {
                Some(name) => Ok(Plugin::new(name, manifest, dir.path)),
                None => Err(ManifestError::BadDirectoryName),
            },
        }
    }

    /// The plugin of one directory, if it can be loaded and runs on `os`.
    pub fn try_load_plugin(dir: PluginDir, os: &str) -> (r: Option<Plugin>)
        ensures
            match r {
                Some(plugin) => is_loadable(dir) && platform_allowed(
                    dir.manifest->Parsed_0.plugin.platforms,
                    os@,
                ) && is_plugin_of(plugin, dir),
                None => !(is_loadable(dir) && platform_allowed(
                    dir.manifest->Parsed_0.plugin.platforms,
                    os@,
                )),
            },
    {
        match Self::load_plugin(dir) {
            Ok(plugin) => {
                if plugin.manifest.plugin.supports_platform(os) {
                    Some(plugin)
                } else {
                    None
                }
            },
            Err(_) => None,
        }
    }

    /// The plugins of a plugin directory with the entries `entries`, for the
    /// platform `os`, in the order of the entries.
    ///
    /// An entry that is no directory, one without a manifest, with a
    /// manifest that cannot be read or parsed, or with a manifest that
    /// excludes `os`, is left out; every other entry yields its plugin. No
    /// entry makes the load fail.
    pub fn load_from_dir(entries: Vec<PluginDir>, os: &str) -> (r: Vec<Plugin>)
        ensures
            is_load_of(entries@, os@, r@),
            r@.len() == loaded_indices(entries@, os@).len(),
            forall|k: int|
                0 <= k < r@.len() ==> 0 <= loaded_indices(entries@, os@)[k] < entries@.len()
                    && is_plugin_of(#[trigger] r@[k], entries@[loaded_indices(entries@, os@)[k]]),
    {
        let mut entries = entries;
        let ghost all = entries@;
        let ghost n = all.len();
        // The entries are taken from the back, so that each can be moved out.
        let mut reversed: Vec<Plugin> = Vec::new();
        let ghost mut picked: Seq<int> = Seq::empty();
        assert(entries@ == all.take(entries@.len() as int));
        assert(picked.reverse() =~= Seq::<int>::empty());
        while entries.len() > 0
            invariant
                entries@.len() <= n,
                entries@ == all.take(entries@.len() as int),
                n == all.len(),
                reversed@.len() == picked.len(),
                loaded_indices(all, os@) == loaded_indices(entries@, os@) + picked.reverse(),
                forall|k: int|
                    0 <= k < picked.len() ==> 0 <= #[trigger] picked[k] < n && is_plugin_of(
                        reversed@[k],
                        all[picked[k]],
                    ),
            decreases entries.len(),
        {
            let ghost before = entries@;
            let ghost index = before.len() - 1;
            match entries.pop() {
                Some(dir) => {
                    proof {
                        assert(before == all.take(before.len() as int));
                        assert(dir == before[index]);
                        assert(before[index] == all[index]);
                        assert(entries@ == before.drop_last());
                        assert(entries@ =~= all.take(entries@.len() as int));
                    }
                    let loaded = if dir.is_dir {
                        Self::try_load_plugin(dir, os)
                    } else {
                        None
                    };
                    match loaded {
                        Some(plugin) => {
                            let ghost old_reversed = reversed@;
                            reversed.push(plugin);
                            proof {
                                assert(is_plugin_of(plugin, all[index]));
                                assert forall|k: int| 0 <= k < picked.push(index).len() implies 0
                                    <= #[trigger] picked.push(index)[k] < n && is_plugin_of(
                                    reversed@[k],
                                    all[picked.push(index)[k]],
                                ) by {
                                    if k < picked.len() {
                                        assert(picked.push(index)[k] == picked[k]);
                                        assert(reversed@[k] == old_reversed[k]);
                                    }
                                }
                                assert(yields_plugin(before.last(), os@));
                                let grown = picked.push(index);
                                assert(grown.reverse() =~= seq![index] + picked.reverse());
                                assert(loaded_indices(before, os@) == loaded_indices(
                                    entries@,
                                    os@,
                                ).push(index));
                                assert(loaded_indices(entries@, os@).push(index) + picked.reverse()
                                    =~= loaded_indices(entries@, os@) + grown.reverse());
                                picked = grown;
                            }
                        },
                        None => {
                            assert(!yields_plugin(before.last(), os@));
                        },
                    }
                },
                None => {},
            }
        }
        proof {
            assert(loaded_indices(entries@, os@) =~= Seq::<int>::empty());
            assert(loaded_indices(all, os@) =~= picked.reverse());
        }
        let mut r: Vec<Plugin> = Vec::new();
        let ghost total = reversed@;
        while reversed.len() > 0
            invariant
                reversed@.len() <= total.len(),
                reversed@ == total.take(reversed@.len() as int),
                r@.len() + reversed@.len() == total.len(),
                forall|k: int| 0 <= k < r@.len() ==> #[trigger] r@[k] == total[total.len() - 1 - k],
            decreases reversed.len(),
        {
            let ghost before = reversed@;
            match reversed.pop() {
                Some(plugin) => {
                    assert(plugin == total[before.len() - 1]);
                    assert(reversed@ == total.take(reversed@.len() as int));
                    r.push(plugin);
                },
                None => {},
            }
        }
        proof {
            assert forall|k: int| 0 <= k < r@.len() implies 0 <= loaded_indices(all, os@)[k]
                < all.len() && is_plugin_of(#[trigger] r@[k], all[loaded_indices(all, os@)[k]]) by {
                let back = total.len() - 1 - k;
                assert(picked.reverse()[k] == picked[back]);
                assert(0 <= picked[back] < n);
            }
        }
        r
    }
}

/// Every entry that yields a plugin is among the loaded ones, no other is,
/// and the entries are loaded in their order.
pub proof fn lemma_loaded_exactly(entries: Seq<PluginDir>, os: Seq<char>)
    ensures
        forall|i: int|
            0 <= i < entries.len() ==> (yields_plugin(entries[i], os) <==> loaded_indices(
                entries,
                os,
            ).contains(i)),
        forall|k: int|
            0 <= k < loaded_indices(entries, os).len() ==> 0 <= #[trigger] loaded_indices(
                entries,
                os,
            )[k] < entries.len(),
        forall|k: int, l: int|
            0 <= k < l < loaded_indices(entries, os).len() ==> loaded_indices(entries, os)[k]
                < loaded_indices(entries, os)[l],
        loaded_indices(entries, os).len() <= entries.len(),
    decreases entries.len(),
{
    if entries.len() > 0 {
        let before = entries.drop_last();
        let last = entries.len() - 1;
        lemma_loaded_exactly(before, os);
        let found = loaded_indices(entries, os);
        let earlier = loaded_indices(before, os);
        assert forall|i: int| 0 <= i < entries.len() implies (yields_plugin(entries[i], os)
            <==> found.contains(i)) by {
            if i < last {
                assert(entries[i] == before[i]);
                if earlier.contains(i) {
                    let k = choose|k: int| 0 <= k < earlier.len() && earlier[k] == i;
                    assert(found[k] == i);
                }
                if found.contains(i) {
                    let k = choose|k: int| 0 <= k < found.len() && found[k] == i;
                    if k < earlier.len() {
                        assert(earlier[k] == i);
                    }
                }
            } else {
                if yields_plugin(entries[i], os) {
                    assert(found[found.len() - 1] == last);
                }
                if found.contains(i) {
                    let k = choose|k: int| 0 <= k < found.len() && found[k] == i;
                    if k < earlier.len() {
                        assert(earlier[k] < before.len());
                    }
                }
            }
        }
        assert forall|k: int, l: int| 0 <= k < l < found.len() implies found[k] < found[l] by {
            if l < earlier.len() {
                assert(earlier[k] < earlier[l]);
            } else {
                assert(found[k] == earlier[k]);
                assert(earlier[k] < before.len());
            }
        }
    }
}

} // verus!
