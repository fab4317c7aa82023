//! The plugin index: which repositories are plugins, what is known of
//! them, and how long the cached index stays valid.

use vstd::prelude::*;
use vstd::std_specs::convert::FromSpecImpl;
use crate::plugins::manifest::{platform_allowed, platform_listed, PluginManifest};
use crate::text::{
    append_chars, chars_of, has_prefix, is_literal, same_chars, starts_with, string_of, trim,
    trimmed,
};

verus! {

/// Every plugin repository has a name that begins with this.
pub const PLUGIN_PREFIX: &'static str = "plugin-";

/// How long the cached index stays valid, in seconds.
pub const CACHE_TTL_SECS: u64 = 3600;

/// The cached plugin index.
#[derive(Debug)]
pub struct PluginCache {
    pub timestamp: u64,
    pub plugins: Vec<CachedPlugin>,
}

/// One plugin of the cached index.
#[derive(Debug, Clone)]
pub struct CachedPlugin {
    pub id: String,
    pub name: String,
    pub description: String,
    pub version: String,
    pub repo_url: String,
    pub platforms: Option<Vec<String>>,
}

/// What the index knows of a plugin.
#[derive(Debug, Clone, PartialEq)]
pub struct PluginMetadata {
    pub id: String,
    pub name: String,
    pub description: String,
    pub version: String,
    pub repo_url: String,
    pub platforms: Option<Vec<String>>,
}

/// A repository as the hosting service lists it.
#[derive(Debug, Clone)]
pub struct GitHubRepo {
    pub name: String,
    pub html_url: String,
}

/// The cached form of what the index knows of a plugin.
pub open spec fn to_cached(m: PluginMetadata) -> CachedPlugin {
    CachedPlugin {
        id: m.id,
        name: m.name,
        description: m.description,
        version: m.version,
        repo_url: m.repo_url,
        platforms: m.platforms,
    }
}

/// What the cache holds of a plugin, as the index knows it.
pub open spec fn to_metadata(c: CachedPlugin) -> PluginMetadata {
    PluginMetadata {
        id: c.id,
        name: c.name,
        description: c.description,
        version: c.version,
        repo_url: c.repo_url,
        platforms: c.platforms,
    }
}

impl From<PluginMetadata> for CachedPlugin {
    fn from(m: PluginMetadata) -> (r: Self) {
        Self {
            id: m.id,
            name: m.name,
            description: m.description,
            version: m.version,
            repo_url: m.repo_url,
            platforms: m.platforms,
        }
    }
}

impl FromSpecImpl<PluginMetadata> for CachedPlugin {
    open spec fn obeys_from_spec() -> bool {
        true
    }

    open spec fn from_spec(m: PluginMetadata) -> Self {
        to_cached(m)
    }
}

impl From<CachedPlugin> for PluginMetadata {
    fn from(c: CachedPlugin) -> (r: Self) {
        Self {
            id: c.id,
            name: c.name,
            description: c.description,
            version: c.version,
            repo_url: c.repo_url,
            platforms: c.platforms,
        }
    }
}

impl FromSpecImpl<CachedPlugin> for PluginMetadata {
    open spec fn obeys_from_spec() -> bool {
        true
    }

    open spec fn from_spec(c: CachedPlugin) -> Self {
        to_metadata(c)
    }
}

/// Putting a plugin into the cache and taking it out again changes nothing.
pub proof fn lemma_cache_round_trip(m: PluginMetadata)
    ensures
        to_metadata(to_cached(m)) == m,
{
}

impl PluginMetadata {
    /// Whether the plugin runs on the platform named `os`.
    pub fn supports_platform(&self, os: &str) -> (r: bool)
        ensures
            r == platform_allowed(self.platforms, os@),
    {
        platform_listed(&self.platforms, os)
    }
}

/// A repository of this name holds a plugin: the name begins with
/// `plugin-` and is not the template's.
pub open spec fn plugin_repo_name(name: Seq<char>) -> bool {
    has_prefix(name, PLUGIN_PREFIX@) && name != "plugin-template"@
}

/// Whether a repository of this name holds a plugin.
pub fn is_plugin_repo(name: &str) -> (r: bool)
    ensures
        r == plugin_repo_name(name@),
{
    let n = chars_of(name);
    starts_with(&n, &chars_of(PLUGIN_PREFIX)) && !is_literal(&n, "plugin-template")
}

/// The positions of the repositories of `repos` that hold plugins, in order.
pub open spec fn plugin_positions(repos: Seq<GitHubRepo>) -> Seq<int>
    decreases repos.len(),
{
    if repos.len() == 0 {
        Seq::empty()
    } else {
        let before = plugin_positions(repos.drop_last());
        if plugin_repo_name(repos.last().name@) {
            before.push(repos.len() - 1)
        } else {
            before
        }
    }
}

/// `picked` are the repositories of `repos` at the positions `positions`.
pub open spec fn picked_at(picked: Seq<&GitHubRepo>, repos: Seq<GitHubRepo>, positions: Seq<int>) -> bool {
    &&& picked.len() == positions.len()
    &&& forall|k: int|
        0 <= k < picked.len() ==> 0 <= #[trigger] positions[k] < repos.len() && *picked[k]
            == repos[positions[k]]
}

/// The repositories of `repos` that hold plugins, in order.
pub fn filter_plugin_repos(repos: &[GitHubRepo]) -> (r: Vec<&GitHubRepo>)
    ensures
        picked_at(r@, repos@, plugin_positions(repos@)),
{
    let mut r: Vec<&GitHubRepo> = Vec::new();
    let mut i: usize = 0;
    while i < repos.len()
        invariant
            i <= repos.len(),
            picked_at(r@, repos@, plugin_positions(repos@.take(i as int))),
        decreases repos.len() - i,
    {
        proof {
            let next = repos@.take(i + 1);
            assert(next.drop_last() == repos@.take(i as int));
            assert(next.last() == repos@[i as int]);
        }
        let ghost before = r@;
        let ghost found = plugin_positions(repos@.take(i as int));
        if is_plugin_repo(repos[i].name.as_str()) {
            r.push(&repos[i]);
            proof {
                let grown = plugin_positions(repos@.take(i + 1));
                assert(grown == found.push(i as int));
                assert forall|k: int| 0 <= k < r@.len() implies 0 <= #[trigger] grown[k]
                    < repos@.len() && *r@[k] == repos@[grown[k]] by {
                    if k < before.len() {
                        assert(r@[k] == before[k]);
                        assert(grown[k] == found[k]);
                    }
                }
            }
        }
        i += 1;
    }
    assert(repos@.take(repos.len() as int) == repos@);
    r
}

/// What the index knows of the plugin in the repository `repo` with the
/// manifest `manifest`: the repository's name as identifier, its address,
/// and the manifest's name, description, version and platforms.
pub fn build_plugin_metadata(repo: &GitHubRepo, manifest: PluginManifest) -> (r: PluginMetadata)
    ensures
        r.id@ == repo.name@,
        r.repo_url@ == repo.html_url@,
        r.name == manifest.plugin.name,
        r.description == manifest.plugin.description,
        r.version == manifest.plugin.version,
        r.platforms == manifest.plugin.platforms,
{
    PluginMetadata {
        id: repo.name.clone(),
        name: manifest.plugin.name,
        description: manifest.plugin.description,
        version: manifest.plugin.version,
        repo_url: repo.html_url.clone(),
        platforms: manifest.plugin.platforms,
    }
}

/// The seconds from `timestamp` to `now`, counted around the end of the
/// 64-bit range where `now` lies before `timestamp`.
pub open spec fn age(timestamp: u64, now: u64) -> u64 {
    if now >= timestamp {
        (now - timestamp) as u64
    } else {
        (now + 0x1_0000_0000_0000_0000 - timestamp) as u64
    }
}

/// The age of the cache at the time `now`, in seconds; none without a cache.
pub fn cache_age_secs(cache: Option<&PluginCache>, now: u64) -> (r: Option<u64>)
    ensures
        r == match cache {
            Some(c) => Some(age(c.timestamp, now)),
            None => None,
        },
{
    match cache {
        Some(c) => Some(
            if now >= c.timestamp {
                now - c.timestamp
            } else {
                (u64::MAX - c.timestamp) + now + 1
            },
        ),
        None => None,
    }
}

/// `m` is what the cache holds as `c`.
pub open spec fn is_metadata_of(m: PluginMetadata, c: CachedPlugin) -> bool {
    m == to_metadata(c)
}

/// The plugins of the cache if it is younger than `CACHE_TTL_SECS` at the
/// time `now`; none without a cache or with one that is older.
pub fn get_valid_cache(cache: Option<PluginCache>, now: u64) -> (r: Option<Vec<PluginMetadata>>)
    ensures
        match r {
            Some(list) => cache matches Some(c) && age(c.timestamp, now) < CACHE_TTL_SECS
                && list@.len() == c.plugins@.len() && forall|i: int|
                0 <= i < list@.len() ==> is_metadata_of(#[trigger] list@[i], c.plugins@[i]),
            None => !(cache matches Some(c) && age(c.timestamp, now) < CACHE_TTL_SECS),
        },
{
    let c = match cache {
        Some(c) => c,
        None => {
            return None;
        },
    };
    let elapsed = match cache_age_secs(Some(&c), now) {
        Some(a) => a,
        None => 0,
    };
    if elapsed >= CACHE_TTL_SECS {
        return None;
    }
    let mut plugins = c.plugins;
    let ghost all = plugins@;
    let mut reversed: Vec<PluginMetadata> = Vec::new();
    while plugins.len() > 0
        invariant
            plugins@.len() <= all.len(),
            plugins@ == all.take(plugins@.len() as int),
            reversed@.len() + plugins@.len() == all.len(),
            forall|k: int|
                0 <= k < reversed@.len() ==> is_metadata_of(
                    #[trigger] reversed@[k],
                    all[all.len() - 1 - k],
                ),
        decreases plugins.len(),
    {
        let ghost before = plugins@;
        match plugins.pop() {
            Some(p) => {
                assert(p == all[before.len() - 1]);
                assert(plugins@ =~= all.take(plugins@.len() as int));
                reversed.push(PluginMetadata::from(p));
            },
            None => {},
        }
    }
    let mut list: Vec<PluginMetadata> = Vec::new();
    let ghost total = reversed@;
    while reversed.len() > 0
        invariant
            reversed@.len() <= total.len(),
            reversed@ == total.take(reversed@.len() as int),
            list@.len() + reversed@.len() == total.len(),
            total.len() == all.len(),
            forall|k: int|
                0 <= k < total.len() ==> is_metadata_of(#[trigger] total[k], all[all.len() - 1 - k]),
            forall|k: int| 0 <= k < list@.len() ==> is_metadata_of(#[trigger] list@[k], all[k]),
        decreases reversed.len(),
    {
        let ghost before = reversed@;
        match reversed.pop() {
            Some(m) => {
                assert(m == total[before.len() - 1]);
                assert(reversed@ =~= total.take(reversed@.len() as int));
                list.push(m);
            },
            None => {},
        }
    }
    Some(list)
}

/// Records that the plugin `plugin_id` of the cache now has the version
/// `version`. Returns whether the cache knows the plugin; the first plugin
/// of that identifier is changed, and nothing else.
pub fn update_cached_version(cache: &mut PluginCache, plugin_id: &str, version: &str) -> (r: bool)
    ensures
        final(cache).timestamp == old(cache).timestamp,
        final(cache).plugins@.len() == old(cache).plugins@.len(),
        r == exists|i: int|
            0 <= i < old(cache).plugins@.len() && (#[trigger] old(cache).plugins@[i]).id@
                == plugin_id@,
        forall|i: int|
            0 <= i < old(cache).plugins@.len() ==> {
                let before = #[trigger] old(cache).plugins@[i];
                let after = final(cache).plugins@[i];
                if before.id@ == plugin_id@ && forall|j: int|
                    0 <= j < i ==> (#[trigger] old(cache).plugins@[j]).id@ != plugin_id@ {
                    after.version@ == version@ && after.id == before.id && after.name
                        == before.name && after.description == before.description
                        && after.repo_url == before.repo_url && same_names(
                        after.platforms,
                        before.platforms,
                    )
                } else {
                    after == before
                }
            },
{
    let wanted = chars_of(plugin_id);
    let mut i: usize = 0;
    while i < cache.plugins.len()
        invariant
            i <= cache.plugins.len(),
            wanted@ == plugin_id@,
            *cache == *old(cache),
            forall|j: int| 0 <= j < i ==> (#[trigger] cache.plugins@[j]).id@ != plugin_id@,
        decreases cache.plugins.len() - i,
    {
        if same_chars(&chars_of(cache.plugins[i].id.as_str()), &wanted) {
            let old_plugin = &cache.plugins[i];
            let updated = CachedPlugin {
                id: old_plugin.id.clone(),
                name: old_plugin.name.clone(),
                description: old_plugin.description.clone(),
                version: version.to_owned(),
                repo_url: old_plugin.repo_url.clone(),
                platforms: clone_names(&old_plugin.platforms),
            };
            cache.plugins.set(i, updated);
            return true;
        }
        i += 1;
    }
    false
}

/// Two optional lists of names hold the same names in the same order.
pub open spec fn same_names(a: Option<Vec<String>>, b: Option<Vec<String>>) -> bool {
    match (a, b) {
        (Some(x), Some(y)) => x@ == y@,
        (None, None) => true,
        _ => false,
    }
}

/// A copy of an optional list of names.
fn clone_names(names: &Option<Vec<String>>) -> (r: Option<Vec<String>>)
    ensures
        same_names(r, *names),
{
    match names {
        Some(list) => {
            let mut copy: Vec<String> = Vec::new();
            let mut i: usize = 0;
            while i < list.len()
                invariant
                    i <= list.len(),
                    copy@ == list@.take(i as int),
                decreases list.len() - i,
            {
                copy.push(list[i].clone());
                i += 1;
            }
            assert(list@.take(list.len() as int) == list@);
            assert(copy@ == list@);
            Some(copy)
        },
        None => None,
    }
}

/// The token that a token file with the content `content` holds: the
/// content without the white space around it, unless nothing is left.
pub fn stored_token(content: &str) -> (r: Option<String>)
    ensures
        match r {
            Some(t) => t@ == trimmed(content@) && t@.len() > 0,
            None => trimmed(content@).len() == 0,
        },
{
    let t = trim(&chars_of(content));
    if t.len() == 0 {
        None
    } else {
        Some(string_of(&t))
    }
}

/// The address that lists the repositories of the organisation `org`.
pub open spec fn repos_address(org: Seq<char>) -> Seq<char> {
    "https://api.github.com/orgs/"@ + org + "/repos"@
}

/// The address that lists the repositories of the organisation `org`.
pub fn repos_url(org: &str) -> (r: String)
    ensures
        r@ == repos_address(org@),
{
    let mut out = chars_of("https://api.github.com/orgs/");
    append_chars(&mut out, &chars_of(org));
    append_chars(&mut out, &chars_of("/repos"));
    string_of(&out)
}

/// The address of the manifest of the repository `repo` of `org` on the
/// branch `branch`.
pub open spec fn manifest_address(org: Seq<char>, repo: Seq<char>, branch: Seq<char>) -> Seq<char> {
    "https://raw.githubusercontent.com/"@ + org + "/"@ + repo + "/"@ + branch + "/plugin.toml"@
}

/// The address of the manifest of the repository `repo` of `org` on the
/// branch `branch`.
pub fn manifest_url(org: &str, repo: &str, branch: &str) -> (r: String)
    ensures
        r@ == manifest_address(org@, repo@, branch@),
{
    let mut out = chars_of("https://raw.githubusercontent.com/");
    append_chars(&mut out, &chars_of(org));
    append_chars(&mut out, &chars_of("/"));
    append_chars(&mut out, &chars_of(repo));
    append_chars(&mut out, &chars_of("/"));
    append_chars(&mut out, &chars_of(branch));
    append_chars(&mut out, &chars_of("/plugin.toml"));
    string_of(&out)
}

/// The value of the header that authorises a request with `token`.
pub fn bearer(token: &str) -> (r: String)
    ensures
        r@ == "Bearer "@ + token@,
{
    let mut out = chars_of("Bearer ");
    append_chars(&mut out, &chars_of(token));
    string_of(&out)
}

} // verus!
