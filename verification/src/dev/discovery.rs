//! Plugins found in the developer's source trees.

use vstd::prelude::*;
use crate::text::{chars_of, is_literal};

verus! {

/// A plugin directory that was found while searching.
#[derive(Debug, Clone)]
pub struct DiscoveredPlugin {
    pub id: String,
    pub name: String,
    pub path: String,
    pub already_linked: bool,
    pub installed_not_linked: bool,
}

/// What the host found at the place in the plugin directory where a
/// discovered plugin would be linked.
#[derive(Debug, Clone, Copy, PartialEq, Eq, Structural)]
pub enum LinkProbe {
    /// Nothing is there.
    Absent,
    /// Something is there that is no link, or a link that cannot be read.
    NotALink,
    /// A link is there; the flag says whether it leads to the discovered directory.
    Link { to_target: bool },
}

/// How far below a search path plugins are looked for.
pub const MAX_SEARCH_DEPTH: usize = 5;

/// An entry of the name `name`, `depth` levels below a search path, is
/// looked at and, if it is a directory, into: the search path itself
/// always, and below it everything but hidden entries and the directories
/// in which build tools keep what they fetched or made.
pub open spec fn is_searched(depth: nat, name: Seq<char>) -> bool {
    depth == 0 || !((name.len() > 0 && name[0] == '.') || name == "node_modules"@ || name
        == "target"@ || name == "vendor"@)
}

/// Whether an entry of the name `name`, `depth` levels below a search
/// path, is looked at while searching for plugins.
pub fn should_search(depth: usize, name: &str) -> (r: bool)
    ensures
        r == is_searched(depth as nat, name@),
{
    if depth == 0 {
        return true;
    }
    let n = chars_of(name);
    let hidden = n.len() > 0 && n[0] == '.';
    !(hidden || is_literal(&n, "node_modules") || is_literal(&n, "target") || is_literal(
        &n,
        "vendor",
    ))
}

/// Whether a discovered plugin is already linked, and whether it is
/// installed without being linked, from what stands at its place in the
/// plugin directory.
pub fn check_install_status(probe: LinkProbe) -> (r: (bool, bool))
    ensures
        r == match probe {
            LinkProbe::Absent => (false, false),
            LinkProbe::NotALink => (false, true),
            LinkProbe::Link { to_target } => (to_target, !to_target),
        },
{
    match probe {
        LinkProbe::Absent => (false, false),
        LinkProbe::NotALink => (false, true),
        LinkProbe::Link { to_target } => (to_target, !to_target),
    }
}

/// The discovered plugin of a directory: `dir_name` is the directory's
/// name, `path` its path, and `manifest_name` the name that its manifest
/// gives, where one could be read. The template directory is no plugin; a
/// plugin without a readable name goes by its identifier.
pub fn try_parse_plugin_dir(dir_name: &str, path: &str, manifest_name: Option<String>) -> (r:
    Option<DiscoveredPlugin>)
    ensures
        match r {
            Some(p) => dir_name@ != "plugin-template"@ && p.id@ == dir_name@ && p.path@ == path@
                && p.name@ == (match manifest_name {
                Some(n) => n@,
                None => dir_name@,
            }) && !p.already_linked && !p.installed_not_linked,
            None => dir_name@ == "plugin-template"@,
        },
{
    if is_literal(&chars_of(dir_name), "plugin-template") {
        return None;
    }
    let name = match manifest_name {
        Some(n) => n,
        None => dir_name.to_owned(),
    };
    Some(
        DiscoveredPlugin {
            id: dir_name.to_owned(),
            name,
            path: path.to_owned(),
            already_linked: false,
            installed_not_linked: false,
        },
    )
}

/// One plugin directory as the host found it: its canonical path, what it
/// parsed to, and what stands at its place in the plugin directory.
#[derive(Debug, Clone)]
pub struct Candidate {
    pub canonical_path: String,
    pub plugin: Option<DiscoveredPlugin>,
    pub probe: LinkProbe,
}

/// Candidate `i` is taken: no earlier candidate has its canonical path, it
/// parsed to a plugin, and that plugin is not linked yet.
pub open spec fn is_taken(candidates: Seq<Candidate>, i: int) -> bool {
    &&& 0 <= i < candidates.len()
    &&& forall|j: int|
        0 <= j < i ==> (#[trigger] candidates[j]).canonical_path@ != candidates[i].canonical_path@
    &&& candidates[i].plugin is Some
    &&& !(candidates[i].probe matches LinkProbe::Link { to_target } && to_target)
}

/// `a` comes before `b` or is equal to it, character by character.
pub open spec fn name_le(a: Seq<char>, b: Seq<char>) -> bool
    decreases a.len(),
{
    if a.len() == 0 {
        true
    } else if b.len() == 0 {
        false
    } else if a[0] != b[0] {
        (a[0] as int) < (b[0] as int)
    } else {
        name_le(a.drop_first(), b.drop_first())
    }
}

/// Whether `a` comes before `b` or is equal to it, character by character.
pub fn name_before(a: &Vec<char>, b: &Vec<char>) -> (r: bool)
    ensures
        r == name_le(a@, b@),
{
    let mut i: usize = 0;
    assert(a@.skip(0) == a@ && b@.skip(0) == b@);
    while i < a.len() && i < b.len()
        invariant
            i <= a.len(),
            i <= b.len(),
            name_le(a@, b@) == name_le(a@.skip(i as int), b@.skip(i as int)),
        decreases a.len() - i,
    {
        proof {
            assert(a@.skip(i as int)[0] == a@[i as int]);
            assert(b@.skip(i as int)[0] == b@[i as int]);
            assert(a@.skip(i as int).drop_first() == a@.skip(i + 1));
            assert(b@.skip(i as int).drop_first() == b@.skip(i + 1));
        }
        if a[i] != b[i] {
            return a[i] < b[i];
        }
        assert(a@[i as int] == b@[i as int]);
        i += 1;
    }
    i == a.len()
}

/// The plugins of `list` stand in the order of their names.
pub open spec fn sorted_by_name(list: Seq<DiscoveredPlugin>) -> bool {
    forall|i: int, j: int|
        0 <= i < j < list.len() ==> name_le((#[trigger] list[i]).name@, (#[trigger] list[j]).name@)
}

/// The order of names is reflexive, total and transitive.
pub proof fn lemma_name_order(a: Seq<char>, b: Seq<char>, c: Seq<char>)
    ensures
        name_le(a, b) || name_le(b, a),
        name_le(a, b) && name_le(b, c) ==> name_le(a, c),
        name_le(a, a),
    decreases a.len(),
{
    if a.len() > 0 {
        lemma_name_order(a.drop_first(), a.drop_first(), a.drop_first());
        if b.len() > 0 {
            lemma_name_order(a.drop_first(), b.drop_first(), b.drop_first());
            if c.len() > 0 {
                lemma_name_order(a.drop_first(), b.drop_first(), c.drop_first());
            }
        }
    }
}

/// `plugin` stands in `after` at the position `at`, and the plugins of
/// `before` around it; every plugin behind it has a name that comes after
/// its own.
pub open spec fn inserted_at(
    before: Seq<DiscoveredPlugin>,
    after: Seq<DiscoveredPlugin>,
    plugin: DiscoveredPlugin,
    at: int,
) -> bool {
    &&& 0 <= at <= before.len()
    &&& after == before.insert(at, plugin)
    &&& forall|k: int|
        at <= k < before.len() ==> !name_le((#[trigger] before[k]).name@, plugin.name@)
}

/// Puts `plugin` into the list `sorted`, which stands in the order of
/// names, behind every plugin whose name does not come after its own.
fn insert_by_name(sorted: &mut Vec<DiscoveredPlugin>, plugin: DiscoveredPlugin)
    requires
        sorted_by_name(old(sorted)@),
    ensures
        sorted_by_name(final(sorted)@),
        exists|at: int| #[trigger] inserted_at(old(sorted)@, final(sorted)@, plugin, at),
{
    let name = chars_of(plugin.name.as_str());
    let mut at: usize = sorted.len();
    while at > 0 && !name_before(&chars_of(sorted[at - 1].name.as_str()), &name)
        invariant
            at <= sorted.len(),
            name@ == plugin.name@,
            *sorted == *old(sorted),
            forall|k: int|
                at <= k < sorted@.len() ==> name_le(plugin.name@, (#[trigger] sorted@[k]).name@),
            forall|k: int|
                at <= k < sorted@.len() ==> !name_le((#[trigger] sorted@[k]).name@, plugin.name@),
        decreases at,
    {
        proof {
            lemma_name_order(sorted@[at - 1].name@, name@, name@);
        }
        at -= 1;
    }
    let ghost before = sorted@;
    sorted.insert(at, plugin);
    proof {
        assert(sorted@ == before.insert(at as int, plugin));
        assert(inserted_at(before, sorted@, plugin, at as int));
        assert forall|i: int, j: int| 0 <= i < j < sorted@.len() implies name_le(
            (#[trigger] sorted@[i]).name@,
            (#[trigger] sorted@[j]).name@,
        ) by {
            if j < at {
                assert(sorted@[i] == before[i] && sorted@[j] == before[j]);
            } else if j == at {
                assert(sorted@[i] == before[i]);
                if at > 0 {
                    assert(name_le(before[at - 1].name@, plugin.name@));
                    lemma_name_order(before[i].name@, before[at - 1].name@, plugin.name@);
                    if i < at - 1 {
                        assert(name_le(before[i].name@, before[at - 1].name@));
                    }
                }
            } else if i < at {
                assert(sorted@[i] == before[i] && sorted@[j] == before[j - 1]);
                if i < j - 1 {
                    assert(name_le(before[i].name@, before[j - 1].name@));
                } else {
                    lemma_name_order(before[i].name@, before[i].name@, before[i].name@);
                }
            } else if i == at {
                assert(sorted@[j] == before[j - 1]);
            } else {
                assert(sorted@[i] == before[i - 1] && sorted@[j] == before[j - 1]);
            }
        }
    }
}

/// The plugins to offer for linking, from the plugin directories that the
/// host found, in the order in which it found them.
///
/// A directory that was already seen under the same canonical path is
/// skipped, and so is one that is no plugin and one that is already
/// linked. The plugins that remain are marked as installed where something
/// else stands at their place, and put in the order of their names;
/// plugins of the same name stay in the order in which they were found.
pub fn discover_plugins(candidates: Vec<Candidate>) -> (r: Vec<DiscoveredPlugin>)
    ensures
        sorted_by_name(r@),
        r@.len() == taken_count(candidates@, candidates@.len() as int),
        forall|k: int| 0 <= k < r@.len() ==> offered_from(candidates@, #[trigger] r@[k]),
        forall|i: int|
            is_taken(candidates@, i) ==> represented(r@, #[trigger] candidates@[i]),
        exists|origin: Seq<int>| #[trigger] found_in_order(candidates@, r@, origin),
{
    let mut r: Vec<DiscoveredPlugin> = Vec::new();
    let ghost mut origin: Seq<int> = Seq::empty();
    let mut i: usize = 0;
    proof {
        lemma_discovery_begins(candidates@);
    }
    while i < candidates.len()
        invariant
            i <= candidates.len(),
            sorted_by_name(r@),
            discovered_upto(candidates@, r@, origin, i as int),
        decreases candidates.len() - i,
    {
        let candidate = &candidates[i];
        let path = chars_of(candidate.canonical_path.as_str());
        let mut seen = false;
        let mut j: usize = 0;
        while j < i
            invariant
                j <= i < candidates.len(),
                path@ == candidates@[i as int].canonical_path@,
                seen == exists|m: int|
                    0 <= m < j && (#[trigger] candidates@[m]).canonical_path@ == path@,
            decreases i - j,
        {
            if crate::text::same_chars(&chars_of(candidates[j].canonical_path.as_str()), &path) {
                seen = true;
            }
            j += 1;
        }
        let (linked, installed) = check_install_status(candidate.probe);
        let ghost before = r@;
        let mut offered = false;
        if !seen && !linked {
            match &candidate.plugin {
                Some(p) => {
                    let offer = DiscoveredPlugin {
                        id: p.id.clone(),
                        name: p.name.clone(),
                        path: p.path.clone(),
                        already_linked: false,
                        installed_not_linked: installed,
                    };
                    insert_by_name(&mut r, offer);
                    offered = true;
                    proof {
                        assert(is_taken(candidates@, i as int));
                        assert(is_offer_of(offer, candidates@[i as int]));
                        let at = choose|at: int| #[trigger] inserted_at(before, r@, offer, at);
                        lemma_discovery_takes(candidates@, before, r@, origin, offer, at, i as int);
                        origin = origin.insert(at, i as int);
                    }
                },
                None => {},
            }
        }
        proof {
            if !offered {
                assert(!is_taken(candidates@, i as int));
                lemma_discovery_skips(candidates@, r@, origin, i as int);
            }
        }
        i += 1;
    }
    proof {
        lemma_discovery_ends(candidates@, r@, origin);
    }
    r
}

/// What holds of the plugins `list` once the first `upto` candidates are
/// dealt with: they are the offers of the candidates at `origin`, all of
/// them before `upto`, and every candidate before `upto` that is taken has
/// its offer among them.
#[verifier::opaque]
spec fn discovered_upto(
    candidates: Seq<Candidate>,
    list: Seq<DiscoveredPlugin>,
    origin: Seq<int>,
    upto: int,
) -> bool {
    &&& found_in_order(candidates, list, origin)
    &&& list.len() == taken_count(candidates, upto)
    &&& origin_below(origin, upto)
    &&& all_offered(candidates, list)
    &&& all_represented(candidates, list, upto)
}

/// Every position of `origin` is before `upto`.
#[verifier::opaque]
spec fn origin_below(origin: Seq<int>, upto: int) -> bool {
    forall|k: int| 0 <= k < origin.len() ==> (#[trigger] origin[k]) < upto
}

/// Every plugin of `list` is the offer of a candidate that is taken.
#[verifier::opaque]
spec fn all_offered(candidates: Seq<Candidate>, list: Seq<DiscoveredPlugin>) -> bool {
    forall|k: int| 0 <= k < list.len() ==> offered_from(candidates, #[trigger] list[k])
}

/// Every candidate before `upto` that is taken has its offer in `list`.
#[verifier::opaque]
spec fn all_represented(candidates: Seq<Candidate>, list: Seq<DiscoveredPlugin>, upto: int) -> bool {
    forall|m: int|
        0 <= m < upto && is_taken(candidates, m) ==> represented(list, #[trigger] candidates[m])
}

/// Before any candidate is dealt with, nothing is offered.
proof fn lemma_discovery_begins(candidates: Seq<Candidate>)
    ensures
        discovered_upto(candidates, Seq::empty(), Seq::empty(), 0),
        sorted_by_name(Seq::empty()),
{
    reveal(discovered_upto);
    reveal(found_in_order);
    reveal(origin_below);
    reveal(all_offered);
    reveal(all_represented);
}

/// A candidate that is not taken changes nothing.
proof fn lemma_discovery_skips(
    candidates: Seq<Candidate>,
    list: Seq<DiscoveredPlugin>,
    origin: Seq<int>,
    i: int,
)
    requires
        discovered_upto(candidates, list, origin, i),
        0 <= i,
        !is_taken(candidates, i),
    ensures
        discovered_upto(candidates, list, origin, i + 1),
{
    reveal(discovered_upto);
    reveal(origin_below);
    reveal(all_represented);
}

/// The offer of a candidate that is taken, put into the list, is counted
/// and found with the others.
proof fn lemma_discovery_takes(
    candidates: Seq<Candidate>,
    before: Seq<DiscoveredPlugin>,
    after: Seq<DiscoveredPlugin>,
    origin: Seq<int>,
    offer: DiscoveredPlugin,
    at: int,
    i: int,
)
    requires
        discovered_upto(candidates, before, origin, i),
        inserted_at(before, after, offer, at),
        is_taken(candidates, i),
        is_offer_of(offer, candidates[i]),
    ensures
        discovered_upto(candidates, after, origin.insert(at, i), i + 1),
{
    reveal(discovered_upto);
    lemma_found_insert(candidates, before, after, origin, offer, at, i);
    lemma_offered_insert(candidates, before, after, offer, at, i);
    lemma_represented_insert(candidates, before, after, offer, at, i);
}

/// With the offer of a taken candidate put in, every plugin of the list is
/// still the offer of a taken candidate.
proof fn lemma_offered_insert(
    candidates: Seq<Candidate>,
    before: Seq<DiscoveredPlugin>,
    after: Seq<DiscoveredPlugin>,
    offer: DiscoveredPlugin,
    at: int,
    i: int,
)
    requires
        all_offered(candidates, before),
        0 <= at <= before.len(),
        after == before.insert(at, offer),
        is_taken(candidates, i),
        is_offer_of(offer, candidates[i]),
    ensures
        all_offered(candidates, after),
{
    reveal(all_offered);
    assert(offered_from(candidates, offer));
    assert forall|k: int| 0 <= k < after.len() implies offered_from(
        candidates,
        #[trigger] after[k],
    ) by {
        if k < at {
            assert(after[k] == before[k]);
        } else if k > at {
            assert(after[k] == before[k - 1]);
        } else {
            assert(after[k] == offer);
        }
    }
}

/// With the offer of the candidate `i` put in, every taken candidate up
/// to `i` has its offer in the list.
proof fn lemma_represented_insert(
    candidates: Seq<Candidate>,
    before: Seq<DiscoveredPlugin>,
    after: Seq<DiscoveredPlugin>,
    offer: DiscoveredPlugin,
    at: int,
    i: int,
)
    requires
        all_represented(candidates, before, i),
        0 <= at <= before.len(),
        after == before.insert(at, offer),
        is_offer_of(offer, candidates[i]),
    ensures
        all_represented(candidates, after, i + 1),
{
    reveal(all_represented);
    assert forall|m: int| 0 <= m < i + 1 && is_taken(candidates, m) implies represented(
        after,
        #[trigger] candidates[m],
    ) by {
        if m < i {
            assert(represented(before, candidates[m]));
            let k = choose|k: int|
                0 <= k < before.len() && is_offer_of(#[trigger] before[k], candidates[m]);
            if k < at {
                assert(after[k] == before[k]);
            } else {
                assert(after[k + 1] == before[k]);
            }
        } else {
            assert(after[at] == offer);
        }
    }
}

/// Once every candidate is dealt with, the list is what was to be found.
proof fn lemma_discovery_ends(
    candidates: Seq<Candidate>,
    list: Seq<DiscoveredPlugin>,
    origin: Seq<int>,
)
    requires
        discovered_upto(candidates, list, origin, candidates.len() as int),
    ensures
        found_in_order(candidates, list, origin),
        list.len() == taken_count(candidates, candidates.len() as int),
        forall|k: int| 0 <= k < list.len() ==> offered_from(candidates, #[trigger] list[k]),
        forall|m: int| is_taken(candidates, m) ==> represented(list, #[trigger] candidates[m]),
{
    reveal(discovered_upto);
    reveal(all_offered);
    reveal(all_represented);
}

/// The plugins of `list` are the offers of the candidates at the positions
/// `origin`, each candidate once, and plugins of the same name stand in the
/// order of their candidates.
#[verifier::opaque]
pub open spec fn found_in_order(
    candidates: Seq<Candidate>,
    list: Seq<DiscoveredPlugin>,
    origin: Seq<int>,
) -> bool {
    &&& origin.len() == list.len()
    &&& forall|k: int|
        0 <= k < list.len() ==> is_taken(candidates, #[trigger] origin[k]) && is_offer_of(
            list[k],
            candidates[origin[k]],
        )
    &&& forall|k: int, l: int|
        0 <= k < l < list.len() ==> (#[trigger] origin[k]) != (#[trigger] origin[l]) && (
        list[k].name@ == list[l].name@ ==> origin[k] < origin[l])
}

/// Putting the offer of a later candidate into a list that stands in the
/// order of finding keeps that order.
proof fn lemma_found_insert(
    candidates: Seq<Candidate>,
    before: Seq<DiscoveredPlugin>,
    after: Seq<DiscoveredPlugin>,
    origin: Seq<int>,
    offer: DiscoveredPlugin,
    at: int,
    i: int,
)
    requires
        found_in_order(candidates, before, origin),
        origin_below(origin, i),
        inserted_at(before, after, offer, at),
        is_taken(candidates, i),
        is_offer_of(offer, candidates[i]),
    ensures
        found_in_order(candidates, after, origin.insert(at, i)),
        origin_below(origin.insert(at, i), i + 1),
{
    reveal(found_in_order);
    reveal(origin_below);
    let grown = origin.insert(at, i);
    assert(grown.len() == after.len());
    assert forall|k: int| 0 <= k < after.len() implies is_taken(candidates, #[trigger] grown[k])
        && is_offer_of(after[k], candidates[grown[k]]) && grown[k] < i + 1 by {
        if k < at {
            assert(after[k] == before[k] && grown[k] == origin[k]);
        } else if k > at {
            assert(after[k] == before[k - 1] && grown[k] == origin[k - 1]);
        } else {
            assert(after[k] == offer && grown[k] == i);
        }
    }
    assert forall|k: int, l: int| 0 <= k < l < after.len() implies (#[trigger] grown[k]) != (
    #[trigger] grown[l]) && (after[k].name@ == after[l].name@ ==> grown[k] < grown[l]) by {
        let from_k = if k < at {
            k
        } else {
            k - 1
        };
        let from_l = if l < at {
            l
        } else {
            l - 1
        };
        if k != at {
            assert(after[k] == before[from_k] && grown[k] == origin[from_k]);
            assert(origin[from_k] < i);
        }
        if l != at {
            assert(after[l] == before[from_l] && grown[l] == origin[from_l]);
            assert(origin[from_l] < i);
        }
        if k == at {
            assert(after[k] == offer && grown[k] == i);
            assert(!name_le(before[from_l].name@, offer.name@));
            lemma_name_order(offer.name@, offer.name@, offer.name@);
        } else if l == at {
            assert(grown[l] == i);
        } else {
            assert(from_k < from_l);
            assert(origin[from_k] != origin[from_l]);
        }
    }
}

/// `offer` is the offer of a candidate of `candidates` that is taken.
pub open spec fn offered_from(candidates: Seq<Candidate>, offer: DiscoveredPlugin) -> bool {
    exists|m: int| is_taken(candidates, m) && is_offer_of(offer, #[trigger] candidates[m])
}

/// The candidate `c` has its offer in `list`.
pub open spec fn represented(list: Seq<DiscoveredPlugin>, c: Candidate) -> bool {
    exists|k: int| 0 <= k < list.len() && is_offer_of(#[trigger] list[k], c)
}

/// The number of candidates before position `upto` that are taken.
pub open spec fn taken_count(candidates: Seq<Candidate>, upto: int) -> nat
    decreases upto,
{
    if upto <= 0 {
        0
    } else {
        taken_count(candidates, upto - 1) + if is_taken(candidates, upto - 1) {
            1nat
        } else {
            0nat
        }
    }
}

/// `offer` is what is offered for the candidate `c`: its plugin, not
/// linked, and installed exactly if something stands at its place.
pub open spec fn is_offer_of(offer: DiscoveredPlugin, c: Candidate) -> bool {
    &&& c.plugin matches Some(p)
    &&& offer.id@ == p.id@
    &&& offer.name@ == p.name@
    &&& offer.path@ == p.path@
    &&& !offer.already_linked
    &&& offer.installed_not_linked == !(c.probe is Absent)
}

} // verus!
