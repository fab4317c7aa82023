//! What choosing an entry of a plugin's menu does.

use vstd::prelude::*;
use crate::plugins::manager::{lookup, PluginManager};
use crate::plugins::manifest::{ActionType, MenuItem};
use crate::text::{chars_of, find_from, is_literal, occurs_at, same_chars, slice_of, string_of};

verus! {

/// What the menu item `item` does under the identifier `id`: the action
/// and the configuration key of an action or a checkbox of that
/// identifier, or of the first such item inside a submenu.
pub open spec fn action_of(item: MenuItem, id: Seq<char>) -> Option<(ActionType, Option<String>)>
    decreases item,
{
    match item {
        MenuItem::Action { id: item_id, label, action, config_key } => if item_id@ == id {
            Some((action, config_key))
        } else {
            None
        },
        MenuItem::Checkbox { id: item_id, label, checked, action, config_key } => if item_id@
            == id {
            Some((action, config_key))
        } else {
            None
        },
        MenuItem::Separator => None,
        MenuItem::Submenu { id: item_id, label, items } => action_in(items@, id),
    }
}

/// What the first item of `items` that knows the identifier `id` does under it.
pub open spec fn action_in(items: Seq<MenuItem>, id: Seq<char>) -> Option<(
    ActionType,
    Option<String>,
)>
    decreases items,
{
    if items.len() == 0 {
        None
    } else {
        match action_in(items.drop_last(), id) {
            Some(found) => Some(found),
            None => action_of(items.last(), id),
        }
    }
}

/// The action and the configuration key of a found item, as characters.
pub open spec fn found_view(found: Option<(ActionType, Option<String>)>) -> Option<(
    ActionType,
    Option<Seq<char>>,
)> {
    match found {
        Some((action, key)) => Some(
            (
                action,
                match key {
                    Some(k) => Some(k@),
                    None => None,
                },
            ),
        ),
        None => None,
    }
}

/// What the item `item` does under the identifier `id`.
fn find_in_item(item: &MenuItem, id: &Vec<char>) -> (r: Option<(ActionType, Option<String>)>)
    ensures
        found_view(r) == found_view(action_of(*item, id@)),
    decreases item,
{
    match item {
        MenuItem::Action { id: item_id, label, action, config_key } => {
            if same_chars(&chars_of(item_id.as_str()), id) {
                Some((*action, clone_key(config_key)))
            } else {
                None
            }
        },
        MenuItem::Checkbox { id: item_id, label, checked, action, config_key } => {
            if same_chars(&chars_of(item_id.as_str()), id) {
                Some((*action, clone_key(config_key)))
            } else {
                None
            }
        },
        MenuItem::Separator => None,
        MenuItem::Submenu { id: item_id, label, items } => {
            let mut i: usize = 0;
            while i < items.len()
                invariant
                    i <= items.len(),
                    decreases_to!(item => items),
                    action_of(*item, id@) == action_in(items@, id@),
                    action_in(items@.take(i as int), id@) is None,
                decreases items.len() - i,
            {
                proof {
                    let next = items@.take(i + 1);
                    assert(next.drop_last() == items@.take(i as int));
                    assert(next.last() == items@[i as int]);
                }
                match find_in_item(&items[i], id) {
                    Some(found) => {
                        proof {
                            assert(action_of(items@[i as int], id@) is Some);
                            assert(action_in(items@.take(i + 1), id@) == action_of(
                                items@[i as int],
                                id@,
                            ));
                            lemma_found_stays(items@, i + 1, id@);
                        }
                        return Some(found);
                    },
                    None => {
                        assert(action_of(items@[i as int], id@) is None);
                    },
                }
                i += 1;
            }
            assert(items@.take(items.len() as int) == items@);
            None
        },
    }
}

/// A copy of an optional key.
fn clone_key(key: &Option<String>) -> (r: Option<String>)
    ensures
        r == *key,
{
    match key {
        Some(k) => Some(k.clone()),
        None => None,
    }
}

/// What was found among the first items stays found among all of them.
pub proof fn lemma_found_stays(items: Seq<MenuItem>, k: int, id: Seq<char>)
    requires
        0 <= k <= items.len(),
        action_in(items.take(k), id) is Some,
    ensures
        action_in(items, id) == action_in(items.take(k), id),
    decreases items.len() - k,
{
    if k == items.len() {
        assert(items.take(k) == items);
    } else {
        assert(items.drop_last().take(k) == items.take(k));
        lemma_found_stays(items.drop_last(), k, id);
    }
}

/// The action and the configuration key of the menu item with the
/// identifier `id` among `items` and, in order, inside their submenus.
pub fn find_menu_item_action(items: &Vec<MenuItem>, id: &str) -> (r: Option<(
    ActionType,
    Option<String>,
)>)
    ensures
        found_view(r) == found_view(action_in(items@, id@)),
{
    let wanted = chars_of(id);
    let mut i: usize = 0;
    while i < items.len()
        invariant
            i <= items.len(),
            wanted@ == id@,
            action_in(items@.take(i as int), id@) is None,
        decreases items.len() - i,
    {
        proof {
            let next = items@.take(i + 1);
            assert(next.drop_last() == items@.take(i as int));
            assert(next.last() == items@[i as int]);
        }
        match find_in_item(&items[i], &wanted) {
            Some(found) => {
                proof {
                    assert(action_of(items@[i as int], id@) is Some);
                    assert(action_in(items@.take(i + 1), id@) == action_of(items@[i as int], id@));
                    lemma_found_stays(items@, i + 1, id@);
                }
                return Some(found);
            },
            None => {
                assert(action_of(items@[i as int], id@) is None);
            },
        }
        i += 1;
    }
    assert(items@.take(items.len() as int) == items@);
    None
}

/// What the host has to do for a menu event.
#[derive(Debug, Clone)]
pub enum MenuDecision {
    /// Quit.
    Quit,
    /// Load the plugins again.
    Reload,
    /// Nothing: the event is not of the form `plugin::item`.
    Malformed,
    /// Fail: there is no plugin of this identifier.
    UnknownPlugin { plugin_id: String },
    /// Run the script of the plugin.
    Run { plugin_id: String },
    /// Turn the boolean configuration value under `config_key` around.
    Toggle { plugin_id: String, config_key: String },
    /// Open the settings of the plugin.
    Settings { plugin_id: String },
    /// Nothing: the plugin has no such item, or the item has nothing to do.
    Nothing { item_id: String },
}

/// The two parts of an event of the form `plugin::item`: the event holds
/// `::` exactly once, read from the left.
pub open spec fn event_parts(event: Seq<char>) -> Option<(Seq<char>, Seq<char>)> {
    if exists|at: int| is_only_separator(event, at) {
        let at = choose|at: int| is_only_separator(event, at);
        Some((event.take(at), event.skip(at + 2)))
    } else {
        None
    }
}

/// The first `::` of `event` stands at `at`, and none follows it.
pub open spec fn is_only_separator(event: Seq<char>, at: int) -> bool {
    &&& occurs_at(event, "::"@, at)
    &&& forall|j: int| 0 <= j < at ==> !occurs_at(event, "::"@, j)
    &&& forall|j: int| at + 2 <= j ==> !occurs_at(event, "::"@, j)
}

/// The two parts of an event of the form `plugin::item`.
pub fn split_event(event: &str) -> (r: Option<(String, String)>)
    ensures
        match r {
            Some((plugin, item)) => event_parts(event@) == Some((plugin@, item@)),
            None => event_parts(event@) is None,
        },
{
    let v = chars_of(event);
    let sep = chars_of("::");
    proof {
        reveal_strlit("::");
    }
    assert(sep@.len() == 2);
    match find_from(&v, &sep, 0) {
        Some(at) => {
            assert(at + 2 <= v.len());
            match find_from(&v, &sep, at + 2) {
                Some(second) => {
                    proof {
                        assert forall|k: int| !is_only_separator(event@, k) by {
                            if is_only_separator(event@, k) {
                                if k < at {
                                    assert(occurs_at(event@, "::"@, k));
                                } else if k > at {
                                    assert(!occurs_at(event@, "::"@, at as int));
                                } else {
                                    assert(!occurs_at(event@, "::"@, second as int));
                                }
                            }
                        }
                    }
                    None
                },
                None => {
                    proof {
                        assert(is_only_separator(event@, at as int));
                        assert forall|k: int| is_only_separator(event@, k) implies k == at by {
                            if k < at {
                                assert(!occurs_at(event@, "::"@, k));
                            } else if k > at {
                                assert(!occurs_at(event@, "::"@, at as int));
                            }
                        }
                        assert(v@.subrange(0, at as int) == event@.take(at as int));
                        assert(v@.subrange(at + 2, v.len() as int) == event@.skip(at + 2));
                    }
                    Some(
                        (
                            string_of(&slice_of(&v, 0, at)),
                            string_of(&slice_of(&v, at + 2, v.len())),
                        ),
                    )
                },
            }
        },
        None => {
            proof {
                assert forall|k: int| !is_only_separator(event@, k) by {
                    if is_only_separator(event@, k) {
                        assert(!occurs_at(event@, "::"@, k));
                    }
                }
            }
            None
        },
    }
}

/// What the host has to do for the menu event `event_id`.
///
/// `__quit__` quits and `__reload__` loads the plugins again. Any other
/// event must have the form `plugin::item`; the item is looked up in the
/// menu of that plugin, and its action decides.
pub fn handle_menu_event(manager: &PluginManager, event_id: &str) -> (r: MenuDecision)
    ensures
        event_id@ == "__quit__"@ ==> r is Quit,
        event_id@ != "__quit__"@ && event_id@ == "__reload__"@ ==> r is Reload,
        event_id@ != "__quit__"@ && event_id@ != "__reload__"@ ==> match event_parts(event_id@) {
            None => r is Malformed,
            Some((plugin_id, item_id)) => match manager.plugin(plugin_id) {
                None => r matches MenuDecision::UnknownPlugin { plugin_id: p } && p@ == plugin_id,
                Some(plugin) => match found_view(action_in(plugin.manifest.menu.items@, item_id)) {
                    Some((ActionType::Run, _)) => r matches MenuDecision::Run { plugin_id: p }
                        && p@ == plugin_id,
                    Some((ActionType::ToggleConfig, Some(key))) => r matches MenuDecision::Toggle {
                        plugin_id: p,
                        config_key: k,
                    } && p@ == plugin_id && k@ == key,
                    Some((ActionType::Settings, _)) => r matches MenuDecision::Settings {
                        plugin_id: p,
                    } && p@ == plugin_id,
                    _ => r matches MenuDecision::Nothing { item_id: i } && i@ == item_id,
                },
            },
        },
{
    let v = chars_of(event_id);
    if is_literal(&v, "__quit__") {
        return MenuDecision::Quit;
    }
    if is_literal(&v, "__reload__") {
        return MenuDecision::Reload;
    }
    let (plugin_id, item_id) = match split_event(event_id) {
        Some(parts) => parts,
        None => {
            return MenuDecision::Malformed;
        },
    };
    let plugin = match manager.get(plugin_id.as_str()) {
        Some(p) => p,
        None => {
            return MenuDecision::UnknownPlugin { plugin_id };
        },
    };
    match find_menu_item_action(&plugin.manifest.menu.items, item_id.as_str()) {
        Some((ActionType::Run, _)) => MenuDecision::Run { plugin_id },
        Some((ActionType::ToggleConfig, Some(config_key))) => MenuDecision::Toggle {
            plugin_id,
            config_key,
        },
        Some((ActionType::Settings, _)) => MenuDecision::Settings { plugin_id },
        _ => MenuDecision::Nothing { item_id },
    }
}

} // verus!
