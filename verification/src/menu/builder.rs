//! Building the menu and its routing table from the registered features.
//!
//! The menu is described by plain values; drawing it is left to the host.

use std::sync::Arc;
use vstd::prelude::*;
use crate::features::FeatureRegistry;
use crate::menu::router::{
    EventHandler, EventPattern, EventRoute, EventRouter, Handler, HandlerError, HandlerResult,
    PatternModel,
};
use crate::plugins::manifest::MenuItem;
use crate::menu::router::is_first_match;
use crate::text::{
    append_chars, chars_of, decimal_digits, digits_of, has_prefix, is_digit, lemma_digits_round_trip,
    string_of,
};

verus! {

/// One entry of the menu as it is shown, with the identifier under which
/// choosing it is reported.
#[derive(Debug)]
pub enum MenuEntry {
    Item { id: String, label: String },
    Check { id: String, label: String, checked: bool },
    Separator,
    Submenu { id: String, label: String, children: Vec<MenuEntry> },
}

/// The mathematical content of a menu entry.
pub enum EntryModel {
    Item { id: Seq<char>, label: Seq<char> },
    Check { id: Seq<char>, label: Seq<char>, checked: bool },
    Separator,
    Submenu { id: Seq<char>, label: Seq<char>, children: Seq<EntryModel> },
}

impl MenuEntry {
    /// The content of this entry.
    pub open spec fn model(self) -> EntryModel
        decreases self,
    {
        match self {
            MenuEntry::Item { id, label } => EntryModel::Item { id: id@, label: label@ },
            MenuEntry::Check { id, label, checked } => EntryModel::Check {
                id: id@,
                label: label@,
                checked,
            },
            MenuEntry::Separator => EntryModel::Separator,
            MenuEntry::Submenu { id, label, children } => EntryModel::Submenu {
                id: id@,
                label: label@,
                children: models(children@),
            },
        }
    }
}

/// The contents of the entries of `list`.
pub open spec fn models(list: Seq<MenuEntry>) -> Seq<EntryModel>
    decreases list,
{
    if list.len() == 0 {
        Seq::empty()
    } else {
        models(list.drop_last()).push(list.last().model())
    }
}

/// The contents of a concatenation are the concatenated contents.
pub proof fn lemma_models_concat(a: Seq<MenuEntry>, b: Seq<MenuEntry>)
    ensures
        models(a + b) == models(a) + models(b),
    decreases b.len(),
{
    if b.len() == 0 {
        assert(a + b == a);
        assert(models(a) + models(b) == models(a));
    } else {
        lemma_models_concat(a, b.drop_last());
        assert((a + b).drop_last() == a + b.drop_last());
        assert((a + b).last() == b.last());
        assert(models(a) + models(b) == (models(a) + models(b.drop_last())).push(
            b.last().model(),
        ));
    }
}

/// The identifier `id` in the scope `prefix`: the two with `::` between them.
pub open spec fn scoped(prefix: Seq<char>, id: Seq<char>) -> Seq<char> {
    prefix + "::"@ + id
}

/// The entry shown for the manifest item `item` of the owner `prefix`. Every
/// identifier, at any depth, is scoped by the same `prefix`.
pub open spec fn entry_of(item: MenuItem, prefix: Seq<char>) -> EntryModel
    decreases item,
{
    match item {
        MenuItem::Action { id, label, action, config_key } => EntryModel::Item {
            id: scoped(prefix, id@),
            label: label@,
        },
        MenuItem::Checkbox { id, label, checked, action, config_key } => EntryModel::Check {
            id: scoped(prefix, id@),
            label: label@,
            checked,
        },
        MenuItem::Separator => EntryModel::Separator,
        MenuItem::Submenu { id, label, items } => EntryModel::Submenu {
            id: scoped(prefix, id@),
            label: label@,
            children: entries_of(items@, prefix),
        },
    }
}

/// The entries shown for the manifest items `items` of the owner `prefix`.
pub open spec fn entries_of(items: Seq<MenuItem>, prefix: Seq<char>) -> Seq<EntryModel>
    decreases items,
{
    if items.len() == 0 {
        Seq::empty()
    } else {
        entries_of(items.drop_last(), prefix).push(entry_of(items.last(), prefix))
    }
}

/// The identifier `id` in the scope `prefix`.
pub fn scoped_id(prefix: &str, id: &str) -> (r: String)
    ensures
        r@ == scoped(prefix@, id@),
{
    let mut out = chars_of(prefix);
    append_chars(&mut out, &chars_of("::"));
    append_chars(&mut out, &chars_of(id));
    string_of(&out)
}

/// The entry to show for the manifest item `item` of the owner `prefix`.
pub fn menu_entry(item: &MenuItem, prefix: &str) -> (r: MenuEntry)
    ensures
        r.model() == entry_of(*item, prefix@),
    decreases item,
{
    match item {
        MenuItem::Action { id, label, action, config_key } => MenuEntry::Item {
            id: scoped_id(prefix, id.as_str()),
            label: label.clone(),
        },
        MenuItem::Checkbox { id, label, checked, action, config_key } => MenuEntry::Check {
            id: scoped_id(prefix, id.as_str()),
            label: label.clone(),
            checked: *checked,
        },
        MenuItem::Separator => MenuEntry::Separator,
        MenuItem::Submenu { id, label, items } => {
            let mut children: Vec<MenuEntry> = Vec::new();
            let mut i: usize = 0;
            while i < items.len()
                invariant
                    i <= items.len(),
                    decreases_to!(item => items),
                    models(children@) == entries_of(items@.take(i as int), prefix@),
                decreases items.len() - i,
            {
                let child = menu_entry(&items[i], prefix);
                proof {
                    let next = items@.take(i + 1);
                    assert(next.drop_last() == items@.take(i as int));
                    assert(next.last() == items@[i as int]);
                    let grown = children@.push(child);
                    assert(grown.drop_last() == children@);
                    assert(grown.last() == child);
                }
                children.push(child);
                i += 1;
            }
            assert(items@.take(items.len() as int) == items@);
            MenuEntry::Submenu {
                id: scoped_id(prefix, id.as_str()),
                label: label.clone(),
                children,
            }
        },
    }
}

/// The entries to show for the manifest items `items` of the owner `prefix`,
/// in their order.
pub fn menu_entries(items: &Vec<MenuItem>, prefix: &str) -> (r: Vec<MenuEntry>)
    ensures
        models(r@) == entries_of(items@, prefix@),
        r.len() == items.len(),
{
    let mut out: Vec<MenuEntry> = Vec::new();
    let mut i: usize = 0;
    while i < items.len()
        invariant
            i <= items.len(),
            out.len() == i,
            models(out@) == entries_of(items@.take(i as int), prefix@),
        decreases items.len() - i,
    {
        let entry = menu_entry(&items[i], prefix);
        proof {
            let next = items@.take(i + 1);
            assert(next.drop_last() == items@.take(i as int));
            assert(next.last() == items@[i as int]);
            let grown = out@.push(entry);
            assert(grown.drop_last() == out@);
            assert(grown.last() == entry);
        }
        out.push(entry);
        i += 1;
    }
    assert(items@.take(items.len() as int) == items@);
    out
}

/// The name under which feature number `index` owns its entries.
pub open spec fn feature_id(index: nat) -> Seq<char> {
    "feature_"@ + digits_of(index)
}

/// The prefix of the events of feature number `index`.
pub open spec fn feature_prefix(index: nat) -> Seq<char> {
    feature_id(index) + "::"@
}

/// The name under which feature number `index` owns its entries.
pub fn feature_name(index: usize) -> (r: String)
    ensures
        r@ == feature_id(index as nat),
{
    let mut out = chars_of("feature_");
    append_chars(&mut out, &decimal_digits(index as u64));
    string_of(&out)
}

/// The label of the entry that offers an update to `version`, or to a
/// release whose version is not known.
pub open spec fn update_label(version: Option<Seq<char>>) -> Seq<char> {
    match version {
        Some(v) => "\u{2B06} Update to v"@ + v,
        None => "\u{2B06} Update Available"@,
    }
}

/// The entries of all features, feature after feature: `offered[i]` are the
/// items that feature number `i` offered.
pub open spec fn feature_entries(offered: Seq<Seq<MenuItem>>) -> Seq<EntryModel>
    decreases offered.len(),
{
    if offered.len() == 0 {
        Seq::empty()
    } else {
        feature_entries(offered.drop_last()) + entries_of(
            offered.last(),
            feature_id((offered.len() - 1) as nat),
        )
    }
}

/// One prefix pattern for every feature that offered at least one item.
pub open spec fn feature_patterns(offered: Seq<Seq<MenuItem>>) -> Seq<PatternModel>
    decreases offered.len(),
{
    if offered.len() == 0 {
        Seq::empty()
    } else {
        let before = feature_patterns(offered.drop_last());
        if offered.last().len() > 0 {
            before.push(PatternModel::Prefix(feature_prefix((offered.len() - 1) as nat)))
        } else {
            before
        }
    }
}

/// The entries below those of the features: a separator, the update entry
/// where an update is offered, and the entry that quits.
pub open spec fn fixed_entries(update: Option<Option<Seq<char>>>) -> Seq<EntryModel> {
    let quit = EntryModel::Item { id: "__quit__"@, label: "Quit"@ };
    match update {
        Some(version) => seq![
            EntryModel::Separator,
            EntryModel::Item { id: "__update__"@, label: update_label(version) },
            quit,
        ],
        None => seq![EntryModel::Separator, quit],
    }
}

/// The patterns of the routes after those of the features.
pub open spec fn fixed_patterns(update: bool) -> Seq<PatternModel> {
    if update {
        seq![PatternModel::Exact("__update__"@), PatternModel::Exact("__quit__"@)]
    } else {
        seq![PatternModel::Exact("__quit__"@)]
    }
}

/// The patterns of `routes`, in order.
pub open spec fn patterns(routes: Seq<EventRoute>) -> Seq<PatternModel> {
    routes.map_values(|r: EventRoute| r.pattern@)
}

/// Hands events to one feature of a registry.
pub struct FeatureHandler {
    pub registry: Arc<FeatureRegistry>,
    pub index: usize,
}

/// What the host does after a feature answered `answer`: it continues
/// where the feature succeeded, and the feature's error is passed on.
pub open spec fn feature_answer(answer: Result<(), HandlerError>) -> Result<
    HandlerResult,
    HandlerError,
> {
    match answer {
        Ok(()) => Ok(HandlerResult::Continue),
        Err(e) => Err(e),
    }
}

/// What may come of the event `event_id` where it is handed to feature
/// number `index` of `registry`: what follows from an answer of that
/// feature. Where the registry has no such feature, nothing is called and
/// the host continues.
pub open spec fn feature_outcome(
    registry: Arc<FeatureRegistry>,
    index: int,
    event_id: &str,
    r: Result<HandlerResult, HandlerError>,
) -> bool {
    if 0 <= index < registry@.len() {
        exists|answer: Result<(), HandlerError>|
            registry@[index].handled(event_id, answer) && r == #[trigger] feature_answer(answer)
    } else {
        r == Ok::<HandlerResult, HandlerError>(HandlerResult::Continue)
    }
}

/// The handler `h` hands every event to feature number `index` of
/// `registry`, and to nothing else.
pub open spec fn hands_to(h: EventHandler, registry: Arc<FeatureRegistry>, index: int) -> bool {
    forall|e: &str, out: Result<HandlerResult, HandlerError>| #[trigger]
        h.outcome(e, out) <==> feature_outcome(registry, index, e, out)
}

/// What the host does after a feature answered `answer`.
pub fn after_feature(answer: Result<(), HandlerError>) -> (r: Result<HandlerResult, HandlerError>)
    ensures
        r == feature_answer(answer),
{
    match answer {
        Ok(()) => Ok(HandlerResult::Continue),
        Err(e) => Err(e),
    }
}

impl Handler for FeatureHandler {
    open spec fn accepts(&self, event_id: &str) -> bool {
        true
    }

    /// The event is handed to the feature of this handler, and the host
    /// does what follows from the feature's answer. Where the registry has
    /// no such feature, nothing is called and the host continues.
    open spec fn outcome(&self, event_id: &str, r: Result<HandlerResult, HandlerError>) -> bool {
        feature_outcome(self.registry, self.index as int, event_id, r)
    }

    fn handle(&self, event_id: &str) -> (r: Result<HandlerResult, HandlerError>) {
        let features = self.registry.features();
        if self.index < features.len() {
            let answer = features[self.index].handle_event(event_id);
            let r = after_feature(answer);
            assert(self.registry@[self.index as int].handled(event_id, answer) && r
                == feature_answer(answer));
            r
        } else {
            Ok(HandlerResult::Continue)
        }
    }
}

/// Asks the host to quit.
pub struct QuitHandler;

impl Handler for QuitHandler {
    open spec fn accepts(&self, event_id: &str) -> bool {
        true
    }

    open spec fn outcome(&self, event_id: &str, r: Result<HandlerResult, HandlerError>) -> bool {
        r == Ok::<HandlerResult, HandlerError>(HandlerResult::Quit)
    }

    fn handle(&self, event_id: &str) -> (r: Result<HandlerResult, HandlerError>) {
        Ok(HandlerResult::Quit)
    }
}

/// An update that the menu offers: the version, where it is known, and what
/// to do when the entry is chosen.
pub struct UpdateOffer {
    pub version: Option<String>,
    pub handler: EventHandler,
}

impl UpdateOffer {
    /// The version of the offer as characters.
    pub open spec fn version_text(&self) -> Option<Seq<char>> {
        match self.version {
            Some(v) => Some(v@),
            None => None,
        }
    }
}

/// The version of an offer, where there is one.
pub open spec fn offered_version(update: Option<UpdateOffer>) -> Option<Option<Seq<char>>> {
    match update {
        Some(u) => Some(u.version_text()),
        None => None,
    }
}

/// The handler of the offer, where there is one, can be called with every event.
pub open spec fn always_callable(update: Option<UpdateOffer>) -> bool {
    update matches Some(u) ==> forall|e: &str| u.handler.accepts(e)
}

/// The label of the entry that offers an update.
pub fn update_entry_label(version: &Option<String>) -> (r: String)
    ensures
        r@ == update_label(
            match *version {
                Some(v) => Some(v@),
                None => None,
            },
        ),
{
    match version {
        Some(v) => {
            let mut out = chars_of("\u{2B06} Update to v");
            append_chars(&mut out, &chars_of(v.as_str()));
            string_of(&out)
        },
        None => string_of(&chars_of("\u{2B06} Update Available")),
    }
}

/// The handler can be called with every event.
pub open spec fn always_accepts(h: EventHandler) -> bool {
    forall|e: &str| #[trigger] h.accepts(e)
}

/// Whenever the handler succeeds, the host continues.
pub open spec fn answers_continue(h: EventHandler) -> bool {
    forall|e: &str, out: Result<HandlerResult, HandlerError>| #[trigger]
        h.outcome(e, out) && out is Ok ==> out == Ok::<HandlerResult, HandlerError>(
            HandlerResult::Continue,
        )
}

/// The handler always succeeds and asks the host to quit.
pub open spec fn answers_quit(h: EventHandler) -> bool {
    forall|e: &str, out: Result<HandlerResult, HandlerError>| #[trigger]
        h.outcome(e, out) ==> out == Ok::<HandlerResult, HandlerError>(HandlerResult::Quit)
}

/// The route of feature number `index`: it takes the events that begin with
/// the feature's prefix and hands them to that feature.
pub fn feature_route(registry: &Arc<FeatureRegistry>, index: usize) -> (r: EventRoute)
    ensures
        r.pattern@ == PatternModel::Prefix(feature_prefix(index as nat)),
        always_accepts(r.handler),
        answers_continue(r.handler),
        hands_to(r.handler, *registry, index as int),
{
    let mut prefix = chars_of(feature_name(index).as_str());
    append_chars(&mut prefix, &chars_of("::"));
    let handler = FeatureHandler { registry: registry.clone(), index };
    EventRoute {
        pattern: EventPattern::Prefix(string_of(&prefix)),
        handler: EventHandler::from_handler(handler),
    }
}

/// The route of the entry that quits.
pub fn quit_route() -> (r: EventRoute)
    ensures
        r.pattern@ == PatternModel::Exact("__quit__"@),
        always_accepts(r.handler),
        answers_quit(r.handler),
{
    EventRoute {
        pattern: EventPattern::Exact(string_of(&chars_of("__quit__"))),
        handler: EventHandler::from_handler(QuitHandler),
    }
}

/// The entries that stand below those of the features.
pub fn fixed_menu(version: Option<&Option<String>>) -> (r: Vec<MenuEntry>)
    ensures
        models(r@) == fixed_entries(
            match version {
                Some(v) => Some(
                    match *v {
                        Some(text) => Some(text@),
                        None => None,
                    },
                ),
                None => None,
            },
        ),
{
    let mut menu: Vec<MenuEntry> = Vec::new();
    menu.push(MenuEntry::Separator);
    assert(menu@.drop_last() == Seq::<MenuEntry>::empty());
    assert(models(Seq::<MenuEntry>::empty()) == Seq::<EntryModel>::empty());
    assert(menu@.last().model() == EntryModel::Separator);
    assert(models(menu@) == models(menu@.drop_last()).push(menu@.last().model()));
    assert(models(menu@) =~= seq![EntryModel::Separator]);
    match version {
        Some(v) => {
            let ghost before = menu@;
            let label = update_entry_label(v);
            menu.push(MenuEntry::Item { id: string_of(&chars_of("__update__")), label });
            assert(menu@.drop_last() == before);
            assert(models(menu@) =~= models(before).push(menu@.last().model()));
        },
        None => {},
    }
    let ghost before = menu@;
    menu.push(
        MenuEntry::Item { id: string_of(&chars_of("__quit__")), label: string_of(&chars_of("Quit")) },
    );
    assert(menu@.drop_last() == before);
    assert(models(menu@) =~= models(before).push(menu@.last().model()));
    assert(models(menu@) =~= fixed_entries(
        match version {
            Some(v) => Some(
                match *v {
                    Some(text) => Some(text@),
                    None => None,
                },
            ),
            None => None,
        },
    ));
    menu
}

/// What the menu is made of the items `offered` by the features and of the
/// update `update`: the entries of the menu and the patterns of the routes.
pub open spec fn is_menu_of(
    menu: Seq<MenuEntry>,
    routes: Seq<EventRoute>,
    offered: Seq<Seq<MenuItem>>,
    update: Option<UpdateOffer>,
) -> bool {
    &&& models(menu) == feature_entries(offered) + fixed_entries(offered_version(update))
    &&& patterns(routes) == feature_patterns(offered) + fixed_patterns(update is Some)
}

/// The number of routes of `routes` that belong to features: all but the
/// fixed ones at the end.
pub open spec fn feature_route_count(routes: Seq<EventRoute>, update: bool) -> int {
    routes.len() - fixed_patterns(update).len()
}

/// The numbers of the features that offered at least one item, in order:
/// these are the features that get a route.
pub open spec fn routed_features(offered: Seq<Seq<MenuItem>>) -> Seq<int>
    decreases offered.len(),
{
    if offered.len() == 0 {
        Seq::empty()
    } else {
        let before = routed_features(offered.drop_last());
        if offered.last().len() > 0 {
            before.push(offered.len() - 1)
        } else {
            before
        }
    }
}

/// The first routes of `routes` belong to the features of `registry` that
/// offered at least one item, in order, and each hands its events to its
/// feature.
pub open spec fn routes_hand(
    routes: Seq<EventRoute>,
    registry: Arc<FeatureRegistry>,
    offered: Seq<Seq<MenuItem>>,
) -> bool {
    &&& routed_features(offered).len() <= routes.len()
    &&& forall|k: int|
        0 <= k < routed_features(offered).len() ==> hands_to(
            (#[trigger] routes[k]).handler,
            registry,
            routed_features(offered)[k],
        )
}

/// Each feature of `registry` may offer its items of `offered`.
pub open spec fn offered_by(registry: Arc<FeatureRegistry>, offered: Seq<Seq<MenuItem>>) -> bool {
    &&& offered.len() == registry@.len()
    &&& forall|i: int| 0 <= i < offered.len() ==> registry@[i].offers(#[trigger] offered[i])
}

/// The items of each list of `lists`.
pub open spec fn offers_of(lists: Seq<Vec<MenuItem>>) -> Seq<Seq<MenuItem>> {
    lists.map_values(|items: Vec<MenuItem>| items@)
}

/// As many patterns as features that get a route, each with the prefix of
/// its feature; and the features that get a route stand in their order.
pub proof fn lemma_routed_count(offered: Seq<Seq<MenuItem>>)
    ensures
        feature_patterns(offered).len() == routed_features(offered).len(),
        forall|k: int, l: int|
            0 <= k < l < routed_features(offered).len() ==> (#[trigger] routed_features(
                offered,
            )[k]) < (#[trigger] routed_features(offered)[l]),
        forall|k: int|
            0 <= k < routed_features(offered).len() ==> 0 <= #[trigger] routed_features(
                offered,
            )[k] < offered.len() && offered[routed_features(offered)[k]].len() > 0
                && feature_patterns(offered)[k] == PatternModel::Prefix(
                feature_prefix(routed_features(offered)[k] as nat),
            ),
    decreases offered.len(),
{
    if offered.len() > 0 {
        let before = offered.drop_last();
        lemma_routed_count(before);
        assert forall|k: int, l: int| 0 <= k < l < routed_features(offered).len() implies (
        #[trigger] routed_features(offered)[k]) < (#[trigger] routed_features(offered)[l]) by {
            assert(routed_features(offered)[k] == routed_features(before)[k]);
            if l < routed_features(before).len() {
                assert(routed_features(offered)[l] == routed_features(before)[l]);
            }
        }
        assert forall|k: int| 0 <= k < routed_features(offered).len() implies 0
            <= #[trigger] routed_features(offered)[k] < offered.len()
            && offered[routed_features(offered)[k]].len() > 0 && feature_patterns(offered)[k]
            == PatternModel::Prefix(feature_prefix(routed_features(offered)[k] as nat)) by {
            if k < routed_features(before).len() {
                assert(routed_features(offered)[k] == routed_features(before)[k]);
                assert(offered[routed_features(before)[k]] == before[routed_features(before)[k]]);
                assert(feature_patterns(offered)[k] == feature_patterns(before)[k]);
            }
        }
    }
}

/// The route `route` is the one of feature number `index` of `registry`.
pub open spec fn is_feature_route(
    route: EventRoute,
    registry: Arc<FeatureRegistry>,
    index: int,
) -> bool {
    &&& always_accepts(route.handler)
    &&& answers_continue(route.handler)
    &&& hands_to(route.handler, registry, index)
}

/// Puts the menu and the table that routes its events together from what
/// the features offered: `offered[i]` are the items of feature number `i`
/// of `registry`.
///
/// Every feature that offered items gets its entries, scoped by
/// `feature_<n>`, and one route that hands the events that begin with
/// `feature_<n>::` to that feature; a feature that offered nothing gets
/// neither. Below them stand a separator, the entry `__update__` where
/// `update` is given, and the entry `__quit__`, each with a route for
/// exactly its identifier. The route of `__quit__` is the last one and
/// answers `Quit`.
pub fn assemble_menu(
    offered: Vec<Vec<MenuItem>>,
    registry: &Arc<FeatureRegistry>,
    update: Option<UpdateOffer>,
) -> (r: (Vec<MenuEntry>, EventRouter))
    ensures
        is_menu_of(r.0@, r.1.routes(), offers_of(offered@), update),
        routes_hand(r.1.routes(), *registry, offers_of(offered@)),
        r.1.routes().len() >= 1,
        always_accepts(r.1.routes().last().handler),
        answers_quit(r.1.routes().last().handler),
        feature_route_count(r.1.routes(), update is Some) == routed_features(
            offers_of(offered@),
        ).len(),
        forall|i: int|
            0 <= i < feature_route_count(r.1.routes(), update is Some) ==> always_accepts(
                (#[trigger] r.1.routes()[i]).handler,
            ) && answers_continue(r.1.routes()[i].handler),
        update matches Some(u) ==> r.1.routes()[r.1.routes().len() - 2].handler == u.handler,
        always_callable(update) ==> forall|e: &str| r.1.can_route(e),
{
    let mut menu: Vec<MenuEntry> = Vec::new();
    let mut all_routes: Vec<EventRoute> = Vec::new();
    let ghost all = offers_of(offered@);
    let mut idx: usize = 0;
    while idx < offered.len()
        invariant
            idx <= offered.len(),
            all == offers_of(offered@),
            models(menu@) == feature_entries(all.take(idx as int)),
            patterns(all_routes@) == feature_patterns(all.take(idx as int)),
            all_routes@.len() == routed_features(all.take(idx as int)).len(),
            forall|k: int|
                0 <= k < all_routes@.len() ==> is_feature_route(
                    #[trigger] all_routes@[k],
                    *registry,
                    routed_features(all.take(idx as int))[k],
                ),
        decreases offered.len() - idx,
    {
        let items = &offered[idx];
        let feature = feature_name(idx);
        let mut entries = menu_entries(items, feature.as_str());
        let ghost done = all.take(idx as int);
        let ghost grown = all.take(idx + 1);
        proof {
            assert(grown.drop_last() == done);
            assert(grown.last() == items@);
            lemma_models_concat(menu@, entries@);
        }
        let ghost old_routes = all_routes@;
        if items.len() > 0 {
            let route = feature_route(registry, idx);
            all_routes.push(route);
            proof {
                assert(patterns(all_routes@) =~= patterns(old_routes).push(route.pattern@));
                assert(routed_features(grown) == routed_features(done).push(idx as int));
            }
        }
        proof {
            assert forall|k: int| 0 <= k < all_routes@.len() implies is_feature_route(
                #[trigger] all_routes@[k],
                *registry,
                routed_features(grown)[k],
            ) by {
                if k < old_routes.len() {
                    assert(all_routes@[k] == old_routes[k]);
                    assert(routed_features(grown)[k] == routed_features(done)[k]);
                }
            }
        }
        menu.append(&mut entries);
        idx += 1;
    }
    proof {
        assert(all.take(offered.len() as int) == all);
    }
    let ghost feature_routes = all_routes@;
    let ghost has_update = update is Some;
    let ghost callable = always_callable(update);

    let mut tail = match &update {
        Some(offer) => fixed_menu(Some(&offer.version)),
        None => fixed_menu(None),
    };
    proof {
        lemma_models_concat(menu@, tail@);
    }
    menu.append(&mut tail);
    match update {
        Some(offer) => {
            let ghost handler = offer.handler;
            all_routes.push(
                EventRoute {
                    pattern: EventPattern::Exact(string_of(&chars_of("__update__"))),
                    handler: offer.handler,
                },
            );
            assert(callable ==> always_accepts(handler));
        },
        None => {},
    }
    let ghost before_quit = all_routes@;
    all_routes.push(quit_route());
    proof {
        assert(patterns(all_routes@) =~= feature_patterns(all) + fixed_patterns(has_update));
        assert(is_menu_of(menu@, all_routes@, all, update));
        assert(feature_route_count(all_routes@, has_update) == feature_routes.len());
        assert forall|i: int| 0 <= i < feature_routes.len() implies is_feature_route(
            #[trigger] all_routes@[i],
            *registry,
            routed_features(all)[i],
        ) by {
            assert(all_routes@[i] == feature_routes[i]);
        }
        assert(routes_hand(all_routes@, *registry, all));
        if callable {
            assert forall|i: int| 0 <= i < all_routes@.len() implies always_accepts(
                (#[trigger] all_routes@[i]).handler,
            ) by {
                if i < feature_routes.len() {
                    assert(is_feature_route(all_routes@[i], *registry, routed_features(all)[i]));
                } else if i < before_quit.len() {
                    assert(all_routes@[i] == before_quit[i]);
                }
            }
        }
    }
    let ghost final_routes = all_routes@;
    let router = EventRouter::new(all_routes);
    proof {
        assert(router.routes() == final_routes);
        if callable {
            assert forall|e: &str| router.can_route(e) by {
                assert forall|i: int| 0 <= i < router.routes().len() implies (
                #[trigger] router.routes()[i]).handler.accepts(e) by {
                    assert(always_accepts(router.routes()[i].handler));
                }
            }
        }
    }
    (menu, router)
}

/// The menu `menu` and the routes `routes` are built for the features of
/// `registry`, which offered `offered`, and for the update `update`.
pub open spec fn is_built(
    menu: Seq<MenuEntry>,
    routes: Seq<EventRoute>,
    registry: Arc<FeatureRegistry>,
    offered: Seq<Seq<MenuItem>>,
    update: Option<UpdateOffer>,
) -> bool {
    &&& offered_by(registry, offered)
    &&& is_menu_of(menu, routes, offered, update)
    &&& routes_hand(routes, registry, offered)
    &&& feature_route_count(routes, update is Some) == routed_features(offered).len()
}

/// Builds the menu and the table that routes its events.
///
/// Every feature of the registry is asked for its items, once and in the
/// order of the registry. Every feature that offers items gets its entries,
/// scoped by `feature_<n>`, and one route that hands the events that begin
/// with `feature_<n>::` to that feature, `n` being its place in the
/// registry; a feature that offers nothing gets neither. Below them stand
/// a separator, the entry `__update__` where `update` is given, and the
/// entry `__quit__`, each with a route for exactly its identifier. The route
/// of `__quit__` is the last one and answers `Quit`; the routes of the
/// features answer `Continue` unless the feature fails.
pub fn build_menu(feature_registry: Arc<FeatureRegistry>, update: Option<UpdateOffer>) -> (r: (
    Vec<MenuEntry>,
    EventRouter,
))
    ensures
        exists|offered: Seq<Seq<MenuItem>>| #[trigger]
            is_built(r.0@, r.1.routes(), feature_registry, offered, update),
        r.1.routes().len() >= 1,
        always_accepts(r.1.routes().last().handler),
        answers_quit(r.1.routes().last().handler),
        forall|i: int|
            0 <= i < feature_route_count(r.1.routes(), update is Some) ==> always_accepts(
                (#[trigger] r.1.routes()[i]).handler,
            ) && answers_continue(r.1.routes()[i].handler),
        update matches Some(u) ==> r.1.routes()[r.1.routes().len() - 2].handler == u.handler,
        always_callable(update) ==> forall|e: &str| r.1.can_route(e),
{
    let mut offered: Vec<Vec<MenuItem>> = Vec::new();
    let count = feature_registry.features().len();
    let mut idx: usize = 0;
    while idx < count
        invariant
            idx <= count == feature_registry@.len(),
            offered@.len() == idx,
            forall|i: int|
                0 <= i < idx ==> feature_registry@[i].offers(#[trigger] offers_of(offered@)[i]),
        decreases count - idx,
    {
        let items = feature_registry.features()[idx].menu_items();
        let ghost before = offered@;
        offered.push(items);
        proof {
            assert forall|i: int| 0 <= i < idx + 1 implies feature_registry@[i].offers(
                #[trigger] offers_of(offered@)[i],
            ) by {
                if i < idx {
                    assert(offers_of(offered@)[i] == offers_of(before)[i]);
                }
            }
        }
        idx += 1;
    }
    let ghost all = offers_of(offered@);
    let r = assemble_menu(offered, &feature_registry, update);
    assert(is_built(r.0@, r.1.routes(), feature_registry, all, update));
    r
}

/// The characters of the prefix of feature number `n`: `feature_`, the
/// digits of `n`, and two colons.
pub proof fn lemma_feature_prefix_shape(n: nat)
    ensures
        feature_prefix(n).len() == 8 + digits_of(n).len() + 2,
        feature_prefix(n)[0] == 'f',
        forall|t: int|
            0 <= t < digits_of(n).len() ==> #[trigger] feature_prefix(n)[8 + t] == digits_of(n)[t],
        feature_prefix(n)[8 + digits_of(n).len() as int] == ':',
{
    reveal_strlit("feature_");
    reveal_strlit("::");
    assert("feature_"@.len() == 8);
    assert("::"@.len() == 2);
}

/// No event begins with the prefixes of two features.
pub proof fn lemma_feature_prefixes_apart(i: nat, j: nat, e: Seq<char>)
    requires
        has_prefix(e, feature_prefix(i)),
        has_prefix(e, feature_prefix(j)),
    ensures
        i == j,
{
    let pi = feature_prefix(i);
    let pj = feature_prefix(j);
    let di = digits_of(i);
    let dj = digits_of(j);
    lemma_feature_prefix_shape(i);
    lemma_feature_prefix_shape(j);
    lemma_digits_round_trip(i);
    lemma_digits_round_trip(j);
    assert(e.subrange(0, pi.len() as int) == pi);
    assert(e.subrange(0, pj.len() as int) == pj);
    assert forall|t: int| 0 <= t < pi.len() implies e[t] == #[trigger] pi[t] by {
        assert(e.subrange(0, pi.len() as int)[t] == e[t]);
    }
    assert forall|t: int| 0 <= t < pj.len() implies e[t] == #[trigger] pj[t] by {
        assert(e.subrange(0, pj.len() as int)[t] == e[t]);
    }
    if di.len() < dj.len() {
        assert(pi[8 + di.len() as int] == ':');
        assert(pj[8 + di.len() as int] == dj[di.len() as int]);
        assert(is_digit(dj[di.len() as int]));
        assert(!is_digit(':'));
    }
    if dj.len() < di.len() {
        assert(pj[8 + dj.len() as int] == ':');
        assert(pi[8 + dj.len() as int] == di[dj.len() as int]);
        assert(is_digit(di[dj.len() as int]));
        assert(!is_digit(':'));
    }
    assert forall|t: int| 0 <= t < di.len() implies di[t] == dj[t] by {
        assert(pi[8 + t] == di[t]);
        assert(pj[8 + t] == dj[t]);
    }
    assert(di =~= dj);
}

/// An event that begins with `feature_<n>::` is in the charge of the route
/// of feature number `n`, where that feature offered items: of route `k`,
/// where `n` is the `k`-th of the features that get a route.
pub proof fn lemma_feature_event_routed(
    menu: Seq<MenuEntry>,
    routes: Seq<EventRoute>,
    offered: Seq<Seq<MenuItem>>,
    update: Option<UpdateOffer>,
    k: int,
    e: Seq<char>,
)
    requires
        is_menu_of(menu, routes, offered, update),
        0 <= k < routed_features(offered).len(),
        has_prefix(e, feature_prefix(routed_features(offered)[k] as nat)),
    ensures
        is_first_match(routes, e, k),
{
    lemma_routed_count(offered);
    let routed = routed_features(offered);
    let all = feature_patterns(offered) + fixed_patterns(update is Some);
    assert(patterns(routes) == all);
    assert(routes.len() == all.len());
    assert forall|m: int| 0 <= m < routed.len() implies (#[trigger] routes[m]).pattern@
        == PatternModel::Prefix(feature_prefix(routed[m] as nat)) by {
        assert(patterns(routes)[m] == routes[m].pattern@);
        assert(all[m] == feature_patterns(offered)[m]);
    }
    assert(routes[k].pattern@.accepts(e));
    assert forall|m: int| 0 <= m < k implies !(#[trigger] routes[m]).pattern@.accepts(e) by {
        if routes[m].pattern@.accepts(e) {
            lemma_feature_prefixes_apart(routed[m] as nat, routed[k] as nat, e);
            assert(routed[m] < routed[k]);
        }
    }
}

/// The event `__quit__` is in the charge of the last route, and the event
/// `__update__`, where an update is offered, of the one before it.
pub proof fn lemma_fixed_events_routed(
    menu: Seq<MenuEntry>,
    routes: Seq<EventRoute>,
    offered: Seq<Seq<MenuItem>>,
    update: Option<UpdateOffer>,
)
    requires
        is_menu_of(menu, routes, offered, update),
    ensures
        is_first_match(routes, "__quit__"@, routes.len() - 1),
        update is Some ==> is_first_match(routes, "__update__"@, routes.len() - 2),
{
    lemma_routed_count(offered);
    reveal_strlit("__quit__");
    reveal_strlit("__update__");
    let routed = routed_features(offered);
    let fixed = fixed_patterns(update is Some);
    let all = feature_patterns(offered) + fixed;
    assert(patterns(routes) == all);
    assert(routes.len() == all.len());
    assert("__quit__"@[0] == '_' && "__update__"@[0] == '_');
    assert("__quit__"@.len() == 8 && "__update__"@.len() == 10);
    assert forall|m: int| 0 <= m < routes.len() implies (#[trigger] routes[m]).pattern@ == all[m] by {
        assert(patterns(routes)[m] == routes[m].pattern@);
    }
    assert forall|m: int| 0 <= m < routed.len() implies !(#[trigger] routes[m]).pattern@.accepts(
        "__quit__"@,
    ) && !routes[m].pattern@.accepts("__update__"@) by {
        assert(all[m] == feature_patterns(offered)[m]);
        let prefix = feature_prefix(routed[m] as nat);
        lemma_feature_prefix_shape(routed[m] as nat);
        if has_prefix("__quit__"@, prefix) {
            assert("__quit__"@.subrange(0, prefix.len() as int)[0] == prefix[0]);
        }
        if has_prefix("__update__"@, prefix) {
            assert("__update__"@.subrange(0, prefix.len() as int)[0] == prefix[0]);
        }
    }
    assert forall|m: int| routed.len() <= m < routes.len() implies (#[trigger] routes[m]).pattern@
        == fixed[m - routed.len()] by {
        assert(all[m] == fixed[m - routed.len()]);
    }
    assert(routes[routes.len() - 1].pattern@ == PatternModel::Exact("__quit__"@));
    if update is Some {
        assert(routes[routes.len() - 2].pattern@ == PatternModel::Exact("__update__"@));
    }
}

} // verus!
