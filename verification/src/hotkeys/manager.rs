//! The hotkey manager: what is registered natively, and which action each
//! registered identifier triggers.

use global_hotkey::hotkey::HotKey;
use global_hotkey::GlobalHotKeyManager;
use std::collections::HashMap;
use vstd::prelude::*;
use crate::hotkeys::native::{error_text, native_hotkey, native_id, poll_native_event};
use crate::hotkeys::parse::{parse_hotkey, parsed_hotkey};
use crate::hotkeys::types::{
    is_key_name, HotkeyAction, HotkeyBinding, HotkeyConfig, KeyCombo,
};
use crate::paths::{app_file, hotkeys_path, PathError};

verus! {

/// Why the hotkeys could not be registered.
#[derive(Debug, Clone)]
pub enum HotkeyError {
    /// The platform gave no native registration context.
    NoContext(String),
}

/// The mathematical content of an action.
pub struct ActionModel {
    pub plugin_id: Seq<char>,
    pub action: Seq<char>,
}

impl View for HotkeyAction {
    type V = ActionModel;

    open spec fn view(&self) -> ActionModel {
        ActionModel { plugin_id: self.plugin_id@, action: self.action@ }
    }
}

/// A binding that is to be registered: its combination and its action.
pub struct PlannedBinding {
    pub combo: KeyCombo,
    pub action: HotkeyAction,
}

/// The mathematical content of a planned binding.
pub struct PlannedModel {
    pub combo: KeyCombo,
    pub action: ActionModel,
}

impl View for PlannedBinding {
    type V = PlannedModel;

    open spec fn view(&self) -> PlannedModel {
        PlannedModel { combo: self.combo, action: self.action@ }
    }
}

/// The contents of the planned bindings `plan`.
pub open spec fn plan_view(plan: Seq<PlannedBinding>) -> Seq<PlannedModel> {
    plan.map_values(|p: PlannedBinding| p@)
}

/// The identifier under which the operating system reports `combo`.
pub open spec fn combo_id(combo: KeyCombo) -> u32 {
    native_id(combo.mods, combo.key.code_name())
}

/// The bindings of `bindings` that are to be registered, in order: those
/// that are enabled and whose key combination can be read.
pub open spec fn wanted(bindings: Seq<HotkeyBinding>) -> Seq<PlannedModel>
    decreases bindings.len(),
{
    if bindings.len() == 0 {
        Seq::empty()
    } else {
        let before = wanted(bindings.drop_last());
        let b = bindings.last();
        match parsed_hotkey(b.key@) {
            Some(combo) if b.enabled => before.push(
                PlannedModel {
                    combo,
                    action: ActionModel { plugin_id: b.plugin_id@, action: b.action@ },
                },
            ),
            _ => before,
        }
    }
}

/// The planned bindings that the platform accepted, in order:
/// `accepted[i]` says whether it accepted `plan[i]`, and a binding without
/// an answer counts as refused.
pub open spec fn kept(plan: Seq<PlannedModel>, accepted: Seq<bool>) -> Seq<PlannedModel>
    decreases plan.len(),
{
    if plan.len() == 0 {
        Seq::empty()
    } else {
        let before = kept(plan.drop_last(), accepted);
        let last = plan.len() - 1;
        if last < accepted.len() && accepted[last] {
            before.push(plan.last())
        } else {
            before
        }
    }
}

/// The lookup table for the registered bindings `registered`: each native
/// identifier with the action of the binding that was registered last under it.
pub open spec fn table_of(registered: Seq<PlannedModel>) -> Map<u32, ActionModel>
    decreases registered.len(),
{
    if registered.len() == 0 {
        Map::empty()
    } else {
        table_of(registered.drop_last()).insert(
            combo_id(registered.last().combo),
            registered.last().action,
        )
    }
}

/// The bindings of `config` that are to be registered, in order.
pub fn plan_registrations(config: &HotkeyConfig) -> (plan: Vec<PlannedBinding>)
    ensures
        plan_view(plan@) == wanted(config.hotkeys@),
{
    let mut plan: Vec<PlannedBinding> = Vec::new();
    let mut i: usize = 0;
    while i < config.hotkeys.len()
        invariant
            i <= config.hotkeys.len(),
            plan_view(plan@) == wanted(config.hotkeys@.take(i as int)),
        decreases config.hotkeys.len() - i,
    {
        let binding = &config.hotkeys[i];
        proof {
            let next = config.hotkeys@.take(i + 1);
            assert(next.drop_last() == config.hotkeys@.take(i as int));
            assert(next.last() == *binding);
        }
        if binding.enabled {
            match parse_hotkey(binding.key.as_str()) {
                Some(combo) => {
                    let ghost before = plan@;
                    plan.push(
                        PlannedBinding {
                            combo,
                            action: HotkeyAction {
                                plugin_id: binding.plugin_id.clone(),
                                action: binding.action.clone(),
                            },
                        },
                    );
                    assert(plan_view(plan@) =~= plan_view(before).push(plan@.last()@));
                },
                None => {},
            }
        }
        i += 1;
    }
    assert(config.hotkeys@.take(config.hotkeys.len() as int) == config.hotkeys@);
    plan
}

/// The contents of a lookup table.
pub open spec fn table_view(table: Map<u32, HotkeyAction>) -> Map<u32, ActionModel> {
    table.map_values(|a: HotkeyAction| a@)
}

/// The native form of the combination `combo` and its identifier.
fn native_of(combo: KeyCombo) -> (r: Option<(HotKey, u32)>)
    ensures
        r matches Some(pair) && pair.1 == combo_id(combo),
{
    let name = combo.key.name();
    assert(is_key_name(name@)) by {
        assert(combo.key.code_name() == name@);
    }
    native_hotkey(combo.mods.ctrl, combo.mods.alt, combo.mods.shift, combo.mods.meta, name)
}

/// The identifier under which the operating system reports `combo`.
pub fn combo_identifier(combo: KeyCombo) -> (id: u32)
    ensures
        id == combo_id(combo),
{
    match native_of(combo) {
        Some((_, id)) => id,
        None => 0,
    }
}

/// The native forms of the bindings `list`, in order.
fn natives(list: &Vec<PlannedBinding>) -> (r: Vec<HotKey>)
    ensures
        r.len() == list.len(),
{
    let mut r: Vec<HotKey> = Vec::new();
    let mut i: usize = 0;
    while i < list.len()
        invariant
            i <= list.len(),
            r.len() == i,
        decreases list.len() - i,
    {
        match native_of(list[i].combo) {
            Some((hotkey, _)) => {
                r.push(hotkey);
            },
            None => {},
        }
        i += 1;
    }
    r
}

/// What is registered once the platform has answered: `accepted[i]` says
/// whether the platform accepted `plan[i]`. Returns the bindings that it
/// accepted, in order, and the table that leads from each of their native
/// identifiers to the action of the binding accepted last under it. A
/// binding that was refused, or for which there is no answer, is in neither.
pub fn record_registrations(plan: &Vec<PlannedBinding>, accepted: &Vec<bool>) -> (r: (
    Vec<PlannedBinding>,
    HashMap<u32, HotkeyAction>,
))
    ensures
        plan_view(r.0@) == kept(plan_view(plan@), accepted@),
        table_view(r.1@) == table_of(plan_view(r.0@)),
{
    let mut registered: Vec<PlannedBinding> = Vec::new();
    let mut bindings: HashMap<u32, HotkeyAction> = HashMap::new();
    let ghost all = plan_view(plan@);
    assert(table_view(bindings@) =~= Map::<u32, ActionModel>::empty());
    assert(plan_view(registered@) =~= Seq::<PlannedModel>::empty());
    let mut i: usize = 0;
    while i < plan.len()
        invariant
            i <= plan.len(),
            all == plan_view(plan@),
            plan_view(registered@) == kept(all.take(i as int), accepted@),
            table_view(bindings@) == table_of(plan_view(registered@)),
        decreases plan.len() - i,
    {
        let p = &plan[i];
        proof {
            assert(all.take(i + 1).drop_last() == all.take(i as int));
            assert(all.take(i + 1).last() == p@);
        }
        if i < accepted.len() && accepted[i] {
            match native_of(p.combo) {
                Some((_, id)) => {
                    let ghost old_registered = registered@;
                    let ghost old_table = bindings@;
                    let action = HotkeyAction {
                        plugin_id: p.action.plugin_id.clone(),
                        action: p.action.action.clone(),
                    };
                    let binding = PlannedBinding {
                        combo: p.combo,
                        action: HotkeyAction {
                            plugin_id: p.action.plugin_id.clone(),
                            action: p.action.action.clone(),
                        },
                    };
                    registered.push(binding);
                    bindings.insert(id, action);
                    proof {
                        assert(plan_view(registered@) =~= plan_view(old_registered).push(p@));
                        assert(plan_view(registered@).drop_last() == plan_view(old_registered));
                        assert(table_view(bindings@) =~= table_view(old_table).insert(id, action@));
                    }
                },
                None => {},
            }
        }
        i += 1;
    }
    proof {
        assert(all.take(plan.len() as int) == all);
    }
    (registered, bindings)
}

/// Owns the native registration of hotkeys. It is either idle, with nothing
/// registered, or active with the bindings of the configuration it was
/// given last.
pub struct HotkeyManager {
    manager: Option<GlobalHotKeyManager>,
    registered: Vec<PlannedBinding>,
    bindings: HashMap<u32, HotkeyAction>,
    config_path: String,
}

impl HotkeyManager {
    #[verifier::type_invariant]
    spec fn consistent(self) -> bool {
        &&& table_view(self.bindings@) == table_of(plan_view(self.registered@))
        &&& self.manager is None ==> self.registered@.len() == 0
    }

    /// A native registration context is held.
    pub closed spec fn is_active(&self) -> bool {
        self.manager is Some
    }

    /// The bindings that are registered natively, in the order of their registration.
    pub closed spec fn registered(&self) -> Seq<PlannedModel> {
        plan_view(self.registered@)
    }

    /// The action that each registered native identifier triggers.
    pub closed spec fn table(&self) -> Map<u32, ActionModel> {
        table_view(self.bindings@)
    }

    /// The file that persists the hotkey configuration.
    pub closed spec fn config_file(&self) -> Seq<char> {
        self.config_path@
    }

    /// An idle manager on the host's hotkey file. Fails only where the
    /// platform names no configuration directory.
    pub fn new() -> (r: Result<Self, PathError>)
        ensures
            r matches Ok(m) ==> !m.is_active() && m.registered().len() == 0 && m.table()
                == Map::<u32, ActionModel>::empty() && exists|root: Seq<char>|
                m.config_file() == app_file(root, "hotkeys.json"@),
            r matches Err(e) ==> e == PathError::NoConfigDir,
    {
        match hotkeys_path() {
            Ok(config_path) => Ok(Self::at(config_path)),
            Err(e) => Err(e),
        }
    }

    /// An idle manager whose configuration is persisted in `config_path`.
    pub fn at(config_path: String) -> (r: Self)
        ensures
            !r.is_active(),
            r.registered().len() == 0,
            r.table() == Map::<u32, ActionModel>::empty(),
            r.config_file() == config_path@,
    {
        let bindings: HashMap<u32, HotkeyAction> = HashMap::new();
        assert(table_view(bindings@) =~= Map::<u32, ActionModel>::empty());
        Self { manager: None, registered: Vec::new(), bindings, config_path }
    }

    /// The file that persists the hotkey configuration.
    pub fn config_path(&self) -> (r: &str)
        ensures
            r@ == self.config_file(),
    {
        self.config_path.as_str()
    }

    /// Whether bindings are registered natively.
    pub fn active(&self) -> (r: bool)
        ensures
            r == self.is_active(),
    {
        self.manager.is_some()
    }

    /// The number of bindings that are registered natively.
    pub fn registered_count(&self) -> (r: usize)
        ensures
            r == self.registered().len(),
    {
        self.registered.len()
    }

    /// The number of native identifiers that trigger an action.
    pub fn binding_count(&self) -> (r: usize)
        ensures
            r == self.table().dom().len(),
    {
        assert(table_view(self.bindings@).dom() =~= self.bindings@.dom());
        self.bindings.len()
    }

    /// Gives back everything that is registered and becomes idle. What the
    /// platform answers does not matter.
    pub fn unregister_all(&mut self)
        ensures
            !final(self).is_active(),
            final(self).registered().len() == 0,
            final(self).table() == Map::<u32, ActionModel>::empty(),
            final(self).config_file() == old(self).config_file(),
    {
        match &self.manager {
            Some(manager) => {
                if self.registered.len() > 0 {
                    let hotkeys = natives(&self.registered);
                    let _ = manager.unregister_all(hotkeys.as_slice());
                }
            },
            None => {},
        }
        let config_path = self.config_path.clone();
        *self = Self::at(config_path);
    }

    /// Replaces what is registered by the bindings of `config`.
    ///
    /// Everything held so far is given back first. Then a fresh native
    /// context is made; where the platform gives none, the manager stays
    /// idle and the error is returned. Otherwise every enabled binding whose
    /// combination can be read is offered to the platform, in order; those
    /// that the platform accepts are registered, and the others are skipped.
    pub fn register_hotkeys(&mut self, config: &HotkeyConfig) -> (r: Result<(), HotkeyError>)
        ensures
            final(self).config_file() == old(self).config_file(),
            final(self).table() == table_of(final(self).registered()),
            match r {
                Ok(()) => final(self).is_active() && exists|accepted: Seq<bool>|
                    accepted.len() == wanted(config.hotkeys@).len() && final(self).registered()
                        == #[trigger] kept(wanted(config.hotkeys@), accepted),
                Err(_) => !final(self).is_active() && final(self).registered().len() == 0,
            },
    {
        self.unregister_all();
        let new_manager = match GlobalHotKeyManager::new() {
            Ok(m) => m,
            Err(e) => {
                assert(self.registered() =~= Seq::<PlannedModel>::empty());
                return Err(HotkeyError::NoContext(error_text(&e)));
            },
        };
        let plan = plan_registrations(config);
        let mut accepted: Vec<bool> = Vec::new();
        let mut i: usize = 0;
        while i < plan.len()
            invariant
                i <= plan.len(),
                accepted@.len() == i,
            decreases plan.len() - i,
        {
            let answer = match native_of(plan[i].combo) {
                Some((hotkey, _)) => new_manager.register(hotkey).is_ok(),
                None => false,
            };
            accepted.push(answer);
            i += 1;
        }
        let (registered, bindings) = record_registrations(&plan, &accepted);
        assert(plan_view(registered@) == kept(wanted(config.hotkeys@), accepted@));
        let config_path = self.config_path.clone();
        *self = HotkeyManager { manager: Some(new_manager), registered, bindings, config_path };
        Ok(())
    }

    /// The action that the native identifier `id` triggers, if any.
    pub fn get_action(&self, id: u32) -> (r: Option<&HotkeyAction>)
        ensures
            match r {
                Some(a) => self.table().dom().contains(id) && self.table()[id] == a@,
                None => !self.table().dom().contains(id),
            },
    {
        assert(table_view(self.bindings@).dom() =~= self.bindings@.dom());
        self.bindings.get(&id)
    }

    /// What the hotkey event `event` triggers: the action of its identifier
    /// if the key went down, and nothing if it went up or if the identifier
    /// is not registered.
    pub fn action_for(&self, id: u32, pressed: bool) -> (r: Option<&HotkeyAction>)
        ensures
            match r {
                Some(a) => pressed && self.table().dom().contains(id) && self.table()[id] == a@,
                None => !pressed || !self.table().dom().contains(id),
            },
    {
        if pressed {
            self.get_action(id)
        } else {
            None
        }
    }

    /// Takes the next hotkey event that is waiting, if any, and returns the
    /// action that it triggers.
    pub fn poll(&self) -> (r: Option<&HotkeyAction>)
        ensures
            r matches Some(a) ==> exists|id: u32|
                self.table().dom().contains(id) && #[trigger] self.table()[id] == a@,
    {
        match poll_native_event() {
            Some((id, pressed)) => self.action_for(id, pressed),
            None => None,
        }
    }
}

/// No binding is kept that was not planned, and none where there is no plan.
pub proof fn lemma_kept_bounded(plan: Seq<PlannedModel>, accepted: Seq<bool>)
    ensures
        kept(plan, accepted).len() <= plan.len(),
        plan.len() == 0 ==> kept(plan, accepted).len() == 0,
    decreases plan.len(),
{
    if plan.len() > 0 {
        lemma_kept_bounded(plan.drop_last(), accepted);
    }
}

/// Where the platform accepts every planned binding, all of them are kept.
pub proof fn lemma_kept_all(plan: Seq<PlannedModel>, accepted: Seq<bool>)
    requires
        accepted.len() >= plan.len(),
        forall|i: int| 0 <= i < plan.len() ==> accepted[i],
    ensures
        kept(plan, accepted) == plan,
    decreases plan.len(),
{
    if plan.len() > 0 {
        lemma_kept_all(plan.drop_last(), accepted);
        assert(plan.drop_last().push(plan.last()) == plan);
    }
}

/// Exactly the planned bindings that the platform accepted are kept: each
/// of them is, and nothing else.
pub proof fn lemma_kept_exactly(plan: Seq<PlannedModel>, accepted: Seq<bool>)
    ensures
        forall|i: int|
            0 <= i < plan.len() && i < accepted.len() && accepted[i] ==> kept(
                plan,
                accepted,
            ).contains(#[trigger] plan[i]),
        forall|k: int|
            0 <= k < kept(plan, accepted).len() ==> exists|i: int|
                0 <= i < plan.len() && i < accepted.len() && accepted[i] && plan[i]
                    == #[trigger] kept(plan, accepted)[k],
    decreases plan.len(),
{
    if plan.len() > 0 {
        let before = plan.drop_last();
        let last = plan.len() - 1;
        lemma_kept_exactly(before, accepted);
        let all = kept(plan, accepted);
        let earlier = kept(before, accepted);
        assert forall|i: int| 0 <= i < plan.len() && i < accepted.len() && accepted[i] implies all.contains(
            #[trigger] plan[i],
        ) by {
            if i < last {
                assert(plan[i] == before[i]);
                assert(earlier.contains(before[i]));
                let k = choose|k: int| 0 <= k < earlier.len() && earlier[k] == before[i];
                assert(all[k] == plan[i]);
            } else {
                assert(all[all.len() - 1] == plan[i]);
            }
        }
        assert forall|k: int| 0 <= k < all.len() implies exists|i: int|
            0 <= i < plan.len() && i < accepted.len() && accepted[i] && plan[i]
                == #[trigger] all[k] by {
            if k < earlier.len() {
                assert(all[k] == earlier[k]);
                let i = choose|i: int|
                    0 <= i < before.len() && i < accepted.len() && accepted[i] && before[i]
                        == earlier[k];
                assert(plan[i] == all[k]);
            } else {
                assert(plan[last] == all[k]);
            }
        }
    }
}

/// A registered binding after which no other is registered under the same
/// identifier is the one that its identifier triggers.
pub proof fn lemma_table_lookup(registered: Seq<PlannedModel>, i: int)
    requires
        0 <= i < registered.len(),
        forall|j: int|
            i < j < registered.len() ==> combo_id((#[trigger] registered[j]).combo) != combo_id(
                registered[i].combo,
            ),
    ensures
        table_of(registered).dom().contains(combo_id(registered[i].combo)),
        table_of(registered)[combo_id(registered[i].combo)] == registered[i].action,
    decreases registered.len(),
{
    if i < registered.len() - 1 {
        let before = registered.drop_last();
        assert(before[i] == registered[i]);
        assert forall|j: int| i < j < before.len() implies combo_id((#[trigger] before[j]).combo)
            != combo_id(before[i].combo) by {
            assert(before[j] == registered[j]);
        }
        lemma_table_lookup(before, i);
        assert(combo_id(registered[registered.len() - 1].combo) != combo_id(registered[i].combo));
    }
}

/// The table holds exactly the identifiers of the registered bindings: never
/// more entries than bindings, and as many where all identifiers differ.
pub proof fn lemma_table_size(registered: Seq<PlannedModel>)
    ensures
        table_of(registered).dom().finite(),
        table_of(registered).dom().len() <= registered.len(),
        forall|id: u32|
            table_of(registered).dom().contains(id) <==> exists|i: int|
                0 <= i < registered.len() && combo_id((#[trigger] registered[i]).combo) == id,
        (forall|i: int, j: int|
            0 <= i < j < registered.len() ==> combo_id(registered[i].combo) != combo_id(
                registered[j].combo,
            )) ==> table_of(registered).dom().len() == registered.len(),
    decreases registered.len(),
{
    if registered.len() > 0 {
        let before = registered.drop_last();
        let last = registered.last();
        lemma_table_size(before);
        assert forall|id: u32|
            table_of(registered).dom().contains(id) <==> exists|i: int|
                0 <= i < registered.len() && combo_id((#[trigger] registered[i]).combo)
                    == id by {
            if table_of(registered).dom().contains(id) {
                if id == combo_id(last.combo) {
                    assert(combo_id(registered[registered.len() - 1].combo) == id);
                } else {
                    assert(table_of(before).dom().contains(id));
                    let i = choose|i: int|
                        0 <= i < before.len() && combo_id((#[trigger] before[i]).combo) == id;
                    assert(combo_id(registered[i].combo) == id);
                }
            }
            if exists|i: int|
                0 <= i < registered.len() && combo_id((#[trigger] registered[i]).combo) == id {
                let i = choose|i: int|
                    0 <= i < registered.len() && combo_id((#[trigger] registered[i]).combo) == id;
                if i < before.len() {
                    assert(combo_id(before[i].combo) == id);
                }
            }
        }
        if forall|i: int, j: int|
            0 <= i < j < registered.len() ==> combo_id(registered[i].combo) != combo_id(
                registered[j].combo,
            ) {
            assert forall|i: int, j: int| 0 <= i < j < before.len() implies combo_id(
                before[i].combo,
            ) != combo_id(before[j].combo) by {
                assert(before[i] == registered[i] && before[j] == registered[j]);
            }
            assert(!table_of(before).dom().contains(combo_id(last.combo))) by {
                if table_of(before).dom().contains(combo_id(last.combo)) {
                    let i = choose|i: int|
                        0 <= i < before.len() && combo_id((#[trigger] before[i]).combo)
                            == combo_id(last.combo);
                    assert(before[i] == registered[i]);
                    assert(combo_id(registered[i].combo) != combo_id(
                        registered[registered.len() - 1].combo,
                    ));
                }
            }
        }
    }
}

/// A configuration of which the platform accepts every enabled binding that
/// can be read, all with different identifiers, yields as many registrations
/// and as many table entries as it has such bindings, and the identifier of
/// each of them triggers its action; a configuration without bindings
/// yields none.
pub proof fn lemma_registration_count(bindings: Seq<HotkeyBinding>, accepted: Seq<bool>)
    requires
        accepted.len() == wanted(bindings).len(),
        forall|i: int| 0 <= i < accepted.len() ==> accepted[i],
        forall|i: int, j: int|
            0 <= i < j < wanted(bindings).len() ==> combo_id(wanted(bindings)[i].combo)
                != combo_id(wanted(bindings)[j].combo),
    ensures
        kept(wanted(bindings), accepted).len() == wanted(bindings).len(),
        table_of(kept(wanted(bindings), accepted)).dom().len() == wanted(bindings).len(),
        forall|i: int|
            0 <= i < wanted(bindings).len() ==> table_of(
                kept(wanted(bindings), accepted),
            ).dom().contains(combo_id((#[trigger] wanted(bindings)[i]).combo)) && table_of(
                kept(wanted(bindings), accepted),
            )[combo_id(wanted(bindings)[i].combo)] == wanted(bindings)[i].action,
        bindings.len() == 0 ==> wanted(bindings).len() == 0,
{
    let plan = wanted(bindings);
    lemma_kept_all(plan, accepted);
    lemma_table_size(plan);
    assert forall|i: int| 0 <= i < plan.len() implies table_of(plan).dom().contains(
        combo_id((#[trigger] plan[i]).combo),
    ) && table_of(plan)[combo_id(plan[i].combo)] == plan[i].action by {
        lemma_table_lookup(plan, i);
    }
}

} // verus!
