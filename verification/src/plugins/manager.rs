//! The registry of loaded plugins: loading them, starting and stopping
//! their daemons, and recovering the daemons that a previous run left
//! behind.

use vstd::prelude::*;
use crate::plugins::loader::{is_load_of, PluginDir, PluginLoader};
use crate::plugins::orphans::{
    daemon_pids_content, is_recovery, kill_orphan_daemons, registry_content, OrphanAction,
};
use crate::plugins::supervisor::{
    started_through, stopped_through, DaemonError, DaemonErrorModel, Plugin, StartAction,
    StartEvent, StopAction,
};
use crate::text::{chars_of, same_chars};

verus! {

/// The position of the plugin with the identifier `id` in `plugins`.
pub open spec fn position_of(plugins: Seq<Plugin>, id: Seq<char>, i: int) -> bool {
    0 <= i < plugins.len() && plugins[i].id@ == id
}

/// No two plugins of `plugins` have the same identifier.
pub open spec fn distinct_ids(plugins: Seq<Plugin>) -> bool {
    forall|i: int, j: int|
        0 <= i < j < plugins.len() ==> (#[trigger] plugins[i]).id@ != (#[trigger] plugins[j]).id@
}

/// The plugin of `plugins` with the identifier `id`, if there is one.
pub open spec fn lookup(plugins: Seq<Plugin>, id: Seq<char>) -> Option<Plugin> {
    if exists|i: int| position_of(plugins, id, i) {
        Some(plugins[choose|i: int| position_of(plugins, id, i)])
    } else {
        None
    }
}

/// Plugin `k` is the last of the first `upto` plugins of `plugins` with its identifier.
pub open spec fn is_last_of_id(plugins: Seq<Plugin>, upto: int, k: int) -> bool {
    &&& 0 <= k < upto <= plugins.len()
    &&& forall|j: int| k < j < upto ==> (#[trigger] plugins[j]).id@ != plugins[k].id@
}

/// The process ids of the daemons that the plugins of `plugins` hold, in order.
pub open spec fn daemon_pids(plugins: Seq<Plugin>) -> Seq<u32>
    decreases plugins.len(),
{
    if plugins.len() == 0 {
        Seq::empty()
    } else {
        let before = daemon_pids(plugins.drop_last());
        match plugins.last().daemon() {
            Some(pid) => before.push(pid),
            None => before,
        }
    }
}

/// A daemon that could not be started or stopped.
#[derive(Debug)]
pub struct DaemonFailure {
    /// The identifier of the plugin that owns the daemon.
    pub plugin_id: String,
    /// Why it could not be started or stopped.
    pub error: DaemonError,
}

/// The contents of the failures `failed`: the identifier and the error of each.
pub open spec fn failure_views(failed: Seq<DaemonFailure>) -> Seq<(Seq<char>, DaemonErrorModel)> {
    failed.map_values(|f: DaemonFailure| (f.plugin_id@, f.error@))
}

/// The failures among the results `results`, of which `results[i]` is the
/// one of `plugins[i]`: the identifier and the error of each plugin whose
/// result is an error, in the order of the plugins.
pub open spec fn failures(plugins: Seq<Plugin>, results: Seq<Result<(), DaemonError>>) -> Seq<
    (Seq<char>, DaemonErrorModel),
>
    decreases plugins.len(),
{
    if plugins.len() == 0 {
        Seq::empty()
    } else {
        let before = failures(plugins.drop_last(), results);
        let last = plugins.len() - 1;
        if last < results.len() && results[last] is Err {
            before.push((plugins.last().id@, results[last]->Err_0@))
        } else {
            before
        }
    }
}

/// Notes the result `result` of starting or stopping the daemon of the
/// plugin `plugin_id`: an error is added to `failed`, a success is not.
pub fn note_result(failed: &mut Vec<DaemonFailure>, plugin_id: &str, result: Result<(), DaemonError>)
    ensures
        failure_views(final(failed)@) == match result {
            Ok(()) => failure_views(old(failed)@),
            Err(e) => failure_views(old(failed)@).push((plugin_id@, e@)),
        },
{
    match result {
        Ok(()) => {},
        Err(error) => {
            let ghost before = failed@;
            let plugin_id = plugin_id.to_owned();
            failed.push(DaemonFailure { plugin_id, error });
            assert(failure_views(failed@) =~= failure_views(before).push((plugin_id@, error@)));
        },
    }
}

/// `results` are the results of stopping the daemons of `plugins` through
/// `stop`, one for each plugin: that of a plugin without a daemon is a
/// success, and that of any other is what follows from the host's answers.
pub open spec fn stop_results<T: Fn(&StopAction) -> Result<bool, String>>(
    plugins: Seq<Plugin>,
    results: Seq<Result<(), DaemonError>>,
    stop: T,
) -> bool {
    &&& results.len() == plugins.len()
    &&& forall|i: int|
        0 <= i < plugins.len() ==> stopped_through(#[trigger] plugins[i], stop, results[i])
}

/// `started` are the plugins `plugins` after the start of their daemons
/// through `start`, and `results` the results of the starts, one for each
/// plugin.
pub open spec fn start_results<S: Fn(&StartAction) -> StartEvent>(
    plugins: Seq<Plugin>,
    started: Seq<Plugin>,
    results: Seq<Result<(), DaemonError>>,
    start: S,
) -> bool {
    &&& started.len() == plugins.len()
    &&& results.len() == plugins.len()
    &&& forall|i: int|
        0 <= i < plugins.len() ==> #[trigger] started_as(plugins[i], started[i], results[i], start)
}

/// `after` is the plugin `before` after the start of its daemon through
/// `start` with the result `result`: nothing but the held daemon has
/// changed, and what is held and the result follow from the host's answers.
pub open spec fn started_as<S: Fn(&StartAction) -> StartEvent>(
    before: Plugin,
    after: Plugin,
    result: Result<(), DaemonError>,
    start: S,
) -> bool {
    &&& before.same_plugin(&after)
    &&& started_through(before, start, result, after.daemon())
}

/// The registry `after` is the registry `before` with the plugins
/// `plugins` registered, in order: every one of them is registered, under
/// each identifier the last plugin with it, and what was registered under
/// other identifiers stays.
pub open spec fn registers(before: PluginManager, after: PluginManager, plugins: Seq<Plugin>) -> bool {
    &&& forall|k: int| 0 <= k < plugins.len() ==> after.plugin((#[trigger] plugins[k]).id@) is Some
    &&& forall|k: int|
        is_last_of_id(plugins, plugins.len() as int, k) ==> after.plugin(
            (#[trigger] plugins[k]).id@,
        ) == Some(plugins[k])
    &&& forall|id: Seq<char>|
        (forall|k: int| 0 <= k < plugins.len() ==> (#[trigger] plugins[k]).id@ != id)
            ==> after.plugin(id) == before.plugin(id)
}

/// The registry `after` holds the plugins `plugins` and nothing else:
/// every one of them is registered, under each identifier the last plugin
/// with it, and nothing is registered under any other identifier.
pub open spec fn holds_only(after: PluginManager, plugins: Seq<Plugin>) -> bool {
    &&& forall|k: int| 0 <= k < plugins.len() ==> after.plugin((#[trigger] plugins[k]).id@) is Some
    &&& forall|k: int|
        is_last_of_id(plugins, plugins.len() as int, k) ==> after.plugin(
            (#[trigger] plugins[k]).id@,
        ) == Some(plugins[k])
    &&& forall|id: Seq<char>|
        (forall|k: int| 0 <= k < plugins.len() ==> (#[trigger] plugins[k]).id@ != id)
            ==> after.plugin(id) is None
}

/// What a start of all daemons gave: the process ids of the daemons that
/// run, in the order of their plugins, and the starts that failed.
#[derive(Debug)]
pub struct StartReport {
    pub pids: Vec<u32>,
    pub failed: Vec<DaemonFailure>,
}

/// What a load gave: what was asked of the host to recover the daemons of
/// the previous run, the starts that failed, and the new content of the
/// registry of daemons.
#[derive(Debug)]
pub struct LoadReport {
    pub recovery: Vec<OrphanAction>,
    pub failed: Vec<DaemonFailure>,
    pub registry: String,
}

/// The plugins of `plugins` from the last to the first.
fn reversed(plugins: Vec<Plugin>) -> (r: Vec<Plugin>)
    ensures
        r@.len() == plugins@.len(),
        forall|k: int| 0 <= k < r@.len() ==> #[trigger] r@[k] == plugins@[plugins@.len() - 1 - k],
{
    let mut incoming = plugins;
    let ghost all = incoming@;
    let mut stack: Vec<Plugin> = Vec::new();
    while incoming.len() > 0
        invariant
            incoming@.len() <= all.len(),
            incoming@ == all.take(incoming@.len() as int),
            stack@.len() + incoming@.len() == all.len(),
            forall|k: int| 0 <= k < stack@.len() ==> #[trigger] stack@[k] == all[all.len() - 1 - k],
        decreases incoming.len(),
    {
        let ghost before = incoming@;
        match incoming.pop() {
            Some(p) => {
                assert(p == all[before.len() - 1]);
                assert(incoming@ == all.take(incoming@.len() as int));
                stack.push(p);
            },
            None => {},
        }
    }
    stack
}

/// The loaded plugins, each under its identifier.
pub struct PluginManager {
    plugins: Vec<Plugin>,
}

impl PluginManager {
    #[verifier::type_invariant]
    spec fn well_formed(self) -> bool {
        distinct_ids(self.plugins@)
    }

    /// The plugins, in the order in which their identifiers were first seen.
    pub closed spec fn view(&self) -> Seq<Plugin> {
        self.plugins@
    }

    /// The plugin that is registered under `id`, if there is one.
    pub open spec fn plugin(&self, id: Seq<char>) -> Option<Plugin> {
        lookup(self@, id)
    }

    /// A registry without plugins.
    pub fn new() -> (r: Self)
        ensures
            r@.len() == 0,
    {
        Self { plugins: Vec::new() }
    }

    /// The number of plugins.
    pub fn len(&self) -> (r: usize)
        ensures
            r == self@.len(),
    {
        self.plugins.len()
    }

    /// The position of the plugin with the identifier `id`.
    fn find(&self, id: &str) -> (r: Option<usize>)
        ensures
            distinct_ids(self@),
            match r {
                Some(i) => position_of(self@, id@, i as int),
                None => forall|i: int| !position_of(self@, id@, i),
            },
    {
        proof {
            use_type_invariant(self);
        }
        let wanted = chars_of(id);
        let mut i: usize = 0;
        while i < self.plugins.len()
            invariant
                i <= self.plugins.len(),
                wanted@ == id@,
                distinct_ids(self.plugins@),
                forall|j: int| 0 <= j < i ==> !position_of(self.plugins@, id@, j),
            decreases self.plugins.len() - i,
        {
            let candidate = chars_of(self.plugins[i].id.as_str());
            if same_chars(&candidate, &wanted) {
                return Some(i);
            }
            i += 1;
        }
        None
    }

    /// The plugin that is registered under `id`.
    pub fn get(&self, id: &str) -> (r: Option<&Plugin>)
        ensures
            match r {
                Some(p) => self.plugin(id@) == Some(*p) && p.id@ == id@,
                None => self.plugin(id@) is None,
            },
    {
        match self.find(id) {
            Some(i) => {
                proof {
                    lemma_lookup_at(self@, id@, i as int);
                }
                Some(&self.plugins[i])
            },
            None => None,
        }
    }

    /// The plugins, in the order in which their identifiers were first seen.
    pub fn plugins(&self) -> (r: &Vec<Plugin>)
        ensures
            r@ == self@,
            distinct_ids(r@),
    {
        proof {
            use_type_invariant(self);
        }
        &self.plugins
    }

    /// Registers `plugin` under its identifier. A plugin that was registered
    /// under the same identifier is replaced and returned, so that its
    /// daemon can be stopped; every other plugin stays.
    pub fn insert(&mut self, plugin: Plugin) -> (r: Option<Plugin>)
        ensures
            r == old(self).plugin(plugin.id@),
            final(self).plugin(plugin.id@) == Some(plugin),
            forall|id: Seq<char>| id != plugin.id@ ==> final(self).plugin(id) == old(self).plugin(id),
            final(self)@.len() == old(self)@.len() + if r is Some {
                0int
            } else {
                1int
            },
    {
        let found = self.find(plugin.id.as_str());
        let ghost before = self.plugins@;
        let ghost key = plugin.id@;
        match found {
            Some(i) => {
                let mut plugins: Vec<Plugin> = Vec::new();
                core::mem::swap(&mut plugins, &mut self.plugins);
                let mut tail = plugins.split_off(i);
                let replaced = tail.remove(0);
                plugins.push(plugin);
                plugins.append(&mut tail);
                proof {
                    assert(plugins@ =~= before.update(i as int, plugin));
                    lemma_lookup_at(before, key, i as int);
                    assert(distinct_ids(plugins@)) by {
                        assert forall|a: int, b: int| 0 <= a < b < plugins@.len() implies (
                        #[trigger] plugins@[a]).id@ != (#[trigger] plugins@[b]).id@ by {
                            assert(before[a].id@ != before[b].id@);
                        }
                    }
                    lemma_lookup_at(plugins@, key, i as int);
                    assert forall|id: Seq<char>| id != key implies lookup(plugins@, id) == lookup(
                        before,
                        id,
                    ) by {
                        lemma_lookup_same(before, plugins@, id, i as int);
                    }
                }
                self.plugins = plugins;
                Some(replaced)
            },
            None => {
                let mut plugins: Vec<Plugin> = Vec::new();
                core::mem::swap(&mut plugins, &mut self.plugins);
                plugins.push(plugin);
                proof {
                    assert(distinct_ids(plugins@)) by {
                        assert forall|a: int, b: int| 0 <= a < b < plugins@.len() implies (
                        #[trigger] plugins@[a]).id@ != (#[trigger] plugins@[b]).id@ by {
                            if b == before.len() {
                                assert(!position_of(before, key, a));
                            } else {
                                assert(before[a].id@ != before[b].id@);
                            }
                        }
                    }
                    lemma_lookup_at(plugins@, key, before.len() as int);
                    assert forall|id: Seq<char>| id != key implies lookup(plugins@, id) == lookup(
                        before,
                        id,
                    ) by {
                        lemma_lookup_pushed(before, plugin, id);
                    }
                }
                self.plugins = plugins;
                None
            },
        }
    }

    /// Registers the plugins `plugins`, in order, whether or not their
    /// daemons run. Returns the process ids of the daemons that run, in the
    /// order of their plugins, and the plugins that were replaced.
    pub fn register_all(&mut self, plugins: Vec<Plugin>) -> (r: (Vec<u32>, Vec<Plugin>))
        ensures
            r.0@ == daemon_pids(plugins@),
            registers(*old(self), *final(self), plugins@),
            forall|k: int|
                0 <= k < plugins@.len() ==> final(self).plugin((#[trigger] plugins@[k]).id@)
                    is Some,
            forall|k: int|
                is_last_of_id(plugins@, plugins@.len() as int, k) ==> final(self).plugin(
                    (#[trigger] plugins@[k]).id@,
                ) == Some(plugins@[k]),
            forall|id: Seq<char>|
                (forall|k: int| 0 <= k < plugins@.len() ==> (#[trigger] plugins@[k]).id@ != id)
                    ==> final(self).plugin(id) == old(self).plugin(id),
    {
        let ghost all = plugins@;
        let mut stack = reversed(plugins);
        let mut pids: Vec<u32> = Vec::new();
        let mut replaced: Vec<Plugin> = Vec::new();
        let ghost mut done: int = 0;
        while stack.len() > 0
            invariant
                0 <= done,
                done + stack@.len() == all.len(),
                forall|k: int|
                    0 <= k < stack@.len() ==> #[trigger] stack@[k] == all[all.len() - 1 - k],
                pids@ == daemon_pids(all.take(done)),
                forall|k: int| 0 <= k < done ==> self.plugin((#[trigger] all[k]).id@) is Some,
                forall|k: int|
                    is_last_of_id(all, done, k) ==> self.plugin((#[trigger] all[k]).id@) == Some(
                        all[k],
                    ),
                forall|id: Seq<char>|
                    (forall|k: int| 0 <= k < done ==> (#[trigger] all[k]).id@ != id) ==> self.plugin(
                        id,
                    ) == old(self).plugin(id),
            decreases stack.len(),
        {
            let ghost remaining = stack@;
            let ghost current = *self;
            match stack.pop() {
                Some(p) => {
                    proof {
                        assert(p == remaining[remaining.len() - 1]);
                        assert(p == all[done]);
                        assert(all.take(done + 1).drop_last() == all.take(done));
                        assert(all.take(done + 1).last() == p);
                    }
                    match p.daemon_pid() {
                        Some(pid) => {
                            pids.push(pid);
                        },
                        None => {},
                    }
                    let ghost key = p.id@;
                    match self.insert(p) {
                        Some(old_plugin) => {
                            replaced.push(old_plugin);
                        },
                        None => {},
                    }
                    proof {
                        assert forall|k: int| 0 <= k < done + 1 implies self.plugin(
                            (#[trigger] all[k]).id@,
                        ) is Some by {
                            if all[k].id@ != key {
                                assert(self.plugin(all[k].id@) == current.plugin(all[k].id@));
                            }
                        }
                        assert forall|k: int| is_last_of_id(all, done + 1, k) implies self.plugin(
                            (#[trigger] all[k]).id@,
                        ) == Some(all[k]) by {
                            if k < done {
                                assert(all[done].id@ != all[k].id@);
                                assert(is_last_of_id(all, done, k));
                                assert(self.plugin(all[k].id@) == current.plugin(all[k].id@));
                            }
                        }
                        assert forall|id: Seq<char>|
                            (forall|k: int| 0 <= k < done + 1 ==> (#[trigger] all[k]).id@ != id)
                            implies self.plugin(id) == old(self).plugin(id) by {
                            assert(all[done].id@ != id);
                            assert(self.plugin(id) == current.plugin(id));
                        }
                        done = done + 1;
                    }
                },
                None => {},
            }
        }
        proof {
            assert(all.take(done) == all);
        }
        (pids, replaced)
    }

    /// Empties the registry and hands out its plugins.
    pub fn take_all(&mut self) -> (r: Vec<Plugin>)
        ensures
            r@ == old(self)@,
            final(self)@.len() == 0,
    {
        let mut plugins: Vec<Plugin> = Vec::new();
        core::mem::swap(&mut plugins, &mut self.plugins);
        plugins
    }

    /// Stops the daemon of every plugin, in the order of the registry, and
    /// forgets the plugins: `stop` does what each step of a stop asks for.
    ///
    /// Every plugin is dealt with, whatever came of the ones before it.
    /// Returns the stops that failed, in the order of their plugins; that
    /// of a plugin without a daemon never does.
    pub fn stop_all<T: Fn(&StopAction) -> Result<bool, String>>(&mut self, stop: &T) -> (failed: Vec<
        DaemonFailure,
    >)
        requires
            forall|a: &StopAction| call_requires(*stop, (a,)),
        ensures
            final(self)@.len() == 0,
            exists|results: Seq<Result<(), DaemonError>>| #[trigger]
                stop_results(old(self)@, results, *stop) && failure_views(failed@) == failures(
                    old(self)@,
                    results,
                ),
    {
        let plugins = self.take_all();
        let ghost all = plugins@;
        let mut stack = reversed(plugins);
        let mut failed: Vec<DaemonFailure> = Vec::new();
        let ghost mut results: Seq<Result<(), DaemonError>> = Seq::empty();
        assert(failure_views(failed@) =~= Seq::empty());
        while stack.len() > 0
            invariant
                self@.len() == 0,
                forall|a: &StopAction| call_requires(*stop, (a,)),
                results.len() + stack@.len() == all.len(),
                forall|k: int|
                    0 <= k < stack@.len() ==> #[trigger] stack@[k] == all[all.len() - 1 - k],
                stop_results(all.take(results.len() as int), results, *stop),
                failure_views(failed@) == failures(all.take(results.len() as int), results),
            decreases stack.len(),
        {
            let ghost remaining = stack@;
            let ghost done = results.len() as int;
            match stack.pop() {
                Some(plugin) => {
                    let mut plugin = plugin;
                    assert(plugin == remaining[remaining.len() - 1]);
                    assert(plugin == all[done]);
                    let result = plugin.stop_with(stop);
                    proof {
                        let grown = results.push(result);
                        assert(all.take(done + 1).drop_last() == all.take(done));
                        assert(all.take(done + 1).last() == all[done]);
                        lemma_failures_extend(all.take(done), results, all[done], result);
                        assert(all.take(done).push(all[done]) == all.take(done + 1));
                        assert(plugin.id@ == all[done].id@);
                        assert forall|i: int| 0 <= i < done + 1 implies stopped_through(
                            #[trigger] all.take(done + 1)[i],
                            *stop,
                            grown[i],
                        ) by {
                            if i < done {
                                assert(all.take(done)[i] == all.take(done + 1)[i]);
                                assert(grown[i] == results[i]);
                            }
                        }
                        results = grown;
                    }
                    note_result(&mut failed, plugin.id.as_str(), result);
                },
                None => {},
            }
        }
        proof {
            assert(all.take(results.len() as int) == all);
        }
        failed
    }

    /// Starts the daemon of every plugin of `plugins`, in order, and
    /// registers each plugin: `start` does what each step of a start asks
    /// for, and `stop` what each step of a stop asks for.
    ///
    /// Every plugin is started and registered, whatever came of the ones
    /// before it: a start that fails is noted, and its plugin is registered
    /// all the same. A plugin that was registered under the identifier of a
    /// new one is replaced, and its daemon is stopped. Returns the process
    /// ids of the daemons that run and the starts that failed, both in the
    /// order of the plugins.
    pub fn start_all<S: Fn(&StartAction) -> StartEvent, T: Fn(&StopAction) -> Result<bool, String>>(
        &mut self,
        plugins: Vec<Plugin>,
        start: &S,
        stop: &T,
    ) -> (r: StartReport)
        requires
            forall|a: &StartAction| call_requires(*start, (a,)),
            forall|a: &StopAction| call_requires(*stop, (a,)),
        ensures
            exists|started: Seq<Plugin>, results: Seq<Result<(), DaemonError>>| #[trigger]
                start_results(plugins@, started, results, *start) && registers(
                    *old(self),
                    *final(self),
                    started,
                ) && r.pids@ == daemon_pids(started) && failure_views(r.failed@) == failures(
                    started,
                    results,
                ),
    {
        let ghost all = plugins@;
        let mut stack = reversed(plugins);
        let mut started: Vec<Plugin> = Vec::new();
        let mut failed: Vec<DaemonFailure> = Vec::new();
        let ghost mut results: Seq<Result<(), DaemonError>> = Seq::empty();
        assert(failure_views(failed@) =~= Seq::empty());
        while stack.len() > 0
            invariant
                forall|a: &StartAction| call_requires(*start, (a,)),
                started@.len() == results.len(),
                results.len() + stack@.len() == all.len(),
                forall|k: int|
                    0 <= k < stack@.len() ==> #[trigger] stack@[k] == all[all.len() - 1 - k],
                start_results(all.take(results.len() as int), started@, results, *start),
                failure_views(failed@) == failures(started@, results),
            decreases stack.len(),
        {
            let ghost remaining = stack@;
            let ghost done = results.len() as int;
            let ghost before = started@;
            match stack.pop() {
                Some(plugin) => {
                    let mut plugin = plugin;
                    assert(plugin == remaining[remaining.len() - 1]);
                    assert(plugin == all[done]);
                    let result = plugin.start_with(start);
                    proof {
                        let grown = results.push(result);
                        lemma_failures_extend(before, results, plugin, result);
                        assert forall|i: int| 0 <= i < done + 1 implies #[trigger] started_as(
                            all.take(done + 1)[i],
                            before.push(plugin)[i],
                            grown[i],
                            *start,
                        ) by {
                            if i < done {
                                assert(started_as(all.take(done)[i], before[i], results[i], *start));
                            }
                        }
                        results = grown;
                    }
                    note_result(&mut failed, plugin.id.as_str(), result);
                    started.push(plugin);
                },
                None => {},
            }
        }
        proof {
            assert(all.take(results.len() as int) == all);
        }
        let ghost held = started@;
        let (pids, replaced) = self.register_all(started);
        let mut replaced = replaced;
        while replaced.len() > 0
            invariant
                forall|a: &StopAction| call_requires(*stop, (a,)),
            decreases replaced.len(),
        {
            match replaced.pop() {
                Some(plugin) => {
                    let mut plugin = plugin;
                    let _ = plugin.stop_with(stop);
                },
                None => {},
            }
        }
        let r = StartReport { pids, failed };
        assert(start_results(all, held, results, *start) && registers(*old(self), *self, held) && r.pids@
            == daemon_pids(held) && failure_views(r.failed@) == failures(held, results));
        r
    }

    /// Loads the plugins of a plugin directory and starts their daemons.
    ///
    /// First the daemons that a previous run left behind are recovered:
    /// `registry` is the text of the registry of daemons, where there is
    /// one, and `recover` does what each step of the recovery asks for.
    /// Then the plugins of the entries `entries` are loaded for the
    /// platform `os`, the daemon of each is started, and each is
    /// registered, whatever came of the ones before it. The report holds
    /// what was asked of the host during the recovery, the starts that
    /// failed, and the new text of the registry: the process ids of the
    /// daemons that run, one per line.
    pub fn load_plugins<
        R: Fn(OrphanAction) -> bool,
        S: Fn(&StartAction) -> StartEvent,
        T: Fn(&StopAction) -> Result<bool, String>,
    >(
        &mut self,
        registry: Option<&str>,
        entries: Vec<PluginDir>,
        os: &str,
        recover: R,
        start: &S,
        stop: &T,
    ) -> (r: LoadReport)
        requires
            forall|a: OrphanAction| call_requires(recover, (a,)),
            forall|a: &StartAction| call_requires(*start, (a,)),
            forall|a: &StopAction| call_requires(*stop, (a,)),
        ensures
            is_recovery(r.recovery@, registry, recover),
            exists|loaded: Seq<Plugin>, started: Seq<Plugin>, results: Seq<Result<(), DaemonError>>|
             #[trigger]
                start_results(loaded, started, results, *start) && is_load_of(entries@, os@, loaded)
                    && registers(*old(self), *final(self), started) && failure_views(r.failed@)
                    == failures(started, results) && r.registry@ == registry_content(
                    daemon_pids(started),
                ),
    {
        let recovery = kill_orphan_daemons(registry, recover);
        let loaded = PluginLoader::load_from_dir(entries, os);
        let ghost found = loaded@;
        let report = self.start_all(loaded, start, stop);
        let registry = daemon_pids_content(&report.pids);
        let r = LoadReport { recovery, failed: report.failed, registry };
        proof {
            let (started, results) = choose|
                started: Seq<Plugin>,
                results: Seq<Result<(), DaemonError>>,
            | #[trigger]
                start_results(found, started, results, *start) && registers(*old(self), *self, started)
                    && report.pids@ == daemon_pids(started) && failure_views(report.failed@)
                    == failures(started, results);
            assert(start_results(found, started, results, *start) && is_load_of(entries@, os@, found)
                && registers(*old(self), *self, started) && failure_views(r.failed@) == failures(
                started,
                results,
            ) && r.registry@ == registry_content(daemon_pids(started)));
        }
        r
    }

    /// Stops every daemon, forgets the plugins, and loads them again as
    /// `load_plugins` does. No daemon is started before every old one was
    /// dealt with, and nothing that was registered before stays. Returns
    /// the stops that failed and the report of the load.
    pub fn reload_plugins<
        R: Fn(OrphanAction) -> bool,
        S: Fn(&StartAction) -> StartEvent,
        T: Fn(&StopAction) -> Result<bool, String>,
    >(
        &mut self,
        registry: Option<&str>,
        entries: Vec<PluginDir>,
        os: &str,
        recover: R,
        start: &S,
        stop: &T,
    ) -> (r: (Vec<DaemonFailure>, LoadReport))
        requires
            forall|a: OrphanAction| call_requires(recover, (a,)),
            forall|a: &StartAction| call_requires(*start, (a,)),
            forall|a: &StopAction| call_requires(*stop, (a,)),
        ensures
            exists|results: Seq<Result<(), DaemonError>>| #[trigger]
                stop_results(old(self)@, results, *stop) && failure_views(r.0@) == failures(
                    old(self)@,
                    results,
                ),
            is_recovery(r.1.recovery@, registry, recover),
            exists|loaded: Seq<Plugin>, started: Seq<Plugin>, results: Seq<Result<(), DaemonError>>|
             #[trigger]
                start_results(loaded, started, results, *start) && is_load_of(entries@, os@, loaded)
                    && holds_only(*final(self), started) && failure_views(r.1.failed@)
                    == failures(started, results) && r.1.registry@ == registry_content(
                    daemon_pids(started),
                ),
    {
        let stopped = self.stop_all(stop);
        let ghost emptied = *self;
        let report = self.load_plugins(registry, entries, os, recover, start, stop);
        proof {
            let (loaded, started, results) = choose|
                loaded: Seq<Plugin>,
                started: Seq<Plugin>,
                results: Seq<Result<(), DaemonError>>,
            | #[trigger]
                start_results(loaded, started, results, *start) && is_load_of(entries@, os@, loaded)
                    && registers(emptied, *self, started) && failure_views(report.failed@)
                    == failures(started, results) && report.registry@ == registry_content(
                    daemon_pids(started),
                );
            assert forall|id: Seq<char>| emptied.plugin(id) is None by {
                assert(forall|i: int| !position_of(emptied@, id, i));
            }
            assert(holds_only(*self, started));
            assert(start_results(loaded, started, results, *start) && is_load_of(entries@, os@, loaded)
                && holds_only(*self, started) && failure_views(report.failed@) == failures(
                started,
                results,
            ) && report.registry@ == registry_content(daemon_pids(started)));
        }
        (stopped, report)
    }

}

/// The failures of one more plugin with its result.
pub proof fn lemma_failures_extend(
    plugins: Seq<Plugin>,
    results: Seq<Result<(), DaemonError>>,
    plugin: Plugin,
    result: Result<(), DaemonError>,
)
    requires
        results.len() == plugins.len(),
    ensures
        failures(plugins.push(plugin), results.push(result)) == match result {
            Ok(()) => failures(plugins, results),
            Err(e) => failures(plugins, results).push((plugin.id@, e@)),
        },
{
    let more = plugins.push(plugin);
    let grown = results.push(result);
    assert(more.drop_last() == plugins);
    lemma_failures_prefix(plugins, results, result);
}

/// A result that belongs to no plugin changes nothing.
pub proof fn lemma_failures_prefix(
    plugins: Seq<Plugin>,
    results: Seq<Result<(), DaemonError>>,
    result: Result<(), DaemonError>,
)
    requires
        plugins.len() <= results.len(),
    ensures
        failures(plugins, results.push(result)) == failures(plugins, results),
    decreases plugins.len(),
{
    if plugins.len() > 0 {
        lemma_failures_prefix(plugins.drop_last(), results, result);
        assert(results.push(result)[plugins.len() - 1] == results[plugins.len() - 1]);
    }
}

impl Default for PluginManager {
    fn default() -> (r: Self)
        ensures
            r@.len() == 0,
    {
        Self::new()
    }
}

/// Where identifiers are distinct, the plugin at a position is the one
/// looked up under its identifier.
pub proof fn lemma_lookup_at(plugins: Seq<Plugin>, id: Seq<char>, i: int)
    requires
        distinct_ids(plugins),
        position_of(plugins, id, i),
    ensures
        lookup(plugins, id) == Some(plugins[i]),
{
    let k = choose|k: int| position_of(plugins, id, k);
    if k < i {
        assert(plugins[k].id@ != plugins[i].id@);
    } else if i < k {
        assert(plugins[i].id@ != plugins[k].id@);
    }
}

/// Replacing the plugin at one position by one with the same identifier
/// changes nothing under any other identifier.
pub proof fn lemma_lookup_same(before: Seq<Plugin>, after: Seq<Plugin>, id: Seq<char>, i: int)
    requires
        distinct_ids(before),
        0 <= i < before.len(),
        after.len() == before.len(),
        forall|k: int| 0 <= k < before.len() && k != i ==> after[k] == before[k],
        after[i].id@ == before[i].id@,
        id != before[i].id@,
    ensures
        lookup(after, id) == lookup(before, id),
{
    assert(distinct_ids(after)) by {
        assert forall|a: int, b: int| 0 <= a < b < after.len() implies (#[trigger] after[a]).id@ != (
        #[trigger] after[b]).id@ by {
            assert(before[a].id@ != before[b].id@);
        }
    }
    if exists|k: int| position_of(before, id, k) {
        let k = choose|k: int| position_of(before, id, k);
        assert(position_of(after, id, k));
        lemma_lookup_at(before, id, k);
        lemma_lookup_at(after, id, k);
    } else {
        assert forall|k: int| !position_of(after, id, k) by {
            if position_of(after, id, k) {
                assert(position_of(before, id, k));
            }
        }
    }
}

/// Adding a plugin changes nothing under any other identifier.
pub proof fn lemma_lookup_pushed(before: Seq<Plugin>, plugin: Plugin, id: Seq<char>)
    requires
        distinct_ids(before),
        forall|k: int| !position_of(before, plugin.id@, k),
        id != plugin.id@,
    ensures
        lookup(before.push(plugin), id) == lookup(before, id),
{
    let after = before.push(plugin);
    assert(distinct_ids(after)) by {
        assert forall|a: int, b: int| 0 <= a < b < after.len() implies (#[trigger] after[a]).id@ != (
        #[trigger] after[b]).id@ by {
            if b == before.len() {
                assert(!position_of(before, plugin.id@, a));
            } else {
                assert(before[a].id@ != before[b].id@);
            }
        }
    }
    if exists|k: int| position_of(before, id, k) {
        let k = choose|k: int| position_of(before, id, k);
        assert(position_of(after, id, k));
        lemma_lookup_at(before, id, k);
        lemma_lookup_at(after, id, k);
    } else {
        assert forall|k: int| !position_of(after, id, k) by {
            if position_of(after, id, k) {
                assert(position_of(before, id, k));
            }
        }
    }
}

} // verus!
