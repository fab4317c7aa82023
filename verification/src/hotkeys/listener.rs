//! What the hotkey listener decides on each of its rounds: whether to
//! reload the bindings, and which script a key press runs.

use vstd::prelude::*;
use crate::hotkeys::manager::{HotkeyError, HotkeyManager, kept, table_of, wanted};
use crate::hotkeys::types::{script_runners, HotkeyConfig, ScriptInfo};
use crate::paths::{join, joined};

verus! {

/// The time between two rounds of the listener, in milliseconds.
pub const POLL_INTERVAL_MS: u64 = 50;

/// The requests to reload the bindings that have not been served yet.
/// Anyone may add a request; only the listener takes them.
#[derive(Debug)]
pub struct ReloadQueue {
    pending: u64,
}

impl ReloadQueue {
    /// The number of requests that wait.
    pub closed spec fn waiting(&self) -> nat {
        self.pending as nat
    }

    /// A queue without requests.
    pub fn new() -> (r: ReloadQueue)
        ensures
            r.waiting() == 0,
    {
        ReloadQueue { pending: 0 }
    }

    /// Whether a request waits.
    pub fn pending(&self) -> (r: bool)
        ensures
            r == (self.waiting() > 0),
    {
        self.pending > 0
    }

    /// Takes one request, if one waits.
    pub fn take(&mut self) -> (r: bool)
        ensures
            r == (old(self).waiting() > 0),
            final(self).waiting() == if r {
                (old(self).waiting() - 1) as nat
            } else {
                0
            },
    {
        if self.pending > 0 {
            self.pending = self.pending - 1;
            true
        } else {
            false
        }
    }
}

/// Asks the listener to reload the bindings on its next round. A request is
/// never refused; the count stops at the largest number that fits.
pub fn trigger_reload(queue: &mut ReloadQueue)
    ensures
        final(queue).waiting() == if old(queue).waiting() < u64::MAX {
            old(queue).waiting() + 1
        } else {
            old(queue).waiting()
        },
{
    if queue.pending < u64::MAX {
        queue.pending = queue.pending + 1;
    }
}

/// The manager `after` is the manager `before`.
pub open spec fn unchanged(before: HotkeyManager, after: HotkeyManager) -> bool {
    after == before
}

/// The manager `after` holds the bindings of `bindings` that the platform accepted.
pub open spec fn reloaded(after: HotkeyManager, bindings: Seq<crate::hotkeys::types::HotkeyBinding>) -> bool {
    &&& after.is_active()
    &&& after.table() == table_of(after.registered())
    &&& exists|accepted: Seq<bool>|
        accepted.len() == wanted(bindings).len() && after.registered() == #[trigger] kept(
            wanted(bindings),
            accepted,
        )
}

/// How a round's reload ended.
#[derive(Debug)]
pub enum ReloadOutcome {
    /// No reload was requested: nothing was touched.
    NotRequested,
    /// The configuration could not be loaded: the bindings stay as they were.
    ConfigUnavailable,
    /// The bindings of the loaded configuration were registered.
    Reloaded,
    /// The platform gave no registration context: nothing is registered.
    Failed(HotkeyError),
}

/// Serves one reload request, if one waits: `load` is the configuration as
/// the host read it from its file, or `None` where it could not be read.
pub fn try_reload_hotkeys(
    queue: &mut ReloadQueue,
    manager: &mut HotkeyManager,
    load: Option<HotkeyConfig>,
) -> (r: ReloadOutcome)
    ensures
        final(queue).waiting() == if old(queue).waiting() > 0 {
            (old(queue).waiting() - 1) as nat
        } else {
            0
        },
        final(manager).config_file() == old(manager).config_file(),
        match r {
            ReloadOutcome::NotRequested => old(queue).waiting() == 0 && unchanged(
                *old(manager),
                *final(manager),
            ),
            ReloadOutcome::ConfigUnavailable => old(queue).waiting() > 0 && load is None
                && unchanged(*old(manager), *final(manager)),
            ReloadOutcome::Reloaded => old(queue).waiting() > 0 && load is Some && reloaded(
                *final(manager),
                load->0.hotkeys@,
            ),
            ReloadOutcome::Failed(_) => old(queue).waiting() > 0 && load is Some && !final(
                manager
            ).is_active() && final(manager).registered().len() == 0,
        },
{
    if !queue.take() {
        return ReloadOutcome::NotRequested;
    }
    match load {
        None => ReloadOutcome::ConfigUnavailable,
        Some(config) => match manager.register_hotkeys(&config) {
            Ok(()) => ReloadOutcome::Reloaded,
            Err(e) => ReloadOutcome::Failed(e),
        },
    }
}

/// The script of `file` in the plugin directory `plugin_dir`, run by `shell`.
pub open spec fn is_candidate(
    info: ScriptInfo,
    plugin_dir: Seq<char>,
    runner: (&'static str, &'static str, Option<&'static str>),
) -> bool {
    &&& info.path@ == joined(plugin_dir, runner.0@)
    &&& info.shell@ == runner.1@
    &&& info.flag == runner.2
}

/// The scripts that a plugin in `plugin_dir` may have, in the order in which
/// they are looked for.
pub fn script_candidates(plugin_dir: &str, windows: bool) -> (r: Vec<ScriptInfo>)
    ensures
        r@.len() == if windows {
            2nat
        } else {
            1nat
        },
        !windows ==> r@[0].path@ == joined(plugin_dir@, "run.sh"@) && r@[0].shell@ == "bash"@
            && r@[0].flag is None,
        windows ==> r@[0].path@ == joined(plugin_dir@, "run.bat"@) && r@[0].shell@ == "cmd"@
            && r@[0].flag == Some("/c") && r@[1].path@ == joined(plugin_dir@, "run.ps1"@)
            && r@[1].shell@ == "powershell"@ && r@[1].flag == Some("-File"),
{
    let runners = script_runners(windows);
    let mut r: Vec<ScriptInfo> = Vec::new();
    let mut i: usize = 0;
    while i < runners.len()
        invariant
            i <= runners.len(),
            r@.len() == i,
            forall|k: int|
                0 <= k < i ==> is_candidate(#[trigger] r@[k], plugin_dir@, runners@[k]),
        decreases runners.len() - i,
    {
        let (file, shell, flag) = runners[i];
        r.push(ScriptInfo { shell, flag, path: join(plugin_dir, file) });
        i += 1;
    }
    proof {
        assert(is_candidate(r@[0], plugin_dir@, runners@[0]));
        if windows {
            assert(is_candidate(r@[1], plugin_dir@, runners@[1]));
        }
    }
    r
}

/// Candidate `i` is the first one that exists.
pub open spec fn is_first_present(present: Seq<bool>, i: int) -> bool {
    &&& 0 <= i < present.len()
    &&& present[i]
    &&& forall|j: int| 0 <= j < i ==> !present[j]
}

/// The script to run: the first of `candidates` that exists, where
/// `present[i]` says whether candidate `i` exists. A candidate without an
/// answer counts as missing.
pub fn find_plugin_script(candidates: Vec<ScriptInfo>, present: &Vec<bool>) -> (r: Option<
    ScriptInfo,
>)
    ensures
        match r {
            Some(info) => exists|i: int|
                i < candidates@.len() && #[trigger] is_first_present(present@, i) && info
                    == candidates@[i],
            None => forall|i: int|
                0 <= i < candidates@.len() && i < present@.len() ==> !#[trigger] present@[i],
        },
{
    let mut candidates = candidates;
    let ghost all = candidates@;
    let mut i: usize = 0;
    let mut found: Option<usize> = None;
    while i < candidates.len() && i < present.len()
        invariant_except_break
            forall|j: int| 0 <= j < i ==> !present@[j],
            found is None,
        ensures
            match found {
                Some(k) => k < candidates.len() && is_first_present(present@, k as int),
                None => forall|j: int|
                    0 <= j < candidates.len() && j < present@.len() ==> !present@[j],
            },
        decreases candidates.len() - i,
    {
        if present[i] {
            found = Some(i);
            break ;
        }
        i += 1;
    }
    match found {
        Some(k) => {
            let info = candidates.swap_remove(k);
            assert(info == all[k as int]);
            Some(info)
        },
        None => None,
    }
}

/// A program to start, with its arguments and its working directory.
#[derive(Debug, Clone)]
pub struct ScriptCommand {
    pub program: String,
    pub args: Vec<String>,
    pub cwd: String,
}

/// The arguments of the command that runs `script` for `action`: the flag of
/// the shell, if it has one, then the script, then the action.
pub open spec fn script_args(script: ScriptInfo, action: Seq<char>) -> Seq<Seq<char>> {
    match script.flag {
        Some(flag) => seq![flag@, script.path@, action],
        None => seq![script.path@, action],
    }
}

/// The command that runs the action `action` of the plugin in `plugin_dir`
/// by its script `script`.
pub fn plugin_command(plugin_dir: &str, script: &ScriptInfo, action: &str) -> (r: ScriptCommand)
    ensures
        r.program@ == script.shell@,
        r.cwd@ == plugin_dir@,
        r.args@.map_values(|a: String| a@) == script_args(*script, action@),
{
    let mut args: Vec<String> = Vec::new();
    match script.flag {
        Some(flag) => {
            args.push(flag.to_owned());
        },
        None => {},
    }
    args.push(script.path.clone());
    args.push(action.to_owned());
    assert(args@.map_values(|a: String| a@) =~= script_args(*script, action@));
    ScriptCommand { program: script.shell.to_owned(), args, cwd: plugin_dir.to_owned() }
}

} // verus!
