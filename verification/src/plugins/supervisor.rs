//! Supervision of the background process that a plugin may own.
//!
//! Starting and stopping are written as steps: each step takes what the
//! host observed and says what the host has to do next. The host starts,
//! signals and reaps the process; the decisions are made here.

use vstd::prelude::*;
use crate::paths::{join, joined};
use crate::plugins::manifest::PluginManifest;
use crate::text::{chars_of, string_of, trim, trimmed};

verus! {

/// How long a daemon is given after its start before its exit status is
/// looked at, in milliseconds.
pub const STARTUP_GRACE_MS: u64 = 100;

/// How long a daemon is given to exit after it was asked to, in milliseconds.
pub const STOP_TIMEOUT_MS: u64 = 2000;

/// The time between two looks at a daemon that was asked to exit, in milliseconds.
pub const STOP_POLL_MS: u64 = 50;

/// Why a daemon could not be started or stopped.
#[derive(Debug, Clone)]
pub enum DaemonError {
    /// The executable is missing or could not be started.
    Spawn(String),
    /// The daemon exited unsuccessfully within the grace period; `stderr`
    /// is what it wrote to its error stream, without surrounding white space.
    Crash { status: String, stderr: String },
    /// The process could not be observed, killed or reaped.
    Supervision(String),
}

/// The mathematical content of a daemon error.
pub enum DaemonErrorModel {
    Spawn(Seq<char>),
    Crash { status: Seq<char>, stderr: Seq<char> },
    Supervision(Seq<char>),
}

impl View for DaemonError {
    type V = DaemonErrorModel;

    open spec fn view(&self) -> DaemonErrorModel {
        match self {
            DaemonError::Spawn(m) => DaemonErrorModel::Spawn(m@),
            DaemonError::Crash { status, stderr } => DaemonErrorModel::Crash {
                status: status@,
                stderr: stderr@,
            },
            DaemonError::Supervision(m) => DaemonErrorModel::Supervision(m@),
        }
    }
}

/// A loaded plugin: its manifest, its directory and, while its daemon runs,
/// the process id of that daemon. The process itself is kept by the host
/// under that id.
#[derive(Debug)]
pub struct Plugin {
    pub id: String,
    pub manifest: PluginManifest,
    pub path: String,
    /// The process id of the daemon that is held; set by the steps below.
    pub daemon_process: Option<u32>,
}

/// Where the start of a daemon stands.
#[derive(Debug, Clone, Copy, PartialEq, Eq, Structural)]
pub enum StartState {
    /// Nothing was done yet.
    Idle,
    /// The host checks whether the executable exists.
    Checking,
    /// The host starts the process.
    Spawning,
    /// The process `pid` runs; the host waits for the grace period to pass.
    Settling { pid: u32 },
    /// The start has ended.
    Finished,
}

/// What the host observed.
#[derive(Debug)]
pub enum StartEvent {
    /// The start is asked for.
    Begin,
    /// Whether the executable exists.
    ExecutableExists(bool),
    /// The process runs under this id.
    Spawned(u32),
    /// The process could not be started.
    SpawnFailed(String),
    /// After the grace period the process still runs.
    StillRunning,
    /// After the grace period the process has exited successfully.
    ExitedOk,
    /// After the grace period the process has exited unsuccessfully, with
    /// this status and this text on its error stream.
    ExitedWithFailure { status: String, stderr: String },
    /// The exit status could not be read.
    PollFailed(String),
}

/// What the host has to do next.
#[derive(Debug)]
pub enum StartAction {
    /// Report whether `program` exists.
    CheckExecutable { program: String },
    /// Start `program` in the directory `cwd`, with its input and output
    /// discarded and its error stream captured, and report its process id.
    Spawn { program: String, cwd: String },
    /// Wait `grace_ms` milliseconds, then report the exit status of `pid`.
    WaitAndPoll { pid: u32, grace_ms: u64 },
    /// The start has ended with this result.
    Finish(Result<(), DaemonError>),
}

/// What the host has to do next to stop a daemon.
#[derive(Debug)]
pub enum StopAction {
    /// There is no daemon: nothing to do.
    Nothing,
    /// Ask `pid` to exit, then report whether it has.
    Terminate { pid: u32 },
    /// Wait `after_ms` milliseconds, then report again whether `pid` has exited.
    PollAgain { pid: u32, after_ms: u64 },
    /// Kill `pid`, wait for it so that no zombie remains, and report.
    KillAndReap { pid: u32 },
    /// The stop has ended with this result.
    Finish(Result<(), DaemonError>),
}

/// The action asks whether the executable of the daemon of `plugin` exists.
pub open spec fn is_check(action: StartAction, plugin: Plugin) -> bool {
    action matches StartAction::CheckExecutable { program } && program@ == plugin.daemon_program()
}

/// The action asks to start the daemon of `plugin` in the plugin's directory.
pub open spec fn is_spawn(action: StartAction, plugin: Plugin) -> bool {
    action matches StartAction::Spawn { program, cwd } && program@ == plugin.daemon_program()
        && cwd@ == plugin.path@
}

/// The action asks to look at the process `pid` after the grace period.
pub open spec fn is_poll(action: StartAction, pid: u32) -> bool {
    action matches StartAction::WaitAndPoll { pid: p, grace_ms } && p == pid && grace_ms
        == STARTUP_GRACE_MS
}

/// How the start of the daemon of `before` ends once the host has reported
/// `event` of the process `pid` after the grace period: with the result `r`
/// and the plugin holding `daemon`.
///
/// A process that still runs or has exited successfully is held. One that
/// has exited unsuccessfully fails the start with its status and what it
/// wrote to its error stream, without the white space around it.
pub open spec fn settled_as(
    before: Plugin,
    pid: u32,
    event: StartEvent,
    r: Result<(), DaemonError>,
    daemon: Option<u32>,
) -> bool {
    match event {
        StartEvent::StillRunning => r is Ok && daemon == Some(pid),
        StartEvent::ExitedOk => r is Ok && daemon == Some(pid),
        StartEvent::ExitedWithFailure { status, stderr } => r is Err && r->Err_0@
            == (DaemonErrorModel::Crash { status: status@, stderr: trimmed(stderr@) }) && daemon
            == before.daemon(),
        StartEvent::PollFailed(message) => r is Err && r->Err_0@ == DaemonErrorModel::Supervision(
            message@,
        ) && daemon == before.daemon(),
        _ => r is Err && r->Err_0 is Supervision && daemon == before.daemon(),
    }
}

/// How the start ends once the host has answered `event` to the request to
/// start the process: a process that was started is looked at after the
/// grace period, and a start that failed ends with the host's message.
pub open spec fn spawned_as<F: Fn(&StartAction) -> StartEvent>(
    before: Plugin,
    host: F,
    event: StartEvent,
    r: Result<(), DaemonError>,
    daemon: Option<u32>,
) -> bool {
    match event {
        StartEvent::Spawned(pid) => exists|poll: &StartAction, seen: StartEvent| #[trigger]
            call_ensures(host, (poll,), seen) && is_poll(*poll, pid) && settled_as(
                before,
                pid,
                seen,
                r,
                daemon,
            ),
        StartEvent::SpawnFailed(message) => r is Err && r->Err_0@ == DaemonErrorModel::Spawn(
            message@,
        ) && daemon == before.daemon(),
        _ => r is Err && r->Err_0 is Supervision && daemon == before.daemon(),
    }
}

/// How the start ends once the host has answered `event` to the question
/// whether the executable exists: one that exists is started, and one that
/// is missing fails the start.
pub open spec fn checked_as<F: Fn(&StartAction) -> StartEvent>(
    before: Plugin,
    host: F,
    event: StartEvent,
    r: Result<(), DaemonError>,
    daemon: Option<u32>,
) -> bool {
    match event {
        StartEvent::ExecutableExists(found) => if found {
            exists|spawn: &StartAction, seen: StartEvent| #[trigger]
                call_ensures(host, (spawn,), seen) && is_spawn(*spawn, before) && spawned_as(
                    before,
                    host,
                    seen,
                    r,
                    daemon,
                )
        } else {
            r is Err && r->Err_0 is Spawn && daemon == before.daemon()
        },
        _ => r is Err && r->Err_0 is Supervision && daemon == before.daemon(),
    }
}

/// The start of the daemon of `before` through `host` ends with the result
/// `r` and the plugin holding `daemon`: a plugin that wants no daemon
/// succeeds and holds what it held; for any other, the result is what
/// follows from the host's answers.
pub open spec fn started_through<F: Fn(&StartAction) -> StartEvent>(
    before: Plugin,
    host: F,
    r: Result<(), DaemonError>,
    daemon: Option<u32>,
) -> bool {
    if !before.manifest.wants_daemon() {
        r is Ok && daemon == before.daemon()
    } else {
        exists|check: &StartAction, seen: StartEvent| #[trigger]
            call_ensures(host, (check,), seen) && is_check(*check, before) && checked_as(
                before,
                host,
                seen,
                r,
                daemon,
            )
    }
}

/// The action asks the process `pid` to exit.
pub open spec fn is_terminate(action: StopAction, pid: u32) -> bool {
    action matches StopAction::Terminate { pid: p } && p == pid
}

/// The action asks for another look at the process `pid` after
/// `STOP_POLL_MS` milliseconds.
pub open spec fn is_look(action: StopAction, pid: u32) -> bool {
    action matches StopAction::PollAgain { pid: p, after_ms } && p == pid && after_ms
        == STOP_POLL_MS
}

/// The action asks to kill and reap the process `pid`.
pub open spec fn is_kill(action: StopAction, pid: u32) -> bool {
    action matches StopAction::KillAndReap { pid: p } && p == pid
}

/// The time of the look that follows the one `waited` milliseconds after
/// the process was asked to exit.
pub open spec fn next_look(waited: int) -> int {
    if STOP_TIMEOUT_MS - waited < STOP_POLL_MS {
        STOP_TIMEOUT_MS as int
    } else {
        waited + STOP_POLL_MS
    }
}

/// How a stop ends once the host has answered `reaped` to the request to
/// kill and reap the process.
pub open spec fn reaped_as(reaped: Result<bool, String>, r: Result<(), DaemonError>) -> bool {
    match reaped {
        Ok(_) => r is Ok,
        Err(message) => r is Err && r->Err_0@ == DaemonErrorModel::Supervision(message@),
    }
}

/// How the stop of the process `pid` ends once the host has answered
/// `exited`, `waited` milliseconds after the process was asked to exit.
///
/// A process that has exited is stopped. One that still runs is looked at
/// again, and from `STOP_TIMEOUT_MS` milliseconds on killed and reaped.
/// Where the host cannot find out, the stop fails with its message.
pub open spec fn polled_as<F: Fn(&StopAction) -> Result<bool, String>>(
    host: F,
    pid: u32,
    exited: Result<bool, String>,
    waited: int,
    r: Result<(), DaemonError>,
) -> bool
    decreases STOP_TIMEOUT_MS - waited,
{
    match exited {
        Ok(gone) => if gone {
            r is Ok
        } else if waited >= STOP_TIMEOUT_MS {
            exists|kill: &StopAction, reaped: Result<bool, String>| #[trigger]
                call_ensures(host, (kill,), reaped) && is_kill(*kill, pid) && reaped_as(reaped, r)
        } else {
            exists|look: &StopAction, seen: Result<bool, String>| #[trigger]
                call_ensures(host, (look,), seen) && is_look(*look, pid) && polled_as(
                    host,
                    pid,
                    seen,
                    next_look(waited),
                    r,
                )
        },
        Err(message) => r is Err && r->Err_0@ == DaemonErrorModel::Supervision(message@),
    }
}

/// The stop of the daemon of `before` through `host` ends with the result
/// `r`: without a daemon it succeeds; otherwise the process is asked to
/// exit, and the result is what follows from the host's answers.
pub open spec fn stopped_through<F: Fn(&StopAction) -> Result<bool, String>>(
    before: Plugin,
    host: F,
    r: Result<(), DaemonError>,
) -> bool {
    match before.daemon() {
        Some(pid) => exists|ask: &StopAction, seen: Result<bool, String>| #[trigger]
            call_ensures(host, (ask,), seen) && is_terminate(*ask, pid) && polled_as(
                host,
                pid,
                seen,
                0,
                r,
            ),
        None => r is Ok,
    }
}

impl Plugin {
    /// The process id of the daemon that is held, if any.
    pub open spec fn daemon(&self) -> Option<u32> {
        self.daemon_process
    }

    /// The daemon's executable: its command below the plugin's directory.
    pub open spec fn daemon_program(&self) -> Seq<char> {
        match self.manifest.daemon {
            Some(d) => joined(self.path@, d.command@),
            None => Seq::empty(),
        }
    }

    /// `after` is the plugin `self` but for the daemon that it holds.
    pub open spec fn same_plugin(&self, after: &Plugin) -> bool {
        after.id == self.id && after.manifest == self.manifest && after.path == self.path
    }

    /// A plugin that holds no daemon.
    pub fn new(id: String, manifest: PluginManifest, path: String) -> (r: Self)
        ensures
            r.id == id,
            r.manifest == manifest,
            r.path == path,
            r.daemon() is None,
    {
        Self { id, manifest, path, daemon_process: None }
    }

    /// The process id of the daemon that is held, if any.
    pub fn daemon_pid(&self) -> (r: Option<u32>)
        ensures
            r == self.daemon(),
    {
        self.daemon_process
    }

    /// Whether the plugin declares a daemon and has it switched on.
    pub fn wants_daemon(&self) -> (r: bool)
        ensures
            r == self.manifest.wants_daemon(),
    {
        match &self.manifest.daemon {
            Some(d) => d.enabled,
            None => false,
        }
    }

    /// One step of starting the daemon: from the state `state` and the
    /// observation `event` to the next state and what the host does next.
    ///
    /// A plugin without a daemon, or with its daemon switched off, is done
    /// at once and successfully. Otherwise the executable is checked, then
    /// started, then given the grace period. A missing executable and a
    /// failed start end in `Spawn`; an unsuccessful exit within the grace
    /// period ends in `Crash` with the captured error text. The daemon is
    /// held from then on if it still runs or has exited successfully. An
    /// observation that does not fit the state ends the start with an error.
    /// Nothing but the held daemon ever changes.
    pub fn start_step(&mut self, state: StartState, event: StartEvent) -> (r: (
        StartState,
        StartAction,
    ))
        ensures
            old(self).same_plugin(final(self)),
            match (state, event) {
                (StartState::Idle, StartEvent::Begin) => if !old(self).manifest.wants_daemon() {
                    &&& r.0 == StartState::Finished
                    &&& r.1 matches StartAction::Finish(Ok(()))
                    &&& final(self).daemon() == old(self).daemon()
                } else {
                    &&& r.0 == StartState::Checking
                    &&& r.1 matches StartAction::CheckExecutable { program }
                    &&& program@ == old(self).daemon_program()
                    &&& final(self).daemon() == old(self).daemon()
                },
                (StartState::Checking, StartEvent::ExecutableExists(exists)) => if exists
                    && old(self).manifest.daemon is Some {
                    &&& r.0 == StartState::Spawning
                    &&& r.1 matches StartAction::Spawn { program, cwd }
                    &&& program@ == old(self).daemon_program()
                    &&& cwd@ == old(self).path@
                    &&& final(self).daemon() == old(self).daemon()
                } else {
                    &&& r.0 == StartState::Finished
                    &&& r.1 matches StartAction::Finish(Err(DaemonError::Spawn(_)))
                    &&& final(self).daemon() == old(self).daemon()
                },
                (StartState::Spawning, StartEvent::Spawned(pid)) => {
                    &&& r.0 == StartState::Settling { pid }
                    &&& r.1 matches StartAction::WaitAndPoll { pid: p, grace_ms }
                    &&& p == pid
                    &&& grace_ms == STARTUP_GRACE_MS
                    &&& final(self).daemon() == old(self).daemon()
                },
                (StartState::Spawning, StartEvent::SpawnFailed(message)) => {
                    &&& r.0 == StartState::Finished
                    &&& r.1 matches StartAction::Finish(Err(e))
                    &&& e@ == DaemonErrorModel::Spawn(message@)
                    &&& final(self).daemon() == old(self).daemon()
                },
                (StartState::Settling { pid }, StartEvent::StillRunning) => {
                    &&& r.0 == StartState::Finished
                    &&& r.1 matches StartAction::Finish(Ok(()))
                    &&& final(self).daemon() == Some(pid)
                },
                (StartState::Settling { pid }, StartEvent::ExitedOk) => {
                    &&& r.0 == StartState::Finished
                    &&& r.1 matches StartAction::Finish(Ok(()))
                    &&& final(self).daemon() == Some(pid)
                },
                (StartState::Settling { pid }, StartEvent::ExitedWithFailure { status, stderr }) => {
                    &&& r.0 == StartState::Finished
                    &&& r.1 matches StartAction::Finish(Err(e))
                    &&& e@ == DaemonErrorModel::Crash { status: status@, stderr: trimmed(stderr@) }
                    &&& final(self).daemon() == old(self).daemon()
                },
                (StartState::Settling { pid }, StartEvent::PollFailed(message)) => {
                    &&& r.0 == StartState::Finished
                    &&& r.1 matches StartAction::Finish(Err(e))
                    &&& e@ == DaemonErrorModel::Supervision(message@)
                    &&& final(self).daemon() == old(self).daemon()
                },
                _ => {
                    &&& r.0 == StartState::Finished
                    &&& r.1 matches StartAction::Finish(Err(DaemonError::Supervision(_)))
                    &&& final(self).daemon() == old(self).daemon()
                },
            },
    {
        match (state, event) {
            (StartState::Idle, StartEvent::Begin) => {
                match &self.manifest.daemon {
                    Some(d) => {
                        if d.enabled {
                            let program = join(self.path.as_str(), d.command.as_str());
                            (StartState::Checking, StartAction::CheckExecutable { program })
                        } else {
                            (StartState::Finished, StartAction::Finish(Ok(())))
                        }
                    },
                    None => (StartState::Finished, StartAction::Finish(Ok(()))),
                }
            },
            (StartState::Checking, StartEvent::ExecutableExists(exists)) => {
                match &self.manifest.daemon {
                    Some(d) => {
                        let program = join(self.path.as_str(), d.command.as_str());
                        if exists {
                            (
                                StartState::Spawning,
                                StartAction::Spawn { program, cwd: self.path.clone() },
                            )
                        } else {
                            let mut message = chars_of("Daemon executable not found: ");
                            crate::text::append_chars(&mut message, &chars_of(program.as_str()));
                            (
                                StartState::Finished,
                                StartAction::Finish(
                                    Err(DaemonError::Spawn(string_of(&message))),
                                ),
                            )
                        }
                    },
                    None => (
                        StartState::Finished,
                        StartAction::Finish(
                            Err(DaemonError::Spawn(string_of(&chars_of("No daemon declared")))),
                        ),
                    ),
                }
            },
            (StartState::Spawning, StartEvent::Spawned(pid)) => (
                StartState::Settling { pid },
                StartAction::WaitAndPoll { pid, grace_ms: STARTUP_GRACE_MS },
            ),
            (StartState::Spawning, StartEvent::SpawnFailed(message)) => (
                StartState::Finished,
                StartAction::Finish(Err(DaemonError::Spawn(message))),
            ),
            (StartState::Settling { pid }, StartEvent::StillRunning) => {
                self.daemon_process = Some(pid);
                (StartState::Finished, StartAction::Finish(Ok(())))
            },
            (StartState::Settling { pid }, StartEvent::ExitedOk) => {
                self.daemon_process = Some(pid);
                (StartState::Finished, StartAction::Finish(Ok(())))
            },
            (StartState::Settling { pid }, StartEvent::ExitedWithFailure { status, stderr }) => {
                let text = string_of(&trim(&chars_of(stderr.as_str())));
                (
                    StartState::Finished,
                    StartAction::Finish(Err(DaemonError::Crash { status, stderr: text })),
                )
            },
            (StartState::Settling { pid }, StartEvent::PollFailed(message)) => (
                StartState::Finished,
                StartAction::Finish(Err(DaemonError::Supervision(message))),
            ),
            _ => (
                StartState::Finished,
                StartAction::Finish(
                    Err(
                        DaemonError::Supervision(
                            string_of(&chars_of("Unexpected event while starting daemon")),
                        ),
                    ),
                ),
            ),
        }
    }

    /// Begins to stop the daemon: lets go of the process that is held, if
    /// any, and asks the host to terminate it. Without a daemon nothing is
    /// to be done.
    pub fn begin_stop(&mut self) -> (r: StopAction)
        ensures
            old(self).same_plugin(final(self)),
            final(self).daemon() is None,
            match old(self).daemon() {
                Some(pid) => r matches StopAction::Terminate { pid: p } && p == pid,
                None => r is Nothing,
            },
    {
        match self.daemon_process {
            Some(pid) => {
                self.daemon_process = None;
                StopAction::Terminate { pid }
            },
            None => StopAction::Nothing,
        }
    }

    /// Starts the daemon of the plugin: `host` does what each step asks for
    /// and reports what it observed.
    ///
    /// A plugin without a daemon, or with its daemon switched off, succeeds
    /// at once and is left as it was. Otherwise the host is asked whether
    /// the executable exists, then to start it, then to look at the process
    /// after the grace period, and the start ends as soon as one of its
    /// answers decides it: where it succeeds the daemon that the host
    /// started is held, and where it fails the plugin holds what it held
    /// before. Nothing but the held daemon ever changes.
    pub fn start_daemon<F: Fn(&StartAction) -> StartEvent>(&mut self, host: F) -> (r: Result<
        (),
        DaemonError,
    >)
        requires
            forall|a: &StartAction| call_requires(host, (a,)),
        ensures
            old(self).same_plugin(final(self)),
            !old(self).manifest.wants_daemon() ==> r is Ok && final(self).daemon() == old(
                self,
            ).daemon(),
            old(self).manifest.wants_daemon() && r is Ok ==> final(self).daemon() is Some,
            r is Err ==> final(self).daemon() == old(self).daemon(),
            started_through(*old(self), host, r, final(self).daemon()),
    {
        self.start_with(&host)
    }

    /// Starts the daemon of the plugin as `start_daemon` does, with a host
    /// that is shared with other starts.
    pub(crate) fn start_with<F: Fn(&StartAction) -> StartEvent>(&mut self, host: &F) -> (r: Result<
        (),
        DaemonError,
    >)
        requires
            forall|a: &StartAction| call_requires(*host, (a,)),
        ensures
            old(self).same_plugin(final(self)),
            !old(self).manifest.wants_daemon() ==> r is Ok && final(self).daemon() == old(
                self,
            ).daemon(),
            old(self).manifest.wants_daemon() && r is Ok ==> final(self).daemon() is Some,
            r is Err ==> final(self).daemon() == old(self).daemon(),
            started_through(*old(self), *host, r, final(self).daemon()),
    {
        let ghost before = *self;
        let first = self.start_step(StartState::Idle, StartEvent::Begin);
        let check = match first.1 {
            StartAction::Finish(result) => {
                return result;
            },
            other => other,
        };
        let seen = host(&check);
        let ghost checked = seen;
        let second = self.start_step(first.0, seen);
        let spawn = match second.1 {
            StartAction::Finish(result) => {
                assert(checked_as(before, *host, checked, result, self.daemon()));
                assert(call_ensures(*host, (&check,), checked) && is_check(check, before));
                return result;
            },
            other => other,
        };
        let seen = host(&spawn);
        let ghost spawned = seen;
        let third = self.start_step(second.0, seen);
        let poll = match third.1 {
            StartAction::Finish(result) => {
                assert(spawned_as(before, *host, spawned, result, self.daemon()));
                assert(call_ensures(*host, (&spawn,), spawned) && is_spawn(spawn, before));
                assert(checked_as(before, *host, checked, result, self.daemon()));
                assert(call_ensures(*host, (&check,), checked) && is_check(check, before));
                return result;
            },
            other => other,
        };
        let ghost pid = third.0->pid;
        let seen = host(&poll);
        let ghost settled = seen;
        let last = self.start_step(third.0, seen);
        match last.1 {
            StartAction::Finish(result) => {
                assert(settled_as(before, pid, settled, result, self.daemon()));
                assert(call_ensures(*host, (&poll,), settled) && is_poll(poll, pid));
                assert(spawned_as(before, *host, spawned, result, self.daemon()));
                assert(call_ensures(*host, (&spawn,), spawned) && is_spawn(spawn, before));
                assert(checked_as(before, *host, checked, result, self.daemon()));
                assert(call_ensures(*host, (&check,), checked) && is_check(check, before));
                result
            },
            _ => Err(DaemonError::Supervision(String::new())),
        }
    }

    /// Stops the daemon of the plugin: `host` does what each step asks for
    /// and reports whether the process has exited, or why that cannot be
    /// found out.
    ///
    /// Without a daemon nothing is done and the stop succeeds. Otherwise
    /// the process is asked to exit and looked at every `STOP_POLL_MS`
    /// milliseconds; after `STOP_TIMEOUT_MS` milliseconds it is killed and
    /// reaped. The stop ends as soon as the host reports that the process
    /// has exited, or that it cannot find out. It always comes to an end,
    /// and the plugin holds no daemon afterwards.
    pub fn stop_daemon<F: Fn(&StopAction) -> Result<bool, String>>(&mut self, host: F) -> (r: Result<
        (),
        DaemonError,
    >)
        requires
            forall|a: &StopAction| call_requires(host, (a,)),
        ensures
            old(self).same_plugin(final(self)),
            final(self).daemon() is None,
            old(self).daemon() is None ==> r is Ok,
            stopped_through(*old(self), host, r),
    {
        self.stop_with(&host)
    }

    /// Stops the daemon of the plugin as `stop_daemon` does, with a host
    /// that is shared with other stops.
    pub(crate) fn stop_with<F: Fn(&StopAction) -> Result<bool, String>>(&mut self, host: &F) -> (r: Result<
        (),
        DaemonError,
    >)
        requires
            forall|a: &StopAction| call_requires(*host, (a,)),
        ensures
            old(self).same_plugin(final(self)),
            final(self).daemon() is None,
            old(self).daemon() is None ==> r is Ok,
            stopped_through(*old(self), *host, r),
    {
        match self.begin_stop() {
            StopAction::Terminate { pid } => {
                let ask = StopAction::Terminate { pid };
                let seen = host(&ask);
                proof {
                    assert(call_ensures(*host, (&ask,), seen) && is_terminate(ask, pid));
                }
                stop_after(host, pid, seen, 0)
            },
            _ => Ok(()),
        }
    }
}

/// Goes on with the stop of the process `pid` after the host has answered
/// `exited`, `waited` milliseconds after the process was asked to exit.
fn stop_after<F: Fn(&StopAction) -> Result<bool, String>>(
    host: &F,
    pid: u32,
    exited: Result<bool, String>,
    waited: u64,
) -> (r: Result<(), DaemonError>)
    requires
        forall|a: &StopAction| call_requires(*host, (a,)),
        waited <= STOP_TIMEOUT_MS,
    ensures
        polled_as(*host, pid, exited, waited as int, r),
    decreases STOP_TIMEOUT_MS - waited,
{
    match stop_polled(pid, exited, waited) {
        StopAction::Finish(result) => result,
        StopAction::PollAgain { pid: _, after_ms } => {
            let look = StopAction::PollAgain { pid, after_ms };
            let seen = host(&look);
            let next = if STOP_TIMEOUT_MS - waited < after_ms {
                STOP_TIMEOUT_MS
            } else {
                waited + after_ms
            };
            let r = stop_after(host, pid, seen, next);
            proof {
                assert(next as int == next_look(waited as int));
                assert(call_ensures(*host, (&look,), seen) && is_look(look, pid) && polled_as(
                    *host,
                    pid,
                    seen,
                    next_look(waited as int),
                    r,
                ));
            }
            r
        },
        StopAction::KillAndReap { pid: _ } => {
            let kill = StopAction::KillAndReap { pid };
            let answer = host(&kill);
            let ghost reaped = answer;
            let r = stop_reaped(
                match answer {
                    Ok(_) => Ok(()),
                    Err(message) => Err(message),
                },
            );
            proof {
                assert(call_ensures(*host, (&kill,), reaped) && is_kill(kill, pid) && reaped_as(
                    reaped,
                    r,
                ));
            }
            r
        },
        _ => Ok(()),
    }
}

/// The next step of stopping the process `pid`, `elapsed_ms` milliseconds
/// after it was asked to exit: `exited` says whether it has exited, or why
/// that could not be found out.
///
/// A process that has exited needs nothing more. One that still runs is
/// looked at again after `STOP_POLL_MS` milliseconds, until
/// `STOP_TIMEOUT_MS` milliseconds have passed: from then on it is killed
/// and reaped.
pub fn stop_polled(pid: u32, exited: Result<bool, String>, elapsed_ms: u64) -> (r: StopAction)
    ensures
        match exited {
            Ok(true) => r matches StopAction::Finish(Ok(())),
            Ok(false) => if elapsed_ms >= STOP_TIMEOUT_MS {
                r matches StopAction::KillAndReap { pid: p } && p == pid
            } else {
                r matches StopAction::PollAgain { pid: p, after_ms } && p == pid && after_ms
                    == STOP_POLL_MS
            },
            Err(message) => r matches StopAction::Finish(Err(e)) && e@
                == DaemonErrorModel::Supervision(message@),
        },
{
    match exited {
        Ok(true) => StopAction::Finish(Ok(())),
        Ok(false) => {
            if elapsed_ms >= STOP_TIMEOUT_MS {
                StopAction::KillAndReap { pid }
            } else {
                StopAction::PollAgain { pid, after_ms: STOP_POLL_MS }
            }
        },
        Err(message) => StopAction::Finish(Err(DaemonError::Supervision(message))),
    }
}

/// The result of a stop that ended with killing and reaping: `reaped` is
/// what the host reports of it.
pub fn stop_reaped(reaped: Result<(), String>) -> (r: Result<(), DaemonError>)
    ensures
        match reaped {
            Ok(()) => r is Ok,
            Err(message) => r matches Err(e) && e@ == DaemonErrorModel::Supervision(message@),
        },
{
    match reaped {
        Ok(()) => Ok(()),
        Err(message) => Err(DaemonError::Supervision(message)),
    }
}

/// The number of looks at a daemon that still runs before it is killed,
/// when the host looks every `STOP_POLL_MS` milliseconds.
pub open spec fn polls_before_kill() -> nat {
    (STOP_TIMEOUT_MS / STOP_POLL_MS) as nat
}

/// A daemon that does not exit is looked at a bounded number of times: the
/// look after `k` intervals asks for another look exactly while `k` is below
/// `polls_before_kill()`, and for the kill from then on.
pub proof fn lemma_stop_is_bounded(k: nat)
    ensures
        k * STOP_POLL_MS >= STOP_TIMEOUT_MS <==> k >= polls_before_kill(),
        polls_before_kill() == 40,
{
}

} // verus!
