//! Recovery of daemons that a previous run of the host left behind.
//!
//! The host keeps a plain-text registry with the process ids of the daemons
//! it started, one per line. On the next start the processes that are still
//! alive are asked to exit and, after a grace period, killed; then the
//! registry is removed.

use vstd::prelude::*;
use crate::text::{
    append_chars, chars_of, decimal_digits, digits_of, lemma_digits_round_trip, parse_i32,
    parsed_i32, split, split_on, string_of, trim, trimmed, views,
};

verus! {

/// How long an orphan is given to exit after it was asked to, in milliseconds.
pub const ORPHAN_GRACE_MS: u64 = 100;

/// The process id that the line `line` names: the line without the white
/// space around it, where that is a number above zero. Zero and the
/// negative numbers name no process but a group of them, and are no ids.
pub open spec fn pid_of_line(line: Seq<char>) -> Option<i32> {
    match parsed_i32(trimmed(line)) {
        Some(pid) => if pid > 0 {
            Some(pid)
        } else {
            None
        },
        None => None,
    }
}

/// The process ids among `lines`, in order; a line that names none is skipped.
pub open spec fn pids_of_lines(lines: Seq<Seq<char>>) -> Seq<i32>
    decreases lines.len(),
{
    if lines.len() == 0 {
        Seq::empty()
    } else {
        let before = pids_of_lines(lines.drop_last());
        match pid_of_line(lines.last()) {
            Some(pid) => before.push(pid),
            None => before,
        }
    }
}

/// Every process id among `lines` is above zero and stands on one of the lines.
pub proof fn lemma_pids_named(lines: Seq<Seq<char>>)
    ensures
        forall|k: int|
            0 <= k < pids_of_lines(lines).len() ==> (#[trigger] pids_of_lines(lines)[k]) > 0
                && exists|i: int|
                0 <= i < lines.len() && pid_of_line(lines[i]) == Some(pids_of_lines(lines)[k]),
    decreases lines.len(),
{
    if lines.len() > 0 {
        let before = lines.drop_last();
        lemma_pids_named(before);
        let found = pids_of_lines(lines);
        assert forall|k: int| 0 <= k < found.len() implies (#[trigger] found[k]) > 0 && exists|
            i: int,
        |
            0 <= i < lines.len() && pid_of_line(lines[i]) == Some(found[k]) by {
            if k < pids_of_lines(before).len() {
                assert(found[k] == pids_of_lines(before)[k]);
                let i = choose|i: int|
                    0 <= i < before.len() && pid_of_line(before[i]) == Some(
                        pids_of_lines(before)[k],
                    );
                assert(lines[i] == before[i]);
            } else {
                assert(pid_of_line(lines[lines.len() - 1]) == Some(found[k]));
            }
        }
    }
}

/// The process ids that a registry with the content `content` names.
pub open spec fn registry_pids(content: Seq<char>) -> Seq<i32> {
    pids_of_lines(split_on(content, '\n'))
}

/// The process ids that a registry with the content `content` names, in
/// order: one for each line that holds a number above zero.
pub fn orphan_pids(content: &str) -> (r: Vec<i32>)
    ensures
        r@ == registry_pids(content@),
        forall|k: int| 0 <= k < r@.len() ==> (#[trigger] r@[k]) > 0,
{
    let lines = split(&chars_of(content), '\n');
    let mut r: Vec<i32> = Vec::new();
    let mut i: usize = 0;
    while i < lines.len()
        invariant
            i <= lines.len(),
            r@ == pids_of_lines(views(lines@).take(i as int)),
        decreases lines.len() - i,
    {
        proof {
            let next = views(lines@).take(i + 1);
            assert(next.drop_last() == views(lines@).take(i as int));
            assert(next.last() == lines@[i as int]@);
        }
        match parse_i32(&trim(&lines[i])) {
            Some(pid) => {
                if pid > 0 {
                    r.push(pid);
                }
            },
            None => {},
        }
        i += 1;
    }
    proof {
        assert(views(lines@).take(lines.len() as int) == views(lines@));
        lemma_pids_named(views(lines@));
    }
    r
}

/// The content of the registry for the process ids `pids`: their decimal
/// forms, one per line, with a line feed between them.
pub open spec fn registry_content(pids: Seq<u32>) -> Seq<char>
    decreases pids.len(),
{
    if pids.len() == 0 {
        Seq::empty()
    } else if pids.len() == 1 {
        digits_of(pids[0] as nat)
    } else {
        registry_content(pids.drop_last()).push('\n') + digits_of(pids.last() as nat)
    }
}

/// The content of the registry for the process ids `pids`.
pub fn daemon_pids_content(pids: &Vec<u32>) -> (r: String)
    ensures
        r@ == registry_content(pids@),
{
    let mut out: Vec<char> = Vec::new();
    let mut i: usize = 0;
    while i < pids.len()
        invariant
            i <= pids.len(),
            out@ == registry_content(pids@.take(i as int)),
        decreases pids.len() - i,
    {
        proof {
            let next = pids@.take(i + 1);
            assert(next.drop_last() == pids@.take(i as int));
            assert(next.last() == pids@[i as int]);
            if i == 0 {
                assert(next[0] == pids@[0]);
            }
        }
        if i > 0 {
            out.push('\n');
        }
        append_chars(&mut out, &decimal_digits(pids[i] as u64));
        i += 1;
    }
    assert(pids@.take(pids.len() as int) == pids@);
    string_of(&out)
}

/// What the host has to do next during orphan recovery.
#[derive(Debug, Clone, Copy, PartialEq, Eq, Structural)]
pub enum OrphanAction {
    /// Report whether the process `pid` is alive.
    Probe { pid: i32 },
    /// Ask `pid` to exit, wait `grace_ms` milliseconds, and report whether
    /// it is still alive.
    Terminate { pid: i32, grace_ms: u64 },
    /// Kill `pid`; then go on.
    Kill { pid: i32 },
    /// Remove the registry; then go on.
    RemoveRegistry,
    /// The recovery has ended.
    Done,
}

/// The process that the action `action` is about, if it is about one.
pub open spec fn named_pid(action: OrphanAction) -> Option<i32> {
    match action {
        OrphanAction::Probe { pid } => Some(pid),
        OrphanAction::Terminate { pid, .. } => Some(pid),
        OrphanAction::Kill { pid } => Some(pid),
        OrphanAction::RemoveRegistry => None,
        OrphanAction::Done => None,
    }
}

/// The action `action` is about no process, or about one that the
/// registry with the content `content` names with a number above zero.
pub open spec fn about_registered(action: OrphanAction, content: Option<&str>) -> bool {
    match named_pid(action) {
        Some(pid) => pid > 0 && match content {
            Some(text) => registry_pids(text@).contains(pid),
            None => false,
        },
        None => true,
    }
}

/// Where the recovery stands.
#[derive(Debug, Clone, Copy, PartialEq, Eq, Structural)]
pub enum OrphanPhase {
    /// The next process is to be looked at.
    Next,
    /// The host was asked whether the current process is alive.
    Probed,
    /// The host was asked to terminate the current process.
    Terminated,
    /// The host was asked to remove the registry.
    Removing,
    /// The recovery has ended.
    Finished,
}

/// The recovery of the orphans that a registry names.
#[derive(Debug)]
pub struct OrphanRecovery {
    pids: Vec<i32>,
    next: usize,
    phase: OrphanPhase,
}

impl OrphanRecovery {
    #[verifier::type_invariant]
    spec fn well_formed(self) -> bool {
        &&& self.next <= self.pids@.len()
        &&& (self.phase is Probed || self.phase is Terminated) ==> self.next < self.pids@.len()
    }

    /// The process ids that the registry named.
    pub closed spec fn pids(&self) -> Seq<i32> {
        self.pids@
    }

    /// The number of processes that are dealt with.
    pub closed spec fn handled(&self) -> nat {
        self.next as nat
    }

    /// Where the recovery stands.
    pub closed spec fn phase(&self) -> OrphanPhase {
        self.phase
    }

    /// An upper bound on the number of steps that are still to come.
    pub open spec fn steps_left(&self) -> nat {
        match self.phase() {
            OrphanPhase::Next => (3 * (self.pids().len() - self.handled()) + 3) as nat,
            OrphanPhase::Probed => (3 * (self.pids().len() - self.handled()) + 2) as nat,
            OrphanPhase::Terminated => (3 * (self.pids().len() - self.handled()) + 1) as nat,
            OrphanPhase::Removing => 1,
            OrphanPhase::Finished => 0,
        }
    }

    /// The recovery for a registry that the host read: `content` is its
    /// text, or `None` where there is no registry that can be read. Without
    /// a registry there is nothing to recover and nothing to remove.
    pub fn new(content: Option<&str>) -> (r: OrphanRecovery)
        ensures
            r.handled() == 0,
            match content {
                Some(text) => r.pids() == registry_pids(text@) && r.phase() == OrphanPhase::Next,
                None => r.pids().len() == 0 && r.phase() == OrphanPhase::Finished,
            },
    {
        match content {
            Some(text) => OrphanRecovery { pids: orphan_pids(text), next: 0, phase: OrphanPhase::Next },
            None => OrphanRecovery { pids: Vec::new(), next: 0, phase: OrphanPhase::Finished },
        }
    }

    /// One step of the recovery: `alive` is the host's answer to the last
    /// `Probe` or `Terminate`, and is not looked at otherwise.
    ///
    /// Each process is probed. One that is not alive is left alone. One
    /// that is alive is asked to exit and, if it is still alive after the
    /// grace period, killed. After the last process the registry is
    /// removed, and then the recovery is done. Every step brings the end
    /// nearer, whatever the host answers, and no step is about a process
    /// that the registry did not name.
    pub fn step(&mut self, alive: bool) -> (r: OrphanAction)
        ensures
            final(self).pids() == old(self).pids(),
            named_pid(r) matches Some(pid) ==> old(self).pids().contains(pid),
            old(self).phase() != OrphanPhase::Finished ==> final(self).steps_left() < old(
                self,
            ).steps_left(),
            match old(self).phase() {
                OrphanPhase::Next => if old(self).handled() < old(self).pids().len() {
                    &&& r == OrphanAction::Probe { pid: old(self).pids()[old(self).handled() as int] }
                    &&& final(self).phase() == OrphanPhase::Probed
                    &&& final(self).handled() == old(self).handled()
                } else {
                    &&& r == OrphanAction::RemoveRegistry
                    &&& final(self).phase() == OrphanPhase::Removing
                },
                OrphanPhase::Probed => if alive {
                    &&& r == OrphanAction::Terminate {
                        pid: old(self).pids()[old(self).handled() as int],
                        grace_ms: ORPHAN_GRACE_MS,
                    }
                    &&& final(self).phase() == OrphanPhase::Terminated
                    &&& final(self).handled() == old(self).handled()
                } else {
                    &&& final(self).handled() == old(self).handled() + 1
                    &&& if final(self).handled() < old(self).pids().len() {
                        r == OrphanAction::Probe { pid: old(self).pids()[final(self).handled() as int] }
                            && final(self).phase() == OrphanPhase::Probed
                    } else {
                        r == OrphanAction::RemoveRegistry && final(self).phase()
                            == OrphanPhase::Removing
                    }
                },
                OrphanPhase::Terminated => {
                    &&& final(self).handled() == old(self).handled() + 1
                    &&& if alive {
                        r == OrphanAction::Kill { pid: old(self).pids()[old(self).handled() as int] }
                            && final(self).phase() == OrphanPhase::Next
                    } else if final(self).handled() < old(self).pids().len() {
                        r == OrphanAction::Probe { pid: old(self).pids()[final(self).handled() as int] }
                            && final(self).phase() == OrphanPhase::Probed
                    } else {
                        r == OrphanAction::RemoveRegistry && final(self).phase()
                            == OrphanPhase::Removing
                    }
                },
                OrphanPhase::Removing => r == OrphanAction::Done && final(self).phase()
                    == OrphanPhase::Finished,
                OrphanPhase::Finished => r == OrphanAction::Done && final(self).phase()
                    == OrphanPhase::Finished,
            },
    {
        proof {
            use_type_invariant(&*self);
        }
        let len = self.pids.len();
        let current = self.next;
        match self.phase {
            OrphanPhase::Next => {
                if current < len {
                    let pid = self.pids[current];
                    self.phase = OrphanPhase::Probed;
                    OrphanAction::Probe { pid }
                } else {
                    self.phase = OrphanPhase::Removing;
                    OrphanAction::RemoveRegistry
                }
            },
            OrphanPhase::Probed => {
                if alive {
                    let pid = self.pids[current];
                    self.phase = OrphanPhase::Terminated;
                    OrphanAction::Terminate { pid, grace_ms: ORPHAN_GRACE_MS }
                } else {
                    self.phase = OrphanPhase::Next;
                    self.next = current + 1;
                    if current + 1 < len {
                        let pid = self.pids[current + 1];
                        self.phase = OrphanPhase::Probed;
                        OrphanAction::Probe { pid }
                    } else {
                        self.phase = OrphanPhase::Removing;
                        OrphanAction::RemoveRegistry
                    }
                }
            },
            OrphanPhase::Terminated => {
                let pid = self.pids[current];
                self.phase = OrphanPhase::Next;
                self.next = current + 1;
                if alive {
                    OrphanAction::Kill { pid }
                } else if current + 1 < len {
                    let following = self.pids[current + 1];
                    self.phase = OrphanPhase::Probed;
                    OrphanAction::Probe { pid: following }
                } else {
                    self.phase = OrphanPhase::Removing;
                    OrphanAction::RemoveRegistry
                }
            },
            OrphanPhase::Removing => {
                self.phase = OrphanPhase::Finished;
                OrphanAction::Done
            },
            OrphanPhase::Finished => OrphanAction::Done,
        }
    }
}

/// The processes that the actions `log` probe, in order.
pub open spec fn probed(log: Seq<OrphanAction>) -> Seq<i32>
    decreases log.len(),
{
    if log.len() == 0 {
        Seq::empty()
    } else {
        let before = probed(log.drop_last());
        match log.last() {
            OrphanAction::Probe { pid } => before.push(pid),
            _ => before,
        }
    }
}

/// In `log` a process is asked to exit only directly after it was probed,
/// with the grace period `ORPHAN_GRACE_MS`, and killed only directly after
/// it was asked to exit.
pub open spec fn in_sequence(log: Seq<OrphanAction>) -> bool {
    forall|i: int|
        0 <= i < log.len() ==> match #[trigger] log[i] {
            OrphanAction::Terminate { pid, grace_ms } => grace_ms == ORPHAN_GRACE_MS && i > 0
                && log[i - 1] == (OrphanAction::Probe { pid }),
            OrphanAction::Kill { pid } => i > 0 && log[i - 1] == (OrphanAction::Terminate {
                pid,
                grace_ms: ORPHAN_GRACE_MS,
            }),
            _ => true,
        }
}

/// What follows the action `log[i]` is what `host` answered to it: a
/// process is asked to exit exactly if the host reported it alive when it
/// was probed, and killed exactly if the host reported it alive after the
/// grace period.
pub open spec fn heeded<F: Fn(OrphanAction) -> bool>(log: Seq<OrphanAction>, host: F, i: int) -> bool {
    match log[i] {
        OrphanAction::Probe { .. } => call_ensures(host, (log[i],), log[i + 1] is Terminate),
        OrphanAction::Terminate { .. } => call_ensures(host, (log[i],), log[i + 1] is Kill),
        _ => true,
    }
}

/// Every action of `log` but the last is followed by what `host` answered to it.
pub open spec fn heeds<F: Fn(OrphanAction) -> bool>(log: Seq<OrphanAction>, host: F) -> bool {
    forall|i: int| 0 <= i && i + 1 < log.len() ==> #[trigger] heeded(log, host, i)
}

/// `log` is what a recovery asks of `host` for a registry with the text
/// `content`, or for none.
///
/// Without a registry nothing is asked. With one, the processes that are
/// probed are those that the registry names, in its order; a process is
/// asked to exit directly after it was probed, exactly if the host reported
/// it alive, and killed directly after that, exactly if the host reported
/// it alive again; and the last thing asked, and only the last, is to
/// remove the registry.
pub open spec fn is_recovery<F: Fn(OrphanAction) -> bool>(
    log: Seq<OrphanAction>,
    content: Option<&str>,
    host: F,
) -> bool {
    &&& in_sequence(log)
    &&& heeds(log, host)
    &&& forall|i: int| 0 <= i < log.len() ==> (#[trigger] log[i]) != OrphanAction::Done
    &&& forall|i: int| 0 <= i < log.len() - 1 ==> (#[trigger] log[i]) != OrphanAction::RemoveRegistry
    &&& match content {
        Some(text) => probed(log) == registry_pids(text@) && log.len() >= 1 && log.last()
            == OrphanAction::RemoveRegistry,
        None => log.len() == 0,
    }
}

/// Every process that `log` probes is probed by one of its actions.
pub proof fn lemma_probed_logged(log: Seq<OrphanAction>)
    ensures
        forall|k: int|
            0 <= k < probed(log).len() ==> log.contains(
                OrphanAction::Probe { pid: #[trigger] probed(log)[k] },
            ),
    decreases log.len(),
{
    if log.len() > 0 {
        let before = log.drop_last();
        lemma_probed_logged(before);
        assert forall|k: int| 0 <= k < probed(log).len() implies log.contains(
            OrphanAction::Probe { pid: #[trigger] probed(log)[k] },
        ) by {
            if k < probed(before).len() {
                let wanted = OrphanAction::Probe { pid: probed(before)[k] };
                assert(before.contains(wanted));
                let i = choose|i: int| 0 <= i < before.len() && before[i] == wanted;
                assert(log[i] == wanted);
            } else {
                assert(log[log.len() - 1] == (OrphanAction::Probe { pid: probed(log)[k] }));
            }
        }
    }
}

/// Where the recovery stands after the actions `log`, of which the last
/// is still unanswered: the processes `named` up to the current one are
/// probed, and the last action is the one that the phase waits for.
spec fn logged_upto(
    log: Seq<OrphanAction>,
    named: Seq<i32>,
    handled: int,
    phase: OrphanPhase,
) -> bool {
    &&& 0 <= handled
    &&& orderly(log)
    &&& match phase {
        OrphanPhase::Next => handled <= named.len() && probed(log) == named.take(handled)
            && !log.contains(OrphanAction::RemoveRegistry) && (log.len() > 0 ==> log.last() is Kill),
        OrphanPhase::Probed => handled < named.len() && probed(log) == named.take(handled + 1)
            && log.len() > 0 && log.last() == (OrphanAction::Probe { pid: named[handled] })
            && !log.contains(OrphanAction::RemoveRegistry),
        OrphanPhase::Terminated => handled < named.len() && probed(log) == named.take(
            handled + 1,
        ) && log.len() > 0 && log.last() == (OrphanAction::Terminate {
            pid: named[handled],
            grace_ms: ORPHAN_GRACE_MS,
        }) && !log.contains(OrphanAction::RemoveRegistry),
        OrphanPhase::Removing => probed(log) == named && log.len() > 0 && log.last()
            == OrphanAction::RemoveRegistry && !log.drop_last().contains(
            OrphanAction::RemoveRegistry,
        ),
        OrphanPhase::Finished => log.len() == 0,
    }
}

/// One more action, logged after the host answered `alive` to the last
/// one, leaves the log in step with the recovery.
proof fn lemma_logged_step<F: Fn(OrphanAction) -> bool>(
    log: Seq<OrphanAction>,
    named: Seq<i32>,
    handled: int,
    phase: OrphanPhase,
    alive: bool,
    host: F,
    action: OrphanAction,
    next_handled: int,
    next_phase: OrphanPhase,
)
    requires
        logged_upto(log, named, handled, phase),
        heedful(log, host),
        (phase is Probed || phase is Terminated) ==> call_ensures(host, (log.last(),), alive),
        action != OrphanAction::Done,
        0 <= next_handled,
        match phase {
            OrphanPhase::Next => if handled < named.len() {
                &&& action == OrphanAction::Probe { pid: named[handled] }
                &&& next_phase == OrphanPhase::Probed
                &&& next_handled == handled
            } else {
                &&& action == OrphanAction::RemoveRegistry
                &&& next_phase == OrphanPhase::Removing
            },
            OrphanPhase::Probed => if alive {
                &&& action == OrphanAction::Terminate {
                    pid: named[handled],
                    grace_ms: ORPHAN_GRACE_MS,
                }
                &&& next_phase == OrphanPhase::Terminated
                &&& next_handled == handled
            } else {
                &&& next_handled == handled + 1
                &&& if next_handled < named.len() {
                    action == OrphanAction::Probe { pid: named[next_handled] }
                        && next_phase == OrphanPhase::Probed
                } else {
                    action == OrphanAction::RemoveRegistry && next_phase == OrphanPhase::Removing
                }
            },
            OrphanPhase::Terminated => {
                &&& next_handled == handled + 1
                &&& if alive {
                    action == OrphanAction::Kill { pid: named[handled] } && next_phase
                        == OrphanPhase::Next
                } else if next_handled < named.len() {
                    action == OrphanAction::Probe { pid: named[next_handled] }
                        && next_phase == OrphanPhase::Probed
                } else {
                    action == OrphanAction::RemoveRegistry && next_phase == OrphanPhase::Removing
                }
            },
            OrphanPhase::Removing => false,
            OrphanPhase::Finished => false,
        },
    ensures
        logged_upto(log.push(action), named, next_handled, next_phase),
        heedful(log.push(action), host),
{
    let grown = log.push(action);
    assert(grown.drop_last() == log);
    assert(grown.last() == action);
    assert(named.take(named.len() as int) == named);
    if handled < named.len() {
        assert(named.take(handled).push(named[handled]) == named.take(handled + 1));
    }
    if handled + 1 < named.len() {
        assert(named.take(handled + 1).push(named[handled + 1]) == named.take(handled + 2));
    }
    lemma_in_sequence_push(log, action);
    lemma_heeds_push(log, host, action, alive);
    lemma_removal_push(log, action);
    assert(probed(grown) == match action {
        OrphanAction::Probe { pid } => probed(log).push(pid),
        _ => probed(log),
    });
}

/// The log is in sequence and asks for no end.
#[verifier::opaque]
spec fn orderly(log: Seq<OrphanAction>) -> bool {
    in_sequence(log) && forall|i: int| 0 <= i < log.len() ==> (#[trigger] log[i])
        != OrphanAction::Done
}

/// The log is in step with the host's answers.
#[verifier::opaque]
spec fn heedful<F: Fn(OrphanAction) -> bool>(log: Seq<OrphanAction>, host: F) -> bool {
    heeds(log, host)
}

/// An action that may follow the last one of a log keeps the log in sequence.
proof fn lemma_in_sequence_push(log: Seq<OrphanAction>, action: OrphanAction)
    requires
        orderly(log),
        action != OrphanAction::Done,
        match action {
            OrphanAction::Terminate { pid, grace_ms } => grace_ms == ORPHAN_GRACE_MS && log.len()
                > 0 && log.last() == (OrphanAction::Probe { pid }),
            OrphanAction::Kill { pid } => log.len() > 0 && log.last() == (OrphanAction::Terminate {
                pid,
                grace_ms: ORPHAN_GRACE_MS,
            }),
            _ => true,
        },
    ensures
        orderly(log.push(action)),
{
    reveal(orderly);
    let grown = log.push(action);
    assert forall|i: int| 0 <= i < grown.len() implies (#[trigger] grown[i])
        != OrphanAction::Done by {
        if i < log.len() {
            assert(grown[i] == log[i]);
        }
    }
    assert forall|i: int| 0 <= i < grown.len() implies match #[trigger] grown[i] {
        OrphanAction::Terminate { pid, grace_ms } => grace_ms == ORPHAN_GRACE_MS && i > 0
            && grown[i - 1] == (OrphanAction::Probe { pid }),
        OrphanAction::Kill { pid } => i > 0 && grown[i - 1] == (OrphanAction::Terminate {
            pid,
            grace_ms: ORPHAN_GRACE_MS,
        }),
        _ => true,
    } by {
        if i < log.len() {
            assert(grown[i] == log[i]);
            if i > 0 {
                assert(grown[i - 1] == log[i - 1]);
            }
        } else if log.len() > 0 {
            assert(grown[i - 1] == log.last());
        }
    }
}

/// An action that is what the host's answer to the last one asks for
/// keeps the log in step with the host's answers.
proof fn lemma_heeds_push<F: Fn(OrphanAction) -> bool>(
    log: Seq<OrphanAction>,
    host: F,
    action: OrphanAction,
    alive: bool,
)
    requires
        heedful(log, host),
        log.len() > 0 ==> match log.last() {
            OrphanAction::Probe { .. } => call_ensures(host, (log.last(),), alive) && alive
                == action is Terminate,
            OrphanAction::Terminate { .. } => call_ensures(host, (log.last(),), alive) && alive
                == action is Kill,
            _ => true,
        },
    ensures
        heedful(log.push(action), host),
{
    reveal(heedful);
    let grown = log.push(action);
    assert forall|i: int| 0 <= i && i + 1 < grown.len() implies #[trigger] heeded(
        grown,
        host,
        i,
    ) by {
        assert(grown[i] == log[i]);
        if i + 1 < log.len() {
            assert(grown[i + 1] == log[i + 1]);
            assert(heeded(log, host, i));
        } else {
            assert(grown[i + 1] == action);
            assert(log[i] == log.last());
        }
    }
}

/// A log without a request to remove the registry gets one only as its
/// last action.
proof fn lemma_removal_push(log: Seq<OrphanAction>, action: OrphanAction)
    requires
        !log.contains(OrphanAction::RemoveRegistry),
    ensures
        !log.push(action).drop_last().contains(OrphanAction::RemoveRegistry),
        action != OrphanAction::RemoveRegistry ==> !log.push(action).contains(
            OrphanAction::RemoveRegistry,
        ),
{
    let grown = log.push(action);
    assert(grown.drop_last() == log);
    if grown.contains(OrphanAction::RemoveRegistry) {
        let i = choose|i: int| 0 <= i < grown.len() && grown[i] == OrphanAction::RemoveRegistry;
        if i < log.len() {
            assert(log[i] == OrphanAction::RemoveRegistry);
        }
    }
}

/// Recovers the orphans that a registry names: `content` is the text of the
/// registry, or `None` where there is none that can be read, and `host`
/// does what each step asks for and reports whether the process of the
/// step is alive.
///
/// Without a registry nothing is asked of the host. With one, every process
/// that it names with a number above zero is probed, in the order of the
/// registry, and no other. A process is asked to exit exactly if the host
/// reported it alive, directly after it was probed, and killed exactly if
/// the host reported it alive again after the grace period. The last thing
/// asked is to remove the registry, and it is asked once. The recovery
/// always comes to an end, whatever the host reports. Returns what was
/// asked of the host, in order.
pub fn kill_orphan_daemons<F: Fn(OrphanAction) -> bool>(content: Option<&str>, host: F) -> (log: Vec<
    OrphanAction,
>)
    requires
        forall|a: OrphanAction| call_requires(host, (a,)),
    ensures
        is_recovery(log@, content, host),
        content is None ==> log@.len() == 0,
        content matches Some(text) ==> probed(log@) == registry_pids(text@),
        content matches Some(text) ==> forall|k: int|
            0 <= k < registry_pids(text@).len() ==> log@.contains(
                OrphanAction::Probe { pid: #[trigger] registry_pids(text@)[k] },
            ),
        in_sequence(log@),
        heeds(log@, host),
        content is Some ==> log@.len() >= 1 && log@.last() == OrphanAction::RemoveRegistry,
        forall|i: int| 0 <= i < log@.len() ==> log@[i] != OrphanAction::Done,
        forall|i: int|
            0 <= i < log@.len() - 1 ==> (#[trigger] log@[i]) != OrphanAction::RemoveRegistry,
        forall|i: int| 0 <= i < log@.len() ==> about_registered(#[trigger] log@[i], content),
{
    let mut recovery = OrphanRecovery::new(content);
    let ghost named = recovery.pids();
    proof {
        match content {
            Some(text) => {
                lemma_pids_named(split_on(text@, '\n'));
            },
            None => {},
        }
        assert(named.take(0) =~= Seq::<i32>::empty());
    }
    let mut log: Vec<OrphanAction> = Vec::new();
    let mut alive = false;
    proof {
        reveal(orderly);
        reveal(heedful);
    }
    loop
        invariant
            forall|a: OrphanAction| call_requires(host, (a,)),
            logged_upto(log@, named, recovery.handled() as int, recovery.phase()),
            heedful(log@, host),
            (recovery.phase() is Probed || recovery.phase() is Terminated) ==> call_ensures(
                host,
                (log@.last(),),
                alive,
            ),
            content is None <==> recovery.phase() == OrphanPhase::Finished,
            recovery.pids() == named,
            content matches Some(text) ==> named == registry_pids(text@),
            forall|k: int| 0 <= k < named.len() ==> (#[trigger] named[k]) > 0,
            forall|i: int| 0 <= i < log@.len() ==> about_registered(#[trigger] log@[i], content),
        decreases recovery.steps_left(),
    {
        let ghost before = log@;
        let ghost handled = recovery.handled() as int;
        let ghost phase = recovery.phase();
        let action = recovery.step(alive);
        match action {
            OrphanAction::Done => {
                proof {
                    reveal(orderly);
                    reveal(heedful);
                    if content is Some {
                        assert(phase == OrphanPhase::Removing);
                        assert forall|i: int| 0 <= i < log@.len() - 1 implies (#[trigger] log@[i])
                            != OrphanAction::RemoveRegistry by {
                            assert(log@.drop_last()[i] == log@[i]);
                        }
                        lemma_probed_logged(log@);
                    }
                }
                return log;
            },
            other => {
                proof {
                    lemma_logged_step(
                        before,
                        named,
                        handled,
                        phase,
                        alive,
                        host,
                        other,
                        recovery.handled() as int,
                        recovery.phase(),
                    );
                }
                log.push(other);
                alive = host(other);
                proof {
                    assert(log@.last() == other);
                    assert forall|i: int| 0 <= i < log@.len() implies about_registered(
                        #[trigger] log@[i],
                        content,
                    ) by {
                        if i < before.len() {
                            assert(log@[i] == before[i]);
                        } else if let Some(pid) = named_pid(other) {
                            let k = choose|k: int| 0 <= k < named.len() && named[k] == pid;
                            assert(named[k] > 0);
                        }
                    }
                }
            },
        }
    }
}

/// A registry written for some process ids names exactly those ids again,
/// as long as each is above zero and fits a signed process id.
pub proof fn lemma_registry_round_trip(pids: Seq<u32>)
    requires
        forall|i: int| 0 <= i < pids.len() ==> 0 < (#[trigger] pids[i]) <= i32::MAX,
    ensures
        registry_pids(registry_content(pids)) == pids.map_values(|p: u32| p as i32),
    decreases pids.len(),
{
    let wanted = pids.map_values(|p: u32| p as i32);
    if pids.len() == 0 {
        let content = registry_content(pids);
        assert(split_on(content, '\n') =~= seq![Seq::<char>::empty()]);
        assert(split_on(content, '\n').drop_last() =~= Seq::<Seq<char>>::empty());
        let lines = split_on(content, '\n');
        assert(lines.last() =~= Seq::<char>::empty());
        assert(trimmed(Seq::<char>::empty()) =~= Seq::<char>::empty());
        assert(parsed_i32(Seq::<char>::empty()) is None);
        assert(pid_of_line(lines.last()) is None);
        assert(pids_of_lines(lines.drop_last()) =~= Seq::<i32>::empty());
        assert(pids_of_lines(lines) =~= Seq::<i32>::empty());
        assert(registry_pids(content) =~= wanted);
    } else {
        let last = pids.last();
        let digits = digits_of(last as nat);
        lemma_digits_round_trip(last as nat);
        lemma_number_line(digits);
        if pids.len() == 1 {
            lemma_split_after(Seq::<char>::empty(), digits);
            assert(Seq::<char>::empty() + digits =~= digits);
            assert(split_on(Seq::<char>::empty(), '\n') =~= seq![Seq::<char>::empty()]);
            let lines = split_on(digits, '\n');
            assert(lines =~= seq![digits]);
            assert(lines.drop_last() =~= Seq::<Seq<char>>::empty());
            assert(lines.last() == digits);
            assert(pids_of_lines(lines.drop_last()) =~= Seq::<i32>::empty());
            assert(pid_of_line(digits) == Some(last as i32));
            assert(pids_of_lines(lines) =~= seq![last as i32]);
            assert(wanted =~= seq![last as i32]);
            assert(registry_pids(registry_content(pids)) =~= wanted);
        } else {
            let before = pids.drop_last();
            lemma_registry_round_trip(before);
            let head = registry_content(before);
            let content = head.push('\n') + digits;
            lemma_split_after(head.push('\n'), digits);
            assert(head.push('\n').drop_last() == head);
            let head_lines = split_on(head, '\n');
            crate::text::lemma_split_nonempty(head, '\n');
            let opened = split_on(head.push('\n'), '\n');
            assert(opened == head_lines.push(Seq::<char>::empty()));
            assert(opened.drop_last() == head_lines);
            let lines = split_on(content, '\n');
            assert(lines == head_lines.push(Seq::<char>::empty() + digits));
            assert(Seq::<char>::empty() + digits =~= digits);
            assert(lines.drop_last() == head_lines);
            assert(lines.last() == digits);
            assert(pid_of_line(digits) == Some(last as i32));
            assert(before.map_values(|p: u32| p as i32).push(last as i32) =~= wanted);
        }
    }
}

/// A string of digits that writes a number `n` of at most `i32::MAX` is a
/// line that names the process id `n`.
pub proof fn lemma_number_line(digits: Seq<char>)
    requires
        digits.len() > 0,
        crate::text::all_digits(digits),
        crate::text::decimal_value(digits) <= i32::MAX,
    ensures
        parsed_i32(trimmed(digits)) == Some(crate::text::decimal_value(digits) as i32),
{
    assert(crate::text::is_digit(digits[0]));
    assert(crate::text::is_digit(digits[digits.len() - 1]));
    assert(!crate::text::is_space(digits.first()));
    assert(!crate::text::is_space(digits.last()));
    assert(crate::text::trim_start_of(digits) == digits);
    assert(crate::text::trim_end_of(digits) == digits);
    assert(digits.first() != '-' && digits.first() != '+');
}

/// Text without a line feed, put after other text, extends that text's last line.
pub proof fn lemma_split_after(head: Seq<char>, tail: Seq<char>)
    requires
        forall|i: int| 0 <= i < tail.len() ==> tail[i] != '\n',
    ensures
        split_on(head + tail, '\n') == split_on(head, '\n').drop_last().push(
            split_on(head, '\n').last() + tail,
        ),
    decreases tail.len(),
{
    crate::text::lemma_split_nonempty(head, '\n');
    let lines = split_on(head, '\n');
    if tail.len() == 0 {
        assert(head + tail =~= head);
        assert(lines.last() + tail =~= lines.last());
        assert(lines.drop_last().push(lines.last()) =~= lines);
    } else {
        lemma_split_after(head, tail.drop_last());
        let shorter = head + tail.drop_last();
        assert((head + tail).drop_last() =~= shorter);
        assert((head + tail).last() == tail.last());
        let before = split_on(shorter, '\n');
        assert(before == lines.drop_last().push(lines.last() + tail.drop_last()));
        assert(before.drop_last() =~= lines.drop_last());
        assert(before.last().push(tail.last()) =~= lines.last() + tail);
    }
}

} // verus!
