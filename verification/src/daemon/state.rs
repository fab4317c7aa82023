//! The state of the search for plugins, shared between the threads of the host.

use std::sync::RwLock;
use vstd::prelude::*;
use crate::daemon::DiscoveredPluginInfo;

verus! {

/// Where the search for plugins stands.
#[derive(Debug, Clone, Copy, PartialEq, Eq, Structural)]
pub enum DiscoveryStatus {
    Idle,
    Discovering,
    Complete,
}

/// The search for plugins: where it stands and what it found last.
#[derive(Debug, Clone)]
pub struct DiscoveryState {
    pub status: DiscoveryStatus,
    pub plugins: Vec<DiscoveredPluginInfo>,
}

impl Default for DiscoveryState {
    fn default() -> (r: Self)
        ensures
            r.status == DiscoveryStatus::Idle,
            r.plugins@.len() == 0,
    {
        Self { status: DiscoveryStatus::Idle, plugins: Vec::new() }
    }
}

/// The reader-writer lock of the standard library.
#[verifier::external_type_specification]
#[verifier::external_body]
#[verifier::reject_recursive_types(T)]
pub struct ExRwLock<T: ?Sized>(RwLock<T>);

/// The state around which the lock `lock` was made.
pub uninterp spec fn made_around(lock: RwLock<DiscoveryState>) -> DiscoveryState;

/// `RwLock::new`: a lock around `state`. What the lock holds later is not
/// spoken of.
#[verifier::external_body]
fn new_lock(state: DiscoveryState) -> (r: RwLock<DiscoveryState>)
    ensures
        made_around(r) == state,
{
    RwLock::new(state)
}

/// `RwLock::read`: a copy of the state behind the lock, taken under the
/// read lock. A lock that was poisoned by a panicking writer is read all the same.
#[verifier::external_body]
pub(crate) fn read_state(lock: &RwLock<DiscoveryState>) -> (r: DiscoveryState) {
    match lock.read() {
        Ok(guard) => guard.clone(),
        Err(poisoned) => poisoned.into_inner().clone(),
    }
}

/// `RwLock::write`: puts `state` behind the lock, under the write lock. A
/// lock that was poisoned by a panicking writer is written all the same.
#[verifier::external_body]
pub(crate) fn write_state(lock: &RwLock<DiscoveryState>, state: DiscoveryState) {
    match lock.write() {
        Ok(mut guard) => *guard = state,
        Err(poisoned) => *poisoned.into_inner() = state,
    }
}

/// What the threads of the host share.
pub struct DaemonState {
    pub discovery: RwLock<DiscoveryState>,
}

impl DaemonState {
    /// The state of the search with which this state began.
    pub open spec fn initial(&self) -> DiscoveryState {
        made_around(self.discovery)
    }

    /// A state in which no search was made yet: it begins idle, with no
    /// plugins found.
    pub fn new() -> (r: Self)
        ensures
            r.initial().status == DiscoveryStatus::Idle,
            r.initial().plugins@.len() == 0,
    {
        Self { discovery: new_lock(DiscoveryState::default()) }
    }

    /// The state of the search as it is now.
    pub fn snapshot(&self) -> DiscoveryState {
        read_state(&self.discovery)
    }
}

impl Default for DaemonState {
    fn default() -> (r: Self)
        ensures
            r.initial().status == DiscoveryStatus::Idle,
            r.initial().plugins@.len() == 0,
    {
        Self::new()
    }
}

/// What a request to search does to a search in the state `status`: a
/// search that runs is left alone; otherwise a new one begins.
pub open spec fn may_begin(status: DiscoveryStatus) -> bool {
    status != DiscoveryStatus::Discovering
}

/// The state of a search that begins: what was found before stays known.
pub fn begun(state: DiscoveryState) -> (r: Option<DiscoveryState>)
    ensures
        match r {
            Some(next) => may_begin(state.status) && next.status == DiscoveryStatus::Discovering
                && next.plugins == state.plugins,
            None => !may_begin(state.status),
        },
{
    match state.status {
        DiscoveryStatus::Discovering => None,
        _ => Some(DiscoveryState { status: DiscoveryStatus::Discovering, plugins: state.plugins }),
    }
}

/// The state of a search that has ended with `plugins`.
pub fn completed(plugins: Vec<DiscoveredPluginInfo>) -> (r: DiscoveryState)
    ensures
        r.status == DiscoveryStatus::Complete,
        r.plugins == plugins,
{
    DiscoveryState { status: DiscoveryStatus::Complete, plugins }
}

} // verus!
