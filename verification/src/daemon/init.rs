//! The shared handle of the host: its state and its event bus.

use std::sync::Arc;
use vstd::prelude::*;
use crate::daemon::events::{EventBus, CHANNEL_CAPACITY};
use crate::daemon::state::{
    begun, completed, read_state, write_state, DaemonState, DiscoveryStatus,
};
use crate::daemon::{DaemonEvent, DiscoveredPluginInfo};
use crate::dev::discovery::DiscoveredPlugin;

verus! {

/// The state and the event bus of the host, shared by reference counting.
#[derive(Clone)]
pub struct Daemon {
    pub state: Arc<DaemonState>,
    pub events: Arc<EventBus>,
}

/// What observers are told of the discovered plugin `p`.
pub open spec fn is_info_of(info: DiscoveredPluginInfo, p: DiscoveredPlugin) -> bool {
    info.id@ == p.id@ && info.name@ == p.name@ && info.path@ == p.path@
}

/// What observers are told of the plugins that a search found, in order.
pub fn plugin_infos(discovered: &Vec<DiscoveredPlugin>) -> (r: Vec<DiscoveredPluginInfo>)
    ensures
        r@.len() == discovered@.len(),
        forall|i: int| 0 <= i < r@.len() ==> is_info_of(#[trigger] r@[i], discovered@[i]),
{
    let mut r: Vec<DiscoveredPluginInfo> = Vec::new();
    let mut i: usize = 0;
    while i < discovered.len()
        invariant
            i <= discovered.len(),
            r@.len() == i,
            forall|k: int| 0 <= k < i ==> is_info_of(#[trigger] r@[k], discovered@[k]),
        decreases discovered.len() - i,
    {
        let p = &discovered[i];
        r.push(DiscoveredPluginInfo { id: p.id.clone(), name: p.name.clone(), path: p.path.clone() });
        i += 1;
    }
    r
}

impl Daemon {
    /// A host without observers, in which no search was made yet: its
    /// state begins idle, and its bus keeps `CHANNEL_CAPACITY` events.
    pub fn new() -> (r: Self)
        ensures
            r.state.initial().status == DiscoveryStatus::Idle,
            r.state.initial().plugins@.len() == 0,
            r.events.capacity() == CHANNEL_CAPACITY,
    {
        Self { state: Arc::new(DaemonState::new()), events: Arc::new(EventBus::new()) }
    }

    /// Begins a search for plugins unless one is running. Returns whether
    /// the search is to be made; if so the state says that it runs and the
    /// observers are told.
    pub fn begin_discovery(&self) -> bool {
        match begun(read_state(&self.state.discovery)) {
            Some(next) => {
                write_state(&self.state.discovery, next);
                let _ = self.events.send(DaemonEvent::DiscoveryStarted);
                true
            },
            None => false,
        }
    }

    /// Ends a search with the plugins it found: the state holds them, and
    /// the observers are told of them.
    pub fn complete_discovery(&self, discovered: &Vec<DiscoveredPlugin>) {
        write_state(&self.state.discovery, completed(plugin_infos(discovered)));
        let _ = self.events.send(DaemonEvent::DiscoveryComplete { plugins: plugin_infos(discovered) });
    }
}

impl Default for Daemon {
    fn default() -> (r: Self)
        ensures
            r.state.initial().status == DiscoveryStatus::Idle,
            r.state.initial().plugins@.len() == 0,
            r.events.capacity() == CHANNEL_CAPACITY,
    {
        Self::new()
    }
}

} // verus!
