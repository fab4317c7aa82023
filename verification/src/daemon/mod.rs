//! What the host announces to its observers, and the state they can ask for.

pub mod events;
pub mod init;
pub mod state;

pub use events::EventBus;
pub use init::Daemon;
pub use state::{DaemonState, DiscoveryState, DiscoveryStatus};

use vstd::prelude::*;

verus! {

/// A plugin that was found on disk while looking for plugins to link.
#[derive(Debug, Clone)]
pub struct DiscoveredPluginInfo {
    pub id: String,
    pub name: String,
    pub path: String,
}

/// A change that observers are told of.
#[derive(Debug, Clone)]
pub enum DaemonEvent {
    /// The set of loaded plugins has changed.
    PluginsChanged,
    /// A search for plugins has begun.
    DiscoveryStarted,
    /// A search for plugins has ended with these plugins.
    DiscoveryComplete { plugins: Vec<DiscoveredPluginInfo> },
}

impl DaemonEvent {
    /// The name of the kind of event, as observers read it.
    pub open spec fn kind_name(&self) -> Seq<char> {
        match self {
            DaemonEvent::PluginsChanged => "plugins_changed"@,
            DaemonEvent::DiscoveryStarted => "discovery_started"@,
            DaemonEvent::DiscoveryComplete { .. } => "discovery_complete"@,
        }
    }

    /// The name of the kind of event, as observers read it.
    pub fn kind(&self) -> (r: &'static str)
        ensures
            r@ == self.kind_name(),
    {
        match self {
            DaemonEvent::PluginsChanged => "plugins_changed",
            DaemonEvent::DiscoveryStarted => "discovery_started",
            DaemonEvent::DiscoveryComplete { .. } => "discovery_complete",
        }
    }
}

} // verus!
