//! Features: parts of the host that offer menu entries and handle their events.

pub mod plugin_store;
pub mod task_runner;
pub mod tray;

use vstd::prelude::*;
use crate::menu::router::HandlerError;
use crate::plugins::manifest::MenuItem;

verus! {

/// What a feature must offer to appear in the menu: its entries, and what to
/// do when one of them is chosen.
pub trait MenuProvider: Send + Sync {
    /// The feature may offer `items`. A feature that says nothing of its
    /// offers allows every one.
    open spec fn offers(&self, items: Seq<MenuItem>) -> bool {
        true
    }

    /// The entries that this feature offers now.
    fn menu_items(&self) -> (r: Vec<MenuItem>)
        ensures
            self.offers(r@),
    ;

    /// The feature may answer `r` to the event `event_id`. A feature that
    /// says nothing of its answers allows every one.
    open spec fn handled(&self, event_id: &str, r: Result<(), HandlerError>) -> bool {
        true
    }

    /// Reacts to the event `event_id`, one that was routed to this feature.
    fn handle_event(&self, event_id: &str) -> (r: Result<(), HandlerError>)
        ensures
            self.handled(event_id, r),
    ;
}

/// The features of the host, in the order in which they were registered.
pub struct FeatureRegistry {
    features: Vec<Box<dyn MenuProvider>>,
}

impl FeatureRegistry {
    /// The registered features, oldest first.
    pub closed spec fn view(&self) -> Seq<Box<dyn MenuProvider>> {
        self.features@
    }

    /// A registry without features.
    pub fn new() -> (r: Self)
        ensures
            r@.len() == 0,
    {
        Self { features: Vec::new() }
    }

    /// Adds `feature` after the ones already registered.
    pub fn register(&mut self, feature: Box<dyn MenuProvider>)
        ensures
            final(self)@ == old(self)@.push(feature),
    {
        self.features.push(feature);
    }

    /// The registered features, oldest first.
    pub fn features(&self) -> (r: &[Box<dyn MenuProvider>])
        ensures
            r@ == self@,
    {
        self.features.as_slice()
    }
}

impl Default for FeatureRegistry {
    fn default() -> (r: Self)
        ensures
            r@.len() == 0,
    {
        Self::new()
    }
}

} // verus!
