//! The event bus: one lossy broadcast channel with a bounded history.
//!
//! The channel is tokio's broadcast channel. Publishing never blocks and
//! never fails; a subscriber sees the events published after it subscribed,
//! and one that falls behind by more than the capacity loses the oldest.

use tokio::sync::broadcast::error::TryRecvError;
use tokio::sync::broadcast::{Receiver, Sender};
use vstd::prelude::*;
use crate::daemon::DaemonEvent;

verus! {

/// The number of events that the channel keeps for subscribers that lag.
pub const CHANNEL_CAPACITY: usize = 64;

/// The sending half of tokio's broadcast channel.
#[verifier::external_type_specification]
#[verifier::external_body]
#[verifier::reject_recursive_types(T)]
pub struct ExSender<T>(Sender<T>);

/// The receiving half of tokio's broadcast channel.
#[verifier::external_type_specification]
#[verifier::external_body]
#[verifier::reject_recursive_types(T)]
pub struct ExReceiver<T>(Receiver<T>);

/// The number of events that the channel of `tx` was asked to keep when it
/// was made.
pub uninterp spec fn channel_capacity(tx: Sender<DaemonEvent>) -> nat;

/// `tokio::sync::broadcast::channel`: a channel that is asked to keep
/// `capacity` events; only its sending half is kept. The call panics for a
/// capacity of zero or above `usize::MAX / 2`, which the `requires` excludes.
#[verifier::external_body]
fn open_channel(capacity: usize) -> (r: Sender<DaemonEvent>)
    requires
        0 < capacity <= usize::MAX / 2,
    ensures
        channel_capacity(r) == capacity,
{
    tokio::sync::broadcast::channel(capacity).0
}

/// `Sender::send`: hands the event to every current receiver and returns
/// their number, or `None` where there is none. Nothing is claimed of the
/// result: receivers come and go on other threads.
#[verifier::external_body]
fn channel_send(tx: &Sender<DaemonEvent>, event: DaemonEvent) -> (r: Option<usize>) {
    tx.send(event).ok()
}

/// `Sender::subscribe`: a new receiver, which sees the events sent from now
/// on. The call panics only where the channel already has a quarter of
/// `usize::MAX` receivers.
#[verifier::external_body]
fn channel_subscribe(tx: &Sender<DaemonEvent>) -> (r: Receiver<DaemonEvent>) {
    tx.subscribe()
}

/// `Receiver::try_recv`: the next event that waits for this receiver,
/// without blocking. Nothing is claimed of the result.
#[verifier::external_body]
fn channel_try_recv(rx: &mut Receiver<DaemonEvent>) -> (r: Result<DaemonEvent, ReceiveError>) {
    match rx.try_recv() {
        Ok(event) => Ok(event),
        Err(TryRecvError::Empty) => Err(ReceiveError::Empty),
        Err(TryRecvError::Closed) => Err(ReceiveError::Closed),
        Err(TryRecvError::Lagged(missed)) => Err(ReceiveError::Lagged(missed)),
    }
}

/// Why a subscriber got no event.
#[derive(Debug, Clone, Copy, PartialEq, Eq, Structural)]
pub enum ReceiveError {
    /// No event waits.
    Empty,
    /// The bus is gone and no event waits.
    Closed,
    /// The subscriber fell behind and has lost this many events, the oldest
    /// ones; the next call yields the oldest event that is still kept.
    Lagged(u64),
}

/// The bus on which the host announces changes.
pub struct EventBus {
    tx: Sender<DaemonEvent>,
}

/// The number of subscribers that an announcement reached, from what the
/// channel answered: the number it gave, and none where it refused the
/// event because nobody is subscribed.
pub fn receivers_reached(sent: Option<usize>) -> (r: usize)
    ensures
        r == match sent {
            Some(receivers) => receivers,
            None => 0,
        },
{
    match sent {
        Some(receivers) => receivers,
        None => 0,
    }
}

impl EventBus {
    /// The number of events that the bus keeps for subscribers that lag.
    pub closed spec fn capacity(&self) -> nat {
        channel_capacity(self.tx)
    }

    /// A bus without subscribers, which keeps `CHANNEL_CAPACITY` events.
    pub fn new() -> (r: Self)
        ensures
            r.capacity() == CHANNEL_CAPACITY,
    {
        Self { tx: open_channel(CHANNEL_CAPACITY) }
    }

    /// Announces `event` to everyone who is subscribed now. Returns the
    /// number of subscribers that will see it, which is zero where nobody is
    /// subscribed: the event is then dropped, and that is no error.
    pub fn send(&self, event: DaemonEvent) -> (r: usize) {
        receivers_reached(channel_send(&self.tx, event))
    }

    /// Subscribes to the events that are announced from now on.
    pub fn subscribe(&self) -> Receiver<DaemonEvent> {
        channel_subscribe(&self.tx)
    }

    /// The next event that waits for the subscriber `rx`, without blocking.
    pub fn try_next(rx: &mut Receiver<DaemonEvent>) -> (r: Result<DaemonEvent, ReceiveError>) {
        channel_try_recv(rx)
    }
}

impl Default for EventBus {
    fn default() -> (r: Self)
        ensures
            r.capacity() == CHANNEL_CAPACITY,
    {
        Self::new()
    }
}

} // verus!
