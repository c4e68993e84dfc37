use vstd::prelude::*;

use crate::message::Message;
use crate::registry::{offered, Subscriber};
use tokio::sync::mpsc::error::TrySendError;
use tokio::sync::mpsc::{Receiver, Sender};

verus! {

/// Number of messages a subscriber channel buffers before offers fail as full.
pub const SLOT_CAPACITY: usize = 1;

#[verifier::external_type_specification]
#[verifier::external_body]
#[verifier::reject_recursive_types(T)]
pub struct ExSender<T>(Sender<T>);

#[verifier::external_type_specification]
#[verifier::external_body]
#[verifier::reject_recursive_types(T)]
pub struct ExReceiver<T>(Receiver<T>);

/// What became of one offer of a message to one subscriber channel.
#[derive(Debug, Clone, Copy, PartialEq, Eq, Structural)]
pub enum Delivery {
    /// The message now waits in the subscriber's slot.
    Queued,
    /// The slot was taken: the message was dropped for this subscriber.
    Full,
    /// The consuming end is gone: the session has already ended.
    Closed,
}

impl Delivery {
    pub open spec fn spec_failed(self) -> bool {
        !(self is Queued)
    }

    /// Whether the offer failed (a per-recipient delivery failure).
    pub fn failed(&self) -> (r: bool)
        ensures
            r == self.spec_failed(),
    {
        match self {
            Delivery::Queued => false,
            _ => true,
        }
    }
}

/// Largest capacity that tokio accepts for a bounded channel on every target
/// (its semaphore limit on 32-bit platforms).
pub const MAX_CHANNEL_CAPACITY: usize = 536_870_911;

/// The bound a subscriber channel was made with, as tokio's
/// `Sender::max_capacity` reports it.
pub uninterp spec fn bound_of(tx: Sender<Message>) -> usize;

/// Relies on tokio::sync::mpsc::channel, which makes a fresh bounded channel
/// holding at most `capacity` messages and records that bound for
/// `Sender::max_capacity`. It panics on a capacity of 0, and on one above its
/// semaphore's permit limit (`usize::MAX >> 3`, at least `MAX_CHANNEL_CAPACITY`).
#[verifier::external_body]
pub(crate) fn subscriber_channel(capacity: usize) -> (r: (Sender<Message>, Receiver<Message>))
    requires
        0 < capacity <= MAX_CHANNEL_CAPACITY,
    ensures
        bound_of(r.0) == capacity,
{
    tokio::sync::mpsc::channel(capacity)
}

/// Relies on tokio's Sender::try_send, which never waits: it either queues
/// the message on the subscriber's channel, or hands it back unsent because
/// the slot is full or the receiving end is closed. The subscriber's log of
/// queued messages grows by `msg` exactly when it was queued.
#[verifier::external_body]
pub(crate) fn offer(sub: &mut Subscriber, msg: Message) -> (r: Delivery)
    ensures
        offered(*old(sub), *final(sub), r, msg@),
{
    match sub.tx.try_send(msg) {
        Ok(()) => Delivery::Queued,
        Err(TrySendError::Full(_)) => Delivery::Full,
        Err(TrySendError::Closed(_)) => Delivery::Closed,
    }
}

} // verus!
