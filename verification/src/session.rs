//! The connection-lifecycle policy: what a publisher session and a
//! subscriber session decide on each transport event. The sessions' I/O —
//! reading a frame off the wire, writing one out, waiting for the next
//! publish — is the caller's side of the loop; the decisions live here.

use crate::channel::Channel;
use crate::channel::Next;
use crate::channel::NextModel;
use vstd::prelude::*;

verus! {

/// One transport event seen by a publisher session: a frame read off the
/// connection, a read error, or a clean end of the inbound stream.
pub enum PublisherEvent {
    Frame(Vec<u8>),
    ReadError,
    EndOfStream,
}

/// What the publisher session does with one event.
pub enum PublisherOutcome {
    /// The frame was published (fire and forget, never blocking); the value
    /// is the number of subscriptions that received it without lag. Keep
    /// reading.
    Published(usize),
    /// The connection is gone; the session ends. The channel is untouched:
    /// one publisher disconnecting affects no subscriber and no other
    /// publisher.
    Stopped,
}

/// Policy of a publisher session for one transport event: a received frame
/// is published to the shared channel; a read error or the end of the
/// inbound stream ends the session without touching the channel. The error
/// is logged by the caller, never escalated.
pub fn publisher_step(channel: &mut Channel, event: PublisherEvent) -> (o: PublisherOutcome)
    requires
        old(channel).wf(),
        old(channel)@.history.len() < usize::MAX,
    ensures
        final(channel).wf(),
        match event {
            PublisherEvent::Frame(f) => {
                &&& final(channel)@ == old(channel)@.publish_step(f@)
                &&& o matches PublisherOutcome::Published(n) && n as int == old(
                    channel,
                )@.publish_count(f@)
            },
            _ => final(channel)@ == old(channel)@ && (o matches PublisherOutcome::Stopped),
        },
{
    match event {
        PublisherEvent::Frame(f) => {
            let n = channel.publish(f);
            PublisherOutcome::Published(n)
        },
        PublisherEvent::ReadError => PublisherOutcome::Stopped,
        PublisherEvent::EndOfStream => PublisherOutcome::Stopped,
    }
}

/// What a subscriber session does after one pull on its subscription.
pub enum SubscriberAction {
    /// Write this frame to the transport connection, then pull again. A
    /// write failure ends the session (the peer is gone).
    Send(Vec<u8>),
    /// The subscription lagged and skipped this many frames; log the loss
    /// and pull again. Nothing is resent.
    Skip(usize),
    /// Nothing new yet: wait until a frame is published, then pull again.
    Wait,
    /// The channel is closed: end the session cleanly.
    Stop,
}

/// Policy of a subscriber session for one pull: a delivered frame is
/// forwarded to the transport, a lag report is logged and the loop goes on,
/// closure ends the session cleanly, and an empty window means wait.
pub fn subscriber_step(channel: &mut Channel, id: usize) -> (a: SubscriberAction)
    requires
        old(channel).wf(),
        id < old(channel)@.subs.len(),
    ensures
        final(channel).wf(),
        final(channel)@ == old(channel)@.next_step(id as int),
        match a {
            SubscriberAction::Send(f) => old(channel)@.next_result(id as int) == NextModel::Frame(
                f@,
            ),
            SubscriberAction::Skip(n) => old(channel)@.next_result(id as int) == NextModel::Lagged(
                n as int,
            ),
            SubscriberAction::Wait => old(channel)@.next_result(id as int) == NextModel::Pending,
            SubscriberAction::Stop => old(channel)@.next_result(id as int) == NextModel::Closed,
        },
{
    match channel.next(id) {
        Next::Frame(f) => SubscriberAction::Send(f),
        Next::Lagged(n) => SubscriberAction::Skip(n),
        Next::Pending => SubscriberAction::Wait,
        Next::Closed => SubscriberAction::Stop,
    }
}

} // verus!
