//! The guarantees of the fan-out engine, stated and proved over the
//! channel model. Every state these laws speak of is reachable only
//! through the channel's methods, each of which establishes or preserves
//! well-formedness, so the laws hold of every run.

use crate::channel::ChannelModel;
use crate::channel::NextModel;
use vstd::prelude::*;

verus! {

/// The frames delivered to subscription `i`, in delivery order.
pub open spec fn delivered_frames(c: ChannelModel, i: int) -> Seq<Seq<u8>> {
    c.subs[i].delivered.map_values(|k: int| c.history[k])
}

/// Ordering law: a subscription that joined before the first publish, over
/// a run in which the buffer never overflowed, has received exactly the
/// published frames up to its cursor, in publish order — no skip, no
/// duplicate, no reorder.
pub proof fn lemma_ordering(c: ChannelModel, i: int)
    requires
        c.wf(),
        0 <= i < c.subs.len(),
        c.subs[i].start == 0,
        c.history.len() <= c.capacity,
    ensures
        c.subs[i].missed == 0,
        c.subs[i].reported == 0,
        c.subs[i].delivered.len() == c.subs[i].cursor,
        forall|j: int| 0 <= j < c.subs[i].delivered.len() ==> #[trigger] c.subs[i].delivered[j] == j,
        delivered_frames(c, i) == c.history.take(c.subs[i].cursor),
{
    assert(c.sub_wf(i));
    let s = c.subs[i];
    assert(c.base() == 0);
    assert(s.reported + s.missed == 0);
    assert(delivered_frames(c, i) =~= c.history.take(s.cursor));
}

/// Isolation law: what one pull returns to a subscription, how it moves
/// that subscription, and what a publish does to it, depend only on the
/// shared history, the capacity and the closed flag — never on any other
/// subscription's cursor or backlog. A consumer that stops reading
/// therefore cannot delay another subscriber's delivery; on the producer's
/// side, `publish` itself requires nothing of any subscription and appends
/// unconditionally, so a slow consumer never blocks it.
pub proof fn lemma_isolation(c1: ChannelModel, c2: ChannelModel, i: int, f: Seq<u8>)
    requires
        c1.wf(),
        c2.wf(),
        0 <= i < c1.subs.len(),
        0 <= i < c2.subs.len(),
        c1.history == c2.history,
        c1.capacity == c2.capacity,
        c1.closed == c2.closed,
        c1.subs[i] == c2.subs[i],
    ensures
        c1.next_result(i) == c2.next_result(i),
        c1.next_step(i).subs[i] == c2.next_step(i).subs[i],
        c1.publish_step(f).history == c1.history.push(f),
        c1.publish_step(f).subs[i] == c2.publish_step(f).subs[i],
{
    assert(c1.publish_step(f).subs[i] == ChannelModel::evict_sub(
        c1.subs[i],
        c1.publish_step(f).base(),
    ));
    assert(c2.publish_step(f).subs[i] == ChannelModel::evict_sub(
        c2.subs[i],
        c2.publish_step(f).base(),
    ));
}

/// Lag law: a subscription that was overtaken receives exactly one lag
/// report, carrying exactly the number of frames it skipped. The report
/// clears the pending count without moving the cursor — nothing is dropped
/// or repeated by the report itself — and the cursor stands exactly at the
/// oldest frame still retained, which the immediately following pull
/// delivers: the resumed stream starts there, and the next pull is never
/// another report. The accounting equation shows there is no silent gap:
/// every sequence number since the subscription started is either
/// delivered or counted by a lag report.
pub proof fn lemma_lag_correctness(c: ChannelModel, i: int)
    requires
        c.wf(),
        !c.closed,
        0 <= i < c.subs.len(),
        c.subs[i].missed > 0,
    ensures
        c.next_result(i) == NextModel::Lagged(c.subs[i].missed),
        c.next_step(i).subs[i].missed == 0,
        c.next_step(i).subs[i].cursor == c.subs[i].cursor,
        c.next_step(i).subs[i].delivered == c.subs[i].delivered,
        c.subs[i].cursor == c.base(),
        c.next_step(i).next_result(i) == NextModel::Frame(c.history[c.base()]),
        c.subs[i].start + c.subs[i].delivered.len() + c.subs[i].reported + c.subs[i].missed
            == c.subs[i].cursor,
{
    assert(c.sub_wf(i));
    assert(c.base() < c.history.len());
}

/// No-history law: a subscription never receives a frame published before
/// it subscribed — every delivered sequence number lies at or after its
/// start — and a fresh subscription starts at the current end of the
/// history with nothing delivered and nothing pending.
pub proof fn lemma_no_history_replay(c: ChannelModel, i: int)
    requires
        c.wf(),
        0 <= i < c.subs.len(),
    ensures
        forall|j: int|
            0 <= j < c.subs[i].delivered.len() ==> c.subs[i].start <= #[trigger] c.subs[
                i
            ].delivered[j],
        c.subscribe_step().subs.last().start == c.history.len(),
        c.subscribe_step().subs.last().cursor == c.history.len(),
        c.subscribe_step().subs.last().delivered.len() == 0,
        c.subscribe_step().subs.last().missed == 0,
{
    assert(c.sub_wf(i));
}

/// Interleave law: every publisher feeds the one shared history — a
/// publish appends to it whatever its source — and every subscription
/// receives a strictly increasing subsequence of that history. Two frames
/// sent by one publisher therefore reach every subscriber that receives
/// both in the order that publisher sent them.
pub proof fn lemma_interleave(c: ChannelModel, f: Seq<u8>, i: int)
    requires
        c.wf(),
        0 <= i < c.subs.len(),
    ensures
        c.publish_step(f).history == c.history.push(f),
        forall|j: int, k: int|
            0 <= j < k < c.subs[i].delivered.len() ==> c.subs[i].delivered[j] < c.subs[
                i
            ].delivered[k],
{
    assert(c.sub_wf(i));
}

} // verus!
