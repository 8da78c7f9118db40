//! The bounded broadcast channel: a ring of the most recent frames, a
//! monotone sequence counter, and a registry of subscription cursors.
//!
//! Publishing never blocks: when the ring is full the oldest frame is
//! evicted, and every cursor that still pointed at an evicted frame is
//! advanced with the skip recorded, to be reported exactly once as a lag.
//! Each subscription therefore sees a strictly increasing subsequence of
//! the published frames: skips are possible (and always signalled), but
//! never a reorder or a duplicate.

use vstd::prelude::*;

verus! {

/// Result of one pull on a subscription: the next frame, a lag report
/// carrying the number of frames skipped since the last pull, closure of
/// the channel, or nothing available yet (the caller should wait for the
/// next publish and pull again).
pub enum Next {
    Frame(Vec<u8>),
    Lagged(usize),
    Closed,
    Pending,
}

/// Specification-level value of a [`Next`].
pub enum NextModel {
    Frame(Seq<u8>),
    Lagged(int),
    Closed,
    Pending,
}

impl View for Next {
    type V = NextModel;

    open spec fn view(&self) -> NextModel {
        match self {
            Next::Frame(f) => NextModel::Frame(f@),
            Next::Lagged(n) => NextModel::Lagged(*n as int),
            Next::Closed => NextModel::Closed,
            Next::Pending => NextModel::Pending,
        }
    }
}

/// One subscription: a cursor into the shared frame sequence, plus lag
/// accounting and ghost bookkeeping of everything it was ever handed.
#[derive(Clone, Copy)]
pub struct Subscription {
    /// False once the owning session has unsubscribed.
    pub active: bool,
    /// Sequence number of the next frame to deliver to this subscription.
    pub cursor: usize,
    /// Frames skipped by eviction and not yet reported as `Lagged`.
    pub missed: usize,
    /// Sequence number at which this subscription was created.
    pub start: Ghost<int>,
    /// Sequence numbers of every frame delivered to this subscription,
    /// in delivery order.
    pub delivered: Ghost<Seq<int>>,
    /// Total number of skipped frames already reported through `Lagged`.
    pub reported: Ghost<int>,
}

/// Specification-level value of a [`Subscription`].
pub struct SubscriptionModel {
    pub active: bool,
    pub cursor: int,
    pub missed: int,
    pub start: int,
    pub delivered: Seq<int>,
    pub reported: int,
}

impl View for Subscription {
    type V = SubscriptionModel;

    open spec fn view(&self) -> SubscriptionModel {
        SubscriptionModel {
            active: self.active,
            cursor: self.cursor as int,
            missed: self.missed as int,
            start: self.start@,
            delivered: self.delivered@,
            reported: self.reported@,
        }
    }
}

/// Specification-level value of a [`Channel`]: the bound, the closed flag,
/// the full sequence of frames ever published, and the subscriptions.
pub struct ChannelModel {
    pub capacity: int,
    pub closed: bool,
    pub history: Seq<Seq<u8>>,
    pub subs: Seq<SubscriptionModel>,
}

impl ChannelModel {
    /// The state of a channel just created with the given bound.
    pub open spec fn init(capacity: int) -> ChannelModel {
        ChannelModel {
            capacity: capacity,
            closed: false,
            history: Seq::empty(),
            subs: Seq::empty(),
        }
    }

    /// Sequence number of the oldest frame still retained.
    pub open spec fn base(self) -> int {
        if self.history.len() <= self.capacity {
            0
        } else {
            self.history.len() - self.capacity
        }
    }

    /// The retained window: the most recent frames, at most `capacity` of
    /// them, oldest first.
    pub open spec fn retained(self) -> Seq<Seq<u8>> {
        self.history.subrange(self.base(), self.history.len() as int)
    }

    /// Well-formedness of one subscription against this channel.
    ///
    /// The accounting equation says there is no silent gap: every sequence
    /// number from `start` up to `cursor` is either delivered or counted by
    /// a lag report (already made, or pending in `missed`).
    pub open spec fn sub_wf(self, i: int) -> bool {
        let s = self.subs[i];
        &&& 0 <= s.start <= self.history.len()
        &&& self.base() <= s.cursor <= self.history.len()
        &&& s.start <= s.cursor
        &&& s.missed >= 0
        &&& s.reported >= 0
        &&& s.cursor == s.start + s.delivered.len() + s.reported + s.missed
        &&& forall|j: int|
            0 <= j < s.delivered.len() ==> s.start <= #[trigger] s.delivered[j] < s.cursor
        &&& forall|j: int, k: int|
            0 <= j < k < s.delivered.len() ==> s.delivered[j] < s.delivered[k]
        &&& (s.reported + s.missed == 0 ==> forall|j: int|
            0 <= j < s.delivered.len() ==> #[trigger] s.delivered[j] == s.start + j)
        &&& (s.reported + s.missed > 0 ==> s.start + s.reported + s.missed <= self.base())
        &&& (s.missed > 0 ==> s.cursor == self.base())
    }

    /// Well-formedness of the whole channel.
    pub open spec fn wf(self) -> bool {
        &&& self.capacity >= 1
        &&& forall|i: int| 0 <= i < self.subs.len() ==> #[trigger] self.sub_wf(i)
    }

    /// One subscription after the eviction caused by a publish that moved
    /// the oldest retained sequence number to `new_base`: a cursor left
    /// behind is advanced, and the width of the jump is recorded to be
    /// reported as a lag.
    pub open spec fn evict_sub(s: SubscriptionModel, new_base: int) -> SubscriptionModel {
        if s.cursor < new_base {
            SubscriptionModel {
                cursor: new_base,
                missed: s.missed + (new_base - s.cursor),
                ..s
            }
        } else {
            s
        }
    }

    /// The channel after `publish(frame)`: the frame is appended to the
    /// history unconditionally — publishing never blocks and never fails —
    /// and every subscription overtaken by the eviction is advanced.
    pub open spec fn publish_step(self, frame: Seq<u8>) -> ChannelModel {
        let stretched = ChannelModel { history: self.history.push(frame), ..self };
        ChannelModel {
            subs: self.subs.map_values(|s: SubscriptionModel| Self::evict_sub(s, stretched.base())),
            ..stretched
        }
    }

    /// Number of active subscriptions that receive `frame` without lagging:
    /// those whose cursor the eviction did not advance. Diagnostic only.
    pub open spec fn publish_count(self, frame: Seq<u8>) -> int {
        Self::count_unlagged(self.subs, self.publish_step(frame).base())
    }

    /// Number of active subscriptions in `subs` whose cursor is at or past
    /// `new_base`.
    pub open spec fn count_unlagged(subs: Seq<SubscriptionModel>, new_base: int) -> int
        decreases subs.len(),
    {
        if subs.len() == 0 {
            0
        } else {
            Self::count_unlagged(subs.drop_last(), new_base) + if subs.last().active
                && subs.last().cursor >= new_base {
                1int
            } else {
                0int
            }
        }
    }

    /// The subscription created by `subscribe`: its cursor starts at the
    /// current end of the history, so no already-published frame is ever
    /// replayed to it.
    pub open spec fn fresh_sub(self) -> SubscriptionModel {
        SubscriptionModel {
            active: true,
            cursor: self.history.len() as int,
            missed: 0,
            start: self.history.len() as int,
            delivered: Seq::empty(),
            reported: 0,
        }
    }

    /// The channel after `subscribe()`.
    pub open spec fn subscribe_step(self) -> ChannelModel {
        ChannelModel { subs: self.subs.push(self.fresh_sub()), ..self }
    }

    /// What one pull on subscription `i` returns: closure wins over
    /// everything, then a pending lag is reported, then the next retained
    /// frame is delivered, and otherwise the subscription is up to date.
    pub open spec fn next_result(self, i: int) -> NextModel {
        let s = self.subs[i];
        if self.closed {
            NextModel::Closed
        } else if s.missed > 0 {
            NextModel::Lagged(s.missed)
        } else if s.cursor < self.history.len() {
            NextModel::Frame(self.history[s.cursor])
        } else {
            NextModel::Pending
        }
    }

    /// The channel after one pull on subscription `i`: a lag report clears
    /// the pending count (the cursor stands still — nothing is dropped or
    /// repeated by the report itself), a delivery advances the cursor by
    /// exactly one, and the other outcomes change nothing.
    pub open spec fn next_step(self, i: int) -> ChannelModel {
        let s = self.subs[i];
        if self.closed {
            self
        } else if s.missed > 0 {
            ChannelModel {
                subs: self.subs.update(i, SubscriptionModel {
                    missed: 0,
                    reported: s.reported + s.missed,
                    ..s
                }),
                ..self
            }
        } else if s.cursor < self.history.len() {
            ChannelModel {
                subs: self.subs.update(i, SubscriptionModel {
                    cursor: s.cursor + 1,
                    delivered: s.delivered.push(s.cursor),
                    ..s
                }),
                ..self
            }
        } else {
            self
        }
    }

    /// The channel after `close()`: every later pull resolves to `Closed`.
    pub open spec fn close_step(self) -> ChannelModel {
        ChannelModel { closed: true, ..self }
    }

    /// The channel after subscription `i` is dropped by its owning session.
    pub open spec fn unsubscribe_step(self, i: int) -> ChannelModel {
        ChannelModel {
            subs: self.subs.update(i, SubscriptionModel { active: false, ..self.subs[i] }),
            ..self
        }
    }

    /// The eviction in a publish keeps every subscription well-formed.
    pub proof fn lemma_publish_preserves_sub_wf(pre: ChannelModel, f: Seq<u8>, j: int)
        requires
            pre.wf(),
            0 <= j < pre.subs.len(),
        ensures
            pre.publish_step(f).sub_wf(j),
    {
        let post = pre.publish_step(f);
        let nb = post.base();
        assert(pre.sub_wf(j));
        let s = pre.subs[j];
        let t = post.subs[j];
        assert(t == ChannelModel::evict_sub(s, nb));
        assert(pre.base() <= nb);
        if s.cursor < nb {
            assert(t.cursor == nb && t.missed == s.missed + (nb - s.cursor));
            assert forall|a: int| 0 <= a < t.delivered.len() implies t.start <= #[trigger] t.delivered[a]
                < t.cursor by {
                assert(s.start <= s.delivered[a] < s.cursor);
            }
        } else {
            assert(t == s);
        }
        assert(t.cursor == s.start + t.delivered.len() + t.reported + t.missed);
    }

    /// Publishing preserves well-formedness of the whole channel.
    pub proof fn lemma_publish_preserves_wf(pre: ChannelModel, f: Seq<u8>)
        requires
            pre.wf(),
        ensures
            pre.publish_step(f).wf(),
    {
        let post = pre.publish_step(f);
        assert forall|j: int| 0 <= j < post.subs.len() implies #[trigger] post.sub_wf(j) by {
            Self::lemma_publish_preserves_sub_wf(pre, f, j);
        }
    }

    /// One pull keeps every subscription well-formed.
    pub proof fn lemma_next_preserves_wf(pre: ChannelModel, i: int)
        requires
            pre.wf(),
            0 <= i < pre.subs.len(),
        ensures
            pre.next_step(i).wf(),
    {
        let post = pre.next_step(i);
        let s = pre.subs[i];
        assert(pre.sub_wf(i));
        assert forall|j: int| 0 <= j < post.subs.len() implies #[trigger] post.sub_wf(j) by {
            assert(pre.sub_wf(j));
            if j == i && !pre.closed && s.missed == 0 && s.cursor < pre.history.len() {
                let t = post.subs[i];
                assert(t.delivered == s.delivered.push(s.cursor));
                assert forall|a: int| 0 <= a < t.delivered.len() implies t.start
                    <= #[trigger] t.delivered[a] < t.cursor by {
                    if a < s.delivered.len() {
                        assert(s.start <= s.delivered[a] < s.cursor);
                    } else {
                        assert(t.delivered[a] == s.cursor);
                    }
                }
                assert forall|a: int, b: int| 0 <= a < b < t.delivered.len() implies t.delivered[a]
                    < t.delivered[b] by {
                    if b < s.delivered.len() {
                        assert(s.delivered[a] < s.delivered[b]);
                    } else {
                        assert(t.delivered[b] == s.cursor);
                        assert(s.start <= s.delivered[a] < s.cursor);
                    }
                }
                if t.reported + t.missed == 0 {
                    assert forall|a: int| 0 <= a < t.delivered.len() implies #[trigger] t.delivered[a]
                        == t.start + a by {
                        if a < s.delivered.len() {
                            assert(s.delivered[a] == s.start + a);
                        } else {
                            assert(t.delivered[a] == s.cursor);
                        }
                    }
                }
            }
        }
    }
}

/// The broadcast channel: a bounded ring of the most recent frames and the
/// registry of subscription cursors. The full publish history exists only
/// in ghost state; the ring holds the retained window.
pub struct Channel {
    /// Bound on the number of retained frames; at least one.
    pub capacity: usize,
    /// Sequence number of `buffer[0]`, the oldest retained frame.
    pub base: usize,
    /// The retained frames, oldest first; never longer than `capacity`.
    pub buffer: Vec<Vec<u8>>,
    /// Once set, every pull resolves to `Closed`.
    pub closed: bool,
    /// The registry of subscriptions, indexed by subscription id.
    pub subs: Vec<Subscription>,
    /// Every frame ever published, in publish order.
    pub history: Ghost<Seq<Seq<u8>>>,
}

impl View for Channel {
    type V = ChannelModel;

    open spec fn view(&self) -> ChannelModel {
        ChannelModel {
            capacity: self.capacity as int,
            closed: self.closed,
            history: self.history@,
            subs: self.subs@.map_values(|s: Subscription| s@),
        }
    }
}

impl Channel {
    /// Well-formedness: the model invariant, plus the ring being exactly
    /// the retained window of the ghost history.
    pub open spec fn wf(&self) -> bool {
        &&& self@.wf()
        &&& self.history@.len() <= usize::MAX
        &&& self.base as int == self@.base()
        &&& self.buffer.len() == self.history@.len() - self.base as int
        &&& forall|k: int|
            0 <= k < self.buffer.len() ==> #[trigger] self.buffer[k]@ == self.history@[self.base + k]
    }

    /// A fresh channel retaining at most `capacity` frames, with no
    /// subscriptions and nothing published.
    pub fn new(capacity: usize) -> (c: Channel)
        requires
            1 <= capacity,
        ensures
            c.wf(),
            c@ == ChannelModel::init(capacity as int),
    {
        let c = Channel {
            capacity,
            base: 0,
            buffer: Vec::new(),
            closed: false,
            subs: Vec::new(),
            history: Ghost(Seq::empty()),
        };
        proof {
            assert(c@.subs =~= Seq::<SubscriptionModel>::empty());
            assert(c@ =~= ChannelModel::init(capacity as int));
        }
        c
    }

    /// The bound this channel was created with.
    pub fn capacity(&self) -> (n: usize)
        ensures
            n as int == self@.capacity,
    {
        self.capacity
    }

    /// Whether the channel has been closed.
    pub fn is_closed(&self) -> (b: bool)
        ensures
            b == self@.closed,
    {
        self.closed
    }

    /// Number of subscriptions ever created (unsubscribed ones included:
    /// ids are never reused).
    pub fn subscription_count(&self) -> (n: usize)
        ensures
            n as int == self@.subs.len(),
    {
        self.subs.len()
    }

    /// Number of frames ever published: the current end of the sequence.
    pub fn published_count(&self) -> (n: usize)
        requires
            self.wf(),
        ensures
            n as int == self@.history.len(),
    {
        self.base + self.buffer.len()
    }

    /// Publish one frame: append it to the shared sequence. This never
    /// blocks and never fails, whatever state any subscription is in; when
    /// the ring is full the oldest retained frame is evicted and every
    /// cursor left behind is advanced, the skip recorded to be reported as
    /// a lag. Returns the number of active subscriptions that receive the
    /// frame without lagging (diagnostic only).
    pub fn publish(&mut self, frame: Vec<u8>) -> (count: usize)
        requires
            old(self).wf(),
            old(self)@.history.len() < usize::MAX,
        ensures
            final(self).wf(),
            final(self)@ == old(self)@.publish_step(frame@),
            count as int == old(self)@.publish_count(frame@),
    {
        let ghost pre = self@;
        let ghost f = frame@;
        if self.buffer.len() == self.capacity {
            let _evicted = self.buffer.remove(0);
            self.base = self.base + 1;
        }
        self.buffer.push(frame);
        self.history = Ghost(self.history@.push(f));
        let new_base = self.base;
        let ghost target = pre.publish_step(f);
        proof {
            assert(self.history@ == target.history);
            assert(new_base as int == target.base());
        }
        let mut i: usize = 0;
        let mut count: usize = 0;
        while i < self.subs.len()
            invariant
                pre.wf(),
                target == pre.publish_step(f),
                self.capacity as int == pre.capacity,
                self.closed == pre.closed,
                self.base == new_base,
                new_base as int == target.base(),
                self.history@ == target.history,
                self.history@.len() <= usize::MAX,
                self.buffer.len() == self.history@.len() - self.base as int,
                forall|k: int|
                    0 <= k < self.buffer.len() ==> #[trigger] self.buffer[k]@ == self.history@[
                        self.base + k
                    ],
                i <= self.subs.len(),
                self.subs@.len() == pre.subs.len(),
                forall|j: int| i <= j < self.subs@.len() ==> #[trigger] self.subs@[j]@ == pre.subs[j],
                forall|j: int|
                    0 <= j < i ==> #[trigger] self.subs@[j]@ == ChannelModel::evict_sub(
                        pre.subs[j],
                        new_base as int,
                    ),
                count as int == ChannelModel::count_unlagged(
                    pre.subs.take(i as int),
                    new_base as int,
                ),
                count <= i,
            decreases self.subs.len() - i,
        {
            proof {
                assert(pre.sub_wf(i as int));
                assert(self.subs@[i as int]@ == pre.subs[i as int]);
            }
            let mut s = self.subs[i];
            if s.cursor < new_base {
                let gap = new_base - s.cursor;
                s.missed = s.missed + gap;
                s.cursor = new_base;
                self.subs.set(i, s);
                proof {
                    assert(s@ == ChannelModel::evict_sub(pre.subs[i as int], new_base as int));
                }
            } else if s.active {
                count = count + 1;
            }
            proof {
                assert(pre.subs.take(i as int + 1).drop_last() =~= pre.subs.take(i as int));
                assert(pre.subs.take(i as int + 1).last() == pre.subs[i as int]);
            }
            i = i + 1;
        }
        proof {
            assert(pre.subs.take(pre.subs.len() as int) =~= pre.subs);
            assert(self@.subs =~= target.subs);
            assert(self@ =~= target);
            ChannelModel::lemma_publish_preserves_wf(pre, f);
        }
        count
    }

    /// Create a new subscription: a fresh cursor standing at the current
    /// end of the frame sequence. No history is replayed to it. Returns the
    /// subscription id; ids are never reused.
    pub fn subscribe(&mut self) -> (id: usize)
        requires
            old(self).wf(),
        ensures
            final(self).wf(),
            final(self)@ == old(self)@.subscribe_step(),
            id as int == old(self)@.subs.len(),
    {
        let ghost pre = self@;
        let id = self.subs.len();
        let cursor = self.base + self.buffer.len();
        self.subs.push(
            Subscription {
                active: true,
                cursor,
                missed: 0,
                start: Ghost(cursor as int),
                delivered: Ghost(Seq::empty()),
                reported: Ghost(0),
            },
        );
        proof {
            assert(self@.subs =~= pre.subscribe_step().subs);
            assert(self@ =~= pre.subscribe_step());
            assert forall|j: int| 0 <= j < self@.subs.len() implies #[trigger] self@.sub_wf(j) by {
                if j < pre.subs.len() {
                    assert(pre.sub_wf(j));
                }
            }
        }
        id
    }

    /// Pull once on subscription `id`. Closure wins over everything; then a
    /// pending lag is reported, exactly once — the report clears the count
    /// and leaves the cursor where the eviction put it, so nothing is
    /// dropped or repeated by the report itself; then the next retained
    /// frame is delivered; otherwise the subscription is up to date and the
    /// caller should wait for the next publish.
    pub fn next(&mut self, id: usize) -> (r: Next)
        requires
            old(self).wf(),
            id < old(self)@.subs.len(),
        ensures
            final(self).wf(),
            final(self)@ == old(self)@.next_step(id as int),
            r@ == old(self)@.next_result(id as int),
    {
        let ghost pre = self@;
        proof {
            assert(pre.sub_wf(id as int));
            ChannelModel::lemma_next_preserves_wf(pre, id as int);
        }
        if self.closed {
            return Next::Closed;
        }
        let mut s = self.subs[id];
        if s.missed > 0 {
            let n = s.missed;
            s.missed = 0;
            s.reported = Ghost(s.reported@ + n as int);
            self.subs.set(id, s);
            proof {
                assert(self@.subs =~= pre.next_step(id as int).subs);
                assert(self@ =~= pre.next_step(id as int));
            }
            Next::Lagged(n)
        } else {
            let end = self.base + self.buffer.len();
            if s.cursor < end {
                let idx = s.cursor - self.base;
                let frame = copy_frame(&self.buffer[idx]);
                proof {
                    assert(frame@ == pre.history[s.cursor as int]);
                }
                s.delivered = Ghost(s.delivered@.push(s.cursor as int));
                s.cursor = s.cursor + 1;
                self.subs.set(id, s);
                proof {
                    assert(self@.subs =~= pre.next_step(id as int).subs);
                    assert(self@ =~= pre.next_step(id as int));
                }
                Next::Frame(frame)
            } else {
                Next::Pending
            }
        }
    }

    /// Close the channel: a process-wide teardown signal. Every later pull,
    /// on every subscription, resolves to `Closed`.
    pub fn close(&mut self)
        requires
            old(self).wf(),
        ensures
            final(self).wf(),
            final(self)@ == old(self)@.close_step(),
    {
        let ghost pre = self@;
        self.closed = true;
        proof {
            assert(self@ =~= pre.close_step());
            assert forall|j: int| 0 <= j < self@.subs.len() implies #[trigger] self@.sub_wf(j) by {
                assert(pre.sub_wf(j));
            }
        }
    }

    /// Drop subscription `id`: its owning session ended. The cursor slot
    /// stays (ids are never reused) but no longer counts as active.
    pub fn unsubscribe(&mut self, id: usize)
        requires
            old(self).wf(),
            id < old(self)@.subs.len(),
        ensures
            final(self).wf(),
            final(self)@ == old(self)@.unsubscribe_step(id as int),
    {
        let ghost pre = self@;
        let mut s = self.subs[id];
        s.active = false;
        self.subs.set(id, s);
        proof {
            assert(self@.subs =~= pre.unsubscribe_step(id as int).subs);
            assert(self@ =~= pre.unsubscribe_step(id as int));
            assert forall|j: int| 0 <= j < self@.subs.len() implies #[trigger] self@.sub_wf(j) by {
                assert(pre.sub_wf(j));
            }
        }
    }
}

/// Byte-for-byte copy of one retained frame, for fan-out to one subscriber.
fn copy_frame(src: &Vec<u8>) -> (r: Vec<u8>)
    ensures
        r@ == src@,
{
    let mut r: Vec<u8> = Vec::new();
    proof {
        assert(r@ =~= src@.take(0));
    }
    let mut q: usize = 0;
    while q < src.len()
        invariant
            q <= src.len(),
            r@ == src@.take(q as int),
        decreases src.len() - q,
    {
        r.push(src[q]);
        proof {
            assert(r@ =~= src@.take(q as int + 1));
        }
        q = q + 1;
    }
    proof {
        assert(src@.take(src.len() as int) =~= src@);
    }
    r
}

} // verus!
