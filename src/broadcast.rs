//! Fan-out of one stream to many subscribers. Messages are stamped with the
//! wall-clock instant they were sent at; a new subscriber first receives the
//! messages of the last `window` milliseconds, then the live ones. Each
//! subscriber has a queue of `capacity` live messages: when it is full the
//! oldest is dropped, and a subscriber whose queue overflows on
//! `MAX_OVERFLOWS` sends in a row is closed. Sending never waits for a
//! subscriber.
use vstd::prelude::*;
use crate::bytes::copy_bytes;

verus! {

/// Replay window of encoded output, in milliseconds.
pub const REPLAY_WINDOW: u64 = 30_000;

/// Live queue capacity of a subscriber of encoded output.
pub const SUBSCRIBER_CAPACITY: usize = 16;

/// Overflows in a row after which a subscriber is closed.
pub const MAX_OVERFLOWS: u32 = 3;

/// What the stream carries: encoded audio, or a title announcement ahead of
/// the audio it refers to. `pts` is on the channel timeline, in milliseconds.
pub enum StreamMessage {
    Buffer { bytes: Vec<u8>, pts: u64 },
    TrackTitle { title: String, pts: u64 },
}

/// The value of a message.
pub enum MessageView {
    Buffer { bytes: Seq<u8>, pts: u64 },
    TrackTitle { title: Seq<char>, pts: u64 },
}

impl View for StreamMessage {
    type V = MessageView;

    open spec fn view(&self) -> MessageView {
        match self {
            StreamMessage::Buffer { bytes, pts } => MessageView::Buffer { bytes: bytes@, pts: *pts },
            StreamMessage::TrackTitle { title, pts } => MessageView::TrackTitle {
                title: title@,
                pts: *pts,
            },
        }
    }
}

impl StreamMessage {
    /// A copy with the same value.
    pub fn duplicate(&self) -> (r: StreamMessage)
        ensures
            r@ == self@,
    {
        match self {
            StreamMessage::Buffer { bytes, pts } => StreamMessage::Buffer {
                bytes: copy_bytes(bytes),
                pts: *pts,
            },
            StreamMessage::TrackTitle { title, pts } => StreamMessage::TrackTitle {
                title: title.clone(),
                pts: *pts,
            },
        }
    }

    pub fn pts(&self) -> (r: u64)
        ensures
            r == match self@ {
                MessageView::Buffer { pts, .. } => pts,
                MessageView::TrackTitle { pts, .. } => pts,
            },
    {
        match self {
            StreamMessage::Buffer { pts, .. } => *pts,
            StreamMessage::TrackTitle { pts, .. } => *pts,
        }
    }
}

pub open spec fn views(s: Seq<StreamMessage>) -> Seq<MessageView> {
    s.map_values(|m: StreamMessage| m@)
}

/// A message with the instant it was sent at.
pub struct Stamped {
    pub time: u64,
    pub message: StreamMessage,
}

/// One subscriber's side of the channel.
pub struct Subscriber {
    pub id: u64,
    /// Messages of the replay window still to be received.
    pub replay: Vec<StreamMessage>,
    /// Live messages still to be received.
    pub queue: Vec<StreamMessage>,
    /// Overflows of the queue in a row.
    pub overflows: u32,
    pub closed: bool,
    /// Messages received so far.
    pub taken: Ghost<Seq<MessageView>>,
    /// The replay window it got on subscribing.
    pub prefix: Ghost<Seq<MessageView>>,
    /// How many messages had been sent when it subscribed.
    pub joined: Ghost<nat>,
    /// No message was ever dropped for it.
    pub intact: Ghost<bool>,
}

impl Subscriber {
    /// What the subscriber has received and has yet to receive, in order.
    pub open spec fn stream(&self) -> Seq<MessageView> {
        self.taken@ + views(self.replay@) + views(self.queue@)
    }

    /// The subscriber's invariant against the messages `sent` so far.
    pub open spec fn wf(&self, sent: Seq<MessageView>, capacity: nat) -> bool {
        &&& self.queue@.len() <= capacity
        &&& self.overflows < MAX_OVERFLOWS
        &&& self.joined@ <= sent.len()
        &&& self.closed ==> self.queue@.len() == 0 && self.replay@.len() == 0
        &&& self.intact@ ==> !self.closed && self.stream() == self.prefix@ + sent.skip(
            self.joined@ as int,
        )
    }
}

/// What sending message `m` does to a subscriber whose queue holds `capacity`.
pub open spec fn offered(old: Subscriber, new: Subscriber, m: MessageView, capacity: nat) -> bool {
    &&& new.id == old.id
    &&& new.taken@ == old.taken@
    &&& !new.closed ==> new.replay@ == old.replay@
    &&& if old.closed {
        new.closed
    } else if old.queue@.len() < capacity {
        &&& !new.closed
        &&& views(new.queue@) == views(old.queue@).push(m)
        &&& new.overflows == 0
    } else if old.overflows + 1 >= MAX_OVERFLOWS {
        new.closed
    } else {
        &&& !new.closed
        &&& views(new.queue@) == views(old.queue@).skip(1).push(m)
        &&& new.overflows == old.overflows + 1
    }
}

impl Subscriber {
    /// Hands a sent message to this subscriber, dropping the oldest queued one
    /// when the queue is full, and closing the subscriber on its
    /// `MAX_OVERFLOWS`-th overflow in a row.
    pub fn offer(&mut self, m: StreamMessage, capacity: usize, Ghost(sent): Ghost<Seq<MessageView>>)
        requires
            old(self).wf(sent, capacity as nat),
            capacity > 0,
        ensures
            offered(*old(self), *final(self), m@, capacity as nat),
            final(self).wf(sent.push(m@), capacity as nat),
            final(self).joined@ == old(self).joined@,
    {
        let ghost mv = m@;
        let ghost q0 = self.queue@;
        let ghost s0 = self.stream();
        if self.closed {
            return;
        }
        if self.queue.len() < capacity {
            self.queue.push(m);
            self.overflows = 0;
            proof {
                assert(views(self.queue@) =~= views(q0).push(mv));
                assert(self.stream() =~= s0.push(mv));
                assert(sent.push(mv).skip(self.joined@ as int) =~= sent.skip(self.joined@ as int).push(mv));
                if self.intact@ {
                    assert(self.stream() =~= self.prefix@ + sent.push(mv).skip(self.joined@ as int));
                }
            }
        } else if self.overflows + 1 >= MAX_OVERFLOWS {
            self.closed = true;
            self.queue.clear();
            self.replay.clear();
            self.intact = Ghost(false);
        } else {
            self.queue.remove(0);
            self.queue.push(m);
            self.overflows = self.overflows + 1;
            self.intact = Ghost(false);
            proof {
                assert(self.queue@ =~= q0.skip(1).push(m));
                assert(views(self.queue@) =~= views(q0).skip(1).push(mv));
            }
        }
    }

    /// Takes the next message: the replay window first, then the live queue.
    pub fn take_next(&mut self, Ghost(sent): Ghost<Seq<MessageView>>, capacity: usize) -> (r: Option<StreamMessage>)
        requires
            old(self).wf(sent, capacity as nat),
        ensures
            final(self).wf(sent, capacity as nat),
            final(self).stream() == old(self).stream(),
            r matches Some(m) ==> final(self).taken@ == old(self).taken@.push(m@),
            r is None <==> old(self).replay@.len() == 0 && old(self).queue@.len() == 0,
            r is None ==> final(self).taken@ == old(self).taken@,
            final(self).id == old(self).id,
            final(self).closed == old(self).closed,
            final(self).joined@ == old(self).joined@,
            final(self).prefix@ == old(self).prefix@,
            final(self).intact@ == old(self).intact@,
            final(self).overflows == old(self).overflows,
    {
        let ghost r0 = self.replay@;
        let ghost q0 = self.queue@;
        let ghost s0 = self.stream();
        if self.replay.len() > 0 {
            let m = self.replay.remove(0);
            self.taken = Ghost(self.taken@.push(m@));
            proof {
                assert(r0 =~= seq![m] + self.replay@);
                assert(views(r0) =~= seq![m@] + views(self.replay@));
                assert(self.stream() =~= s0);
            }
            Some(m)
        } else if self.queue.len() > 0 {
            let m = self.queue.remove(0);
            self.taken = Ghost(self.taken@.push(m@));
            proof {
                assert(q0 =~= seq![m] + self.queue@);
                assert(views(q0) =~= seq![m@] + views(self.queue@));
                assert(views(r0) =~= Seq::<MessageView>::empty());
                assert(views(self.replay@) =~= Seq::<MessageView>::empty());
                assert(self.stream() =~= s0);
            }
            Some(m)
        } else {
            None
        }
    }
}

/// The fan-out channel.
pub struct TimedBroadcast {
    /// Replay window, in milliseconds.
    pub window: u64,
    /// Live queue capacity of each subscriber.
    pub capacity: usize,
    /// Messages of the replay window, oldest first.
    pub history: Vec<Stamped>,
    pub subscribers: Vec<Subscriber>,
    pub next_id: u64,
    pub closed: bool,
    /// Every message sent so far.
    pub sent: Ghost<Seq<MessageView>>,
}

impl TimedBroadcast {
    pub open spec fn wf(&self) -> bool {
        &&& self.capacity > 0
        &&& forall|i: int, j: int|
            0 <= i < j < self.history@.len() ==> self.history@[i].time <= self.history@[j].time
        &&& forall|i: int|
            0 <= i < self.subscribers@.len() ==> (#[trigger] self.subscribers@[i]).wf(
                self.sent@,
                self.capacity as nat,
            )
        &&& forall|i: int|
            0 <= i < self.subscribers@.len() ==> (#[trigger] self.subscribers@[i]).id < self.next_id
        &&& forall|i: int, j: int|
            0 <= i < j < self.subscribers@.len() ==> self.subscribers@[i].id != self.subscribers@[j].id
        &&& self.closed ==> forall|i: int|
            0 <= i < self.subscribers@.len() ==> (#[trigger] self.subscribers@[i]).closed
    }

    /// An open channel with no subscriber and nothing sent.
    pub fn new(window: u64, capacity: usize) -> (r: TimedBroadcast)
        requires
            capacity > 0,
        ensures
            r.wf(),
            r.window == window,
            r.capacity == capacity,
            r.history@.len() == 0,
            r.subscribers@.len() == 0,
            !r.closed,
            r.next_id == 0,
            r.sent@.len() == 0,
    {
        TimedBroadcast {
            window,
            capacity,
            history: Vec::new(),
            subscribers: Vec::new(),
            next_id: 0,
            closed: false,
            sent: Ghost(Seq::empty()),
        }
    }

    /// Sends `m` at instant `now`: messages older than the replay window are
    /// forgotten, `m` is kept for replay, stamped `now` (or the latest stamp,
    /// if the clock went back), and every subscriber is offered it. Nothing
    /// happens on a closed channel. Returns whether the message was sent.
    pub fn send(&mut self, m: StreamMessage, now: u64) -> (r: bool)
        requires
            old(self).wf(),
        ensures
            final(self).wf(),
            r == !old(self).closed,
            !r ==> *final(self) == *old(self),
            r ==> final(self).sent@ == old(self).sent@.push(m@),
            r ==> final(self).subscribers@.len() == old(self).subscribers@.len(),
            r ==> forall|i: int|
                0 <= i < old(self).subscribers@.len() ==> offered(
                    #[trigger] old(self).subscribers@[i],
                    final(self).subscribers@[i],
                    m@,
                    old(self).capacity as nat,
                ),
            r ==> final(self).history@.len() > 0 && final(self).history@.last().message@ == m@,
            r ==> exists|k: int|
                0 <= k <= old(self).history@.len()
                    && final(self).history@.drop_last() == old(self).history@.skip(k)
                    && forall|j: int| 0 <= j < k ==> (#[trigger] old(self).history@[j]).time
                        + old(self).window < now,
            r ==> forall|i: int|
                0 <= i < final(self).history@.len() ==> (#[trigger] final(self).history@[i]).time
                    + final(self).window >= now,
            final(self).window == old(self).window,
            final(self).capacity == old(self).capacity,
            final(self).closed == old(self).closed,
            final(self).next_id == old(self).next_id,
    {
        if self.closed {
            return false;
        }
        let ghost mut evicted: int = 0;
        proof {
            assert(old(self).history@.skip(0) =~= old(self).history@);
        }
        while self.history.len() > 0 && (self.history[0].time as u128) + (self.window as u128) < (now as u128)
            invariant
                self.wf(),
                self.window == old(self).window,
                self.capacity == old(self).capacity,
                self.subscribers@ == old(self).subscribers@,
                self.sent@ == old(self).sent@,
                self.next_id == old(self).next_id,
                self.closed == old(self).closed,
                !self.closed,
                0 <= evicted <= old(self).history@.len(),
                self.history@ == old(self).history@.skip(evicted),
                forall|j: int| 0 <= j < evicted ==> (#[trigger] old(self).history@[j]).time
                    + old(self).window < now,
            decreases self.history@.len(),
        {
            proof {
                assert(self.history@[0] == old(self).history@[evicted]);
            }
            self.history.remove(0);
            proof {
                evicted = evicted + 1;
                assert(self.history@ =~= old(self).history@.skip(evicted));
            }
        }
        let ghost kept = self.history@;
        let stamp = if self.history.len() > 0 && self.history[self.history.len() - 1].time > now {
            self.history[self.history.len() - 1].time
        } else {
            now
        };
        let ghost mv = m@;
        let ghost sent0 = self.sent@;
        let ghost subs0 = self.subscribers@;
        self.history.push(Stamped { time: stamp, message: m.duplicate() });
        proof {
            assert(self.history@.drop_last() =~= kept);
        }
        let mut i: usize = 0;
        while i < self.subscribers.len()
            invariant
                0 <= i <= self.subscribers@.len(),
                self.subscribers@.len() == subs0.len(),
                self.capacity > 0,
                self.capacity == old(self).capacity,
                self.window == old(self).window,
                self.next_id == old(self).next_id,
                self.closed == old(self).closed,
                !self.closed,
                self.history@.len() > 0 && self.history@.last().message@ == mv,
                forall|a: int, b: int|
                    0 <= a < b < self.history@.len() ==> self.history@[a].time <= self.history@[b].time,
                forall|a: int|
                    0 <= a < self.history@.len() ==> (#[trigger] self.history@[a]).time + self.window >= now,
                forall|j: int| 0 <= j < subs0.len() ==> (#[trigger] subs0[j]).id < self.next_id,
                forall|a: int, b: int| 0 <= a < b < subs0.len() ==> subs0[a].id != subs0[b].id,
                subs0 == old(self).subscribers@,
                mv == m@,
                self.history@.drop_last() == old(self).history@.skip(evicted),
                0 <= evicted <= old(self).history@.len(),
                forall|j: int| 0 <= j < evicted ==> (#[trigger] old(self).history@[j]).time
                    + old(self).window < now,
                self.sent@ == sent0,
                forall|j: int| 0 <= j < i ==> offered(#[trigger] subs0[j], self.subscribers@[j], mv, self.capacity as nat),
                forall|j: int| 0 <= j < i ==> (#[trigger] self.subscribers@[j]).wf(sent0.push(mv), self.capacity as nat),
                forall|j: int| i <= j < subs0.len() ==> #[trigger] self.subscribers@[j] == subs0[j],
                forall|j: int| 0 <= j < subs0.len() ==> (#[trigger] subs0[j]).wf(sent0, self.capacity as nat),
            decreases subs0.len() - i,
        {
            let copy = m.duplicate();
            let cap = self.capacity;
            let ghost before = self.subscribers@;
            assert(before[i as int] == subs0[i as int]);
            self.subscribers[i].offer(copy, cap, Ghost(sent0));
            proof {
                assert(offered(subs0[i as int], self.subscribers@[i as int], mv, cap as nat));
                assert forall|j: int| 0 <= j < subs0.len() && j != i implies #[trigger] self.subscribers@[j] == before[j] by {}
            }
            i = i + 1;
        }
        self.sent = Ghost(sent0.push(mv));
        proof {
            assert forall|j: int| 0 <= j < self.subscribers@.len() implies (#[trigger] self.subscribers@[j]).id < self.next_id by {
                assert(offered(subs0[j], self.subscribers@[j], mv, self.capacity as nat));
            }
            assert forall|a: int, b: int| 0 <= a < b < self.subscribers@.len() implies self.subscribers@[a].id != self.subscribers@[b].id by {
                assert(offered(subs0[a], self.subscribers@[a], mv, self.capacity as nat));
                assert(offered(subs0[b], self.subscribers@[b], mv, self.capacity as nat));
            }
        }
        true
    }

    /// Attaches a subscriber at instant `now` and returns its id. It first
    /// receives the kept messages stamped within the last `window`
    /// milliseconds, oldest first, then every message sent from now on. On a
    /// closed channel the subscriber starts closed.
    pub fn subscribe(&mut self, now: u64) -> (r: u64)
        requires
            old(self).wf(),
            old(self).next_id < u64::MAX,
        ensures
            final(self).wf(),
            r == old(self).next_id,
            final(self).next_id == old(self).next_id + 1,
            final(self).subscribers@.len() == old(self).subscribers@.len() + 1,
            forall|i: int| 0 <= i < old(self).subscribers@.len() ==> #[trigger] final(self).subscribers@[i] == old(self).subscribers@[i],
            ({
                let s = final(self).subscribers@.last();
                let h = old(self).history@;
                &&& s.id == r
                &&& s.closed == old(self).closed
                &&& s.queue@.len() == 0
                &&& s.taken@.len() == 0
                &&& s.joined@ == old(self).sent@.len()
                &&& !old(self).closed ==> {
                    &&& s.intact@
                    &&& forall|j: int| 0 <= j < h.len() ==> (h.len() - s.replay@.len() <= j
                        <==> (#[trigger] h[j]).time + old(self).window >= now)
                    &&& forall|k: int| 0 <= k < s.replay@.len() ==> (#[trigger] s.replay@[k])@
                        == h[h.len() - s.replay@.len() + k].message@
                }
            }),
            final(self).history == old(self).history,
            final(self).sent == old(self).sent,
            final(self).window == old(self).window,
            final(self).capacity == old(self).capacity,
            final(self).closed == old(self).closed,
    {
        let id = self.next_id;
        let mut replay: Vec<StreamMessage> = Vec::new();
        if !self.closed {
            let mut k: usize = self.history.len();
            while k > 0 && (self.history[k - 1].time as u128) + (self.window as u128) >= (now as u128)
                invariant
                    k <= self.history@.len(),
                    self.wf(),
                    forall|j: int| k <= j < self.history@.len() ==> (#[trigger] self.history@[j]).time + self.window >= now,
                decreases k,
            {
                k = k - 1;
            }
            proof {
                assert forall|j: int| 0 <= j < self.history@.len() implies (k <= j
                    <==> (#[trigger] self.history@[j]).time + self.window >= now) by {
                    if j < k {
                        assert(self.history@[j].time <= self.history@[k - 1].time);
                    }
                }
            }
            let mut i: usize = k;
            while i < self.history.len()
                invariant
                    k <= i <= self.history@.len(),
                    replay@.len() == i - k,
                    forall|a: int| 0 <= a < replay@.len() ==> (#[trigger] replay@[a])@ == self.history@[k + a].message@,
                decreases self.history@.len() - i,
            {
                replay.push(self.history[i].message.duplicate());
                i = i + 1;
            }
        }
        let ghost prefix = views(replay@);
        let sub = Subscriber {
            id,
            replay,
            queue: Vec::new(),
            overflows: 0,
            closed: self.closed,
            taken: Ghost(Seq::empty()),
            prefix: Ghost(prefix),
            joined: Ghost(self.sent@.len()),
            intact: Ghost(!self.closed),
        };
        proof {
            assert(self.sent@.skip(self.sent@.len() as int) =~= Seq::<MessageView>::empty());
            assert(views(sub.queue@) =~= Seq::<MessageView>::empty());
            assert(sub.stream() =~= prefix + self.sent@.skip(self.sent@.len() as int));
        }
        self.subscribers.push(sub);
        self.next_id = self.next_id + 1;
        id
    }

    /// Takes the next message for subscriber `id`: None where there is no
    /// such subscriber or nothing is waiting for it.
    pub fn receive(&mut self, id: u64) -> (r: Option<StreamMessage>)
        requires
            old(self).wf(),
        ensures
            final(self).wf(),
            final(self).subscribers@.len() == old(self).subscribers@.len(),
            forall|i: int| 0 <= i < old(self).subscribers@.len() && old(self).subscribers@[i].id != id
                ==> #[trigger] final(self).subscribers@[i] == old(self).subscribers@[i],
            forall|i: int| 0 <= i < old(self).subscribers@.len() && old(self).subscribers@[i].id == id ==> {
                let (o, n) = (old(self).subscribers@[i], #[trigger] final(self).subscribers@[i]);
                &&& n.stream() == o.stream()
                &&& r is None <==> o.replay@.len() == 0 && o.queue@.len() == 0
                &&& r matches Some(m) ==> n.taken@ == o.taken@.push(m@)
                &&& n.intact@ == o.intact@
                &&& n.joined@ == o.joined@
                &&& n.prefix@ == o.prefix@
            },
            (forall|i: int| 0 <= i < old(self).subscribers@.len() ==> old(self).subscribers@[i].id != id) ==> r is None,
            final(self).history == old(self).history,
            final(self).sent == old(self).sent,
            final(self).window == old(self).window,
            final(self).capacity == old(self).capacity,
            final(self).closed == old(self).closed,
            final(self).next_id == old(self).next_id,
    {
        match self.index_of(id) {
            Some(i) => {
                let ghost before = self.subscribers@;
                let sent = Ghost(self.sent@);
                let cap = self.capacity;
                assert(before[i as int].wf(self.sent@, cap as nat));
                let r = self.subscribers[i].take_next(sent, cap);
                proof {
                    assert forall|j: int| 0 <= j < before.len() && j != i implies #[trigger] self.subscribers@[j] == before[j] by {}
                    assert forall|j: int| 0 <= j < before.len() && before[j].id == id implies j == i by {
                        if j != i {
                            if j < i {
                                assert(before[j].id != before[i as int].id);
                            } else {
                                assert(before[i as int].id != before[j].id);
                            }
                        }
                    }
                }
                r
            },
            None => None,
        }
    }

    /// Detaches subscriber `id`; nothing else changes.
    pub fn unsubscribe(&mut self, id: u64)
        requires
            old(self).wf(),
        ensures
            final(self).wf(),
            final(self).subscribers@ == old(self).subscribers@.filter(|s: Subscriber| s.id != id),
            final(self).history == old(self).history,
            final(self).sent == old(self).sent,
            final(self).closed == old(self).closed,
            final(self).next_id == old(self).next_id,
    {
        let ghost before = self.subscribers@;
        match self.index_of(id) {
            Some(i) => {
                self.subscribers.remove(i);
                proof {
                    lemma_filter_removes_unique(before, i as int, id);
                }
            },
            None => {
                proof {
                    lemma_filter_keeps_all(before, id);
                }
            },
        }
    }

    /// Closes the channel and every subscriber.
    pub fn close(&mut self)
        requires
            old(self).wf(),
        ensures
            final(self).wf(),
            final(self).closed,
            final(self).subscribers@.len() == old(self).subscribers@.len(),
            forall|i: int| 0 <= i < final(self).subscribers@.len() ==> (#[trigger] final(self).subscribers@[i]).closed
                && final(self).subscribers@[i].id == old(self).subscribers@[i].id,
    {
        let ghost subs0 = self.subscribers@;
        let mut i: usize = 0;
        while i < self.subscribers.len()
            invariant
                0 <= i <= self.subscribers@.len(),
                self.subscribers@.len() == subs0.len(),
                subs0 == old(self).subscribers@,
                self.sent == old(self).sent,
                self.capacity == old(self).capacity,
                self.history == old(self).history,
                self.next_id == old(self).next_id,
                old(self).wf(),
                forall|j: int| 0 <= j < i ==> (#[trigger] self.subscribers@[j]).closed
                    && self.subscribers@[j].id == subs0[j].id
                    && self.subscribers@[j].wf(self.sent@, self.capacity as nat),
                forall|j: int| i <= j < subs0.len() ==> #[trigger] self.subscribers@[j] == subs0[j],
            decreases subs0.len() - i,
        {
            let ghost before = self.subscribers@;
            let s = &mut self.subscribers[i];
            s.closed = true;
            s.queue.clear();
            s.replay.clear();
            s.intact = Ghost(false);
            proof {
                assert forall|j: int| 0 <= j < subs0.len() && j != i implies #[trigger] self.subscribers@[j] == before[j] by {}
            }
            i = i + 1;
        }
        self.closed = true;
    }

    /// Index of subscriber `id`.
    fn index_of(&self, id: u64) -> (r: Option<usize>)
        ensures
            r matches Some(i) ==> i < self.subscribers@.len() && self.subscribers@[i as int].id == id,
            r is None ==> forall|i: int| 0 <= i < self.subscribers@.len() ==> self.subscribers@[i].id != id,
    {
        let mut i: usize = 0;
        while i < self.subscribers.len()
            invariant
                i <= self.subscribers@.len(),
                forall|j: int| 0 <= j < i ==> self.subscribers@[j].id != id,
            decreases self.subscribers@.len() - i,
        {
            if self.subscribers[i].id == id {
                return Some(i);
            }
            i = i + 1;
        }
        None
    }

    /// Number of subscribers attached.
    pub fn subscriber_count(&self) -> (r: usize)
        ensures
            r == self.subscribers@.len(),
    {
        self.subscribers.len()
    }
}

/// Subscribers that keep up hear the same thing: for two subscribers that
/// never lost a message, the messages sent since the later one subscribed
/// end both of their streams, byte for byte and in the same order.
pub proof fn lemma_subscribers_in_sync(b: TimedBroadcast, i: int, j: int)
    requires
        b.wf(),
        0 <= i < b.subscribers@.len(),
        0 <= j < b.subscribers@.len(),
        b.subscribers@[i].intact@,
        b.subscribers@[j].intact@,
        b.subscribers@[i].joined@ <= b.subscribers@[j].joined@,
    ensures
        ({
            let live = b.sent@.skip(b.subscribers@[j].joined@ as int);
            let si = b.subscribers@[i].stream();
            let sj = b.subscribers@[j].stream();
            &&& live.len() <= si.len()
            &&& live.len() <= sj.len()
            &&& si.skip(si.len() - live.len()) == live
            &&& sj.skip(sj.len() - live.len()) == live
        }),
{
    let a = b.subscribers@[i];
    let c = b.subscribers@[j];
    assert(a.wf(b.sent@, b.capacity as nat));
    assert(c.wf(b.sent@, b.capacity as nat));
    let live = b.sent@.skip(c.joined@ as int);
    let si = a.stream();
    let sj = c.stream();
    assert(si.skip(si.len() - live.len()) =~= live);
    assert(sj.skip(sj.len() - live.len()) =~= live);
}

/// A subscriber that stops reading does not hold up the channel: with no
/// message taken in between, it is closed after at most `capacity +
/// MAX_OVERFLOWS` messages are offered to it. `states[t + 1]` is the
/// subscriber after `messages[t]` was offered to `states[t]`.
pub proof fn lemma_idle_subscriber_is_shed(
    states: Seq<Subscriber>,
    messages: Seq<MessageView>,
    capacity: nat,
)
    requires
        capacity > 0,
        states.len() == messages.len() + 1,
        messages.len() >= capacity + MAX_OVERFLOWS,
        states[0].queue@.len() <= capacity,
        forall|t: int| 0 <= t < messages.len() ==> offered(#[trigger] states[t], states[t + 1], messages[t], capacity),
    ensures
        states.last().closed,
{
    let f = capacity - states[0].queue@.len();
    assert forall|t: int| 0 <= t <= messages.len() implies ({
        let s = #[trigger] states[t];
        !s.closed ==> {
            &&& s.queue@.len() >= if t < f { states[0].queue@.len() + t } else { capacity as int }
            &&& s.queue@.len() <= capacity
            &&& t >= f ==> s.overflows >= t - f
        }
    }) by {
        lemma_idle_progress(states, messages, capacity, t);
    }
    let n = messages.len() as int;
    lemma_idle_progress(states, messages, capacity, n);
    assert(states.last() == states[n]);
}

proof fn lemma_idle_progress(states: Seq<Subscriber>, messages: Seq<MessageView>, capacity: nat, t: int)
    requires
        capacity > 0,
        states.len() == messages.len() + 1,
        states[0].queue@.len() <= capacity,
        forall|u: int| 0 <= u < messages.len() ==> offered(#[trigger] states[u], states[u + 1], messages[u], capacity),
        0 <= t <= messages.len(),
    ensures
        ({
            let f = capacity - states[0].queue@.len();
            let s = states[t];
            &&& t > 0 && states[t - 1].closed ==> s.closed
            &&& t > 0 && !s.closed ==> s.overflows < MAX_OVERFLOWS
            &&& !s.closed ==> {
                &&& s.queue@.len() >= if t < f { states[0].queue@.len() + t } else { capacity as int }
                &&& s.queue@.len() <= capacity
                &&& t >= f ==> s.overflows >= t - f
            }
        }),
    decreases t,
{
    if t > 0 {
        lemma_idle_progress(states, messages, capacity, t - 1);
        let p = states[t - 1];
        let s = states[t];
        assert(offered(p, s, messages[t - 1], capacity));
        if !s.closed && !p.closed {
            assert(views(s.queue@).len() == s.queue@.len());
            assert(views(p.queue@).len() == p.queue@.len());
        }
    }
}

proof fn lemma_filter_keeps_all(subs: Seq<Subscriber>, id: u64)
    requires
        forall|i: int| 0 <= i < subs.len() ==> subs[i].id != id,
    ensures
        subs.filter(|s: Subscriber| s.id != id) == subs,
    decreases subs.len(),
{
    reveal(Seq::filter);
    if subs.len() > 0 {
        lemma_filter_keeps_all(subs.drop_last(), id);
        assert(subs.drop_last().push(subs.last()) =~= subs);
    }
}

proof fn lemma_filter_removes_unique(subs: Seq<Subscriber>, k: int, id: u64)
    requires
        0 <= k < subs.len(),
        subs[k].id == id,
        forall|a: int, b: int| 0 <= a < b < subs.len() ==> subs[a].id != subs[b].id,
    ensures
        subs.filter(|s: Subscriber| s.id != id) == subs.remove(k),
    decreases subs.len(),
{
    reveal(Seq::filter);
    if k == subs.len() - 1 {
        lemma_filter_keeps_all(subs.drop_last(), id);
        assert(subs.remove(k) =~= subs.drop_last());
    } else {
        lemma_filter_removes_unique(subs.drop_last(), k, id);
        assert(subs.remove(k) =~= subs.drop_last().remove(k).push(subs.last()));
        assert(subs.last().id != id);
    }
}

} // verus!
