//! The broadcaster of a tuner stream: which subscribers get the chunks read
//! from the tuner, how much room their queues have, and when a stuck
//! subscriber starts losing chunks.
//!
//! The queues themselves are outside the library: what sending a chunk to a
//! subscriber gave, and how much room a queue has, are handed in.
use vstd::prelude::*;

verus! {

/// The number of chunks a subscriber's queue holds (about 10 seconds).
pub const MAX_CHUNKS: usize = 1024;

/// The size of a chunk in bytes (about 10 milliseconds).
pub const CHUNK_SIZE: usize = 32768;

/// A subscriber of the stream.
#[derive(Clone, Copy, Debug)]
pub struct Subscriber {
    pub id: u64,
    /// Whether the subscriber's queue is still open.
    pub active: bool,
    /// In milliseconds: how long a full queue is waited for before the
    /// subscriber is left out of the room computation.
    pub max_stuck_time: u64,
    /// When (in milliseconds, on a monotonic clock) the queue was first seen
    /// full.
    pub stuck_start_time: Option<u64>,
    /// The bytes dropped since chunks started to be dropped.
    pub dropped_bytes: Option<usize>,
}

/// What sending a chunk to a subscriber's queue gave.
#[derive(Clone, Copy, Debug, PartialEq, Eq, Structural)]
pub enum SendOutcome {
    Sent,
    /// The queue is full: the chunk is dropped.
    Full,
    /// The queue was closed by the subscriber.
    Closed,
}

/// The state of a broadcaster.
pub struct Broadcaster {
    pub subscribers: Vec<Subscriber>,
    /// In milliseconds.
    pub time_limit: u64,
    /// When (in milliseconds, on a monotonic clock) a chunk last came.
    pub last_received: u64,
    /// Whether a tuner stream is bound.
    pub stream_bounded: bool,
}

/// The subscriber after a send.
pub open spec fn after_send(s: Subscriber, outcome: SendOutcome, chunk_len: usize) -> Subscriber {
    match outcome {
        SendOutcome::Sent => Subscriber { dropped_bytes: None, ..s },
        SendOutcome::Full => Subscriber {
            dropped_bytes: Some(
                match s.dropped_bytes {
                    Some(d) => (d + chunk_len) as usize,
                    None => chunk_len,
                },
            ),
            ..s
        },
        SendOutcome::Closed => Subscriber { active: false, ..s },
    }
}

/// The room a subscriber's queue counts for: a full queue counts as no
/// room until it has been stuck for the subscriber's maximum, after which
/// the subscriber is left out.
pub open spec fn counted_room(s: Subscriber, room: usize, now: u64) -> Option<usize> {
    if room == 0 {
        match s.stuck_start_time {
            Some(t) => if (if now >= t { now - t } else { 0 }) < s.max_stuck_time {
                Some(0)
            } else {
                None
            },
            None => Some(0),
        }
    } else {
        Some(room)
    }
}

/// The start of the stuck time after the room of a subscriber's queue was
/// measured.
pub open spec fn stuck_after(s: Subscriber, room: usize, now: u64) -> Option<u64> {
    if room == 0 {
        match s.stuck_start_time {
            Some(t) => Some(t),
            None => Some(now),
        }
    } else {
        None
    }
}

/// The smallest room counted among the first `n` subscribers.
pub open spec fn least_room(subs: Seq<Subscriber>, rooms: Seq<Option<usize>>, now: u64, n: int) -> Option<usize>
    decreases n,
{
    if n <= 0 {
        None
    } else {
        let rest = least_room(subs, rooms, now, n - 1);
        let here = match rooms[n - 1] {
            Some(r) => counted_room(subs[n - 1], r, now),
            None => None,
        };
        match (rest, here) {
            (Some(a), Some(b)) => Some(if b < a { b } else { a }),
            (Some(a), None) => Some(a),
            (None, Some(b)) => Some(b),
            (None, None) => None,
        }
    }
}

impl Broadcaster {
    /// A broadcaster without a stream or subscribers.
    pub fn new(time_limit: u64, now: u64) -> (r: Self)
        ensures
            r.subscribers@.len() == 0,
            r.time_limit == time_limit,
            r.last_received == now,
            !r.stream_bounded,
    {
        Broadcaster { subscribers: Vec::new(), time_limit, last_received: now, stream_bounded: false }
    }

    /// Binds a tuner stream.
    pub fn bind_stream(&mut self)
        requires
            !old(self).stream_bounded,
        ensures
            final(self).stream_bounded,
            final(self).subscribers == old(self).subscribers,
            final(self).time_limit == old(self).time_limit,
            final(self).last_received == old(self).last_received,
    {
        self.stream_bounded = true;
    }

    /// Unbinds the tuner stream: every subscriber's queue is closed.
    pub fn unbind_stream(&mut self)
        requires
            old(self).stream_bounded,
        ensures
            !final(self).stream_bounded,
            final(self).subscribers@.len() == old(self).subscribers@.len(),
            forall|i: int| 0 <= i < old(self).subscribers@.len() ==> #[trigger] final(self).subscribers@[i]
                == (Subscriber { active: false, ..old(self).subscribers@[i] }),
            final(self).time_limit == old(self).time_limit,
            final(self).last_received == old(self).last_received,
    {
        let mut i: usize = 0;
        while i < self.subscribers.len()
            invariant
                i <= self.subscribers@.len(),
                self.subscribers@.len() == old(self).subscribers@.len(),
                forall|j: int| 0 <= j < i ==> #[trigger] self.subscribers@[j]
                    == (Subscriber { active: false, ..old(self).subscribers@[j] }),
                forall|j: int| i <= j < self.subscribers@.len() ==> #[trigger] self.subscribers@[j]
                    == old(self).subscribers@[j],
                self.time_limit == old(self).time_limit,
                self.last_received == old(self).last_received,
            decreases self.subscribers@.len() - i,
        {
            let s = self.subscribers[i];
            self.subscribers.set(i, Subscriber { active: false, ..s });
            i = i + 1;
        }
        self.stream_bounded = false;
    }

    /// Adds a subscriber with an open queue.
    pub fn subscribe(&mut self, id: u64, max_stuck_time: u64)
        requires
            old(self).stream_bounded,
        ensures
            final(self).subscribers@ == old(self).subscribers@.push(
                Subscriber { id, active: true, max_stuck_time, stuck_start_time: None, dropped_bytes: None },
            ),
            final(self).stream_bounded,
            final(self).time_limit == old(self).time_limit,
            final(self).last_received == old(self).last_received,
    {
        self.subscribers.push(
            Subscriber { id, active: true, max_stuck_time, stuck_start_time: None, dropped_bytes: None },
        );
    }

    /// Removes the subscribers of an identifier.
    pub fn unsubscribe(&mut self, id: u64)
        ensures
            final(self).subscribers@ == without_subscriber(old(self).subscribers@, id),
            final(self).stream_bounded == old(self).stream_bounded,
            final(self).time_limit == old(self).time_limit,
            final(self).last_received == old(self).last_received,
    {
        let ghost olds = self.subscribers@;
        let mut kept: Vec<Subscriber> = Vec::new();
        let mut i: usize = 0;
        while i < self.subscribers.len()
            invariant
                i <= olds.len(),
                olds == self.subscribers@,
                kept@ == olds.take(i as int).filter(|s: Subscriber| s.id != id),
            decreases olds.len() - i,
        {
            let s = self.subscribers[i];
            proof {
                assert(olds.take(i + 1).drop_last() =~= olds.take(i as int));
                assert(olds.take(i + 1).last() == s);
                reveal(Seq::filter);
            }
            if s.id != id {
                kept.push(s);
            }
            i = i + 1;
        }
        assert(olds.take(olds.len() as int) =~= olds);
        self.subscribers = kept;
    }

    /// Whether the broadcaster has nothing more to do: no subscribers and
    /// no stream.
    pub fn is_inactive(&self) -> (r: bool)
        ensures
            r == (self.subscribers@.len() == 0 && !self.stream_bounded),
    {
        self.subscribers.len() == 0 && !self.stream_bounded
    }

    /// Takes what sending a chunk to each open queue gave (`None` for a
    /// closed one): a sent chunk ends dropping, a full queue drops the
    /// chunk, a closed queue stays closed; the chunk came at `now`.
    pub fn broadcast(&mut self, outcomes: &Vec<Option<SendOutcome>>, chunk_len: usize, now: u64)
        requires
            outcomes@.len() == old(self).subscribers@.len(),
            forall|i: int| 0 <= i < outcomes@.len() ==> (outcomes@[i] is Some <==> #[trigger] old(self).subscribers@[i].active),
            forall|i: int| 0 <= i < outcomes@.len() && outcomes@[i] == Some(SendOutcome::Full)
                && (#[trigger] old(self).subscribers@[i]).dropped_bytes is Some ==>
                old(self).subscribers@[i].dropped_bytes->0 + chunk_len <= usize::MAX,
        ensures
            final(self).subscribers@.len() == old(self).subscribers@.len(),
            forall|i: int| 0 <= i < outcomes@.len() ==> #[trigger] final(self).subscribers@[i] == match outcomes@[i] {
                Some(o) => after_send(old(self).subscribers@[i], o, chunk_len),
                None => old(self).subscribers@[i],
            },
            final(self).last_received == now,
            final(self).stream_bounded == old(self).stream_bounded,
            final(self).time_limit == old(self).time_limit,
    {
        let mut i: usize = 0;
        while i < self.subscribers.len()
            invariant
                i <= self.subscribers@.len(),
                outcomes@.len() == old(self).subscribers@.len(),
                self.subscribers@.len() == old(self).subscribers@.len(),
                forall|j: int| 0 <= j < outcomes@.len() && outcomes@[j] == Some(SendOutcome::Full)
                    && (#[trigger] old(self).subscribers@[j]).dropped_bytes is Some ==>
                    old(self).subscribers@[j].dropped_bytes->0 + chunk_len <= usize::MAX,
                forall|j: int| 0 <= j < i ==> #[trigger] self.subscribers@[j] == match outcomes@[j] {
                    Some(o) => after_send(old(self).subscribers@[j], o, chunk_len),
                    None => old(self).subscribers@[j],
                },
                forall|j: int| i <= j < self.subscribers@.len() ==> #[trigger] self.subscribers@[j]
                    == old(self).subscribers@[j],
                self.stream_bounded == old(self).stream_bounded,
                self.time_limit == old(self).time_limit,
            decreases self.subscribers@.len() - i,
        {
            let s = self.subscribers[i];
            match outcomes[i] {
                Some(SendOutcome::Sent) => {
                    self.subscribers.set(i, Subscriber { dropped_bytes: None, ..s });
                },
                Some(SendOutcome::Full) => {
                    let dropped = match s.dropped_bytes {
                        Some(d) => d + chunk_len,
                        None => chunk_len,
                    };
                    self.subscribers.set(i, Subscriber { dropped_bytes: Some(dropped), ..s });
                },
                Some(SendOutcome::Closed) => {
                    self.subscribers.set(i, Subscriber { active: false, ..s });
                },
                None => {},
            }
            i = i + 1;
        }
        self.last_received = now;
    }

    /// The least room among the open queues, given the room of each open
    /// queue (`None` for a closed one) measured at `now`; a queue stuck
    /// full for longer than its subscriber allows is left out. Without any
    /// counted queue, the room of an empty queue.
    pub fn min_capacity(&mut self, rooms: &Vec<Option<usize>>, now: u64) -> (r: usize)
        requires
            rooms@.len() == old(self).subscribers@.len(),
            forall|i: int| 0 <= i < rooms@.len() ==> (rooms@[i] is Some <==> #[trigger] old(self).subscribers@[i].active),
        ensures
            r == match least_room(old(self).subscribers@, rooms@, now, rooms@.len() as int) {
                Some(m) => m,
                None => MAX_CHUNKS,
            },
            final(self).subscribers@.len() == old(self).subscribers@.len(),
            forall|i: int| 0 <= i < rooms@.len() ==> #[trigger] final(self).subscribers@[i] == match rooms@[i] {
                Some(room) => Subscriber {
                    stuck_start_time: stuck_after(old(self).subscribers@[i], room, now),
                    ..old(self).subscribers@[i]
                },
                None => old(self).subscribers@[i],
            },
            final(self).last_received == old(self).last_received,
            final(self).stream_bounded == old(self).stream_bounded,
            final(self).time_limit == old(self).time_limit,
    {
        let ghost olds = self.subscribers@;
        let mut least: Option<usize> = None;
        let mut i: usize = 0;
        while i < self.subscribers.len()
            invariant
                i <= olds.len(),
                rooms@.len() == olds.len(),
                self.subscribers@.len() == olds.len(),
                olds == old(self).subscribers@,
                least == least_room(olds, rooms@, now, i as int),
                forall|j: int| 0 <= j < i ==> #[trigger] self.subscribers@[j] == match rooms@[j] {
                    Some(room) => Subscriber { stuck_start_time: stuck_after(olds[j], room, now), ..olds[j] },
                    None => olds[j],
                },
                forall|j: int| i <= j < olds.len() ==> #[trigger] self.subscribers@[j] == olds[j],
                self.last_received == old(self).last_received,
                self.stream_bounded == old(self).stream_bounded,
                self.time_limit == old(self).time_limit,
            decreases olds.len() - i,
        {
            let s = self.subscribers[i];
            match rooms[i] {
                Some(room) => {
                    let counted = if room == 0 {
                        match s.stuck_start_time {
                            Some(t) => {
                                let stuck = if now >= t { now - t } else { 0 };
                                if stuck < s.max_stuck_time {
                                    Some(0usize)
                                } else {
                                    None
                                }
                            },
                            None => {
                                self.subscribers.set(i, Subscriber { stuck_start_time: Some(now), ..s });
                                Some(0usize)
                            },
                        }
                    } else {
                        self.subscribers.set(i, Subscriber { stuck_start_time: None, ..s });
                        Some(room)
                    };
                    least = match (least, counted) {
                        (Some(a), Some(b)) => Some(if b < a { b } else { a }),
                        (Some(a), None) => Some(a),
                        (None, Some(b)) => Some(b),
                        (None, None) => None,
                    };
                },
                None => {},
            }
            i = i + 1;
        }
        match least {
            Some(m) => m,
            None => MAX_CHUNKS,
        }
    }

    /// Whether no chunk came within the time limit up to `now`; then the
    /// stream is unbound.
    pub fn check_timeout(&mut self, now: u64) -> (r: bool)
        requires
            (if now >= old(self).last_received { now - old(self).last_received } else { 0 }) > old(self).time_limit
                ==> old(self).stream_bounded,
        ensures
            r == ((if now >= old(self).last_received { now - old(self).last_received } else { 0 }) > old(self).time_limit),
            r ==> !final(self).stream_bounded && final(self).subscribers@.len() == old(self).subscribers@.len()
                && forall|i: int| 0 <= i < old(self).subscribers@.len() ==> #[trigger] final(self).subscribers@[i]
                    == (Subscriber { active: false, ..old(self).subscribers@[i] }),
            !r ==> *final(self) == *old(self),
    {
        let elapsed = if now >= self.last_received { now - self.last_received } else { 0 };
        if elapsed > self.time_limit {
            self.unbind_stream();
            true
        } else {
            false
        }
    }
}

/// The room with which the reader of the tuner stream goes on reading
/// chunks: more than an eighth of a queue; else it waits.
pub fn usable_capacity(room: usize) -> (r: Option<usize>)
    ensures
        r == if room > MAX_CHUNKS / 8 { Some(room) } else { None::<usize> },
{
    if room > MAX_CHUNKS / 8 {
        Some(room)
    } else {
        None
    }
}

/// The subscribers without those of an identifier, in order.
pub open spec fn without_subscriber(subs: Seq<Subscriber>, id: u64) -> Seq<Subscriber> {
    subs.filter(|s: Subscriber| s.id != id)
}

/// After unsubscribing an identifier, no subscriber has it.
pub proof fn lemma_unsubscribed_gone(subs: Seq<Subscriber>, id: u64)
    ensures
        forall|i: int| 0 <= i < without_subscriber(subs, id).len() ==>
            (#[trigger] without_subscriber(subs, id)[i]).id != id,
{
    broadcast use vstd::seq_lib::group_filter_ensures;
    assert forall|i: int| 0 <= i < without_subscriber(subs, id).len() implies
        (#[trigger] without_subscriber(subs, id)[i]).id != id by {
        subs.lemma_filter_pred(|s: Subscriber| s.id != id, i);
    }
}

/// Binds a tuner stream to a broadcaster.
pub struct BindStream<R>(pub R);

/// Subscribes to a broadcaster.
pub struct Subscribe {
    pub id: u64,
    /// In milliseconds.
    pub max_stuck_time: u64,
}

/// Unsubscribes from a broadcaster.
pub struct Unsubscribe {
    pub id: u64,
}

/// Asks a broadcaster for the least room of its subscribers' queues.
pub struct MinCapacity;

/// The tuner stream ended.
pub struct StreamEnded;

} // verus!
