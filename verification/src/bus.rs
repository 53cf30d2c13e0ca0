//! The bus: one topic per instrument, fanned out to independent subscriptions.
//!
//! Publishing never waits for a subscription. A subscription that does not keep up
//! loses books, counts them, and disturbs nobody else.

use dashmap::DashMap;
use tokio::sync::{broadcast, mpsc};
use vstd::prelude::*;

use crate::channel::{
    hear, lemma_ring_size, listen_to_topic, new_queue, new_topic, offer, queue_joins, queue_limit, queue_sent, queue_taken,
    ring_size, send_to_topic, take, topic_hears, topic_read, topic_ring, topic_sent, Heard, Offered,
};
use crate::fanout::{counted, lemma_drained_idle, lemma_drained_step, lemma_open_none, lemma_open_one_more, BusState, FeedState, SubState};
use crate::table::{find_slot, insert_slot, new_slots, slots_in};
use crate::types::{BookMessage, Figi};

verus! {

/// Per-FIGI fan-out bus.
pub struct Bus {
    slots: DashMap<[u8; 12], usize>,
    topics: Vec<broadcast::Sender<BookMessage>>,
    channel_capacity: usize,
}

/// One subscription's receiver on one topic.
pub struct Feed {
    figi: Figi,
    rx: broadcast::Receiver<BookMessage>,
}

/// The bytes of each of `figis`.
pub open spec fn figi_bytes(figis: Seq<Figi>) -> Seq<Seq<u8>> {
    figis.map_values(|figi: Figi| figi.0@)
}

impl Bus {
    /// The open topics and what was published to them.
    pub closed spec fn view(&self) -> BusState {
        BusState {
            topics: Map::new(
                |figi: Seq<u8>| slots_in(self.slots).contains_key(figi),
                |figi: Seq<u8>| topic_sent(self.topics@[slots_in(self.slots)[figi] as int]),
            ),
            ring: ring_size(self.channel_capacity as nat),
        }
    }

    /// How many books a topic was asked to retain.
    pub closed spec fn capacity(&self) -> usize {
        self.channel_capacity
    }

    /// Every open topic has a channel of its own.
    pub closed spec fn wf(&self) -> bool {
        let slots = slots_in(self.slots);
        &&& self.channel_capacity > 0
        &&& slots.dom().finite()
        &&& slots.dom().len() == self.topics@.len()
        &&& forall|figi: Seq<u8>| #[trigger] slots.contains_key(figi) ==> slots[figi] < self.topics@.len()
        &&& forall|a: Seq<u8>, b: Seq<u8>| #[trigger]
            slots.contains_key(a) && #[trigger] slots.contains_key(b) && a != b ==> slots[a] != slots[b]
        &&& forall|i: int|
            0 <= i < self.topics@.len() ==> #[trigger] topic_ring(self.topics@[i]) == ring_size(
                self.channel_capacity as nat,
            )
    }

    /// Whether `feed` is a receiver of one of the topics.
    pub closed spec fn feeds(&self, feed: Feed) -> bool {
        let slots = slots_in(self.slots);
        let topic = self.topics@[slots[feed.figi.0@] as int];
        &&& slots.contains_key(feed.figi.0@)
        &&& topic_hears(feed.rx, topic)
        &&& topic_read(feed.rx) <= topic_sent(topic).len()
    }

    /// A topic retains at least one book.
    pub proof fn lemma_ring(&self)
        requires
            self.wf(),
        ensures
            self@.ring >= self.capacity() > 0,
    {
        lemma_ring_size(self.channel_capacity as nat);
    }

    /// A bus without topics, each of which is to retain at least `channel_capacity`
    /// books.
    pub fn new(channel_capacity: usize) -> (bus: Bus)
        requires
            channel_capacity > 0,
        ensures
            bus.wf(),
            bus.capacity() == channel_capacity,
            bus@ == (BusState {
                topics: Map::<Seq<u8>, Seq<BookMessage>>::empty(),
                ring: ring_size(channel_capacity as nat),
            }),
    {
        let bus = Bus { slots: new_slots(), topics: Vec::new(), channel_capacity };
        assert(bus@.topics =~= Map::<Seq<u8>, Seq<BookMessage>>::empty());
        bus
    }

    /// How many topics are open.
    pub fn topic_count(&self) -> (count: usize)
        requires
            self.wf(),
        ensures
            count == self@.topics.dom().len(),
    {
        assert(self@.topics.dom() =~= slots_in(self.slots).dom());
        self.topics.len()
    }

    /// Publishes `book` to the topic of its instrument. When nobody ever subscribed to
    /// it, nothing happens.
    pub fn publish(&mut self, book: BookMessage)
        requires
            old(self).wf(),
        ensures
            final(self).wf(),
            final(self).capacity() == old(self).capacity(),
            final(self)@ == old(self)@.publish(book),
            forall|sub: Subscription| sub.attached_to(old(self)) ==> #[trigger] sub.attached_to(final(self)),
    {
        match find_slot(&self.slots, &book.figi.0) {
            Some(slot) => {
                send_to_topic(&mut self.topics[slot], book);
                assert forall|feed: Feed| old(self).feeds(feed) implies #[trigger] self.feeds(feed) by {
                }
                assert(self@.topics =~= old(self)@.publish(book).topics);
            },
            None => {},
        }
    }

    /// Opens the topic of `figi` unless it is open, and listens to it from now on.
    fn attach(&mut self, figi: Figi) -> (feed: Feed)
        requires
            old(self).wf(),
            old(self).capacity() <= usize::MAX / 2,
        ensures
            final(self).wf(),
            final(self).capacity() == old(self).capacity(),
            final(self)@ == old(self)@.open_topics(seq![figi.0@]),
            forall|feed: Feed| old(self).feeds(feed) ==> #[trigger] final(self).feeds(feed),
            final(self).feeds(feed),
            feed@ == (FeedState { figi: figi.0@, read: final(self)@.topics[figi.0@].len() }),
    {
        let slot: usize = match find_slot(&self.slots, &figi.0) {
            Some(slot) => slot,
            None => {
                let slot: usize = self.topics.len();
                self.topics.push(new_topic(self.channel_capacity));
                insert_slot(&mut self.slots, figi.0, slot);
                assert(topic_sent(self.topics@[slot as int]) =~= Seq::<BookMessage>::empty());
                slot
            },
        };
        assert(seq![figi.0@].contains(figi.0@)) by {
            assert(seq![figi.0@][0] == figi.0@);
        }
        assert forall|key: Seq<u8>| #[trigger] seq![figi.0@].contains(key) implies key == figi.0@ by {
        }
        assert(self@.topics =~= old(self)@.open_topics(seq![figi.0@]).topics);
        Feed { figi, rx: listen_to_topic(&self.topics[slot]) }
    }

    /// Subscribes to `figis`, from now on, with a queue for `queue_size` books.
    ///
    /// An instrument that is named twice is delivered twice. Without any instrument the
    /// subscription has ended from the start.
    pub fn subscribe(&mut self, figis: &[Figi], queue_size: usize) -> (sub: Subscription)
        requires
            old(self).wf(),
            0 < queue_size <= usize::MAX / 8,
            figis@.len() > 0 ==> old(self).capacity() <= usize::MAX / 2,
        ensures
            final(self).wf(),
            final(self).capacity() == old(self).capacity(),
            final(self)@ == old(self)@.open_topics(figi_bytes(figis@)),
            forall|sub: Subscription| sub.attached_to(old(self)) ==> #[trigger] sub.attached_to(final(self)),
            sub.wf(),
            sub.attached_to(final(self)),
            sub@ == SubState::fresh(final(self)@, figi_bytes(figis@), queue_size as nat),
    {
        let (tx, rx) = new_queue(queue_size);
        let mut feeds: Vec<Feed> = Vec::new();
        let mut i: usize = 0;
        proof {
            assert(figi_bytes(figis@.take(0)) =~= Seq::<Seq<u8>>::empty());
            lemma_open_none(self@);
        }
        while i < figis.len()
            invariant
                i <= figis@.len(),
                figis@.len() > 0 ==> self.capacity() <= usize::MAX / 2,
                self.wf(),
                self.capacity() == old(self).capacity(),
                self@ == old(self)@.open_topics(figi_bytes(figis@.take(i as int))),
                forall|feed: Feed| old(self).feeds(feed) ==> #[trigger] self.feeds(feed),
                feeds@.len() == i,
                forall|j: int| 0 <= j < i ==> self.feeds(#[trigger] feeds@[j]),
                forall|j: int|
                    0 <= j < i ==> (#[trigger] feeds@[j])@ == (FeedState {
                        figi: figis@[j].0@,
                        read: self@.topics[figis@[j].0@].len(),
                    }),
            decreases figis@.len() - i,
        {
            proof {
                lemma_open_one_more(old(self)@, figi_bytes(figis@.take(i as int)), figis@[i as int].0@);
                assert(figi_bytes(figis@.take(i + 1)) =~= figi_bytes(figis@.take(i as int)).push(
                    figis@[i as int].0@,
                ));
                assert forall|j: int| 0 <= j < i implies self@.topics.contains_key(#[trigger] figis@[j].0@) by {
                    assert(figi_bytes(figis@.take(i as int))[j] == figis@[j].0@);
                }
            }
            let feed = self.attach(figis[i]);
            feeds.push(feed);
            i = i + 1;
        }
        assert(figis@.take(i as int) =~= figis@);
        let sub = Subscription { feeds, tx, rx, dropped: 0 };
        proof {
            let fresh = SubState::fresh(self@, figi_bytes(figis@), queue_size as nat);
            assert(sub@.feeds =~= fresh.feeds);
            assert(sub@.queue =~= fresh.queue);
        }
        sub
    }
}

impl SubState {
    /// What becomes of one turn of topic `i`.
    pub open spec fn turn(self, bus: BusState, i: int) -> Turn {
        let backlog = self.backlog(bus, i);
        if backlog.len() == 0 {
            Turn::Idle
        } else if backlog.len() > bus.ring {
            Turn::Lagged((backlog.len() - bus.ring) as u64)
        } else if self.queue.len() < self.limit {
            Turn::Queued
        } else {
            Turn::QueueFull
        }
    }

    /// What it has to offer.
    pub open spec fn next(self) -> Next {
        if self.queue.len() > 0 {
            Next::Update(self.queue[0])
        } else if self.feeds.len() > 0 {
            Next::Pending
        } else {
            Next::Ended
        }
    }
}

impl Feed {
    /// The topic and how far it was read.
    pub closed spec fn view(&self) -> FeedState {
        FeedState { figi: self.figi.0@, read: topic_read(self.rx) }
    }
}

/// What became of one turn of a topic.
#[derive(Clone, Copy, Debug, PartialEq, Eq, Structural)]
pub enum Turn {
    /// A book went into the queue.
    Queued,
    /// A book found the queue full and was dropped.
    QueueFull,
    /// That many books were overwritten before they were read.
    Lagged(u64),
    /// There was nothing to read.
    Idle,
}

/// What a subscription has to offer.
#[derive(Clone, Copy, Debug, PartialEq, Eq)]
pub enum Next {
    /// The oldest waiting book.
    Update(BookMessage),
    /// Nothing at present.
    Pending,
    /// Nothing now or later.
    Ended,
}

/// One subscriber's view of the [`Bus`].
pub struct Subscription {
    feeds: Vec<Feed>,
    tx: mpsc::Sender<BookMessage>,
    rx: mpsc::Receiver<BookMessage>,
    dropped: u64,
}

impl Subscription {
    /// Its topics, its queue and its losses.
    pub closed spec fn view(&self) -> SubState {
        SubState {
            feeds: self.feeds@.map_values(|feed: Feed| feed@),
            queue: queue_sent(self.tx).skip(queue_taken(self.rx) as int),
            limit: queue_limit(self.tx),
            dropped: self.dropped,
        }
    }

    /// The two halves of its queue belong together.
    pub closed spec fn wf(&self) -> bool {
        queue_joins(self.rx, self.tx) && queue_taken(self.rx) <= queue_sent(self.tx).len()
    }

    /// Its receivers are those of topics of `bus`.
    pub closed spec fn attached_to(&self, bus: &Bus) -> bool {
        forall|i: int| 0 <= i < self.feeds@.len() ==> bus.feeds(#[trigger] self.feeds@[i])
    }

    /// What it follows are open topics, and it is nowhere ahead of them.
    pub proof fn lemma_attached(&self, bus: &Bus)
        requires
            self.attached_to(bus),
        ensures
            self@.follows(bus@),
    {
        assert forall|i: int| 0 <= i < self@.feeds.len() implies self@.follows_at(bus@, i) by {
            assert(bus.feeds(self.feeds@[i]));
        }
    }

    /// How many topics it follows.
    pub fn feed_count(&self) -> (count: usize)
        ensures
            count == self@.feeds.len(),
    {
        self.feeds.len()
    }

    /// Gives topic `feed` of the subscription one turn: the next book goes into the
    /// queue or, when that is full, is counted as dropped; books that the topic no
    /// longer retains are counted as dropped too.
    pub fn fan_in_one(&mut self, bus: &Bus, feed: usize) -> (turn: Turn)
        requires
            old(self).wf(),
            bus.wf(),
            old(self).attached_to(bus),
            feed < old(self)@.feeds.len(),
            old(self)@.backlog(bus@, feed as int).len() + bus@.ring <= u64::MAX,
        ensures
            final(self).wf(),
            final(self).attached_to(bus),
            final(self)@ == old(self)@.hear(bus@, feed as int),
            turn == old(self)@.turn(bus@, feed as int),
    {
        proof {
            assert(bus.feeds(self.feeds@[feed as int]));
        }
        let slot: usize = match find_slot(&bus.slots, &self.feeds[feed].figi.0) {
            Some(slot) => slot,
            None => {
                return Turn::Idle;
            },
        };
        let turn = match hear(&mut self.feeds[feed].rx, &bus.topics[slot]) {
            Heard::Book(book) => match offer(&mut self.tx, &self.rx, book) {
                Offered::Accepted => Turn::Queued,
                Offered::Full => {
                    self.dropped = self.dropped.wrapping_add(1);
                    Turn::QueueFull
                },
                Offered::Closed => Turn::Idle,
            },
            Heard::Missed(missed) => {
                self.dropped = self.dropped.wrapping_add(missed);
                Turn::Lagged(missed)
            },
            Heard::Nothing | Heard::Closed => Turn::Idle,
        };
        proof {
            let after = old(self)@.hear(bus@, feed as int);
            assert(self@.feeds =~= after.feeds);
            assert(self@.queue =~= after.queue);
        }
        turn
    }

    /// Hears all that there is to hear, topic by topic.
    pub fn fan_in(&mut self, bus: &Bus)
        requires
            old(self).wf(),
            bus.wf(),
            old(self).attached_to(bus),
            old(self)@.backlogs_fit(bus@),
        ensures
            final(self).wf(),
            final(self).attached_to(bus),
            final(self)@ == old(self)@.drained_from(bus@, 0),
    {
        let mut i: usize = 0;
        while i < self.feeds.len()
            invariant
                self.wf(),
                bus.wf(),
                self.attached_to(bus),
                i <= self@.feeds.len(),
                self@.backlogs_fit(bus@),
                self@.drained_from(bus@, i as int) == old(self)@.drained_from(bus@, 0),
            decreases self@.feeds.len() - i,
        {
            let ghost feeds = self@.feeds.len();
            let ghost goal = self@.drained(bus@, i as int);
            let mut busy = true;
            while busy
                invariant
                    self.wf(),
                    bus.wf(),
                    self.attached_to(bus),
                    i < self@.feeds.len(),
                    self@.feeds.len() == feeds,
                    self@.backlogs_fit(bus@),
                    self@.drained(bus@, i as int) == goal,
                    !busy ==> self@ == goal,
                decreases self@.backlog(bus@, i as int).len() + if busy { 1int } else { 0 },
            {
                let ghost before = self@;
                proof {
                    self.lemma_attached(bus);
                    bus.lemma_ring();
                    assert(before.follows_at(bus@, i as int));
                    if before.backlog(bus@, i as int).len() > 0 {
                        lemma_drained_step(before, bus@, i as int);
                    } else {
                        lemma_drained_idle(before, bus@, i as int);
                    }
                }
                match self.fan_in_one(bus, i) {
                    Turn::Idle => {
                        busy = false;
                    },
                    _ => {},
                }
                proof {
                    self.lemma_attached(bus);
                    assert forall|j: int| 0 <= j < self@.feeds.len() implies #[trigger] self@.backlog(bus@, j).len()
                        + bus@.ring <= u64::MAX by {
                        assert(before.backlog(bus@, j).len() + bus@.ring <= u64::MAX);
                        assert(before.follows_at(bus@, j));
                        assert(self@.follows_at(bus@, j));
                    }
                }
            }
            i = i + 1;
        }
    }

    /// Takes the next book out of the queue.
    pub fn next(&mut self) -> (next: Next)
        requires
            old(self).wf(),
        ensures
            final(self).wf(),
            final(self)@ == old(self)@.take(),
            forall|bus: &Bus| old(self).attached_to(bus) ==> #[trigger] final(self).attached_to(bus),
            next == old(self)@.next(),
    {
        let next = match take(&mut self.rx, &self.tx) {
            Some(book) => Next::Update(book),
            None => if self.feeds.len() == 0 {
                Next::Ended
            } else {
                Next::Pending
            },
        };
        assert(self@.queue =~= old(self)@.take().queue);
        next
    }

    /// Lets go of all topics, as when the bus is gone. What waits in the queue can
    /// still be taken.
    pub fn close(&mut self)
        requires
            old(self).wf(),
        ensures
            final(self).wf(),
            forall|bus: &Bus| #[trigger] final(self).attached_to(bus),
            final(self)@ == old(self)@.close(),
    {
        self.feeds.clear();
        assert(self@.feeds =~= Seq::<FeedState>::empty());
    }

    /// How many books were dropped so far, on the way into the queue and behind it.
    /// The number is a running total.
    pub fn dropped_total(&self) -> (total: u64)
        ensures
            total == self@.dropped,
    {
        self.dropped
    }

    /// The running total itself, to which later stages add what they drop.
    pub fn dropped_counter(&mut self) -> (counter: &mut u64)
        requires
            old(self).wf(),
        ensures
            *counter == old(self)@.dropped,
            final(self).wf(),
            forall|bus: &Bus| old(self).attached_to(bus) ==> #[trigger] final(self).attached_to(bus),
            final(self)@ == (SubState { dropped: *final(counter), ..old(self)@ }),
    {
        &mut self.dropped
    }
}

} // verus!
