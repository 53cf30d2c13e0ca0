//! The model of the fan-out: topics on one side, subscriptions on the other, and what
//! each operation does to them.
//!
//! A topic is the history of the books published to one instrument. A subscription has
//! a position in each of its topics, a bounded queue into which the topics are merged,
//! and a count of what it lost.

use vstd::prelude::*;

use crate::types::BookMessage;

verus! {

/// The state of the bus.
pub struct BusState {
    /// The books published to each open topic, by the bytes of the FIGI.
    pub topics: Map<Seq<u8>, Seq<BookMessage>>,
    /// How many books a topic retains.
    pub ring: nat,
}

/// The place of a subscription in one of its topics.
pub struct FeedState {
    /// The bytes of the FIGI.
    pub figi: Seq<u8>,
    /// How many books of the topic lie behind: read, or from before the subscription.
    pub read: nat,
}

/// The state of a subscription.
pub struct SubState {
    /// The topics it follows; one may occur more than once.
    pub feeds: Seq<FeedState>,
    /// The books that wait to be taken, oldest first.
    pub queue: Seq<BookMessage>,
    /// How many books may wait.
    pub limit: nat,
    /// How many books were lost, modulo 2^64.
    pub dropped: u64,
}

/// What a 64-bit counter shows after `count` more events.
pub open spec fn counted(counter: u64, count: int) -> u64 {
    ((counter + count) % 0x1_0000_0000_0000_0000) as u64
}

impl BusState {
    /// `book` is published: its topic grows by it, and without one nothing happens.
    pub open spec fn publish(self, book: BookMessage) -> BusState {
        if self.topics.contains_key(book.figi.0@) {
            BusState {
                topics: self.topics.insert(book.figi.0@, self.topics[book.figi.0@].push(book)),
                ..self
            }
        } else {
            self
        }
    }

    /// The topics `figis` are open; those that were not have no history.
    pub open spec fn open_topics(self, figis: Seq<Seq<u8>>) -> BusState {
        BusState {
            topics: Map::new(
                |figi: Seq<u8>| self.topics.contains_key(figi) || figis.contains(figi),
                |figi: Seq<u8>|
                    if self.topics.contains_key(figi) {
                        self.topics[figi]
                    } else {
                        Seq::empty()
                    },
            ),
            ..self
        }
    }
}

impl SubState {
    /// A subscription to `figis` that starts behind all that was published so far.
    pub open spec fn fresh(bus: BusState, figis: Seq<Seq<u8>>, limit: nat) -> SubState {
        SubState {
            feeds: figis.map_values(|figi: Seq<u8>| FeedState { figi, read: bus.topics[figi].len() }),
            queue: Seq::empty(),
            limit,
            dropped: 0,
        }
    }

    /// Every topic that it follows is open and has the books that it has read.
    pub open spec fn follows(self, bus: BusState) -> bool {
        forall|i: int| 0 <= i < self.feeds.len() ==> self.follows_at(bus, i)
    }

    /// The same of one topic.
    pub open spec fn follows_at(self, bus: BusState, i: int) -> bool {
        bus.topics.contains_key(self.feeds[i].figi) && self.feeds[i].read <= bus.topics[self.feeds[i].figi].len()
    }

    /// The books of topic `i` that it has not read yet, also those that are no longer
    /// retained.
    pub open spec fn backlog(self, bus: BusState, i: int) -> Seq<BookMessage> {
        bus.topics[self.feeds[i].figi].skip(self.feeds[i].read as int)
    }

    /// No backlog has so many books that 64 bits do not tell them from what is retained.
    pub open spec fn backlogs_fit(self, bus: BusState) -> bool {
        forall|i: int| 0 <= i < self.feeds.len() ==> #[trigger] self.backlog(bus, i).len() + bus.ring <= u64::MAX
    }

    /// `read` books of topic `i` lie behind.
    pub open spec fn with_read(self, i: int, read: nat) -> SubState {
        SubState { feeds: self.feeds.update(i, FeedState { read, ..self.feeds[i] }), ..self }
    }

    /// `count` books were lost.
    pub open spec fn lose(self, count: int) -> SubState {
        SubState { dropped: counted(self.dropped, count), ..self }
    }

    /// `book` comes in: it waits in the queue, or is lost when the queue is full.
    pub open spec fn enqueue(self, book: BookMessage) -> SubState {
        if self.queue.len() < self.limit {
            SubState { queue: self.queue.push(book), ..self }
        } else {
            self.lose(1)
        }
    }

    /// One turn of topic `i`: what is no longer retained is lost, else the next book
    /// comes in, if there is one.
    pub open spec fn hear(self, bus: BusState, i: int) -> SubState {
        let backlog = self.backlog(bus, i);
        let read = self.feeds[i].read;
        if backlog.len() == 0 {
            self
        } else if backlog.len() > bus.ring {
            self.with_read(i, (read + backlog.len() - bus.ring) as nat).lose(backlog.len() - bus.ring)
        } else {
            self.with_read(i, read + 1).enqueue(backlog[0])
        }
    }

    /// The part of the backlog of topic `i` that is still retained.
    pub open spec fn retained(self, bus: BusState, i: int) -> Seq<BookMessage> {
        let backlog = self.backlog(bus, i);
        if backlog.len() > bus.ring {
            backlog.skip(backlog.len() - bus.ring)
        } else {
            backlog
        }
    }

    /// How many of the retained books of topic `i` the queue has room for.
    pub open spec fn room_for(self, bus: BusState, i: int) -> int {
        let room = if self.queue.len() < self.limit {
            self.limit - self.queue.len()
        } else {
            0
        };
        let waiting = self.retained(bus, i).len();
        if room < waiting {
            room
        } else {
            waiting as int
        }
    }

    /// All of topic `i` was heard: as many of the retained books as there is room for
    /// were queued in order, all others are lost.
    pub open spec fn drained(self, bus: BusState, i: int) -> SubState {
        let queued = self.retained(bus, i).take(self.room_for(bus, i));
        SubState {
            queue: self.queue + queued,
            ..self.with_read(i, bus.topics[self.feeds[i].figi].len()).lose(
                self.backlog(bus, i).len() - queued.len(),
            )
        }
    }

    /// All topics from `i` on were heard, one after the other.
    pub open spec fn drained_from(self, bus: BusState, i: int) -> SubState
        decreases self.feeds.len() - i,
    {
        if i < 0 || i >= self.feeds.len() {
            self
        } else {
            self.drained(bus, i).drained_from(bus, i + 1)
        }
    }

    /// The oldest waiting book was taken, if there is one.
    pub open spec fn take(self) -> SubState {
        if self.queue.len() > 0 {
            SubState { queue: self.queue.drop_first(), ..self }
        } else {
            self
        }
    }

    /// It follows nothing more.
    pub open spec fn close(self) -> SubState {
        SubState { feeds: Seq::empty(), ..self }
    }
}

/// Opening no topic changes nothing.
pub proof fn lemma_open_none(bus: BusState)
    ensures
        bus.open_topics(Seq::empty()) == bus,
{
    assert(bus.open_topics(Seq::empty()).topics =~= bus.topics);
}

/// Opening topics one by one is the same as opening them together.
pub proof fn lemma_open_one_more(bus: BusState, figis: Seq<Seq<u8>>, figi: Seq<u8>)
    ensures
        bus.open_topics(figis).open_topics(seq![figi]) == bus.open_topics(figis.push(figi)),
{
    assert forall|key: Seq<u8>| figis.push(figi).contains(key) <==> figis.contains(key) || seq![figi].contains(key) by {
        if figis.contains(key) {
            let i = choose|i: int| 0 <= i < figis.len() && figis[i] == key;
            assert(figis.push(figi)[i] == key);
        }
        if seq![figi].contains(key) {
            assert(figis.push(figi)[figis.len() as int] == key);
        }
        if figis.push(figi).contains(key) {
            let i = choose|i: int| 0 <= i < figis.push(figi).len() && figis.push(figi)[i] == key;
            if i < figis.len() {
                assert(figis[i] == key);
            } else {
                assert(seq![figi][0] == key);
            }
        }
    }
    assert(bus.open_topics(figis).open_topics(seq![figi]).topics =~= bus.open_topics(figis.push(figi)).topics);
}

/// Hearing all of a topic is one turn, and then all that is left.
pub proof fn lemma_drained_step(sub: SubState, bus: BusState, i: int)
    requires
        0 <= i < sub.feeds.len(),
        sub.follows_at(bus, i),
        bus.ring > 0,
        sub.backlog(bus, i).len() > 0,
    ensures
        sub.hear(bus, i).drained(bus, i) == sub.drained(bus, i),
        sub.hear(bus, i).backlog(bus, i).len() < sub.backlog(bus, i).len(),
{
    let next = sub.hear(bus, i);
    let sent = bus.topics[sub.feeds[i].figi];
    let backlog = sub.backlog(bus, i);
    assert(next.feeds[i].figi == sub.feeds[i].figi);
    assert(next.with_read(i, sent.len()).feeds =~= sub.with_read(i, sent.len()).feeds);
    if backlog.len() > bus.ring {
        assert(next.backlog(bus, i) =~= sub.retained(bus, i));
        assert(next.retained(bus, i) =~= sub.retained(bus, i));
    } else {
        assert(next.backlog(bus, i) =~= backlog.drop_first());
        assert(next.retained(bus, i) =~= backlog.drop_first());
        let queued = sub.retained(bus, i).take(sub.room_for(bus, i));
        let left = next.retained(bus, i).take(next.room_for(bus, i));
        if sub.queue.len() < sub.limit {
            assert(queued =~= seq![backlog[0]] + left);
            assert(sub.queue + queued =~= next.queue + left);
        } else {
            assert(queued =~= Seq::<BookMessage>::empty());
            assert(left =~= Seq::<BookMessage>::empty());
        }
    }
}

/// When there is nothing to hear, hearing all changes nothing.
pub proof fn lemma_drained_idle(sub: SubState, bus: BusState, i: int)
    requires
        0 <= i < sub.feeds.len(),
        sub.follows_at(bus, i),
        sub.backlog(bus, i).len() == 0,
    ensures
        sub.drained(bus, i) == sub,
{
    let sent = bus.topics[sub.feeds[i].figi];
    assert(sub.with_read(i, sent.len()).feeds =~= sub.feeds);
    let queued = sub.retained(bus, i).take(sub.room_for(bus, i));
    assert(queued =~= Seq::<BookMessage>::empty());
    assert(sub.queue + queued =~= sub.queue);
}

} // verus!
