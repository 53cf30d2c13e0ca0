//! What the calls of the bus do, seen from outside: from what goes into them to what comes
//! out of them.

use vstd::arithmetic::power2::{lemma2_to64, lemma_pow2_unfold, pow2};
use vstd::prelude::*;

use crate::bus::{figi_bytes, Bus, Next, Subscription, Turn};
use crate::course::law_turn_moves_one_topic;
use crate::channel::{lemma_ring_size, ring_size};
use crate::fanout::{counted, BusState, FeedState, SubState};
use crate::types::{BookMessage, Figi};

verus! {

/// A book goes to the topic of its instrument, at the end and unchanged, and to no other;
/// publishing opens no topic.
pub proof fn law_publish_adds_the_book(bus: &mut Bus, book: BookMessage, figi: Seq<u8>)
    requires
        old(bus).wf(),
        call_ensures(Bus::publish, (bus, book), ()),
    ensures
        final(bus)@.ring == old(bus)@.ring,
        final(bus)@.topics.contains_key(figi) <==> old(bus)@.topics.contains_key(figi),
        old(bus)@.topics.contains_key(figi) && figi != book.figi.0@ ==> final(bus)@.topics[figi] == old(bus)@.topics[figi],
        old(bus)@.topics.contains_key(figi) && figi == book.figi.0@ ==> {
            let (before, after) = (old(bus)@.topics[figi], final(bus)@.topics[figi]);
            &&& after.len() == before.len() + 1
            &&& after.last() == book
            &&& forall|k: int| 0 <= k < before.len() ==> after[k] == #[trigger] before[k]
        },
{
}

/// A subscription follows as many topics as instruments were named, one for each in their
/// order; it has read what was published before, and nothing waits. All these topics are
/// open afterwards, and nothing else has changed.
pub proof fn law_subscribe_follows_the_list(
    bus: &mut Bus,
    figis: &[Figi],
    queue_size: usize,
    sub: Subscription,
    i: int,
    figi: Seq<u8>,
)
    requires
        old(bus).wf(),
        call_ensures(Bus::subscribe, (bus, figis, queue_size), sub),
        0 <= i < figis@.len(),
    ensures
        sub@.feeds.len() == figis@.len(),
        sub@.feeds[i].figi == figis@[i].0@,
        sub@.feeds[i].read == if old(bus)@.topics.contains_key(figis@[i].0@) {
            old(bus)@.topics[figis@[i].0@].len()
        } else {
            0
        },
        sub@.queue.len() == 0,
        sub@.limit == queue_size,
        sub@.dropped == 0,
        final(bus)@.ring == old(bus)@.ring,
        final(bus)@.topics.contains_key(figis@[i].0@),
        old(bus)@.topics.contains_key(figi) ==> final(bus)@.topics.contains_key(figi) && final(bus)@.topics[figi]
            == old(bus)@.topics[figi],
        !old(bus)@.topics.contains_key(figi) && final(bus)@.topics.contains_key(figi) ==> {
            &&& final(bus)@.topics[figi].len() == 0
            &&& exists|k: int| 0 <= k < figis@.len() && #[trigger] figis@[k].0@ == figi
        },
{
    let bytes = figi_bytes(figis@);
    assert(bytes[i] == figis@[i].0@);
    assert(bytes.contains(figis@[i].0@));
    if bytes.contains(figi) {
        let k = choose|k: int| 0 <= k < bytes.len() && bytes[k] == figi;
        assert(figis@[k].0@ == figi);
    }
}

/// A subscription without instruments follows nothing and has nothing to offer, ever.
pub proof fn law_subscribing_to_nothing_ends(
    bus: &mut Bus,
    figis: &[Figi],
    queue_size: usize,
    sub: &mut Subscription,
    next: Next,
)
    requires
        old(bus).wf(),
        figis@.len() == 0,
        call_ensures(Bus::subscribe, (bus, figis, queue_size), *old(sub)),
        call_ensures(Subscription::next, (sub,), next),
    ensures
        next == Next::Ended,
{
}

/// The oldest waiting book is handed over, every field of it, and the others wait on. With
/// nothing waiting, it is the end exactly when no topic is followed.
pub proof fn law_next_hands_over_the_oldest(sub: &mut Subscription, next: Next)
    requires
        old(sub).wf(),
        call_ensures(Subscription::next, (sub,), next),
    ensures
        old(sub)@.queue.len() > 0 ==> {
            &&& next == Next::Update(old(sub)@.queue[0])
            &&& old(sub)@.queue == seq![old(sub)@.queue[0]] + final(sub)@.queue
        },
        old(sub)@.queue.len() == 0 ==> {
            &&& final(sub)@.queue.len() == 0
            &&& next == Next::Ended <==> old(sub)@.feeds.len() == 0
            &&& next == Next::Pending <==> old(sub)@.feeds.len() > 0
        },
        final(sub)@.feeds == old(sub)@.feeds,
        final(sub)@.dropped == old(sub)@.dropped,
        final(sub)@.limit == old(sub)@.limit,
{
    if old(sub)@.queue.len() > 0 {
        assert(old(sub)@.queue =~= seq![old(sub)@.queue[0]] + old(sub)@.queue.drop_first());
    }
}

/// A turn hands one book of the topic on to the end of the queue, unchanged; what the topic
/// no longer retains, or the queue has no room for, is counted, modulo 2^64; nothing else
/// changes.
pub proof fn law_turn_hands_a_book_on(sub: &mut Subscription, bus: Bus, feed: usize, turn: Turn, k: int)
    requires
        old(sub).wf(),
        bus.wf(),
        old(sub).attached_to(&bus),
        call_ensures(Subscription::fan_in_one, (sub, &bus, feed), turn),
        feed < old(sub)@.feeds.len(),
        bus@.topics[old(sub)@.feeds[feed as int].figi].len() - old(sub)@.feeds[feed as int].read + bus@.ring <= u64::MAX,
        0 <= k < old(sub)@.feeds.len(),
    ensures
        ({
            let sent = bus@.topics[old(sub)@.feeds[feed as int].figi];
            let read = old(sub)@.feeds[feed as int].read;
            let after = final(sub)@;
            let behind = sent.len() - read;
            let room = old(sub)@.queue.len() < old(sub)@.limit;
            &&& behind >= 0
            &&& after.feeds.len() == old(sub)@.feeds.len()
            &&& k != feed ==> after.feeds[k] == old(sub)@.feeds[k]
            &&& turn == Turn::Idle <==> behind == 0
            &&& turn == Turn::Queued <==> 0 < behind <= bus@.ring && room
            &&& turn == Turn::QueueFull <==> 0 < behind <= bus@.ring && !room
            &&& turn is Lagged <==> behind > bus@.ring
            &&& match turn {
                Turn::Idle => after == old(sub)@,
                Turn::Queued => {
                    &&& after.queue == old(sub)@.queue + seq![sent[read as int]]
                    &&& after.dropped == old(sub)@.dropped
                    &&& after.feeds[feed as int].read == read + 1
                },
                Turn::QueueFull => {
                    &&& after.queue == old(sub)@.queue
                    &&& after.dropped == (old(sub)@.dropped + 1) % 0x1_0000_0000_0000_0000
                    &&& after.feeds[feed as int].read == read + 1
                },
                Turn::Lagged(missed) => {
                    &&& after.queue == old(sub)@.queue
                    &&& missed == behind - bus@.ring
                    &&& after.dropped == (old(sub)@.dropped + missed) % 0x1_0000_0000_0000_0000
                    &&& after.feeds[feed as int].read == read + missed
                },
            }
        }),
{
    bus.lemma_ring();
    old(sub).lemma_attached(&bus);
    assert(old(sub)@.follows_at(bus@, feed as int));
    law_turn_moves_one_topic(old(sub)@, bus@, feed as int, k);
    law_turn_moves_one_topic(old(sub)@, bus@, feed as int, feed as int);
}

proof fn lemma_fan_in_reads_all(sub: SubState, bus: BusState, i: int, k: int)
    requires
        0 <= i,
        0 <= k < sub.feeds.len(),
        sub.follows(bus),
    ensures
        ({
            let after = sub.drained_from(bus, i);
            &&& after.feeds.len() == sub.feeds.len()
            &&& after.limit == sub.limit
            &&& after.feeds[k].figi == sub.feeds[k].figi
            &&& k >= i ==> after.feeds[k].read == bus.topics[sub.feeds[k].figi].len()
            &&& k < i ==> after.feeds[k] == sub.feeds[k]
            &&& sub.queue.is_prefix_of(after.queue)
            &&& sub.queue.len() <= sub.limit ==> after.queue.len() <= sub.limit
        }),
    decreases sub.feeds.len() - i,
{
    if i < sub.feeds.len() {
        let next = sub.drained(bus, i);
        assert forall|m: int| 0 <= m < next.feeds.len() implies next.follows_at(bus, m) by {
            assert(sub.follows_at(bus, m));
        }
        assert(sub.follows_at(bus, i));
        lemma_fan_in_reads_all(next, bus, i + 1, k);
        assert(sub.queue.is_prefix_of(next.queue));
    }
}

/// A fan-in leaves nothing unheard, keeps what waited in front, and never overfills the
/// queue.
pub proof fn law_fan_in_leaves_nothing_unheard(sub: &mut Subscription, bus: Bus, k: int)
    requires
        old(sub).wf(),
        bus.wf(),
        old(sub).attached_to(&bus),
        call_ensures(Subscription::fan_in, (sub, &bus), ()),
        0 <= k < old(sub)@.feeds.len(),
    ensures
        final(sub)@.feeds.len() == old(sub)@.feeds.len(),
        final(sub)@.feeds[k].figi == old(sub)@.feeds[k].figi,
        final(sub)@.feeds[k].read == bus@.topics[old(sub)@.feeds[k].figi].len(),
        final(sub)@.limit == old(sub)@.limit,
        old(sub)@.queue.is_prefix_of(final(sub)@.queue),
        old(sub)@.queue.len() <= old(sub)@.limit ==> final(sub)@.queue.len() <= old(sub)@.limit,
{
    old(sub).lemma_attached(&bus);
    lemma_fan_in_reads_all(old(sub)@, bus@, 0, k);
}

/// All that waits is copies of one book, and that one is all that was not heard.
proof fn lemma_only_book(sub: SubState, bus: BusState, book: BookMessage, i: int, k: int)
    requires
        0 <= i,
        0 <= k < sub.feeds.len(),
        sub.follows(bus),
        bus.ring > 0,
        sub.limit > 0,
        forall|m: int| 0 <= m < sub.queue.len() ==> #[trigger] sub.queue[m] == book,
        forall|m: int|
            i <= m < sub.feeds.len() ==> {
                let backlog = #[trigger] sub.backlog(bus, m);
                backlog.len() <= 1 && (backlog.len() == 1 ==> backlog[0] == book)
            },
        sub.queue.len() > 0 || (k >= i && sub.backlog(bus, k).len() == 1),
    ensures
        sub.drained_from(bus, i).queue.len() > 0,
        sub.drained_from(bus, i).queue[0] == book,
    decreases sub.feeds.len() - i,
{
    if i < sub.feeds.len() {
        let next = sub.drained(bus, i);
        assert(sub.follows_at(bus, i));
        assert forall|m: int| 0 <= m < next.feeds.len() implies next.follows_at(bus, m) by {
            assert(sub.follows_at(bus, m));
        }
        assert(sub.backlog(bus, i).len() <= 1);
        assert forall|m: int| i + 1 <= m < next.feeds.len() implies ({
            let backlog = #[trigger] next.backlog(bus, m);
            backlog.len() <= 1 && (backlog.len() == 1 ==> backlog[0] == book)
        }) by {
            assert(next.backlog(bus, m) == sub.backlog(bus, m));
        }
        if k >= i + 1 {
            assert(next.backlog(bus, k) == sub.backlog(bus, k));
        }
        lemma_only_book(next, bus, book, i + 1, k);
    }
}

/// The way of a book: whoever subscribes to a list of instruments, and then hears of a book
/// that is published for any one of them, is handed that very book.
pub proof fn law_published_book_arrives_unchanged(
    opening: &mut Bus,
    figis: &[Figi],
    queue_size: usize,
    publishing: &mut Bus,
    book: BookMessage,
    hearing: &mut Subscription,
    taking: &mut Subscription,
    next: Next,
    i: int,
)
    requires
        old(opening).wf(),
        queue_size > 0,
        call_ensures(Bus::subscribe, (opening, figis, queue_size), *old(hearing)),
        *old(publishing) == *final(opening),
        call_ensures(Bus::publish, (publishing, book), ()),
        call_ensures(Subscription::fan_in, (hearing, &*final(publishing)), ()),
        *old(taking) == *final(hearing),
        call_ensures(Subscription::next, (taking,), next),
        0 <= i < figis@.len(),
        figis@[i].0@ == book.figi.0@,
    ensures
        next == Next::Update(book),
        final(taking)@.dropped == 0 || figis@.len() > queue_size,
{
    let bus = *final(publishing);
    let sub = old(hearing)@;
    bus.lemma_ring();
    old(hearing).lemma_attached(&bus);
    law_subscribe_follows_the_list(opening, figis, queue_size, *old(hearing), i, book.figi.0@);
    assert forall|m: int| 0 <= m < sub.feeds.len() implies ({
        let backlog = #[trigger] sub.backlog(bus@, m);
        backlog.len() <= 1 && (backlog.len() == 1 ==> backlog[0] == book)
    }) by {
        law_subscribe_follows_the_list(opening, figis, queue_size, *old(hearing), m, figis@[m].0@);
        law_publish_adds_the_book(publishing, book, figis@[m].0@);
    }
    law_publish_adds_the_book(publishing, book, book.figi.0@);
    assert(sub.backlog(bus@, i).len() == 1);
    lemma_only_book(sub, bus@, book, 0, i);
    lemma_few_lost(sub, bus@, 0);
}

/// With at most one book to hear of each topic, and room for all, nothing is lost.
proof fn lemma_few_lost(sub: SubState, bus: BusState, i: int)
    requires
        0 <= i <= sub.feeds.len(),
        sub.follows(bus),
        bus.ring > 0,
        forall|m: int| i <= m < sub.feeds.len() ==> (#[trigger] sub.backlog(bus, m)).len() <= 1,
    ensures
        sub.queue.len() + (sub.feeds.len() - i) <= sub.limit ==> sub.drained_from(bus, i).dropped == sub.dropped,
    decreases sub.feeds.len() - i,
{
    if i < sub.feeds.len() {
        let next = sub.drained(bus, i);
        assert(sub.follows_at(bus, i));
        assert(sub.backlog(bus, i).len() <= 1);
        assert forall|m: int| 0 <= m < next.feeds.len() implies next.follows_at(bus, m) by {
            assert(sub.follows_at(bus, m));
        }
        assert forall|m: int| i + 1 <= m < next.feeds.len() implies (#[trigger] next.backlog(bus, m)).len() <= 1 by {
            assert(next.backlog(bus, m) == sub.backlog(bus, m));
        }
        lemma_few_lost(next, bus, i + 1);
    }
}

/// The counts are those of the state: what was dropped, how many topics are followed, how
/// many are open.
pub proof fn law_counts_are_told(sub: Subscription, total: u64, feeds: usize, bus: Bus, topics: usize)
    requires
        bus.wf(),
        call_ensures(Subscription::dropped_total, (&sub,), total),
        call_ensures(Subscription::feed_count, (&sub,), feeds),
        call_ensures(Bus::topic_count, (&bus,), topics),
    ensures
        total == sub@.dropped,
        feeds == sub@.feeds.len(),
        topics == bus@.topics.dom().len(),
{
}

/// A closed subscription hands over what waits, and then has ended; it loses nothing by
/// being closed.
pub proof fn law_closing_keeps_the_queue(closing: &mut Subscription, taking: &mut Subscription, next: Next)
    requires
        old(closing).wf(),
        call_ensures(Subscription::close, (closing,), ()),
        *old(taking) == *final(closing),
        call_ensures(Subscription::next, (taking,), next),
    ensures
        final(closing)@.queue == old(closing)@.queue,
        final(closing)@.dropped == old(closing)@.dropped,
        next == if old(closing)@.queue.len() > 0 {
            Next::Update(old(closing)@.queue[0])
        } else {
            Next::Ended
        },
{
}

/// A new bus has no topic, and is to retain what it was asked to, in a ring of less than twice
/// that size.
pub proof fn law_new_bus_has_no_topics(channel_capacity: usize, bus: Bus, figi: Seq<u8>)
    requires
        channel_capacity > 0,
        call_ensures(Bus::new, (channel_capacity,), bus),
    ensures
        !bus@.topics.contains_key(figi),
        bus.capacity() == channel_capacity,
        channel_capacity <= bus@.ring < 2 * channel_capacity,
        is_power_of_two(bus@.ring),
{
    lemma_ring_size(channel_capacity as nat);
    lemma_ring_is_power_of_two(channel_capacity as nat);
}

/// Whether `n` is a product of twos.
pub open spec fn is_power_of_two(n: nat) -> bool {
    exists|exponent: nat| #[trigger] pow2(exponent) == n
}

proof fn lemma_ring_is_power_of_two(capacity: nat)
    ensures
        is_power_of_two(ring_size(capacity)),
    decreases capacity,
{
    if capacity <= 1 {
        lemma2_to64();
        assert(pow2(0) == ring_size(capacity));
    } else {
        lemma_ring_is_power_of_two((capacity + 1) / 2);
        let exponent = choose|exponent: nat| #[trigger] pow2(exponent) == ring_size((capacity + 1) / 2);
        lemma_pow2_unfold(exponent + 1);
        assert(pow2(exponent + 1) == ring_size(capacity));
    }
}

/// The running total can be written to from outside; nothing else of the subscription changes
/// with it.
pub proof fn law_total_is_written_through(sub: &mut Subscription, counter: &mut u64)
    requires
        old(sub).wf(),
        call_ensures(Subscription::dropped_counter, (sub,), counter),
    ensures
        *old(counter) == old(sub)@.dropped,
        final(sub)@.dropped == *final(counter),
        final(sub)@.queue == old(sub)@.queue,
        final(sub)@.feeds == old(sub)@.feeds,
        final(sub)@.limit == old(sub)@.limit,
{
}

/// What is there to hear, from topic `i` on: of each topic the books from the place of the
/// subscription to the end, but no more than the last ones that the ring still holds.
pub open spec fn to_hear(feeds: Seq<FeedState>, bus: BusState, i: int) -> Seq<BookMessage>
    decreases feeds.len() - i,
{
    if i < 0 || i >= feeds.len() {
        Seq::empty()
    } else {
        let sent = bus.topics[feeds[i].figi];
        let behind = sent.len() - feeds[i].read;
        let start = if behind > bus.ring {
            sent.len() - bus.ring
        } else {
            feeds[i].read as int
        };
        sent.subrange(start, sent.len() as int) + to_hear(feeds, bus, i + 1)
    }
}

/// How many books lie in front of the places of a subscription, from topic `i` on.
pub open spec fn behind_from(feeds: Seq<FeedState>, bus: BusState, i: int) -> int
    decreases feeds.len() - i,
{
    if i < 0 || i >= feeds.len() {
        0
    } else {
        bus.topics[feeds[i].figi].len() - feeds[i].read + behind_from(feeds, bus, i + 1)
    }
}

proof fn lemma_to_hear_ignores_others(feeds: Seq<FeedState>, others: Seq<FeedState>, bus: BusState, i: int)
    requires
        0 <= i,
        feeds.len() == others.len(),
        forall|m: int| i <= m < feeds.len() ==> feeds[m] == #[trigger] others[m],
    ensures
        to_hear(feeds, bus, i) == to_hear(others, bus, i),
        behind_from(feeds, bus, i) == behind_from(others, bus, i),
    decreases feeds.len() - i,
{
    if i < feeds.len() {
        assert(feeds[i] == others[i]);
        lemma_to_hear_ignores_others(feeds, others, bus, i + 1);
    }
}

/// The first `limit` of `books`, or all of them where there are fewer.
pub open spec fn at_most(books: Seq<BookMessage>, limit: nat) -> Seq<BookMessage> {
    if books.len() <= limit {
        books
    } else {
        books.subrange(0, limit as int)
    }
}

proof fn lemma_fan_in_queues(sub: SubState, bus: BusState, i: int)
    requires
        0 <= i,
        sub.follows(bus),
        sub.queue.len() <= sub.limit,
    ensures
        ({
            let after = sub.drained_from(bus, i);
            &&& after.limit == sub.limit
            &&& after.queue == at_most(sub.queue + to_hear(sub.feeds, bus, i), sub.limit)
            &&& (after.dropped + after.queue.len() - sub.queue.len() - sub.dropped - behind_from(sub.feeds, bus, i))
                % 0x1_0000_0000_0000_0000 == 0
        }),
    decreases sub.feeds.len() - i,
{
    if i < sub.feeds.len() {
        let next = sub.drained(bus, i);
        let sent = bus.topics[sub.feeds[i].figi];
        assert(sub.follows_at(bus, i));
        assert forall|m: int| 0 <= m < next.feeds.len() implies next.follows_at(bus, m) by {
            assert(sub.follows_at(bus, m));
        }
        lemma_fan_in_queues(next, bus, i + 1);
        lemma_to_hear_ignores_others(sub.feeds, next.feeds, bus, i + 1);
        let rest = to_hear(sub.feeds, bus, i + 1);
        let retained = sub.retained(bus, i);
        let start = if sent.len() - sub.feeds[i].read > bus.ring {
            sent.len() - bus.ring
        } else {
            sub.feeds[i].read as int
        };
        assert(retained =~= sent.subrange(start, sent.len() as int));
        assert(next.queue =~= at_most(sub.queue + retained, sub.limit));
        assert(at_most(next.queue + rest, sub.limit) =~= at_most(sub.queue + (retained + rest), sub.limit));
        lemma_counted(sub.dropped, sent.len() - sub.feeds[i].read - (next.queue.len() - sub.queue.len()));
    } else {
        assert(sub.queue + to_hear(sub.feeds, bus, i) =~= sub.queue);
    }
}

proof fn lemma_counted(counter: u64, count: int)
    ensures
        (counted(counter, count) - counter - count) % 0x1_0000_0000_0000_0000 == 0,
{
}

/// A fan-in queues, behind what waits, the books of each topic that are there to hear, topic
/// by topic and in their order, as far as there is room; all the other books that it moves
/// past are counted, modulo 2^64.
pub proof fn law_fan_in_queues_what_there_is_room_for(sub: &mut Subscription, bus: Bus)
    requires
        old(sub).wf(),
        bus.wf(),
        old(sub).attached_to(&bus),
        call_ensures(Subscription::fan_in, (sub, &bus), ()),
        old(sub)@.queue.len() <= old(sub)@.limit,
    ensures
        final(sub)@.queue == at_most(
            old(sub)@.queue + to_hear(old(sub)@.feeds, bus@, 0),
            old(sub)@.limit,
        ),
        (final(sub)@.dropped + final(sub)@.queue.len() - old(sub)@.queue.len() - old(sub)@.dropped - behind_from(
            old(sub)@.feeds,
            bus@,
            0,
        )) % 0x1_0000_0000_0000_0000 == 0,
        final(sub)@.limit == old(sub)@.limit,
{
    old(sub).lemma_attached(&bus);
    lemma_fan_in_queues(old(sub)@, bus@, 0);
}

} // verus!
