//! What becomes of a subscription over a whole course of events: what it hands over, where
//! that comes from, and what it loses.

use vstd::prelude::*;

use crate::bus::{Next, Turn};
use crate::fanout::{counted, BusState, FeedState, SubState};
use crate::isolation::{law_subscriptions_are_isolated, law_validity_is_kept, of_figi, Action, World};
use crate::types::BookMessage;

verus! {

/// A book that a subscription hands over.
pub struct Handed {
    /// The book.
    pub book: BookMessage,
    /// The total of dropped books at that moment.
    pub dropped: u64,
}

/// Where a book comes from.
pub struct Origin {
    /// Which of the topics that the subscription follows.
    pub feed: int,
    /// Its place among the books of that topic.
    pub place: nat,
}

impl SubState {
    /// Whether a turn of topic `i` puts a book into the queue.
    pub open spec fn queues(self, bus: BusState, i: int) -> bool {
        0 < self.backlog(bus, i).len() <= bus.ring && self.queue.len() < self.limit
    }

    /// How many books a turn of topic `i` loses.
    pub open spec fn loses(self, bus: BusState, i: int) -> nat {
        let backlog = self.backlog(bus, i).len();
        if backlog > bus.ring {
            (backlog - bus.ring) as nat
        } else if backlog > 0 && self.queue.len() >= self.limit {
            1
        } else {
            0
        }
    }
}

impl World {
    /// What subscription `j` hands over in the course of `actions`, in order: what it has to
    /// offer each time that it is asked.
    pub open spec fn handed(self, actions: Seq<Action>, j: int) -> Seq<Handed>
        decreases actions.len(),
    {
        if actions.len() == 0 {
            Seq::empty()
        } else {
            let earlier = self.handed(actions.drop_last(), j);
            let sub = self.run(actions.drop_last()).subs[j];
            match (actions.last(), sub.next()) {
                (Action::Take(i), Next::Update(book)) => if i == j {
                    earlier.push(Handed { book, dropped: sub.dropped })
                } else {
                    earlier
                },
                _ => earlier,
            }
        }
    }

    /// Where the books come from that subscription `j` puts into its queue in the course of
    /// `actions`, in order.
    pub open spec fn queued(self, actions: Seq<Action>, j: int) -> Seq<Origin>
        decreases actions.len(),
    {
        if actions.len() == 0 {
            Seq::empty()
        } else {
            let earlier = self.queued(actions.drop_last(), j);
            let world = self.run(actions.drop_last());
            let sub = world.subs[j];
            match actions.last() {
                Action::Hear(i, feed) => if i == j && 0 <= feed < sub.feeds.len() && sub.queues(world.bus, feed) {
                    earlier.push(Origin { feed, place: sub.feeds[feed].read })
                } else {
                    earlier
                },
                _ => earlier,
            }
        }
    }

    /// How many books subscription `j` loses in the course of `actions`: overwritten before
    /// they were heard, refused by a full queue, or lost behind the queue.
    pub open spec fn lost(self, actions: Seq<Action>, j: int) -> nat
        decreases actions.len(),
    {
        if actions.len() == 0 {
            0
        } else {
            let earlier = self.lost(actions.drop_last(), j);
            let world = self.run(actions.drop_last());
            let sub = world.subs[j];
            match actions.last() {
                Action::Hear(i, feed) => if i == j && 0 <= feed < sub.feeds.len() {
                    earlier + sub.loses(world.bus, feed)
                } else {
                    earlier
                },
                Action::Lose(i) => if i == j {
                    earlier + 1
                } else {
                    earlier
                },
                _ => earlier,
            }
        }
    }
}

/// How many books subscription `j` loses behind its queue in the course of `actions`.
pub open spec fn lost_behind(actions: Seq<Action>, j: int) -> nat
    decreases actions.len(),
{
    if actions.len() == 0 {
        0
    } else {
        lost_behind(actions.drop_last(), j) + if actions.last() == Action::Lose(j) {
            1nat
        } else {
            0nat
        }
    }
}

/// The books that are published in the course of `actions`, in order.
pub open spec fn published(actions: Seq<Action>) -> Seq<BookMessage>
    decreases actions.len(),
{
    if actions.len() == 0 {
        Seq::empty()
    } else {
        let earlier = published(actions.drop_last());
        match actions.last() {
            Action::Publish(book) => earlier.push(book),
            _ => earlier,
        }
    }
}

/// The books that were handed over.
pub open spec fn books_of(handed: Seq<Handed>) -> Seq<BookMessage> {
    handed.map_values(|handed: Handed| handed.book)
}

/// The books at these places of the topics that `sub` follows.
pub open spec fn books_at(bus: BusState, sub: SubState, origins: Seq<Origin>) -> Seq<BookMessage> {
    origins.map_values(|origin: Origin| bus.topics[sub.feeds[origin.feed].figi][origin.place as int])
}

/// Whether the places within each topic ascend.
pub open spec fn ascending(origins: Seq<Origin>) -> bool {
    forall|n: int, m: int|
        0 <= n < m < origins.len() && (#[trigger] origins[n]).feed == (#[trigger] origins[m]).feed ==> origins[n].place
            < origins[m].place
}

/// What `after` still follows is what `before` did, and is not behind it; all `origins` lie
/// between the two. A subscription that has left follows nothing.
spec fn moved_on(before: SubState, after: SubState, origins: Seq<Origin>) -> bool {
    ||| after.feeds.len() == 0
    ||| {
        &&& after.feeds.len() == before.feeds.len()
        &&& forall|i: int|
            0 <= i < after.feeds.len() ==> (#[trigger] after.feeds[i]).figi == before.feeds[i].figi && after.feeds[i].read
                >= before.feeds[i].read
        &&& forall|n: int|
            0 <= n < origins.len() ==> (#[trigger] origins[n]).place < after.feeds[origins[n].feed].read
    }
}

/// Whether all origins are places of topics that `sub` follows, not yet read by it.
pub open spec fn unread(bus: BusState, sub: SubState, origins: Seq<Origin>) -> bool {
    forall|n: int|
        0 <= n < origins.len() ==> {
            let origin = #[trigger] origins[n];
            &&& 0 <= origin.feed < sub.feeds.len()
            &&& bus.topics.contains_key(sub.feeds[origin.feed].figi)
            &&& sub.feeds[origin.feed].read <= origin.place < bus.topics[sub.feeds[origin.feed].figi].len()
        }
}

proof fn lemma_course(world: World, actions: Seq<Action>, j: int)
    requires
        world.valid(),
        0 <= j < world.subs.len(),
    ensures
        ({
            let end = world.run(actions);
            let before = world.subs[j];
            let came = world.queued(actions, j);
            &&& j < end.subs.len()
            &&& end.subs[j].limit == before.limit
            &&& books_of(world.handed(actions, j)) + end.subs[j].queue == before.queue + books_at(end.bus, before, came)
            &&& unread(end.bus, before, came)
            &&& ascending(came)
            &&& moved_on(before, end.subs[j], came)
        }),
    decreases actions.len(),
{
    let before = world.subs[j];
    if actions.len() == 0 {
        assert(books_of(world.handed(actions, j)) + before.queue =~= before.queue + books_at(
            world.bus,
            before,
            world.queued(actions, j),
        ));
    } else {
        let front = actions.drop_last();
        lemma_course(world, front, j);
        law_validity_is_kept(world, front);
        let middle = world.run(front);
        let end = world.run(actions);
        let sub = middle.subs[j];
        let old_came = world.queued(front, j);
        let came = world.queued(actions, j);
        // Topics only grow, so the books at the old places are the same.
        assert forall|figi: Seq<u8>| #[trigger] middle.bus.topics.contains_key(figi) implies {
            &&& end.bus.topics.contains_key(figi)
            &&& middle.bus.topics[figi].len() <= end.bus.topics[figi].len()
            &&& forall|p: int|
                0 <= p < middle.bus.topics[figi].len() ==> end.bus.topics[figi][p] == #[trigger] middle.bus.topics[figi][p]
        } by {
        }
        assert(books_at(end.bus, before, old_came) =~= books_at(middle.bus, before, old_came));
        match actions.last() {
            Action::Hear(i, feed) => {
                if i == j && 0 <= feed < sub.feeds.len() {
                    assert(sub.follows_at(middle.bus, feed));
                    let after = sub.hear(middle.bus, feed);
                    if sub.queues(middle.bus, feed) {
                        let origin = Origin { feed, place: sub.feeds[feed].read };
                        let book = sub.backlog(middle.bus, feed)[0];
                        assert(came == old_came.push(origin));
                        assert(books_at(end.bus, before, came) =~= books_at(end.bus, before, old_came).push(book));
                        assert(before.queue + books_at(end.bus, before, came) =~= (before.queue + books_at(
                            end.bus,
                            before,
                            old_came,
                        )).push(book));
                        assert(books_of(world.handed(actions, j)) + after.queue =~= (books_of(world.handed(front, j))
                            + sub.queue).push(book));
                    }
                }
            },
            Action::Take(i) => {
                if i == j && sub.queue.len() > 0 {
                    assert(books_of(world.handed(actions, j)) =~= books_of(world.handed(front, j)).push(sub.queue[0]));
                    assert(books_of(world.handed(actions, j)) + sub.queue.drop_first() =~= books_of(
                        world.handed(front, j),
                    ) + sub.queue);
                }
            },
            _ => {},
        }
    }
}

/// What a subscription hands over, and what then still waits in its queue, is what waited
/// before and then books of the topics that it follows: each from a place that it had not
/// read before, and those of one topic in the order of the topic.
pub proof fn law_books_come_from_their_topics(world: World, actions: Seq<Action>, j: int)
    requires
        world.valid(),
        0 <= j < world.subs.len(),
    ensures
        ({
            let end = world.run(actions);
            let before = world.subs[j];
            let came = world.queued(actions, j);
            &&& books_of(world.handed(actions, j)) + end.subs[j].queue == before.queue + books_at(end.bus, before, came)
            &&& unread(end.bus, before, came)
            &&& ascending(came)
        }),
{
    lemma_course(world, actions, j);
}

/// An open topic grows by exactly the books of its instrument that are published, in order.
pub proof fn law_topics_grow_by_what_is_published(world: World, actions: Seq<Action>, figi: Seq<u8>)
    requires
        world.bus.topics.contains_key(figi),
    ensures
        world.run(actions).bus.topics.contains_key(figi),
        world.run(actions).bus.topics[figi] == world.bus.topics[figi] + of_figi(published(actions), figi),
    decreases actions.len(),
{
    reveal(Seq::filter);
    if actions.len() == 0 {
        assert(world.bus.topics[figi] + of_figi(published(actions), figi) =~= world.bus.topics[figi]);
    } else {
        let front = actions.drop_last();
        law_topics_grow_by_what_is_published(world, front, figi);
        match actions.last() {
            Action::Publish(book) => {
                assert(published(actions).drop_last() =~= published(front));
                if book.figi.0@ == figi {
                    assert(world.bus.topics[figi] + of_figi(published(actions), figi) =~= (world.bus.topics[figi]
                        + of_figi(published(front), figi)).push(book));
                }
            },
            _ => {},
        }
    }
}

proof fn lemma_of_figi(books: Seq<BookMessage>, figi: Seq<u8>, i: int)
    requires
        0 <= i < of_figi(books, figi).len(),
    ensures
        of_figi(books, figi)[i].figi.0@ == figi,
        books.contains(of_figi(books, figi)[i]),
    decreases books.len(),
{
    reveal(Seq::filter);
    if books.len() > 0 {
        let front = books.drop_last();
        if i < of_figi(front, figi).len() {
            lemma_of_figi(front, figi, i);
            let k = choose|k: int| 0 <= k < front.len() && front[k] == of_figi(front, figi)[i];
            assert(books[k] == of_figi(books, figi)[i]);
        } else {
            assert(books[books.len() - 1] == of_figi(books, figi)[i]);
        }
    }
}

/// Whether `book` is the one at the given place among the `published` books of one of the
/// instruments `figis`.
pub open spec fn is_at(book: BookMessage, origin: Origin, figis: Seq<Seq<u8>>, published: Seq<BookMessage>) -> bool {
    &&& 0 <= origin.feed < figis.len()
    &&& origin.place < of_figi(published, figis[origin.feed]).len()
    &&& book == of_figi(published, figis[origin.feed])[origin.place as int]
}

/// Whether `books` are, one for one, those at the given places among the `published` books
/// of the instruments `figis`, the places within each instrument ascending.
pub open spec fn drawn_from(
    books: Seq<BookMessage>,
    origins: Seq<Origin>,
    figis: Seq<Seq<u8>>,
    published: Seq<BookMessage>,
) -> bool {
    &&& books.len() == origins.len()
    &&& ascending(origins)
    &&& forall|n: int| 0 <= n < books.len() ==> #[trigger] is_at(books[n], origins[n], figis, published)
}

/// A subscriber gets books of its instruments that are published since it subscribed, and
/// nothing else: whatever it is handed, and whatever waits for it, are such books, those
/// of one instrument in the order in which they were published.
pub proof fn law_subscriber_gets_books_published_since(
    world: World,
    figis: Seq<Seq<u8>>,
    limit: nat,
    actions: Seq<Action>,
)
    requires
        world.valid(),
    ensures
        ({
            let start = world.step(Action::Subscribe(figis, limit));
            let j = world.subs.len() as int;
            let got = books_of(start.handed(actions, j)) + start.run(actions).subs[j].queue;
            &&& exists|origins: Seq<Origin>| #[trigger] drawn_from(got, origins, figis, published(actions))
            &&& forall|n: int|
                0 <= n < got.len() ==> figis.contains((#[trigger] got[n]).figi.0@) && published(actions).contains(got[n])
        }),
{
    let subscribing = Action::Subscribe(figis, limit);
    let start = world.step(subscribing);
    let j = world.subs.len() as int;
    law_validity_is_kept(world, seq![subscribing]);
    assert(seq![subscribing].drop_last() =~= Seq::<Action>::empty());
    assert(world.run(seq![subscribing].drop_last()) == world);
    assert(world.run(seq![subscribing]) == start);
    lemma_course(start, actions, j);
    let before = start.subs[j];
    let end = start.run(actions);
    let came = start.queued(actions, j);
    let got = books_of(start.handed(actions, j)) + end.subs[j].queue;
    assert(got =~= books_at(end.bus, before, came));
    let origins = came.map_values(
        |origin: Origin| Origin { feed: origin.feed, place: (origin.place - before.feeds[origin.feed].read) as nat },
    );
    assert forall|n: int| 0 <= n < got.len() implies #[trigger] is_at(
        got[n],
        origins[n],
        figis,
        published(actions),
    ) by {
        let figi = figis[came[n].feed];
        assert(figis.contains(figi));
        law_topics_grow_by_what_is_published(start, actions, figi);
    }
    assert(ascending(origins)) by {
        assert forall|n: int, m: int|
            0 <= n < m < origins.len() && (#[trigger] origins[n]).feed == (#[trigger] origins[m]).feed implies origins[n].place
            < origins[m].place by {
            assert(came[n].feed == came[m].feed);
            assert(came[n].place < came[m].place);
        }
    }
    assert(drawn_from(got, origins, figis, published(actions)));
    assert forall|n: int| 0 <= n < got.len() implies figis.contains((#[trigger] got[n]).figi.0@) && published(
        actions,
    ).contains(got[n]) by {
        let origin = origins[n];
        assert(is_at(got[n], origin, figis, published(actions)));
        lemma_of_figi(published(actions), figis[origin.feed], origin.place as int);
    }
}

proof fn lemma_counted_twice(counter: u64, a: int, b: int)
    requires
        counter + a >= 0,
    ensures
        counted(counted(counter, a), b) == counted(counter, a + b),
{
    vstd::arithmetic::div_mod::lemma_add_mod_noop(counter + a, b, 0x1_0000_0000_0000_0000);
    vstd::arithmetic::div_mod::lemma_add_mod_noop(
        (counter + a) % 0x1_0000_0000_0000_0000,
        b,
        0x1_0000_0000_0000_0000,
    );
    vstd::arithmetic::div_mod::lemma_mod_twice(counter + a, 0x1_0000_0000_0000_0000);
}

/// The total of dropped books is the loss: over any course of events it goes up by just the
/// number of books that were lost, modulo 2^64.
pub proof fn law_dropped_total_is_the_loss(world: World, actions: Seq<Action>, j: int)
    requires
        0 <= j < world.subs.len(),
    ensures
        j < world.run(actions).subs.len(),
        world.run(actions).subs[j].dropped == counted(world.subs[j].dropped, world.lost(actions, j) as int),
        world.subs[j].dropped + world.lost(actions, j) <= u64::MAX ==> world.run(actions).subs[j].dropped
            == world.subs[j].dropped + world.lost(actions, j),
    decreases actions.len(),
{
    if actions.len() > 0 {
        let front = actions.drop_last();
        law_dropped_total_is_the_loss(world, front, j);
        let middle = world.run(front);
        let earlier = world.lost(front, j) as int;
        let more = world.lost(actions, j) - earlier;
        lemma_counted_twice(world.subs[j].dropped, earlier, more);
        assert(counted(middle.subs[j].dropped, 0) == middle.subs[j].dropped);
    } else {
        assert(counted(world.subs[j].dropped, 0) == world.subs[j].dropped);
    }
}

/// The total is a running one: as long as it fits in its 64 bits, the totals that come with
/// the books that are handed over never go down, nor do they later.
pub proof fn law_totals_never_go_down(world: World, actions: Seq<Action>, j: int)
    requires
        0 <= j < world.subs.len(),
        world.subs[j].dropped + world.lost(actions, j) <= u64::MAX,
    ensures
        world.subs[j].dropped <= world.run(actions).subs[j].dropped,
        forall|n: int|
            0 <= n < world.handed(actions, j).len() ==> world.subs[j].dropped <= (#[trigger] world.handed(
                actions,
                j,
            )[n]).dropped <= world.run(actions).subs[j].dropped,
        forall|n: int, m: int|
            0 <= n < m < world.handed(actions, j).len() ==> (#[trigger] world.handed(actions, j)[n]).dropped <= (
            #[trigger] world.handed(actions, j)[m]).dropped,
    decreases actions.len(),
{
    law_dropped_total_is_the_loss(world, actions, j);
    if actions.len() > 0 {
        let front = actions.drop_last();
        law_dropped_total_is_the_loss(world, front, j);
        law_totals_never_go_down(world, front, j);
        let (earlier, all) = (world.handed(front, j), world.handed(actions, j));
        let total = world.run(front).subs[j].dropped;
        assert(total <= world.run(actions).subs[j].dropped);
        assert forall|n: int| 0 <= n < all.len() implies world.subs[j].dropped <= (#[trigger] all[n]).dropped
            <= world.run(actions).subs[j].dropped by {
            if n < earlier.len() {
                assert(all[n] == earlier[n]);
            } else {
                assert(all[n].dropped == total);
            }
        }
        assert forall|n: int, m: int| 0 <= n < m < all.len() implies (#[trigger] all[n]).dropped <= (
        #[trigger] all[m]).dropped by {
            assert(all[n] == earlier[n]);
            if m < earlier.len() {
                assert(all[m] == earlier[m]);
            } else {
                assert(all[m].dropped == total);
            }
        }
    }
}

/// How many books lie behind in all of these topics together.
pub open spec fn total_read(feeds: Seq<FeedState>) -> nat
    decreases feeds.len(),
{
    if feeds.len() == 0 {
        0
    } else {
        total_read(feeds.drop_last()) + feeds.last().read
    }
}

proof fn lemma_total_read(feeds: Seq<FeedState>, i: int, feed: FeedState)
    requires
        0 <= i < feeds.len(),
    ensures
        total_read(feeds.update(i, feed)) == total_read(feeds) - feeds[i].read + feed.read,
    decreases feeds.len(),
{
    let updated = feeds.update(i, feed);
    if i == feeds.len() - 1 {
        assert(updated.drop_last() =~= feeds.drop_last());
    } else {
        lemma_total_read(feeds.drop_last(), i, feed);
        assert(updated.drop_last() =~= feeds.drop_last().update(i, feed));
    }
}

/// Nothing vanishes uncounted: over any course of events, each book that a subscription
/// moves past was handed over, waits in its queue, or is lost. What is lost behind the
/// queue was handed over before.
pub proof fn law_losses_add_up(world: World, actions: Seq<Action>, j: int)
    requires
        world.valid(),
        0 <= j < world.subs.len(),
        !actions.contains(Action::Leave(j)),
    ensures
        ({
            let before = world.subs[j];
            let after = world.run(actions).subs[j];
            let passed = total_read(after.feeds) - total_read(before.feeds);
            let kept = world.handed(actions, j).len() + after.queue.len() - before.queue.len();
            &&& after.feeds.len() == before.feeds.len()
            &&& passed + lost_behind(actions, j) == kept + world.lost(actions, j)
        }),
    decreases actions.len(),
{
    if actions.len() > 0 {
        let front = actions.drop_last();
        assert(!front.contains(Action::Leave(j))) by {
            if front.contains(Action::Leave(j)) {
                let i = choose|i: int| 0 <= i < front.len() && front[i] == Action::Leave(j);
                assert(actions[i] == Action::Leave(j));
            }
        }
        assert(actions.contains(actions.last()));
        law_losses_add_up(world, front, j);
        law_validity_is_kept(world, front);
        lemma_course(world, front, j);
        let middle = world.run(front);
        let sub = middle.subs[j];
        match actions.last() {
            Action::Hear(i, feed) => {
                if i == j && 0 <= feed < sub.feeds.len() {
                    assert(sub.follows_at(middle.bus, feed));
                    let after = sub.hear(middle.bus, feed);
                    lemma_total_read(sub.feeds, feed, after.feeds[feed]);
                    if sub.backlog(middle.bus, feed).len() > 0 {
                        assert(after.feeds =~= sub.feeds.update(feed, after.feeds[feed]));
                    }
                }
            },
            _ => {},
        }
    }
}

/// How many of `books` are for the instruments `figis`; a book counts once for each time
/// that its instrument is named.
pub open spec fn total_for(figis: Seq<Seq<u8>>, books: Seq<BookMessage>) -> nat
    decreases figis.len(),
{
    if figis.len() == 0 {
        0
    } else {
        total_for(figis.drop_last(), books) + of_figi(books, figis.last()).len()
    }
}

proof fn lemma_all_read(before: Seq<FeedState>, after: Seq<FeedState>, figis: Seq<Seq<u8>>, books: Seq<BookMessage>)
    requires
        before.len() == figis.len(),
        after.len() == figis.len(),
        forall|i: int|
            0 <= i < figis.len() ==> (#[trigger] after[i]).read == before[i].read + of_figi(books, figis[i]).len(),
    ensures
        total_read(after) == total_read(before) + total_for(figis, books),
    decreases figis.len(),
{
    if figis.len() > 0 {
        let (b, a, f) = (before.drop_last(), after.drop_last(), figis.drop_last());
        assert forall|i: int| 0 <= i < f.len() implies (#[trigger] a[i]).read == b[i].read + of_figi(books, f[i]).len() by {
            assert(after[i] == a[i]);
        }
        lemma_all_read(b, a, f, books);
        assert(after[figis.len() - 1] == after.last());
    }
}

/// The books balance: when a subscription has heard all that was published, then what it
/// handed over, what waits in its queue and its total of dropped books are together what
/// was published for it since it subscribed, and what it lost after handing it over.
pub proof fn law_books_balance(world: World, figis: Seq<Seq<u8>>, limit: nat, actions: Seq<Action>)
    requires
        world.valid(),
        ({
            let start = world.step(Action::Subscribe(figis, limit));
            let j = world.subs.len() as int;
            let end = start.run(actions);
            &&& !actions.contains(Action::Leave(j))
            &&& forall|i: int| 0 <= i < figis.len() ==> #[trigger] end.subs[j].backlog(end.bus, i).len() == 0
            &&& start.lost(actions, j) <= u64::MAX
        }),
    ensures
        ({
            let start = world.step(Action::Subscribe(figis, limit));
            let j = world.subs.len() as int;
            let sub = start.run(actions).subs[j];
            start.handed(actions, j).len() + sub.queue.len() + sub.dropped == total_for(figis, published(actions))
                + lost_behind(actions, j)
        }),
{
    let subscribing = Action::Subscribe(figis, limit);
    let start = world.step(subscribing);
    let j = world.subs.len() as int;
    law_validity_is_kept(world, seq![subscribing]);
    assert(seq![subscribing].drop_last() =~= Seq::<Action>::empty());
    assert(world.run(seq![subscribing].drop_last()) == world);
    assert(world.run(seq![subscribing]) == start);
    law_losses_add_up(start, actions, j);
    law_dropped_total_is_the_loss(start, actions, j);
    lemma_course(start, actions, j);
    law_validity_is_kept(start, actions);
    let before = start.subs[j];
    let end = start.run(actions);
    let after = end.subs[j];
    assert forall|i: int| 0 <= i < figis.len() implies (#[trigger] after.feeds[i]).read == before.feeds[i].read + of_figi(
        published(actions),
        figis[i],
    ).len() by {
        assert(figis.contains(figis[i]));
        law_topics_grow_by_what_is_published(start, actions, figis[i]);
        assert(after.follows_at(end.bus, i));
        assert(after.backlog(end.bus, i).len() == 0);
    }
    lemma_all_read(before.feeds, after.feeds, figis, published(actions));
}

/// The places of one topic among `origins`, in order.
pub open spec fn places_of(origins: Seq<Origin>, feed: int) -> Seq<nat>
    decreases origins.len(),
{
    if origins.len() == 0 {
        Seq::empty()
    } else {
        let earlier = places_of(origins.drop_last(), feed);
        if origins.last().feed == feed {
            earlier.push(origins.last().place)
        } else {
            earlier
        }
    }
}

/// Those of `books` that come from one topic, in order; `origins` tells of each where it
/// comes from.
pub open spec fn from_feed(books: Seq<BookMessage>, origins: Seq<Origin>, feed: int) -> Seq<BookMessage>
    decreases books.len(),
{
    if books.len() == 0 {
        Seq::empty()
    } else {
        let earlier = from_feed(books.drop_last(), origins.drop_last(), feed);
        if origins.last().feed == feed {
            earlier.push(books.last())
        } else {
            earlier
        }
    }
}

proof fn lemma_from_feed(bus: BusState, sub: SubState, origins: Seq<Origin>, feed: int)
    ensures
        from_feed(books_at(bus, sub, origins), origins, feed) == places_of(origins, feed).map_values(
            |place: nat| bus.topics[sub.feeds[feed].figi][place as int],
        ),
    decreases origins.len(),
{
    let book = |place: nat| bus.topics[sub.feeds[feed].figi][place as int];
    let books = books_at(bus, sub, origins);
    if origins.len() > 0 {
        let front = origins.drop_last();
        lemma_from_feed(bus, sub, front, feed);
        assert(books.drop_last() =~= books_at(bus, sub, front));
        if origins.last().feed == feed {
            assert(places_of(origins, feed).map_values(book) =~= places_of(front, feed).map_values(book).push(
                book(origins.last().place),
            ));
        }
    } else {
        assert(places_of(origins, feed).map_values(book) =~= Seq::<BookMessage>::empty());
    }
}

/// A subscription that loses nothing queues every book that it moves past.
proof fn lemma_lossless(world: World, actions: Seq<Action>, j: int, i: int)
    requires
        world.valid(),
        0 <= j < world.subs.len(),
        0 <= i < world.subs[j].feeds.len(),
        !actions.contains(Action::Leave(j)),
        world.lost(actions, j) == 0,
    ensures
        ({
            let read = world.subs[j].feeds[i].read;
            let after = world.run(actions).subs[j];
            &&& after.feeds.len() == world.subs[j].feeds.len()
            &&& after.feeds[i].read >= read
            &&& places_of(world.queued(actions, j), i) == Seq::new(
                (after.feeds[i].read - read) as nat,
                |k: int| (read + k) as nat,
            )
        }),
    decreases actions.len(),
{
    let read = world.subs[j].feeds[i].read;
    if actions.len() > 0 {
        let front = actions.drop_last();
        assert(!front.contains(Action::Leave(j))) by {
            if front.contains(Action::Leave(j)) {
                let k = choose|k: int| 0 <= k < front.len() && front[k] == Action::Leave(j);
                assert(actions[k] == Action::Leave(j));
            }
        }
        assert(actions.contains(actions.last()));
        lemma_lossless(world, front, j, i);
        law_validity_is_kept(world, front);
        lemma_course(world, front, j);
        let middle = world.run(front);
        let sub = middle.subs[j];
        let (old_came, came) = (world.queued(front, j), world.queued(actions, j));
        match actions.last() {
            Action::Hear(k, feed) => {
                if k == j && 0 <= feed < sub.feeds.len() {
                    assert(sub.follows_at(middle.bus, feed));
                    if sub.queues(middle.bus, feed) {
                        assert(came.drop_last() =~= old_came);
                        assert(came.last() == (Origin { feed, place: sub.feeds[feed].read }));
                    }
                }
            },
            _ => {},
        }
        let after = world.run(actions).subs[j];
        assert(places_of(came, i) =~= Seq::new((after.feeds[i].read - read) as nat, |k: int| (read + k) as nat));
    } else {
        assert(places_of(world.queued(actions, j), i) =~= Seq::new(0, |k: int| (read + k) as nat));
    }
}

/// Who keeps up gets everything: when a subscription has lost nothing and has heard all that
/// was published, then of each instrument that it asked for it was handed, or has waiting,
/// exactly the books published since, each once and in their order. Nothing is counted as
/// dropped.
pub proof fn law_who_keeps_up_gets_everything(world: World, figis: Seq<Seq<u8>>, limit: nat, actions: Seq<Action>)
    requires
        world.valid(),
        ({
            let start = world.step(Action::Subscribe(figis, limit));
            let j = world.subs.len() as int;
            let end = start.run(actions);
            &&& !actions.contains(Action::Leave(j))
            &&& forall|i: int| 0 <= i < figis.len() ==> #[trigger] end.subs[j].backlog(end.bus, i).len() == 0
            &&& start.lost(actions, j) == 0
        }),
    ensures
        ({
            let start = world.step(Action::Subscribe(figis, limit));
            let j = world.subs.len() as int;
            let sub = start.run(actions).subs[j];
            let got = books_of(start.handed(actions, j)) + sub.queue;
            let origins = start.queued(actions, j);
            &&& got.len() == origins.len()
            &&& forall|n: int| 0 <= n < origins.len() ==> 0 <= (#[trigger] origins[n]).feed < figis.len()
            &&& forall|i: int|
                0 <= i < figis.len() ==> #[trigger] from_feed(got, origins, i) == of_figi(published(actions), figis[i])
            &&& sub.dropped == 0
        }),
{
    let subscribing = Action::Subscribe(figis, limit);
    let start = world.step(subscribing);
    let j = world.subs.len() as int;
    law_validity_is_kept(world, seq![subscribing]);
    assert(seq![subscribing].drop_last() =~= Seq::<Action>::empty());
    assert(world.run(seq![subscribing].drop_last()) == world);
    assert(world.run(seq![subscribing]) == start);
    lemma_course(start, actions, j);
    law_dropped_total_is_the_loss(start, actions, j);
    law_validity_is_kept(start, actions);
    let before = start.subs[j];
    let end = start.run(actions);
    let after = end.subs[j];
    let origins = start.queued(actions, j);
    let got = books_of(start.handed(actions, j)) + after.queue;
    assert(got =~= books_at(end.bus, before, origins));
    assert forall|i: int| 0 <= i < figis.len() implies #[trigger] from_feed(got, origins, i) == of_figi(
        published(actions),
        figis[i],
    ) by {
        assert(figis.contains(figis[i]));
        lemma_lossless(start, actions, j, i);
        lemma_from_feed(end.bus, before, origins, i);
        law_topics_grow_by_what_is_published(start, actions, figis[i]);
        assert(after.follows_at(end.bus, i));
        assert(after.backlog(end.bus, i).len() == 0);
        assert(from_feed(got, origins, i) =~= of_figi(published(actions), figis[i]));
    }
}

/// What a subscription is handed, and what it loses, is the same as if the others did not
/// exist: only its own actions and those on the bus count.
pub proof fn law_deliveries_are_isolated(world: World, actions: Seq<Action>, j: int)
    requires
        0 <= j < world.subs.len(),
    ensures
        ({
            let own = actions.filter(|action: Action| action.on_bus() || action.of(j));
            &&& world.handed(actions, j) == world.handed(own, j)
            &&& world.queued(actions, j) == world.queued(own, j)
            &&& world.lost(actions, j) == world.lost(own, j)
            &&& published(actions) == published(own)
        }),
    decreases actions.len(),
{
    reveal(Seq::filter);
    let concerns = |action: Action| action.on_bus() || action.of(j);
    if actions.len() > 0 {
        let front = actions.drop_last();
        law_deliveries_are_isolated(world, front, j);
        law_subscriptions_are_isolated(world, front, j);
        law_dropped_total_is_the_loss(world, front, j);
        let before = front.filter(concerns);
        if concerns(actions.last()) {
            let after = before.push(actions.last());
            assert(after.drop_last() =~= before);
            assert(after.last() == actions.last());
        }
    }
}

/// One turn, seen from outside: it moves on in one topic only, by one book or by as many as
/// the topic no longer retains; it changes nothing but that, the end of the queue and the
/// total, and these by just what it moved past.
pub proof fn law_turn_moves_one_topic(sub: SubState, bus: BusState, i: int, k: int)
    requires
        0 <= i < sub.feeds.len(),
        0 <= k < sub.feeds.len(),
        sub.follows_at(bus, i),
        bus.ring > 0,
    ensures
        ({
            let sent = bus.topics[sub.feeds[i].figi];
            let read = sub.feeds[i].read;
            let after = sub.hear(bus, i);
            let behind = sent.len() - read;
            &&& after.limit == sub.limit
            &&& after.feeds.len() == sub.feeds.len()
            &&& after.feeds[k].figi == sub.feeds[k].figi
            &&& k != i ==> after.feeds[k] == sub.feeds[k]
            &&& behind == 0 ==> after == sub && sub.turn(bus, i) == Turn::Idle
            // Overwritten books are lost, all of them at once.
            &&& behind > bus.ring ==> {
                &&& after.feeds[i].read == sent.len() - bus.ring
                &&& after.queue == sub.queue
                &&& sub.dropped + (behind - bus.ring) <= u64::MAX ==> after.dropped == sub.dropped + (behind - bus.ring)
                &&& behind - bus.ring <= u64::MAX ==> sub.turn(bus, i) == Turn::Lagged((behind - bus.ring) as u64)
            }
            // A retained book waits at the end of the queue, or is lost when that is full.
            &&& 0 < behind <= bus.ring ==> after.feeds[i].read == read + 1
            &&& 0 < behind <= bus.ring && sub.queue.len() < sub.limit ==> {
                &&& after.queue == sub.queue.push(sent[read as int])
                &&& after.dropped == sub.dropped
                &&& sub.turn(bus, i) == Turn::Queued
            }
            &&& 0 < behind <= bus.ring && sub.queue.len() >= sub.limit ==> {
                &&& after.queue == sub.queue
                &&& sub.dropped < u64::MAX ==> after.dropped == sub.dropped + 1
                &&& sub.turn(bus, i) == Turn::QueueFull
            }
        }),
{
    let sent = bus.topics[sub.feeds[i].figi];
    if sent.len() > sub.feeds[i].read {
        assert(sub.backlog(bus, i)[0] == sent[sub.feeds[i].read as int]);
    }
}

impl World {
    /// Whether subscription `j` keeps up in the course of `actions`: it does not leave, loses
    /// nothing behind its queue, and whenever one of its topics has a turn, this topic still
    /// retains all that was not heard, and the queue has room for a book.
    pub open spec fn keeps_up(self, actions: Seq<Action>, j: int) -> bool
        decreases actions.len(),
    {
        actions.len() > 0 ==> {
            let world = self.run(actions.drop_last());
            let sub = world.subs[j];
            &&& self.keeps_up(actions.drop_last(), j)
            &&& match actions.last() {
                Action::Hear(i, feed) => i == j && 0 <= feed < sub.feeds.len() ==> {
                    let behind = world.bus.topics[sub.feeds[feed].figi].len() - sub.feeds[feed].read;
                    behind <= world.bus.ring && (behind > 0 ==> sub.queue.len() < sub.limit)
                },
                Action::Lose(i) | Action::Leave(i) => i != j,
                _ => true,
            }
        }
    }
}

proof fn lemma_keeps_up(world: World, actions: Seq<Action>, j: int)
    requires
        world.valid(),
        0 <= j < world.subs.len(),
        world.keeps_up(actions, j),
    ensures
        world.lost(actions, j) == 0,
        !actions.contains(Action::Leave(j)),
    decreases actions.len(),
{
    if actions.len() > 0 {
        let front = actions.drop_last();
        lemma_keeps_up(world, front, j);
        law_validity_is_kept(world, front);
        law_dropped_total_is_the_loss(world, front, j);
        let middle = world.run(front);
        match actions.last() {
            Action::Hear(i, feed) => {
                if i == j && 0 <= feed < middle.subs[j].feeds.len() {
                    assert(middle.subs[j].follows_at(middle.bus, feed));
                }
            },
            _ => {},
        }
        if actions.contains(Action::Leave(j)) {
            let i = choose|i: int| 0 <= i < actions.len() && actions[i] == Action::Leave(j);
            assert(i < front.len() ==> front[i] == Action::Leave(j));
        }
    }
}

/// Who never falls behind what is retained, and never has a full queue, gets everything:
/// once all was heard, it was handed, or has waiting, exactly the books that were published
/// since for each instrument that it asked for, each once and in order, with a total of
/// zero.
pub proof fn law_no_overflow_no_loss(world: World, figis: Seq<Seq<u8>>, limit: nat, actions: Seq<Action>)
    requires
        world.valid(),
        ({
            let start = world.step(Action::Subscribe(figis, limit));
            let j = world.subs.len() as int;
            let end = start.run(actions);
            &&& start.keeps_up(actions, j)
            &&& forall|i: int|
                0 <= i < figis.len() ==> (#[trigger] end.subs[j].feeds[i]).read == end.bus.topics[figis[i]].len()
        }),
    ensures
        ({
            let start = world.step(Action::Subscribe(figis, limit));
            let j = world.subs.len() as int;
            let sub = start.run(actions).subs[j];
            let got = books_of(start.handed(actions, j)) + sub.queue;
            let origins = start.queued(actions, j);
            &&& got.len() == origins.len()
            &&& got.len() == total_for(figis, published(actions))
            &&& forall|n: int| 0 <= n < origins.len() ==> 0 <= (#[trigger] origins[n]).feed < figis.len()
            &&& forall|i: int|
                0 <= i < figis.len() ==> #[trigger] from_feed(got, origins, i) == of_figi(published(actions), figis[i])
            &&& sub.dropped == 0
        }),
{
    let subscribing = Action::Subscribe(figis, limit);
    let start = world.step(subscribing);
    let j = world.subs.len() as int;
    law_validity_is_kept(world, seq![subscribing]);
    assert(seq![subscribing].drop_last() =~= Seq::<Action>::empty());
    assert(world.run(seq![subscribing].drop_last()) == world);
    assert(world.run(seq![subscribing]) == start);
    lemma_keeps_up(start, actions, j);
    lemma_course(start, actions, j);
    law_validity_is_kept(start, actions);
    let end = start.run(actions);
    law_losses_add_up(start, actions, j);
    assert forall|i: int| 0 <= i < figis.len() implies #[trigger] end.subs[j].backlog(end.bus, i).len() == 0 by {
        assert(end.subs[j].follows_at(end.bus, i));
        assert(end.subs[j].feeds[i].figi == figis[i]);
    }
    law_who_keeps_up_gets_everything(world, figis, limit, actions);
    law_books_balance(world, figis, limit, actions);
    lemma_no_lose(start, actions, j);
}

proof fn lemma_no_lose(world: World, actions: Seq<Action>, j: int)
    requires
        world.keeps_up(actions, j),
    ensures
        lost_behind(actions, j) == 0,
    decreases actions.len(),
{
    if actions.len() > 0 {
        lemma_no_lose(world, actions.drop_last(), j);
    }
}

/// What is handed over is the book itself: whenever a subscription has a book waiting, the
/// next thing that it hands over is the oldest waiting book, with every field of it, and
/// the others wait on in their order.
pub proof fn law_oldest_is_handed_over_unchanged(world: World, actions: Seq<Action>, j: int)
    requires
        0 <= j < world.subs.len(),
        world.run(actions).subs[j].queue.len() > 0,
    ensures
        ({
            let sub = world.run(actions).subs[j];
            let later = actions.push(Action::Take(j));
            let after = world.run(later).subs[j];
            &&& world.handed(later, j).len() == world.handed(actions, j).len() + 1
            &&& world.handed(later, j).last().book == sub.queue[0]
            &&& world.handed(later, j).last().dropped == sub.dropped
            &&& world.handed(later, j).drop_last() == world.handed(actions, j)
            &&& sub.queue == seq![sub.queue[0]] + after.queue
            &&& sub.next() == Next::Update(sub.queue[0])
            &&& after.feeds == sub.feeds && after.dropped == sub.dropped && after.limit == sub.limit
        }),
{
    let later = actions.push(Action::Take(j));
    assert(later.drop_last() =~= actions);
    assert(later.last() == Action::Take(j));
    law_dropped_total_is_the_loss(world, actions, j);
    let sub = world.run(actions).subs[j];
    assert(world.handed(later, j).drop_last() =~= world.handed(actions, j));
    assert(sub.queue =~= seq![sub.queue[0]] + sub.queue.drop_first());
}

} // verus!
