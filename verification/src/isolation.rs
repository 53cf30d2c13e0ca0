//! What holds of many subscriptions on one bus, whatever they do and in which order.

use vstd::prelude::*;

use crate::bus::Next;
use crate::fanout::{lemma_drained_idle, lemma_drained_step, BusState, SubState};
use crate::types::BookMessage;

verus! {

/// A bus and everybody who ever subscribed to it.
pub struct World {
    /// The bus.
    pub bus: BusState,
    /// The subscriptions, in the order in which they were made.
    pub subs: Seq<SubState>,
}

/// Something that happens on or around the bus.
pub enum Action {
    /// A book is published.
    Publish(BookMessage),
    /// Somebody subscribes to topics, with a queue of that size.
    Subscribe(Seq<Seq<u8>>, nat),
    /// A subscription gives one of its topics a turn.
    Hear(int, int),
    /// A subscription hands over the oldest book of its queue.
    Take(int),
    /// A subscription loses a book behind its queue.
    Lose(int),
    /// A subscription ends.
    Leave(int),
}

impl Action {
    /// Whether it is an action on the bus itself.
    pub open spec fn on_bus(self) -> bool {
        self is Publish || self is Subscribe
    }

    /// Whether it is an action of subscription `j`.
    pub open spec fn of(self, j: int) -> bool {
        match self {
            Action::Publish(_) | Action::Subscribe(_, _) => false,
            Action::Hear(i, _) | Action::Take(i) | Action::Lose(i) | Action::Leave(i) => i == j,
        }
    }
}

impl World {
    /// Subscription `i` is `sub` from now on, if there is such a subscription.
    pub open spec fn with(self, i: int, sub: SubState) -> World {
        if 0 <= i < self.subs.len() {
            World { subs: self.subs.update(i, sub), ..self }
        } else {
            self
        }
    }

    /// The world after one action.
    pub open spec fn step(self, action: Action) -> World {
        match action {
            Action::Publish(book) => World { bus: self.bus.publish(book), ..self },
            Action::Subscribe(figis, limit) => {
                let bus = self.bus.open_topics(figis);
                World { bus, subs: self.subs.push(SubState::fresh(bus, figis, limit)) }
            },
            Action::Hear(i, feed) => if 0 <= feed < self.subs[i].feeds.len() {
                self.with(i, self.subs[i].hear(self.bus, feed))
            } else {
                self
            },
            Action::Take(i) => self.with(i, self.subs[i].take()),
            Action::Lose(i) => self.with(i, self.subs[i].lose(1)),
            Action::Leave(i) => self.with(i, self.subs[i].close()),
        }
    }

    /// The world after a number of actions.
    pub open spec fn run(self, actions: Seq<Action>) -> World
        decreases actions.len(),
    {
        if actions.len() == 0 {
            self
        } else {
            self.run(actions.drop_last()).step(actions.last())
        }
    }

    /// No queue is longer than its limit, and nobody is ahead of a topic.
    pub open spec fn valid(self) -> bool {
        &&& self.bus.ring > 0
        &&& forall|j: int|
            0 <= j < self.subs.len() ==> {
                &&& (#[trigger] self.subs[j]).queue.len() <= self.subs[j].limit
                &&& self.subs[j].follows(self.bus)
            }
    }
}

/// A subscription is not affected by what other subscriptions do, not by their
/// slowness and not by their end: what becomes of it is the same as if nothing had
/// happened but its own actions and those on the bus.
pub proof fn law_subscriptions_are_isolated(world: World, actions: Seq<Action>, j: int)
    ensures
        ({
            let seen = actions.filter(|action: Action| action.on_bus() || action.of(j));
            let all = world.run(actions);
            let own = world.run(seen);
            &&& all.bus == own.bus
            &&& all.subs.len() == own.subs.len()
            &&& 0 <= j < all.subs.len() ==> all.subs[j] == own.subs[j]
        }),
    decreases actions.len(),
{
    reveal(Seq::filter);
    let concerns = |action: Action| action.on_bus() || action.of(j);
    if actions.len() > 0 {
        law_subscriptions_are_isolated(world, actions.drop_last(), j);
        let before = actions.drop_last().filter(concerns);
        if concerns(actions.last()) {
            let after = before.push(actions.last());
            assert(after.drop_last() =~= before);
            assert(after.last() == actions.last());
        }
    }
}

/// Publishing waits for no subscription: the topics are the same as if there had been
/// nothing but the actions on the bus.
pub proof fn law_publishing_ignores_subscribers(world: World, actions: Seq<Action>)
    ensures
        world.run(actions).bus == world.run(actions.filter(|action: Action| action.on_bus())).bus,
    decreases actions.len(),
{
    reveal(Seq::filter);
    let on_bus = |action: Action| action.on_bus();
    if actions.len() > 0 {
        law_publishing_ignores_subscribers(world, actions.drop_last());
        let before = actions.drop_last().filter(on_bus);
        if on_bus(actions.last()) {
            let after = before.push(actions.last());
            assert(after.drop_last() =~= before);
            assert(after.last() == actions.last());
        }
    }
}

/// A topic that was opened once stays open, and its history only grows.
pub proof fn law_topics_persist(world: World, actions: Seq<Action>, figi: Seq<u8>)
    requires
        world.bus.topics.contains_key(figi),
    ensures
        world.run(actions).bus.topics.contains_key(figi),
        world.bus.topics[figi].is_prefix_of(world.run(actions).bus.topics[figi]),
    decreases actions.len(),
{
    if actions.len() > 0 {
        law_topics_persist(world, actions.drop_last(), figi);
    }
}

/// Queues never hold more than they have room for, and no subscription is ever ahead
/// of what was published.
pub proof fn law_validity_is_kept(world: World, actions: Seq<Action>)
    requires
        world.valid(),
    ensures
        world.run(actions).valid(),
    decreases actions.len(),
{
    if actions.len() > 0 {
        law_validity_is_kept(world, actions.drop_last());
        lemma_step_keeps_validity(world.run(actions.drop_last()), actions.last());
    }
}

proof fn lemma_step_keeps_validity(world: World, action: Action)
    requires
        world.valid(),
    ensures
        world.step(action).valid(),
{
    let after = world.step(action);
    assert forall|j: int| 0 <= j < after.subs.len() implies {
        &&& (#[trigger] after.subs[j]).queue.len() <= after.subs[j].limit
        &&& after.subs[j].follows(after.bus)
    } by {
        if j < world.subs.len() {
            let before = world.subs[j];
            assert(before.queue.len() <= before.limit && before.follows(world.bus));
            assert forall|i: int| 0 <= i < after.subs[j].feeds.len() implies after.subs[j].follows_at(after.bus, i) by {
                assert(before.follows_at(world.bus, i));
            }
        } else {
            match action {
                Action::Subscribe(figis, limit) => {
                    assert forall|i: int| 0 <= i < after.subs[j].feeds.len() implies after.subs[j].follows_at(
                        after.bus,
                        i,
                    ) by {
                        assert(figis.contains(figis[i]));
                    }
                },
                _ => {},
            }
        }
    }
}

/// Nothing vanishes uncounted: each book that a turn moves past is one more in the
/// queue or one more in the count of dropped books.
pub proof fn law_every_book_is_accounted_for(sub: SubState, bus: BusState, i: int)
    requires
        0 <= i < sub.feeds.len(),
        sub.follows_at(bus, i),
        bus.ring > 0,
        sub.dropped + sub.backlog(bus, i).len() <= u64::MAX,
    ensures
        ({
            let after = sub.hear(bus, i);
            after.feeds[i].read - sub.feeds[i].read == (after.queue.len() - sub.queue.len()) + (after.dropped
                - sub.dropped)
        }),
        ({
            let after = sub.drained(bus, i);
            sub.backlog(bus, i).len() == (after.queue.len() - sub.queue.len()) + (after.dropped - sub.dropped)
        }),
{
}

proof fn lemma_run_on(world: World, first: Seq<Action>, second: Seq<Action>)
    ensures
        world.run(first + second) == world.run(first).run(second),
    decreases second.len(),
{
    if second.len() > 0 {
        assert((first + second).drop_last() =~= first + second.drop_last());
        assert((first + second).last() == second.last());
        lemma_run_on(world, first, second.drop_last());
    } else {
        assert(first + second =~= first);
    }
}

/// Whether these are turns of topics of subscription `j`, and nothing else.
pub open spec fn only_turns(actions: Seq<Action>, j: int) -> bool {
    forall|i: int| 0 <= i < actions.len() ==> (#[trigger] actions[i]) is Hear && actions[i].of(j)
}

proof fn lemma_drain_is_turns(world: World, j: int, i: int) -> (actions: Seq<Action>)
    requires
        world.bus.ring > 0,
        0 <= j < world.subs.len(),
        world.subs[j].follows(world.bus),
        0 <= i < world.subs[j].feeds.len(),
    ensures
        only_turns(actions, j),
        world.run(actions) == world.with(j, world.subs[j].drained(world.bus, i)),
    decreases world.subs[j].backlog(world.bus, i).len(),
{
    let sub = world.subs[j];
    assert(sub.follows_at(world.bus, i));
    if sub.backlog(world.bus, i).len() == 0 {
        lemma_drained_idle(sub, world.bus, i);
        assert(world.with(j, sub).subs =~= world.subs);
        Seq::empty()
    } else {
        lemma_drained_step(sub, world.bus, i);
        let first = seq![Action::Hear(j, i)];
        let after = sub.hear(world.bus, i);
        let next = world.step(first[0]);
        assert(first.drop_last() =~= Seq::<Action>::empty());
        assert(world.run(first.drop_last()) == world);
        assert(world.run(first) == next);
        assert forall|k: int| 0 <= k < after.feeds.len() implies after.follows_at(world.bus, k) by {
            assert(sub.follows_at(world.bus, k));
        }
        let rest = lemma_drain_is_turns(next, j, i);
        lemma_run_on(world, first, rest);
        assert(next.with(j, after.drained(world.bus, i)).subs =~= world.with(j, sub.drained(world.bus, i)).subs);
        first + rest
    }
}

proof fn lemma_drains_are_turns(world: World, j: int, i: int) -> (actions: Seq<Action>)
    requires
        world.bus.ring > 0,
        0 <= j < world.subs.len(),
        world.subs[j].follows(world.bus),
        0 <= i,
    ensures
        only_turns(actions, j),
        world.run(actions) == world.with(j, world.subs[j].drained_from(world.bus, i)),
    decreases world.subs[j].feeds.len() - i,
{
    let sub = world.subs[j];
    if i >= sub.feeds.len() {
        assert(world.with(j, sub).subs =~= world.subs);
        Seq::empty()
    } else {
        let first = lemma_drain_is_turns(world, j, i);
        let after = sub.drained(world.bus, i);
        let next = world.with(j, after);
        assert forall|k: int| 0 <= k < after.feeds.len() implies after.follows_at(world.bus, k) by {
            assert(sub.follows_at(world.bus, k));
        }
        let rest = lemma_drains_are_turns(next, j, i + 1);
        lemma_run_on(world, first, rest);
        assert(next.with(j, after.drained_from(world.bus, i + 1)).subs =~= world.with(
            j,
            sub.drained_from(world.bus, i),
        ).subs);
        first + rest
    }
}

/// Hearing all there is to hear is a course of single turns of that subscription, so
/// that what holds of turns holds of it.
pub proof fn law_fan_in_is_a_course_of_turns(world: World, j: int)
    requires
        world.valid(),
        0 <= j < world.subs.len(),
    ensures
        exists|actions: Seq<Action>| #[trigger]
            only_turns(actions, j) && world.run(actions) == world.with(
                j,
                world.subs[j].drained_from(world.bus, 0),
            ),
{
    let actions = lemma_drains_are_turns(world, j, 0);
}

impl BusState {
    /// `books` are published one after the other.
    pub open spec fn publish_all(self, books: Seq<BookMessage>) -> BusState
        decreases books.len(),
    {
        if books.len() == 0 {
            self
        } else {
            self.publish_all(books.drop_last()).publish(books.last())
        }
    }
}

/// The books of one instrument.
pub open spec fn of_figi(books: Seq<BookMessage>, figi: Seq<u8>) -> Seq<BookMessage> {
    books.filter(|book: BookMessage| book.figi.0@ == figi)
}

/// An open topic grows by exactly the books of its instrument, in order.
pub proof fn law_topic_takes_its_books(bus: BusState, books: Seq<BookMessage>, figi: Seq<u8>)
    requires
        bus.topics.contains_key(figi),
    ensures
        bus.publish_all(books).topics.dom() == bus.topics.dom(),
        bus.publish_all(books).topics[figi] == bus.topics[figi] + of_figi(books, figi),
        bus.publish_all(books).ring == bus.ring,
    decreases books.len(),
{
    reveal(Seq::filter);
    if books.len() > 0 {
        law_topic_takes_its_books(bus, books.drop_last(), figi);
        let before = bus.publish_all(books.drop_last());
        assert(before.publish(books.last()).topics.dom() =~= before.topics.dom());
        if books.last().figi.0@ == figi {
            assert(bus.topics[figi] + of_figi(books, figi) =~= (bus.topics[figi] + of_figi(
                books.drop_last(),
                figi,
            )).push(books.last()));
        }
    } else {
        assert(bus.topics[figi] + of_figi(books, figi) =~= bus.topics[figi]);
    }
}

/// A subscription starts now: what it can hear of a topic are exactly the books of
/// that instrument which are published after it was made, in order, and none from
/// before.
pub proof fn law_subscription_starts_now(
    bus: BusState,
    figis: Seq<Seq<u8>>,
    limit: nat,
    books: Seq<BookMessage>,
    i: int,
)
    requires
        0 <= i < figis.len(),
    ensures
        ({
            let opened = bus.open_topics(figis);
            SubState::fresh(opened, figis, limit).backlog(opened.publish_all(books), i) == of_figi(books, figis[i])
        }),
{
    let opened = bus.open_topics(figis);
    assert(figis.contains(figis[i]));
    law_topic_takes_its_books(opened, books, figis[i]);
    assert(SubState::fresh(opened, figis, limit).backlog(opened.publish_all(books), i) =~= of_figi(books, figis[i]));
}

/// What fits is delivered: when a topic retains the books published since, and the
/// queue has room for them, all of them are queued in order and none is dropped.
pub proof fn law_what_fits_is_delivered(
    bus: BusState,
    figis: Seq<Seq<u8>>,
    limit: nat,
    books: Seq<BookMessage>,
    i: int,
)
    requires
        0 <= i < figis.len(),
        of_figi(books, figis[i]).len() <= bus.ring,
        of_figi(books, figis[i]).len() <= limit,
    ensures
        ({
            let opened = bus.open_topics(figis);
            let after = SubState::fresh(opened, figis, limit).drained(opened.publish_all(books), i);
            after.queue == of_figi(books, figis[i]) && after.dropped == 0
        }),
{
    let opened = bus.open_topics(figis);
    let sub = SubState::fresh(opened, figis, limit);
    let grown = opened.publish_all(books);
    law_subscription_starts_now(bus, figis, limit, books, i);
    assert(figis.contains(figis[i]));
    law_topic_takes_its_books(opened, books, figis[i]);
    assert(sub.drained(grown, i).queue =~= of_figi(books, figis[i]));
}

impl SubState {
    /// The backlogs of all topics from `i` on, one behind the other.
    pub open spec fn backlogs_from(self, bus: BusState, i: int) -> Seq<BookMessage>
        decreases self.feeds.len() - i,
    {
        if i < 0 || i >= self.feeds.len() {
            Seq::empty()
        } else {
            self.backlog(bus, i) + self.backlogs_from(bus, i + 1)
        }
    }
}

proof fn lemma_backlogs_depend_on_feeds(a: SubState, b: SubState, bus: BusState, i: int)
    requires
        0 <= i,
        a.feeds.len() == b.feeds.len(),
        forall|k: int| i <= k < a.feeds.len() ==> a.feeds[k] == b.feeds[k],
    ensures
        a.backlogs_from(bus, i) == b.backlogs_from(bus, i),
    decreases a.feeds.len() - i,
{
    if i < a.feeds.len() {
        lemma_backlogs_depend_on_feeds(a, b, bus, i + 1);
    }
}

/// All topics are merged into one queue: when nothing was overwritten and there is
/// room for all of it, the queue gains the backlogs of all topics, each in its order,
/// and nothing is dropped.
pub proof fn law_fan_in_merges_topics(sub: SubState, bus: BusState, i: int)
    requires
        0 <= i,
        sub.follows(bus),
        forall|k: int| i <= k < sub.feeds.len() ==> #[trigger] sub.backlog(bus, k).len() <= bus.ring,
        sub.queue.len() + sub.backlogs_from(bus, i).len() <= sub.limit,
    ensures
        sub.drained_from(bus, i).queue == sub.queue + sub.backlogs_from(bus, i),
        sub.drained_from(bus, i).dropped == sub.dropped,
    decreases sub.feeds.len() - i,
{
    if i < sub.feeds.len() {
        let next = sub.drained(bus, i);
        assert(sub.follows_at(bus, i));
        assert(sub.backlog(bus, i).len() <= bus.ring);
        lemma_backlogs_depend_on_feeds(sub, next, bus, i + 1);
        assert(next.queue =~= sub.queue + sub.backlog(bus, i));
        assert forall|k: int| 0 <= k < next.feeds.len() implies next.follows_at(bus, k) by {
            assert(sub.follows_at(bus, k));
        }
        assert forall|k: int| i + 1 <= k < next.feeds.len() implies #[trigger] next.backlog(bus, k).len()
            <= bus.ring by {
            assert(sub.backlog(bus, k).len() <= bus.ring);
        }
        law_fan_in_merges_topics(next, bus, i + 1);
        assert(sub.queue + sub.backlogs_from(bus, i) =~= next.queue + next.backlogs_from(bus, i + 1));
    } else {
        assert(sub.queue + sub.backlogs_from(bus, i) =~= sub.queue);
    }
}

/// Without any instrument a subscription has ended from the start.
pub proof fn law_nothing_subscribed_has_ended(bus: BusState, limit: nat)
    ensures
        SubState::fresh(bus, Seq::empty(), limit).next() == Next::Ended,
{
}

} // verus!
