//! The subscriber side of the simulated feed: a bounded buffer between the generator and
//! the receiver.

use std::collections::VecDeque;

use vstd::prelude::*;

use crate::feed::config::{Pacing, SubscriberConfig};
use crate::feed::error::FeedSimError;
use crate::feed::generator::{GenState, Generator, Ladder};
use crate::feed::sample::FeedSample;
use crate::types::BookMessage;

verus! {

/// The state of a feed.
pub struct FeedState {
    /// The generator.
    pub generator: GenState,
    /// The books that wait to be received, oldest first.
    pub buffer: Seq<BookMessage>,
    /// How many books may wait.
    pub capacity: nat,
    /// How many books may be made in all.
    pub cap: Option<u64>,
    /// How many books were made, and buffered, so far.
    pub sent: nat,
    /// How many books were received so far.
    pub received: nat,
    /// How many books were dropped from the full buffer so far.
    pub dropped: nat,
    /// Whether the generator still runs.
    pub running: bool,
}

impl FeedState {
    /// The state before the first book.
    pub open spec fn initial(config: SubscriberConfig) -> FeedState {
        FeedState {
            generator: GenState::initial(config),
            buffer: Seq::empty(),
            capacity: config.buffer_size as nat,
            cap: config.max_messages,
            sent: 0,
            received: 0,
            dropped: 0,
            running: true,
        }
    }

    /// Whether as many books were made as may be.
    pub open spec fn capped(self) -> bool {
        self.cap is Some && self.sent >= self.cap->Some_0
    }

    /// The generator made `book`; it is buffered. When the buffer is full, the oldest book
    /// in it is dropped.
    pub open spec fn emitted(self, book: BookMessage) -> FeedState {
        let state = FeedState { generator: self.generator.step(), sent: self.sent + 1, ..self };
        if self.buffer.len() < self.capacity {
            FeedState { buffer: self.buffer.push(book), ..state }
        } else {
            FeedState { buffer: self.buffer.drop_first().push(book), dropped: self.dropped + 1, ..state }
        }
    }

    /// The oldest book was received.
    pub open spec fn taken(self) -> FeedState {
        if self.buffer.len() > 0 {
            FeedState { buffer: self.buffer.drop_first(), received: self.received + 1, ..self }
        } else {
            self
        }
    }

    /// Whether all is over: the generator has ended, and nothing waits.
    pub open spec fn over(self) -> bool {
        !self.running && self.buffer.len() == 0
    }

    /// Every book that was made was received, was dropped, or waits; no more wait than may,
    /// and no more were made than may be.
    pub open spec fn balanced(self) -> bool {
        &&& self.capacity > 0
        &&& self.sent == self.received + self.dropped + self.buffer.len()
        &&& self.buffer.len() <= self.capacity
        &&& self.cap is Some ==> self.sent <= self.cap->Some_0
    }
}

/// What the generator does next.
#[derive(Clone, Copy, Debug, PartialEq, Eq, Structural)]
pub enum GeneratorStep {
    /// Wait until the next book is due.
    Wait,
    /// Make the next book.
    Emit,
    /// End.
    Finish,
}

/// What became of a turn of the generator.
#[derive(Clone, Copy, Debug, PartialEq, Eq, Structural)]
pub enum Emitted {
    /// The next book was buffered.
    Buffered,
    /// The next book was buffered, and the oldest one dropped to make room for it.
    Displaced,
    /// There are no more books.
    Capped,
}

/// A feed with its generator, its buffer and its counters.
///
/// `receive` never waits. `wait` tells when all is over, and is the only one to tell.
pub struct FeedSubscriber {
    generator: Generator,
    buffer: VecDeque<BookMessage>,
    buffer_size: usize,
    max_messages: Option<u64>,
    sent: u64,
    received: u64,
    dropped: u64,
    running: bool,
}

impl FeedSubscriber {
    /// The state of the feed.
    pub closed spec fn view(&self) -> FeedState {
        FeedState {
            generator: self.generator@,
            buffer: self.buffer@,
            capacity: self.buffer_size as nat,
            cap: self.max_messages,
            sent: self.sent as nat,
            received: self.received as nat,
            dropped: self.dropped as nat,
            running: self.running,
        }
    }

    /// The generator has instruments, and the books balance.
    pub closed spec fn wf(&self) -> bool {
        &&& self.generator.wf()
        &&& self.generator@.instruments > 0
        &&& self@.balanced()
    }

    /// What is never otherwise: see [`FeedSubscriber::wf`].
    pub proof fn lemma_wf(&self)
        requires
            self.wf(),
        ensures
            self@.generator.instruments > 0,
            self@.balanced(),
            self@.sent <= u64::MAX,
    {
    }

    /// A feed for a configuration, if that is valid.
    pub fn new(config: SubscriberConfig) -> (result: Result<FeedSubscriber, FeedSimError>)
        ensures
            match result {
                Ok(feed) => config.fault() is None && feed.wf() && feed@ == FeedState::initial(config),
                Err(FeedSimError::Config(reason)) => config.fault() == Some(reason@),
                Err(_) => false,
            },
    {
        config.validate()?;
        Ok(
            FeedSubscriber {
                generator: Generator::new(&config),
                buffer: VecDeque::new(),
                buffer_size: config.buffer_size,
                max_messages: config.max_messages,
                sent: 0,
                received: 0,
                dropped: 0,
                running: true,
            },
        )
    }

    /// Whether as many books were made as may be.
    pub fn is_capped(&self) -> (capped: bool)
        ensures
            capped == self@.capped(),
    {
        match self.max_messages {
            Some(cap) => self.sent >= cap,
            None => false,
        }
    }

    /// What the generator does next: it ends when it is told to stop and, before it waits
    /// for a book to be due, when the cap is reached; else it makes the book once it is
    /// due. A generator that has ended does nothing more.
    pub fn next_step(&self, due: bool, stop: bool) -> (step: GeneratorStep)
        ensures
            step == if stop || !self@.running || (!due && self@.capped()) {
                GeneratorStep::Finish
            } else if due {
                GeneratorStep::Emit
            } else {
                GeneratorStep::Wait
            },
    {
        if stop || !self.running || (!due && self.is_capped()) {
            GeneratorStep::Finish
        } else if due {
            GeneratorStep::Emit
        } else {
            GeneratorStep::Wait
        }
    }

    /// The instrument of the next book, to find the prices for it.
    pub fn next_instrument(&self) -> (index: usize)
        ensures
            index == self@.generator.index,
    {
        self.generator.next_instrument()
    }

    /// How many books the generator has made so far, modulo 2^64, to find the prices for
    /// the next one.
    pub fn produced(&self) -> (count: u64)
        ensures
            count == self@.generator.produced,
    {
        self.generator.produced()
    }

    /// One turn of the generator: makes the next book, and buffers it. A full buffer costs
    /// its oldest book, not the time of the generator. A generator that has ended has no
    /// more turns.
    pub fn emit(&mut self, now_ns: i64, ladder: &Ladder) -> (emitted: Emitted)
        requires
            old(self).wf(),
            old(self)@.running,
            !old(self)@.capped() ==> 1_000_000 + old(self)@.generator.index <= u32::MAX,
            !old(self)@.capped() ==> old(self)@.sent < u64::MAX,
        ensures
            final(self).wf(),
            emitted == if old(self)@.capped() {
                Emitted::Capped
            } else if old(self)@.buffer.len() < old(self)@.capacity {
                Emitted::Buffered
            } else {
                Emitted::Displaced
            },
            match emitted {
                Emitted::Capped => final(self)@ == old(self)@,
                _ => exists|book: BookMessage| #[trigger]
                    old(self)@.generator.emits(now_ns, *ladder, book) && final(self)@ == old(self)@.emitted(book),
            },
    {
        if self.is_capped() {
            return Emitted::Capped;
        }
        let book = self.generator.next(now_ns, ladder);
        self.sent = self.sent + 1;
        let emitted = if self.buffer.len() < self.buffer_size {
            Emitted::Buffered
        } else {
            let _ = self.buffer.pop_front();
            self.dropped = self.dropped + 1;
            assert(self.buffer@ =~= old(self).buffer@.drop_first());
            Emitted::Displaced
        };
        self.buffer.push_back(book);
        assert(self@ == old(self)@.emitted(book));
        emitted
    }

    /// The generator ends. What is buffered can still be received.
    pub fn finish(&mut self)
        requires
            old(self).wf(),
        ensures
            final(self).wf(),
            final(self)@ == (FeedState { running: false, ..old(self)@ }),
    {
        self.running = false;
    }

    /// The oldest book in the buffer; `Ok(None)` when there is none right now.
    pub fn receive(&mut self) -> (result: Result<Option<FeedSample>, FeedSimError>)
        requires
            old(self).wf(),
        ensures
            final(self).wf(),
            final(self)@ == old(self)@.taken(),
            result is Ok,
            result->Ok_0 is Some <==> old(self)@.buffer.len() > 0,
            result->Ok_0 is Some ==> result->Ok_0->Some_0@ == old(self)@.buffer[0],
    {
        match self.buffer.pop_front() {
            Some(book) => {
                self.received = self.received + 1;
                assert(self.buffer@ =~= old(self).buffer@.drop_first());
                Ok(Some(FeedSample::new(book)))
            },
            None => Ok(None),
        }
    }

    /// Whether there is reason to go on: `Err` once the generator has ended and nothing
    /// waits.
    pub fn wait(&self) -> (result: Result<(), ()>)
        ensures
            result is Err <==> self@.over(),
    {
        if !self.running && self.buffer.len() == 0 {
            Err(())
        } else {
            Ok(())
        }
    }

    /// How many books were made, and buffered, so far. Those that were not received wait, or
    /// were dropped.
    pub fn total_generated(&self) -> (total: u64)
        ensures
            total == self@.sent,
    {
        self.sent
    }

    /// How many books were received so far.
    pub fn total_received(&self) -> (total: u64)
        ensures
            total == self@.received,
    {
        self.received
    }

    /// How many books were dropped from the full buffer so far.
    pub fn total_dropped(&self) -> (total: u64)
        ensures
            total == self@.dropped,
    {
        self.dropped
    }
}

/// Something that happens to a feed.
pub enum FeedAction {
    /// The generator has a turn, in which it makes this book unless the cap is reached.
    /// It has none after its end.
    Emit(BookMessage),
    /// The receiver asked for a book.
    Receive,
    /// The generator ends.
    Finish,
}

impl FeedState {
    /// The state after one action.
    pub open spec fn act(self, action: FeedAction) -> FeedState {
        match action {
            FeedAction::Emit(book) => if !self.running || self.capped() {
                self
            } else {
                self.emitted(book)
            },
            FeedAction::Receive => self.taken(),
            FeedAction::Finish => FeedState { running: false, ..self },
        }
    }

    /// The state after a number of actions.
    pub open spec fn run(self, actions: Seq<FeedAction>) -> FeedState
        decreases actions.len(),
    {
        if actions.len() == 0 {
            self
        } else {
            self.run(actions.drop_last()).act(actions.last())
        }
    }

    /// The books that the generator makes in the course of `actions`, in order.
    pub open spec fn made(self, actions: Seq<FeedAction>) -> Seq<BookMessage>
        decreases actions.len(),
    {
        if actions.len() == 0 {
            Seq::empty()
        } else {
            let earlier = self.made(actions.drop_last());
            let state = self.run(actions.drop_last());
            match actions.last() {
                FeedAction::Emit(book) => if state.running && !state.capped() {
                    earlier.push(book)
                } else {
                    earlier
                },
                _ => earlier,
            }
        }
    }

    /// The books that leave the buffer in the course of `actions`, in order.
    pub open spec fn gone(self, actions: Seq<FeedAction>) -> Seq<Gone>
        decreases actions.len(),
    {
        if actions.len() == 0 {
            Seq::empty()
        } else {
            let earlier = self.gone(actions.drop_last());
            let state = self.run(actions.drop_last());
            match actions.last() {
                FeedAction::Emit(_) => if state.running && !state.capped() && state.buffer.len() >= state.capacity {
                    earlier.push(Gone { book: state.buffer[0], received: false })
                } else {
                    earlier
                },
                FeedAction::Receive => if state.buffer.len() > 0 {
                    earlier.push(Gone { book: state.buffer[0], received: true })
                } else {
                    earlier
                },
                FeedAction::Finish => earlier,
            }
        }
    }
}

/// A book that has left the buffer.
pub struct Gone {
    /// The book.
    pub book: BookMessage,
    /// Whether it was received; else it was dropped.
    pub received: bool,
}

/// The books among `gone`, in order.
pub open spec fn books_gone(gone: Seq<Gone>) -> Seq<BookMessage> {
    gone.map_values(|gone: Gone| gone.book)
}

/// How many of `gone` were received, or were dropped.
pub open spec fn count_gone(gone: Seq<Gone>, received: bool) -> nat
    decreases gone.len(),
{
    if gone.len() == 0 {
        0
    } else {
        count_gone(gone.drop_last(), received) + if gone.last().received == received {
            1nat
        } else {
            0nat
        }
    }
}

/// How many turns the generator is given in the course of `actions`.
pub open spec fn turns(actions: Seq<FeedAction>) -> nat
    decreases actions.len(),
{
    if actions.len() == 0 {
        0
    } else {
        turns(actions.drop_last()) + if actions.last() is Emit {
            1nat
        } else {
            0nat
        }
    }
}

/// First in, first out, and the oldest goes first: the books that leave the buffer, received
/// or dropped, and then those that still wait are, in this order, what waited before and
/// what was made since. Each is counted.
pub proof fn law_feed_keeps_order(state: FeedState, actions: Seq<FeedAction>)
    requires
        state.balanced(),
    ensures
        books_gone(state.gone(actions)) + state.run(actions).buffer == state.buffer + state.made(actions),
        state.run(actions).sent == state.sent + state.made(actions).len(),
        state.run(actions).received == state.received + count_gone(state.gone(actions), true),
        state.run(actions).dropped == state.dropped + count_gone(state.gone(actions), false),
        state.run(actions).balanced(),
        state.run(actions).capacity == state.capacity,
        state.run(actions).cap == state.cap,
    decreases actions.len(),
{
    if actions.len() > 0 {
        let front = actions.drop_last();
        law_feed_keeps_order(state, front);
        let before = state.run(front);
        let after = state.run(actions);
        let (old_gone, gone) = (state.gone(front), state.gone(actions));
        if gone != old_gone {
            assert(gone.drop_last() =~= old_gone);
            assert(books_gone(gone) =~= books_gone(old_gone).push(before.buffer[0]));
        }
        match actions.last() {
            FeedAction::Emit(book) => {
                if before.running && !before.capped() {
                    assert(books_gone(gone) + after.buffer =~= (books_gone(old_gone) + before.buffer).push(book));
                    assert(state.buffer + state.made(actions) =~= (state.buffer + state.made(front)).push(book));
                }
            },
            FeedAction::Receive => {
                if before.buffer.len() > 0 {
                    assert(books_gone(gone) + after.buffer =~= books_gone(old_gone) + before.buffer);
                }
            },
            FeedAction::Finish => {},
        }
    } else {
        assert(books_gone(state.gone(actions)) + state.buffer =~= state.buffer + state.made(actions));
    }
}

/// A full buffer holds the latest books: when nobody receives, what waits after a number of
/// turns is the end of what waited before and what was made since, as much of it as there
/// is room for.
pub proof fn law_full_buffer_holds_the_latest(state: FeedState, actions: Seq<FeedAction>)
    requires
        state.balanced(),
        !actions.contains(FeedAction::Receive),
    ensures
        ({
            let all = state.buffer + state.made(actions);
            let kept = if all.len() < state.capacity {
                all.len()
            } else {
                state.capacity
            };
            state.run(actions).buffer == all.skip(all.len() - kept)
        }),
    decreases actions.len(),
{
    law_feed_keeps_order(state, actions);
    if actions.len() > 0 {
        let front = actions.drop_last();
        assert(!front.contains(FeedAction::Receive)) by {
            if front.contains(FeedAction::Receive) {
                let i = choose|i: int| 0 <= i < front.len() && front[i] == FeedAction::Receive;
                assert(actions[i] == FeedAction::Receive);
            }
        }
        assert(actions.contains(actions.last()));
        law_full_buffer_holds_the_latest(state, front);
        law_feed_keeps_order(state, front);
    }
    let all = state.buffer + state.made(actions);
    let buffer = state.run(actions).buffer;
    assert(all.skip(all.len() - buffer.len()) =~= buffer) by {
        assert(all == books_gone(state.gone(actions)) + buffer);
    }
}

/// The cap counts every book that is made, whether it is received or not: as long as the
/// generator is not ended from outside, after so many turns so many books were made, and
/// never more than the cap allows. So a feed with a cap comes to its end by itself.
pub proof fn law_cap_counts_every_book(state: FeedState, actions: Seq<FeedAction>)
    requires
        state.running,
        state.cap is Some ==> state.sent <= state.cap->Some_0,
        !actions.contains(FeedAction::Finish),
    ensures
        ({
            let after = state.run(actions);
            let given = state.sent + turns(actions);
            &&& after.running
            &&& after.cap == state.cap
            &&& after.sent == if state.cap is Some && given > state.cap->Some_0 {
                state.cap->Some_0 as nat
            } else {
                given
            }
            &&& after.capped() <==> state.cap is Some && given >= state.cap->Some_0
        }),
    decreases actions.len(),
{
    if actions.len() > 0 {
        let front = actions.drop_last();
        assert(!front.contains(FeedAction::Finish)) by {
            if front.contains(FeedAction::Finish) {
                let i = choose|i: int| 0 <= i < front.len() && front[i] == FeedAction::Finish;
                assert(actions[i] == FeedAction::Finish);
            }
        }
        assert(actions.contains(actions.last()));
        law_cap_counts_every_book(state, front);
    }
}

/// The end, once told, is not taken back, whatever happens afterwards.
pub proof fn law_end_is_final(state: FeedState, actions: Seq<FeedAction>)
    requires
        state.over(),
    ensures
        state.run(actions).over(),
        state.gone(actions).len() == 0,
        state.made(actions).len() == 0,
    decreases actions.len(),
{
    if actions.len() > 0 {
        law_end_is_final(state, actions.drop_last());
    }
}

/// A feed starts empty, with its generator running, for a configuration that has
/// instruments, a rate, from one to ten levels, a buffer and, if it comes in bursts, bursts;
/// and for no other.
pub proof fn law_valid_configurations_give_a_feed(
    config: SubscriberConfig,
    result: Result<FeedSubscriber, FeedSimError>,
)
    requires
        call_ensures(FeedSubscriber::new, (config,), result),
    ensures
        result is Ok <==> {
            &&& config.instruments > 0
            &&& config.rate_hz > 0
            &&& 1 <= config.depth <= 10
            &&& config.buffer_size > 0
            &&& config.pacing != (Pacing::Bursty { burst_size: 0 })
        },
        result is Ok ==> {
            let feed = result->Ok_0@;
            &&& feed.generator == GenState::initial(config)
            &&& feed.buffer.len() == 0
            &&& feed.capacity == config.buffer_size
            &&& feed.cap == config.max_messages
            &&& feed.sent == 0 && feed.received == 0 && feed.dropped == 0
            &&& feed.running
        },
{
}

/// A turn of the generator puts the next book of the stream, unchanged, at the end of the
/// buffer. Only a full buffer loses a book, and that is the oldest one. At the cap nothing
/// happens.
pub proof fn law_turn_buffers_the_next_book(
    feed: &mut FeedSubscriber,
    now_ns: i64,
    ladder: Ladder,
    emitted: Emitted,
    k: int,
)
    requires
        old(feed).wf(),
        old(feed)@.running,
        call_ensures(FeedSubscriber::emit, (feed, now_ns, &ladder), emitted),
    ensures
        ({
            let (before, after) = (old(feed)@, final(feed)@);
            let at_cap = before.cap is Some && before.sent >= before.cap->Some_0;
            let full = before.buffer.len() >= before.capacity;
            &&& after.running && after.capacity == before.capacity && after.cap == before.cap
            &&& after.received == before.received
            &&& emitted == Emitted::Capped <==> at_cap
            &&& emitted == Emitted::Displaced <==> !at_cap && full
            &&& emitted == Emitted::Buffered <==> !at_cap && !full
            &&& at_cap ==> after == before
            &&& !at_cap ==> {
                &&& after.sent == before.sent + 1
                &&& before.generator.emits(now_ns, ladder, after.buffer.last())
                &&& after.generator == before.generator.step()
            }
            &&& !at_cap && !full ==> {
                &&& after.dropped == before.dropped
                &&& after.buffer.len() == before.buffer.len() + 1
                &&& 0 <= k < before.buffer.len() ==> after.buffer[k] == before.buffer[k]
            }
            &&& !at_cap && full ==> {
                &&& after.dropped == before.dropped + 1
                &&& after.buffer.len() == before.buffer.len()
                &&& 0 <= k < before.buffer.len() - 1 ==> after.buffer[k] == before.buffer[k + 1]
            }
        }),
{
    old(feed).lemma_wf();
}

/// Receiving takes the oldest book out of the buffer, every field of it, and leaves the
/// others in their order; only an empty buffer has none.
pub proof fn law_receive_takes_the_oldest(
    feed: &mut FeedSubscriber,
    result: Result<Option<FeedSample>, FeedSimError>,
    sample: FeedSample,
    book: BookMessage,
)
    requires
        old(feed).wf(),
        call_ensures(FeedSubscriber::receive, (feed,), result),
        result is Ok && result->Ok_0 is Some ==> sample == result->Ok_0->Some_0,
        call_ensures(FeedSample::into_inner, (sample,), book),
    ensures
        result is Ok,
        result->Ok_0 is Some <==> old(feed)@.buffer.len() > 0,
        old(feed)@.buffer.len() > 0 ==> {
            &&& old(feed)@.buffer == seq![book] + final(feed)@.buffer
            &&& final(feed)@.received == old(feed)@.received + 1
        },
        old(feed)@.buffer.len() == 0 ==> final(feed)@ == old(feed)@,
        final(feed)@.sent == old(feed)@.sent && final(feed)@.dropped == old(feed)@.dropped,
        final(feed)@.running == old(feed)@.running,
        final(feed)@.capacity == old(feed)@.capacity && final(feed)@.cap == old(feed)@.cap,
        final(feed)@.generator == old(feed)@.generator,
{
    if old(feed)@.buffer.len() > 0 {
        assert(old(feed)@.buffer =~= seq![old(feed)@.buffer[0]] + old(feed)@.buffer.drop_first());
    }
}

/// The generator goes on exactly as long as nobody stops it, it has not ended, and, unless a
/// book is due already, fewer books were made than may be. The end is told exactly when it
/// has ended and nothing waits.
pub proof fn law_end_of_a_feed(
    feed: FeedSubscriber,
    due: bool,
    stop: bool,
    step: GeneratorStep,
    waited: Result<(), ()>,
    capped: bool,
)
    requires
        call_ensures(FeedSubscriber::next_step, (&feed, due, stop), step),
        call_ensures(FeedSubscriber::wait, (&feed,), waited),
        call_ensures(FeedSubscriber::is_capped, (&feed,), capped),
    ensures
        capped <==> feed@.cap is Some && feed@.sent >= feed@.cap->Some_0,
        step == GeneratorStep::Finish <==> stop || !feed@.running || (!due && feed@.cap is Some && feed@.sent
            >= feed@.cap->Some_0),
        step == GeneratorStep::Emit ==> due,
        step == GeneratorStep::Wait ==> !due,
        waited is Err <==> !feed@.running && feed@.buffer.len() == 0,
{
}

/// The counters are those of the feed, and every book that was made was received, was
/// dropped, or waits.
pub proof fn law_feed_counts_every_book(feed: FeedSubscriber, made: u64, received: u64, dropped: u64, index: usize, count: u64)
    requires
        feed.wf(),
        call_ensures(FeedSubscriber::total_generated, (&feed,), made),
        call_ensures(FeedSubscriber::total_received, (&feed,), received),
        call_ensures(FeedSubscriber::total_dropped, (&feed,), dropped),
        call_ensures(FeedSubscriber::next_instrument, (&feed,), index),
        call_ensures(FeedSubscriber::produced, (&feed,), count),
    ensures
        made == received + dropped + feed@.buffer.len(),
        received == feed@.received,
        dropped == feed@.dropped,
        index == feed@.generator.index,
        count == feed@.generator.produced,
{
    feed.lemma_wf();
}

/// Ending the generator ends nothing else: what waits can still be received.
pub proof fn law_finishing_keeps_the_buffer(feed: &mut FeedSubscriber)
    requires
        old(feed).wf(),
        call_ensures(FeedSubscriber::finish, (feed,), ()),
    ensures
        !final(feed)@.running,
        final(feed)@.buffer == old(feed)@.buffer,
        final(feed)@.sent == old(feed)@.sent,
        final(feed)@.received == old(feed)@.received,
        final(feed)@.dropped == old(feed)@.dropped,
        final(feed)@.generator == old(feed)@.generator,
        final(feed)@.capacity == old(feed)@.capacity && final(feed)@.cap == old(feed)@.cap,
{
}

} // verus!
