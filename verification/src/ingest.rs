//! Ingest: every book from upstream goes into the snapshot table and then onto the
//! bus.

use vstd::prelude::*;

use crate::bus::{Bus, Subscription};
use crate::fanout::BusState;
use crate::isolation::{law_topic_takes_its_books, of_figi};
use crate::snapshot::Snapshot;
use crate::types::BookMessage;
use crate::upstream::Upstream;

verus! {

/// Running totals of ingest.
#[derive(Clone, Copy, Debug, PartialEq, Eq, Structural)]
pub struct IngestStats {
    /// How many books were received, stored and published.
    pub received: u64,
    /// How many times `gateway_seq` did not go on by one; a jump is one gap, however
    /// many books are missing.
    pub gaps: u64,
}

impl Default for IngestStats {
    fn default() -> (stats: IngestStats)
        ensures
            stats == (IngestStats { received: 0, gaps: 0 }),
    {
        IngestStats { received: 0, gaps: 0 }
    }
}

/// Whether `seq` does not follow on the sequence number before it, if there was one.
pub open spec fn is_gap(last_seq: Option<u64>, seq: u64) -> bool {
    last_seq is Some && seq != last_seq->Some_0 + 1
}

/// How many gaps there are in `books`, the first one seen from `last_seq`.
pub open spec fn gaps_in(last_seq: Option<u64>, books: Seq<BookMessage>) -> nat
    decreases books.len(),
{
    if books.len() == 0 {
        0
    } else {
        let seq = books.last().gateway_seq;
        gaps_in(last_seq, books.drop_last()) + if is_gap(seq_after(last_seq, books.drop_last()), seq) {
            1nat
        } else {
            0nat
        }
    }
}

/// The last sequence number after `books`.
pub open spec fn seq_after(last_seq: Option<u64>, books: Seq<BookMessage>) -> Option<u64> {
    if books.len() == 0 {
        last_seq
    } else {
        Some(books.last().gateway_seq)
    }
}

/// The table after `books` were put into it one after the other.
pub open spec fn put_all(table: Map<Seq<u8>, BookMessage>, books: Seq<BookMessage>) -> Map<Seq<u8>, BookMessage>
    decreases books.len(),
{
    if books.len() == 0 {
        table
    } else {
        put_all(table, books.drop_last()).insert(books.last().figi.0@, books.last())
    }
}

/// Whether the totals are to be reported after `received` books, when that is asked for
/// after every `every` of them; `0` asks for no report.
pub open spec fn report_due(received: u64, every: u64) -> bool {
    every > 0 && received as int % every as int == 0
}

/// Whether no report is due after more than `first` and fewer than `last` books.
pub open spec fn none_due_between(first: u64, last: u64, every: u64) -> bool {
    forall|received: u64| first < received < last ==> !#[trigger] report_due(received, every)
}

/// What became of an attempt to receive from upstream.
#[derive(Debug, PartialEq, Eq)]
pub enum Outcome {
    /// A book was taken in.
    Taken,
    /// A book was taken in, and the totals are to be reported.
    Report,
    /// Nothing is buffered any more.
    Empty,
    /// The upstream could not hand over a book, for that reason.
    Failed(String),
    /// The upstream handed over a book for which the counter of books has no room.
    Uncounted(BookMessage),
}

/// What happened to the ingest loop.
#[derive(Debug, PartialEq, Eq)]
pub enum Event {
    /// The loop starts.
    Started,
    /// The stop flag was read.
    StopFlag(bool),
    /// Upstream was waited for.
    Waited(Result<(), ()>),
    /// Upstream was asked for books.
    Received(Outcome),
}

/// What the ingest loop does next.
#[derive(Clone, Copy, Debug, PartialEq, Eq, Structural)]
pub enum Command {
    /// Read the stop flag.
    ReadStopFlag,
    /// Wait for upstream.
    Wait,
    /// Receive from upstream.
    Receive,
    /// Report the totals, and receive from upstream.
    ReportAndReceive,
    /// Report the failure, and read the stop flag.
    ReportFailure,
    /// Break down, because the counter of books is exhausted.
    BreakDown,
    /// Leave the loop.
    Finish,
}

/// What the ingest loop does after `event`: it ends when it is told to stop or upstream
/// is over, and no failure of upstream ends it.
pub fn next_command(event: &Event) -> (command: Command)
    ensures
        command == match *event {
            Event::Started => Command::ReadStopFlag,
            Event::StopFlag(stop) => if stop {
                Command::Finish
            } else {
                Command::Wait
            },
            Event::Waited(Err(_)) => Command::Finish,
            Event::Waited(Ok(_)) => Command::Receive,
            Event::Received(Outcome::Taken) => Command::Receive,
            Event::Received(Outcome::Report) => Command::ReportAndReceive,
            Event::Received(Outcome::Empty) => Command::ReadStopFlag,
            Event::Received(Outcome::Failed(_)) => Command::ReportFailure,
            Event::Received(Outcome::Uncounted(_)) => Command::BreakDown,
        },
{
    match event {
        Event::Started => Command::ReadStopFlag,
        Event::StopFlag(stop) => if *stop {
            Command::Finish
        } else {
            Command::Wait
        },
        Event::Waited(waited) => match waited {
            Ok(_) => Command::Receive,
            Err(_) => Command::Finish,
        },
        Event::Received(outcome) => match outcome {
            Outcome::Taken => Command::Receive,
            Outcome::Report => Command::ReportAndReceive,
            Outcome::Empty => Command::ReadStopFlag,
            Outcome::Failed(_) => Command::ReportFailure,
            Outcome::Uncounted(_) => Command::BreakDown,
        },
    }
}

/// The state of ingest.
#[derive(Clone, Copy, Debug, PartialEq, Eq, Structural)]
pub struct Ingest {
    stats: IngestStats,
    last_seq: Option<u64>,
}

impl Ingest {
    /// The totals so far.
    pub closed spec fn totals(self) -> IngestStats {
        self.stats
    }

    /// The sequence number of the last book.
    pub closed spec fn last(self) -> Option<u64> {
        self.last_seq
    }

    /// There are no more gaps than books.
    pub open spec fn wf(self) -> bool {
        self.totals().gaps <= self.totals().received
    }

    /// `other` is the state after `books`.
    pub open spec fn became(self, books: Seq<BookMessage>, other: Ingest) -> bool {
        &&& other.totals().received == self.totals().received + books.len()
        &&& other.totals().gaps == self.totals().gaps + gaps_in(self.last(), books)
        &&& other.last() == seq_after(self.last(), books)
    }

    /// Ingest before the first book.
    pub fn new() -> (ingest: Ingest)
        ensures
            ingest.wf(),
            ingest.totals() == (IngestStats { received: 0, gaps: 0 }),
            ingest.last() is None,
    {
        Ingest { stats: IngestStats::default(), last_seq: None }
    }

    /// The totals so far.
    pub fn stats(&self) -> (stats: IngestStats)
        ensures
            stats == self.totals(),
    {
        self.stats
    }

    /// Whether the counter of books has room for one more.
    pub fn can_take(&self) -> (room: bool)
        ensures
            room <==> self.totals().received < u64::MAX,
    {
        self.stats.received < u64::MAX
    }

    /// Takes in one book, whatever its sequence number: counts it, stores it, and only
    /// then publishes it, so that whoever hears of a book finds it, or a later one, in
    /// the table.
    pub fn on_message(&mut self, snapshot: &mut Snapshot, bus: &mut Bus, book: BookMessage)
        requires
            old(self).wf(),
            old(snapshot).wf(),
            old(bus).wf(),
            old(self).totals().received < u64::MAX,
        ensures
            final(self).wf(),
            final(snapshot).wf(),
            final(bus).wf(),
            final(self).totals().received == old(self).totals().received + 1,
            final(self).totals().gaps == old(self).totals().gaps + if is_gap(old(self).last(), book.gateway_seq) {
                1int
            } else {
                0
            },
            final(self).last() == Some(book.gateway_seq),
            final(snapshot)@ == old(snapshot)@.insert(book.figi.0@, book),
            final(bus).capacity() == old(bus).capacity(),
            final(bus)@ == old(bus)@.publish(book),
            forall|sub: Subscription| sub.attached_to(old(bus)) ==> #[trigger] sub.attached_to(final(bus)),
    {
        self.stats.received = self.stats.received + 1;
        match self.last_seq {
            Some(prev) => if prev == u64::MAX || book.gateway_seq != prev + 1 {
                self.stats.gaps = self.stats.gaps + 1;
            },
            None => {},
        }
        self.last_seq = Some(book.gateway_seq);
        snapshot.put(book);
        publish_stored(snapshot, bus, book);
    }

    /// Whether the totals are to be reported now.
    pub fn progress_due(&self, every: u64) -> (due: bool)
        ensures
            due <==> report_due(self.totals().received, every),
    {
        every > 0 && self.stats.received % every == 0
    }

    /// Deals with what came of an attempt to receive from upstream: takes in a book, and
    /// tells what else there is to be done.
    pub fn on_received(
        &mut self,
        received: Result<Option<BookMessage>, String>,
        snapshot: &mut Snapshot,
        bus: &mut Bus,
        progress_log_every: u64,
    ) -> (outcome: Outcome)
        requires
            old(self).wf(),
            old(snapshot).wf(),
            old(bus).wf(),
        ensures
            final(self).wf(),
            final(snapshot).wf(),
            final(bus).wf(),
            final(bus).capacity() == old(bus).capacity(),
            forall|sub: Subscription| sub.attached_to(old(bus)) ==> #[trigger] sub.attached_to(final(bus)),
            ({
                let books = match received {
                    Ok(Some(book)) => if old(self).totals().received < u64::MAX {
                        seq![book]
                    } else {
                        Seq::empty()
                    },
                    _ => Seq::empty(),
                };
                &&& old(self).became(books, *final(self))
                &&& final(snapshot)@ == put_all(old(snapshot)@, books)
                &&& final(bus)@ == old(bus)@.publish_all(books)
            }),
            outcome == match received {
                Ok(Some(book)) => if old(self).totals().received == u64::MAX {
                    Outcome::Uncounted(book)
                } else if report_due(final(self).totals().received, progress_log_every) {
                    Outcome::Report
                } else {
                    Outcome::Taken
                },
                Ok(None) => Outcome::Empty,
                Err(reason) => Outcome::Failed(reason),
            },
    {
        match received {
            Ok(Some(book)) => {
                if !self.can_take() {
                    return Outcome::Uncounted(book);
                }
                self.on_message(snapshot, bus, book);
                proof {
                    let books = seq![book];
                    assert(books.drop_last() =~= Seq::<BookMessage>::empty());
                    assert(books.last() == book);
                    reveal_with_fuel(gaps_in, 2);
                    reveal_with_fuel(put_all, 2);
                    reveal_with_fuel(BusState::publish_all, 2);
                }
                if self.progress_due(progress_log_every) {
                    Outcome::Report
                } else {
                    Outcome::Taken
                }
            },
            Ok(None) => Outcome::Empty,
            Err(reason) => Outcome::Failed(reason),
        }
    }

    /// Takes in what is buffered upstream, book by book, until there is no more, until
    /// the totals are to be reported, until upstream fails, or until the counter of
    /// books is exhausted.
    pub fn drain<U: Upstream>(
        &mut self,
        upstream: &mut U,
        snapshot: &mut Snapshot,
        bus: &mut Bus,
        progress_log_every: u64,
    ) -> (outcome: Outcome)
        requires
            old(self).wf(),
            old(snapshot).wf(),
            old(bus).wf(),
            old(upstream).valid(),
        ensures
            ({
                let taken = old(upstream).pending().len() - final(upstream).pending().len();
                let counted = if outcome is Uncounted {
                    taken - 1
                } else {
                    taken
                };
                let books = old(upstream).pending().take(counted);
                &&& 0 <= counted <= taken <= old(upstream).pending().len()
                &&& final(upstream).pending() == old(upstream).pending().skip(taken)
                &&& final(upstream).valid()
                &&& final(upstream).finished() == old(upstream).finished()
                &&& final(upstream).generated() == old(upstream).generated()
                &&& final(self).wf()
                &&& old(self).became(books, *final(self))
                &&& final(snapshot).wf()
                &&& final(snapshot)@ == put_all(old(snapshot)@, books)
                &&& final(bus).wf()
                &&& final(bus).capacity() == old(bus).capacity()
                &&& final(bus)@ == old(bus)@.publish_all(books)
                &&& forall|n: nat| n < taken ==> #[trigger] old(upstream).failure_after(n) is None
                &&& match outcome {
                    Outcome::Taken => false,
                    Outcome::Report => counted > 0 && report_due(final(self).totals().received, progress_log_every),
                    Outcome::Empty => {
                        &&& taken == old(upstream).pending().len()
                        &&& old(upstream).failure_after(taken as nat) is None
                    },
                    Outcome::Failed(reason) => old(upstream).failure_after(taken as nat) == Some(reason@),
                    Outcome::Uncounted(book) => {
                        &&& book == old(upstream).pending()[counted]
                        &&& final(self).totals().received == u64::MAX
                    },
                }
            }),
            forall|received: u64|
                old(self).totals().received < received && (received < final(self).totals().received || (received
                    == final(self).totals().received && !(outcome is Report))) ==> !report_due(
                    received,
                    progress_log_every,
                ),
            none_due_between(old(self).totals().received, final(self).totals().received, progress_log_every),
            outcome is Report || final(self).totals().received == old(self).totals().received || !report_due(
                final(self).totals().received,
                progress_log_every,
            ),
            forall|sub: Subscription| sub.attached_to(old(bus)) ==> #[trigger] sub.attached_to(final(bus)),
    {
        let ghost all = upstream.pending();
        let ghost mut taken: nat = 0;
        proof {
            assert(all.skip(0) =~= all);
            assert(all.take(0) =~= Seq::<BookMessage>::empty());
        }
        loop
            invariant
                taken <= all.len(),
                all == old(upstream).pending(),
                upstream.valid(),
                upstream.pending() == all.skip(taken as int),
                upstream.finished() == old(upstream).finished(),
                upstream.generated() == old(upstream).generated(),
                forall|n: nat| n < taken ==> #[trigger] old(upstream).failure_after(n) is None,
                forall|n: nat| #[trigger] upstream.failure_after(n) == old(upstream).failure_after(taken + n),
                self.wf(),
                snapshot.wf(),
                bus.wf(),
                old(self).became(all.take(taken as int), *self),
                snapshot@ == put_all(old(snapshot)@, all.take(taken as int)),
                bus.capacity() == old(bus).capacity(),
                bus@ == old(bus)@.publish_all(all.take(taken as int)),
                forall|received: u64|
                    old(self).totals().received < received <= self.totals().received ==> !report_due(
                        received,
                        progress_log_every,
                    ),
                forall|sub: Subscription| sub.attached_to(old(bus)) ==> #[trigger] sub.attached_to(&*bus),
            decreases all.len() - taken,
        {
            let ghost before = *self;
            let ghost failures = |n: nat| upstream.failure_after(n);
            let received = upstream.receive();
            proof {
                assert(failures(0) == old(upstream).failure_after(taken));
                if received is Ok && received->Ok_0 is Some {
                    let book = received->Ok_0->Some_0;
                    let front = all.take(taken as int);
                    assert(all.take(taken as int + 1) =~= front + seq![book]);
                    assert(all.skip(taken as int).drop_first() =~= all.skip(taken as int + 1));
                    law_gaps_add_up(old(self).last(), front, seq![book]);
                    lemma_parts_add_up(old(snapshot)@, old(bus)@, front, seq![book]);
                    assert(all.take(taken as int + 1).last() == book);
                    assert forall|n: nat| #[trigger] upstream.failure_after(n) == old(upstream).failure_after(
                        taken + 1 + n,
                    ) by {
                        assert(failures(n + 1) == old(upstream).failure_after(taken + (n + 1)));
                    }
                }
            }
            match self.on_received(received, snapshot, bus, progress_log_every) {
                Outcome::Taken => {
                    proof {
                        taken = taken + 1;
                    }
                },
                outcome => {
                    return outcome;
                },
            }
        }
    }
}

/// Publishes a book that the table already has.
fn publish_stored(snapshot: &Snapshot, bus: &mut Bus, book: BookMessage)
    requires
        old(bus).wf(),
        snapshot@.contains_key(book.figi.0@) && snapshot@[book.figi.0@] == book,
    ensures
        final(bus).wf(),
        final(bus).capacity() == old(bus).capacity(),
        final(bus)@ == old(bus)@.publish(book),
        forall|sub: Subscription| sub.attached_to(old(bus)) ==> #[trigger] sub.attached_to(final(bus)),
{
    bus.publish(book);
}

/// A stream without gaps is one in which each book follows on the one before it.
pub proof fn law_no_gaps_means_consecutive(books: Seq<BookMessage>)
    ensures
        gaps_in(None, books) == 0 <==> forall|i: int|
            0 <= i < books.len() - 1 ==> (#[trigger] books[i + 1]).gateway_seq == books[i].gateway_seq + 1,
    decreases books.len(),
{
    if books.len() > 0 {
        let front = books.drop_last();
        law_no_gaps_means_consecutive(front);
        assert(forall|i: int| 0 <= i < front.len() ==> front[i] == books[i]);
        if books.len() > 1 {
            assert(front.last() == books[books.len() - 2]);
            assert(books[books.len() - 2 + 1] == books.last());
            if gaps_in(None, books) == 0 {
                assert forall|i: int| 0 <= i < books.len() - 1 implies (#[trigger] books[i + 1]).gateway_seq
                    == books[i].gateway_seq + 1 by {
                    if i < front.len() - 1 {
                        assert(front[i + 1] == books[i + 1]);
                    }
                }
            } else if gaps_in(None, front) > 0 {
                let i = choose|i: int|
                    0 <= i < front.len() - 1 && (#[trigger] front[i + 1]).gateway_seq != front[i].gateway_seq + 1;
                assert(books[i + 1] == front[i + 1]);
            }
        }
    }
}

/// There are fewer gaps than books.
pub proof fn law_gaps_are_fewer_than_books(books: Seq<BookMessage>)
    ensures
        books.len() > 0 ==> gaps_in(None, books) < books.len(),
    decreases books.len(),
{
    if books.len() > 1 {
        law_gaps_are_fewer_than_books(books.drop_last());
    } else if books.len() == 1 {
        assert(gaps_in(None, books.drop_last()) == 0);
    }
}

/// Splitting a stream changes nothing: the gaps of two parts add up, the second part
/// seen from the end of the first.
pub proof fn law_gaps_add_up(last_seq: Option<u64>, first: Seq<BookMessage>, second: Seq<BookMessage>)
    ensures
        gaps_in(last_seq, first + second) == gaps_in(last_seq, first) + gaps_in(seq_after(last_seq, first), second),
    decreases second.len(),
{
    if second.len() > 0 {
        law_gaps_add_up(last_seq, first, second.drop_last());
        assert((first + second).drop_last() =~= first + second.drop_last());
        assert((first + second).last() == second.last());
        if second.len() > 1 {
            assert((first + second.drop_last()).last() == second.drop_last().last());
        } else {
            assert(first + second.drop_last() =~= first);
        }
    } else {
        assert(first + second =~= first);
    }
}

/// Taking in a stream in two parts is taking it in at once.
pub proof fn law_ingest_is_incremental(
    start: Ingest,
    middle: Ingest,
    end: Ingest,
    table: Map<Seq<u8>, BookMessage>,
    bus: BusState,
    first: Seq<BookMessage>,
    second: Seq<BookMessage>,
)
    requires
        start.became(first, middle),
        middle.became(second, end),
    ensures
        start.became(first + second, end),
        put_all(put_all(table, first), second) == put_all(table, first + second),
        bus.publish_all(first).publish_all(second) == bus.publish_all(first + second),
{
    law_gaps_add_up(start.last(), first, second);
    lemma_parts_add_up(table, bus, first, second);
    if second.len() > 0 {
        assert((first + second).last() == second.last());
    } else {
        assert(first + second =~= first);
    }
}

proof fn lemma_parts_add_up(
    table: Map<Seq<u8>, BookMessage>,
    bus: BusState,
    first: Seq<BookMessage>,
    second: Seq<BookMessage>,
)
    ensures
        put_all(put_all(table, first), second) == put_all(table, first + second),
        bus.publish_all(first).publish_all(second) == bus.publish_all(first + second),
    decreases second.len(),
{
    if second.len() > 0 {
        lemma_parts_add_up(table, bus, first, second.drop_last());
        assert((first + second).drop_last() =~= first + second.drop_last());
        assert((first + second).last() == second.last());
    } else {
        assert(first + second =~= first);
    }
}

/// The table holds the last book of each instrument: after a stream, the book of an
/// instrument is the last one in the stream, and the one from before where the stream
/// has none.
pub proof fn law_table_holds_last_books(table: Map<Seq<u8>, BookMessage>, books: Seq<BookMessage>, figi: Seq<u8>)
    ensures
        ({
            let after = put_all(table, books);
            let own = of_figi(books, figi);
            if own.len() > 0 {
                after.contains_key(figi) && after[figi] == own.last()
            } else {
                &&& after.contains_key(figi) <==> table.contains_key(figi)
                &&& table.contains_key(figi) ==> after[figi] == table[figi]
            }
        }),
    decreases books.len(),
{
    reveal(Seq::filter);
    if books.len() > 0 {
        law_table_holds_last_books(table, books.drop_last(), figi);
    }
}

/// As many instruments have a book as there are different ones in the stream.
pub proof fn law_table_counts_instruments(books: Seq<BookMessage>)
    ensures
        put_all(Map::empty(), books).dom() == books.map_values(|book: BookMessage| book.figi.0@).to_set(),
    decreases books.len(),
{
    let figis = books.map_values(|book: BookMessage| book.figi.0@);
    if books.len() > 0 {
        law_table_counts_instruments(books.drop_last());
        let front = books.drop_last().map_values(|book: BookMessage| book.figi.0@);
        assert(figis.drop_last() =~= front);
        assert forall|figi: Seq<u8>| figis.contains(figi) <==> front.contains(figi) || figi == figis.last() by {
            if figis.contains(figi) {
                let i = choose|i: int| 0 <= i < figis.len() && figis[i] == figi;
                if i < front.len() {
                    assert(front[i] == figi);
                }
            }
            if front.contains(figi) {
                let i = choose|i: int| 0 <= i < front.len() && front[i] == figi;
                assert(figis[i] == figi);
            }
            if figi == figis.last() {
                assert(figis[figis.len() - 1] == figi);
            }
        }
        assert(put_all(Map::empty(), books).dom() =~= figis.to_set());
    } else {
        assert(put_all(Map::empty(), books).dom() =~= figis.to_set());
    }
}

/// How many books were stored at a moment. Each book takes two: it is stored, and then
/// published.
pub open spec fn stored_at(moment: nat) -> int {
    (moment as int + 1) / 2
}

/// How many books were published at a moment.
pub open spec fn published_at(moment: nat) -> int {
    moment as int / 2
}

/// Whatever was stored is in the table, or a later book of the same instrument is.
proof fn lemma_table_has_stored(
    table: Map<Seq<u8>, BookMessage>,
    books: Seq<BookMessage>,
    stored: int,
    k: int,
)
    requires
        0 <= k < stored <= books.len(),
    ensures
        ({
            let after = put_all(table, books.take(stored));
            &&& after.contains_key(books[k].figi.0@)
            &&& exists|q: int|
                k <= q < stored && books[q].figi.0@ == books[k].figi.0@ && after[books[k].figi.0@] == #[trigger] books[q]
        }),
    decreases stored,
{
    let front = books.take(stored);
    assert(front.drop_last() =~= books.take(stored - 1));
    assert(front.last() == books[stored - 1]);
    if books[stored - 1].figi.0@ == books[k].figi.0@ {
        assert(put_all(table, front)[books[k].figi.0@] == books[stored - 1]);
    } else {
        lemma_table_has_stored(table, books, stored - 1, k);
    }
}

/// The table never lags behind the stream: at every moment, also between the storing
/// and the publishing of a book, the table has for every published book this book or a
/// later one of the same instrument, and so one with no lower sequence number where
/// these ascend. At the moment at which a book is published, the table has just it.
pub proof fn law_table_never_lags(
    table: Map<Seq<u8>, BookMessage>,
    books: Seq<BookMessage>,
    moment: nat,
    k: int,
)
    requires
        moment <= 2 * books.len(),
        0 <= k < published_at(moment),
    ensures
        ({
            let after = put_all(table, books.take(stored_at(moment)));
            let figi = books[k].figi.0@;
            &&& after.contains_key(figi)
            &&& exists|q: int|
                k <= q < stored_at(moment) && books[q].figi.0@ == figi && after[figi] == #[trigger] books[q]
            &&& (forall|i: int, j: int| 0 <= i < j < books.len() ==> books[i].gateway_seq < books[j].gateway_seq)
                ==> after[figi].gateway_seq >= books[k].gateway_seq
            &&& moment == 2 * (k + 1) ==> after[figi] == books[k]
        }),
{
    lemma_table_has_stored(table, books, stored_at(moment), k);
}

/// What a topic last published is what the table has: this holds when nothing was
/// published yet, and taking in books and opening topics keep it.
pub open spec fn table_matches(table: Map<Seq<u8>, BookMessage>, bus: BusState) -> bool {
    forall|figi: Seq<u8>| #[trigger]
        bus.topics.contains_key(figi) && bus.topics[figi].len() > 0 ==> table.contains_key(figi) && table[figi]
            == bus.topics[figi].last()
}

/// Between two books the table and the bus agree: the last book of a topic is the book
/// that the table has, however many books are taken in and topics opened.
pub proof fn law_table_matches_bus(
    table: Map<Seq<u8>, BookMessage>,
    bus: BusState,
    books: Seq<BookMessage>,
    figis: Seq<Seq<u8>>,
)
    requires
        table_matches(table, bus),
    ensures
        table_matches(put_all(table, books), bus.publish_all(books)),
        table_matches(table, bus.open_topics(figis)),
    decreases books.len(),
{
    if books.len() > 0 {
        law_table_matches_bus(table, bus, books.drop_last(), figis);
    }
}

/// Taking in a book counts it, and counts a gap exactly when its number is not the one after
/// the last; the table then has this book for its instrument, and its topic, if it is open,
/// has it at the end. Nothing else changes.
pub proof fn law_message_is_counted_stored_and_published(
    ingest: &mut Ingest,
    snapshot: &mut Snapshot,
    bus: &mut Bus,
    book: BookMessage,
    figi: Seq<u8>,
)
    requires
        old(ingest).wf(),
        old(snapshot).wf(),
        old(bus).wf(),
        call_ensures(Ingest::on_message, (ingest, snapshot, bus, book), ()),
    ensures
        final(ingest).totals().received == old(ingest).totals().received + 1,
        final(ingest).totals().gaps == old(ingest).totals().gaps + if old(ingest).last() is Some
            && book.gateway_seq != old(ingest).last()->Some_0 + 1 {
            1int
        } else {
            0
        },
        final(ingest).last() == Some(book.gateway_seq),
        final(snapshot)@.contains_key(book.figi.0@) && final(snapshot)@[book.figi.0@] == book,
        figi != book.figi.0@ ==> {
            &&& final(snapshot)@.contains_key(figi) <==> old(snapshot)@.contains_key(figi)
            &&& old(snapshot)@.contains_key(figi) ==> final(snapshot)@[figi] == old(snapshot)@[figi]
        },
        final(bus)@.topics.contains_key(figi) <==> old(bus)@.topics.contains_key(figi),
        old(bus)@.topics.contains_key(figi) ==> final(bus)@.topics[figi] == if figi == book.figi.0@ {
            old(bus)@.topics[figi] + seq![book]
        } else {
            old(bus)@.topics[figi]
        },
{
    if old(bus)@.topics.contains_key(figi) && figi == book.figi.0@ {
        assert(final(bus)@.topics[figi] =~= old(bus)@.topics[figi] + seq![book]);
    }
}

/// Each book of a stream adds one gap when its number is not the one after that of the book
/// before it, and none when it is; the first book of all is no gap.
pub proof fn law_gap_is_a_number_that_does_not_follow(books: Seq<BookMessage>, book: BookMessage)
    ensures
        gaps_in(None, Seq::empty()) == 0,
        gaps_in(None, books.push(book)) == gaps_in(None, books) + if books.len() > 0 && book.gateway_seq
            != books.last().gateway_seq + 1 {
            1nat
        } else {
            0nat
        },
{
    assert(books.push(book).drop_last() =~= books);
    assert(books.push(book).last() == book);
}

/// Ingest starts from nothing.
pub proof fn law_ingest_starts_from_nothing(ingest: Ingest, stats: IngestStats, room: bool)
    requires
        call_ensures(Ingest::new, (), ingest),
        call_ensures(Ingest::stats, (&ingest,), stats),
        call_ensures(Ingest::can_take, (&ingest,), room),
    ensures
        ingest.wf(),
        stats.received == 0 && stats.gaps == 0,
        ingest.last() is None,
        room,
{
}

/// The totals are told as they are. A report is due exactly when reports are asked for and
/// the number of books is a multiple of the number asked for.
pub proof fn law_reports_come_at_multiples(
    ingest: Ingest,
    stats: IngestStats,
    every: u64,
    due: bool,
)
    requires
        call_ensures(Ingest::stats, (&ingest,), stats),
        call_ensures(Ingest::progress_due, (&ingest, every), due),
    ensures
        stats == ingest.totals(),
        every == 0 ==> !due,
        due ==> exists|k: int| stats.received == #[trigger] (k * every),
        every > 0 && (exists|k: int| stats.received == #[trigger] (k * every)) ==> due,
{
    if every > 0 {
        let (r, e) = (stats.received as int, every as int);
        vstd::arithmetic::div_mod::lemma_fundamental_div_mod(r, e);
        if due {
            assert(r == (r / e) * e) by (nonlinear_arith)
                requires
                    r == e * (r / e) + r % e,
                    r % e == 0,
            ;
        }
        if exists|k: int| stats.received == #[trigger] (k * every) {
            let k = choose|k: int| stats.received == #[trigger] (k * every);
            vstd::arithmetic::div_mod::lemma_mod_multiples_basic(k, e);
        }
    }
}

/// What came of an attempt to receive decides what is done: a book is taken in as by itself,
/// nothing and a failure change nothing and are told as they came. A book that there is no
/// room to count is given back.
pub proof fn law_received_book_is_taken_in(
    ingest: &mut Ingest,
    received: Result<Option<BookMessage>, String>,
    snapshot: &mut Snapshot,
    bus: &mut Bus,
    every: u64,
    outcome: Outcome,
)
    requires
        old(ingest).wf(),
        old(snapshot).wf(),
        old(bus).wf(),
        call_ensures(Ingest::on_received, (ingest, received, snapshot, bus, every), outcome),
    ensures
        received is Ok && received->Ok_0 is Some && old(ingest).totals().received < u64::MAX ==> {
            let book = received->Ok_0->Some_0;
            &&& final(ingest).totals().received == old(ingest).totals().received + 1
            &&& final(ingest).totals().gaps == old(ingest).totals().gaps + if old(ingest).last() is Some
                && book.gateway_seq != old(ingest).last()->Some_0 + 1 {
                1int
            } else {
                0
            }
            &&& final(ingest).last() == Some(book.gateway_seq)
            &&& final(snapshot)@ == old(snapshot)@.insert(book.figi.0@, book)
            &&& final(bus)@ == old(bus)@.publish(book)
            &&& outcome == Outcome::Report || outcome == Outcome::Taken
            &&& outcome == Outcome::Report <==> every > 0 && final(ingest).totals().received as int % every as int == 0
        },
        received is Ok && received->Ok_0 is Some && old(ingest).totals().received == u64::MAX ==> outcome
            == Outcome::Uncounted(received->Ok_0->Some_0),
        received is Ok && received->Ok_0 is None ==> outcome == Outcome::Empty,
        received is Err ==> outcome == Outcome::Failed(received->Err_0),
        !(received is Ok && received->Ok_0 is Some) || old(ingest).totals().received == u64::MAX ==> {
            &&& final(ingest).totals() == old(ingest).totals()
            &&& final(ingest).last() == old(ingest).last()
            &&& final(snapshot)@ == old(snapshot)@
            &&& final(bus)@ == old(bus)@
        },
{
    if received is Ok && received->Ok_0 is Some {
        let books = seq![received->Ok_0->Some_0];
        assert(books.drop_last() =~= Seq::<BookMessage>::empty());
        assert(books.last() == books[0]);
        reveal_with_fuel(gaps_in, 2);
        reveal_with_fuel(put_all, 2);
        reveal_with_fuel(BusState::publish_all, 2);
    }
}

/// A drain takes every buffered book in, when nothing stops it: without a failure and without
/// a report that is due, nothing is left, and every book was counted.
pub proof fn law_drain_takes_everything<U: Upstream>(
    ingest: &mut Ingest,
    upstream: &mut U,
    snapshot: &mut Snapshot,
    bus: &mut Bus,
    outcome: Outcome,
)
    requires
        old(ingest).wf(),
        old(snapshot).wf(),
        old(bus).wf(),
        old(upstream).valid(),
        call_ensures(Ingest::drain::<U>, (ingest, upstream, snapshot, bus, 0), outcome),
        forall|n: nat| #[trigger] old(upstream).failure_after(n) is None,
        old(ingest).totals().received + old(upstream).pending().len() <= u64::MAX,
    ensures
        outcome == Outcome::Empty,
        final(upstream).pending().len() == 0,
        final(ingest).totals().received == old(ingest).totals().received + old(upstream).pending().len(),
        final(snapshot)@ == put_all(old(snapshot)@, old(upstream).pending()),
        final(bus)@ == old(bus)@.publish_all(old(upstream).pending()),
{
    let all = old(upstream).pending();
    assert(all.take(all.len() as int) =~= all);
}

/// The loop leaves for two reasons only: it was told to stop, or upstream is over. A failure
/// of upstream does not end it, and as long as books come it goes on receiving.
pub proof fn law_loop_ends_when_told_or_over(event: Event, command: Command)
    requires
        call_ensures(next_command, (&event,), command),
    ensures
        command == Command::Finish <==> event == Event::StopFlag(true) || (event is Waited && event->Waited_0 is Err),
        event is Waited && event->Waited_0 is Ok ==> command == Command::Receive,
        event == Event::StopFlag(false) ==> command == Command::Wait,
        event == Event::Started ==> command == Command::ReadStopFlag,
        event is Received && event->Received_0 is Taken ==> command == Command::Receive,
        event is Received && event->Received_0 is Report ==> command == Command::ReportAndReceive,
        event is Received && event->Received_0 is Empty ==> command == Command::ReadStopFlag,
        event is Received && event->Received_0 is Failed ==> command == Command::ReportFailure,
        command == Command::BreakDown <==> event is Received && event->Received_0 is Uncounted,
{
}

/// A drain takes the books in from the front, one by one, each as by itself and every one,
/// and stops for a reason: a report is due, and was not before; nothing is left; upstream
/// fails, and tells why; or there is no room to count one more.
pub proof fn law_drain_stops_for_a_reason<U: Upstream>(
    ingest: &mut Ingest,
    upstream: &mut U,
    snapshot: &mut Snapshot,
    bus: &mut Bus,
    every: u64,
    outcome: Outcome,
    figi: Seq<u8>,
    received: u64,
)
    requires
        old(ingest).wf(),
        old(snapshot).wf(),
        old(bus).wf(),
        old(upstream).valid(),
        call_ensures(Ingest::drain::<U>, (ingest, upstream, snapshot, bus, every), outcome),
    ensures
        ({
            let books = old(upstream).pending();
            let counted = final(ingest).totals().received - old(ingest).totals().received;
            let taken = if outcome is Uncounted {
                counted + 1
            } else {
                counted
            };
            let own = of_figi(books.subrange(0, counted), figi);
            &&& 0 <= counted <= taken <= books.len()
            &&& final(upstream).pending() == books.subrange(taken, books.len() as int)
            &&& final(ingest).totals().gaps == old(ingest).totals().gaps + gaps_in(
                old(ingest).last(),
                books.subrange(0, counted),
            )
            &&& counted > 0 ==> final(ingest).last() == Some(books[counted - 1].gateway_seq)
            &&& counted == 0 ==> final(ingest).last() == old(ingest).last()
            &&& own.len() > 0 ==> final(snapshot)@.contains_key(figi) && final(snapshot)@[figi] == own.last()
            &&& own.len() == 0 ==> {
                &&& final(snapshot)@.contains_key(figi) <==> old(snapshot)@.contains_key(figi)
                &&& old(snapshot)@.contains_key(figi) ==> final(snapshot)@[figi] == old(snapshot)@[figi]
            }
            &&& old(bus)@.topics.contains_key(figi) ==> final(bus)@.topics.contains_key(figi)
                && final(bus)@.topics[figi] == old(bus)@.topics[figi] + own
            &&& old(ingest).totals().received < received < final(ingest).totals().received && every > 0 ==> received as int
                % every as int != 0
            &&& match outcome {
                Outcome::Taken => false,
                Outcome::Report => counted > 0 && every > 0 && final(ingest).totals().received as int % every as int == 0,
                Outcome::Empty => taken == books.len(),
                Outcome::Failed(reason) => old(upstream).failure_after(taken as nat) == Some(reason@),
                Outcome::Uncounted(book) => book == books[counted] && final(ingest).totals().received == u64::MAX,
            }
            &&& !(outcome is Report) && counted > 0 && every > 0 ==> final(ingest).totals().received as int
                % every as int != 0
        }),
{
    let books = old(upstream).pending();
    let counted = final(ingest).totals().received - old(ingest).totals().received;
    let taken = books.len() - final(upstream).pending().len();
    let front = books.take(if outcome is Uncounted {
        taken - 1
    } else {
        taken
    });
    assert(front.len() == counted);
    assert(front =~= books.subrange(0, counted));
    assert(books.skip(taken) =~= books.subrange(taken, books.len() as int));
    law_table_holds_last_books(old(snapshot)@, front, figi);
    if old(bus)@.topics.contains_key(figi) {
        law_topic_takes_its_books(old(bus)@, front, figi);
    }
    assert(!report_due(received, every) || !(old(ingest).totals().received < received
        < final(ingest).totals().received));
    let last = final(ingest).totals().received;
    assert(!(outcome is Report) && counted > 0 ==> !report_due(last, every));
}

} // verus!
