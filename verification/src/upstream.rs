//! The source of books that the service ingests.

use std::collections::VecDeque;

use vstd::prelude::*;
use vstd::std_specs::convert::FromSpec;
use vstd::string::*;
use vstd::utf8::encode_utf8;

use crate::config::UpstreamConfig;
use crate::feed::config::SubscriberConfig;
use crate::feed::error::FeedSimError;
use crate::feed::generator::GenState;
use crate::feed::subscriber::{FeedState, FeedSubscriber};
use crate::text::{enclosed, quoted, quoted_form};
use crate::types::{padded, BookLevel, BookMessage, ExchangeHeader, Figi, MAX_BOOK_DEPTH};

verus! {

/// A source of books.
///
/// `receive` hands over what is buffered and says nothing of the end; `wait` alone
/// tells that nothing is left and nothing more will come. What is said of a source
/// without further ado describes one that never has a book.
pub trait Upstream {
    /// What always holds of the source.
    open spec fn valid(&self) -> bool {
        true
    }

    /// The books that are buffered, oldest first.
    open spec fn pending(&self) -> Seq<BookMessage> {
        Seq::empty()
    }

    /// Whether nothing more will be buffered.
    open spec fn finished(&self) -> bool {
        false
    }

    /// How many books were buffered so far.
    open spec fn generated(&self) -> u64 {
        0
    }

    /// Why the attempt to receive fails that follows on `n` more books, if it fails.
    open spec fn failure_after(&self, n: nat) -> Option<Seq<char>> {
        None
    }

    /// Takes the oldest buffered book. `Ok(None)` means that there is none right now.
    fn receive(&mut self) -> (result: Result<Option<BookMessage>, String>)
        requires
            old(self).valid(),
        ensures
            final(self).valid(),
            final(self).finished() == old(self).finished(),
            final(self).generated() == old(self).generated(),
            match result {
                Ok(Some(book)) => {
                    &&& old(self).failure_after(0) is None
                    &&& old(self).pending().len() > 0
                    &&& book == old(self).pending()[0]
                    &&& final(self).pending() == old(self).pending().drop_first()
                    &&& forall|n: nat| #[trigger] final(self).failure_after(n) == old(self).failure_after(n + 1)
                },
                Ok(None) => {
                    &&& old(self).failure_after(0) is None
                    &&& old(self).pending().len() == 0
                    &&& final(self).pending() == old(self).pending()
                },
                Err(reason) => {
                    &&& old(self).failure_after(0) == Some(reason@)
                    &&& final(self).pending() == old(self).pending()
                },
            },
    ;

    /// Whether there is reason to go on: `Err` means that all is over.
    fn wait(&self) -> (result: Result<(), ()>)
        requires
            self.valid(),
        ensures
            result is Err <==> self.finished() && self.pending().len() == 0,
    ;

    /// How many books were buffered so far.
    fn total_generated(&self) -> (total: u64)
        ensures
            total == self.generated(),
    ;
}

/// Whether a receiver has to wait for a source.
#[derive(Clone, Copy, Debug, PartialEq, Eq, Structural)]
pub enum Readiness {
    /// There is something to receive.
    Ready,
    /// There is nothing now or later.
    Ended,
    /// There is nothing now.
    Block,
}

/// A source that is filled by hand.
pub struct MockUpstream {
    queue: VecDeque<BookMessage>,
    closed: bool,
    total: u64,
}

impl MockUpstream {
    /// A source without books that is not finished.
    pub fn new() -> (upstream: MockUpstream)
        ensures
            upstream.pending() == Seq::<BookMessage>::empty(),
            !upstream.finished(),
            upstream.generated() == 0,
    {
        MockUpstream { queue: VecDeque::new(), closed: false, total: 0 }
    }

    /// Adds a book behind those that are buffered.
    pub fn push(&mut self, book: BookMessage)
        ensures
            final(self).pending() == old(self).pending().push(book),
            final(self).finished() == old(self).finished(),
            final(self).generated() == old(self).generated().wrapping_add(1),
    {
        self.queue.push_back(book);
        self.total = self.total.wrapping_add(1);
    }

    /// Whether a receiver has to wait: not when there is a book, and not when there will
    /// not be any more.
    pub fn readiness(&self) -> (readiness: Readiness)
        ensures
            readiness == if self.pending().len() > 0 {
                Readiness::Ready
            } else if self.finished() {
                Readiness::Ended
            } else {
                Readiness::Block
            },
    {
        if self.queue.len() > 0 {
            Readiness::Ready
        } else if self.closed {
            Readiness::Ended
        } else {
            Readiness::Block
        }
    }

    /// Says that nothing more will come. What is buffered can still be received.
    pub fn close(&mut self)
        ensures
            final(self).pending() == old(self).pending(),
            final(self).finished(),
            final(self).generated() == old(self).generated(),
    {
        self.closed = true;
    }
}

impl Upstream for MockUpstream {
    open spec fn valid(&self) -> bool {
        true
    }

    closed spec fn pending(&self) -> Seq<BookMessage> {
        self.queue@
    }

    closed spec fn finished(&self) -> bool {
        self.closed
    }

    closed spec fn generated(&self) -> u64 {
        self.total
    }

    open spec fn failure_after(&self, n: nat) -> Option<Seq<char>> {
        None
    }

    fn receive(&mut self) -> Result<Option<BookMessage>, String> {
        let book = self.queue.pop_front();
        assert(book is Some ==> self.queue@ =~= old(self).queue@.drop_first());
        Ok(book)
    }

    fn wait(&self) -> Result<(), ()> {
        if self.queue.len() == 0 && self.closed {
            Err(())
        } else {
            Ok(())
        }
    }

    fn total_generated(&self) -> u64 {
        self.total
    }
}

/// An error as logs show it, with the reason, if there is one, in quotes.
pub open spec fn error_form(error: FeedSimError, quoted: Seq<char>) -> Seq<char> {
    match error {
        FeedSimError::Config(_) => "Config("@ + quoted + ")"@,
        FeedSimError::Spawn(_) => "Spawn("@ + quoted + ")"@,
        FeedSimError::Disconnected => "Disconnected"@,
    }
}

/// Renders an error for logs, with the reason, if there is one, in quotes.
pub fn error_text(error: &FeedSimError, quoted: &str) -> (text: String)
    ensures
        text@ == error_form(*error, quoted@),
{
    match error {
        FeedSimError::Config(_) => enclosed("Config(", quoted, ")"),
        FeedSimError::Spawn(_) => enclosed("Spawn(", quoted, ")"),
        FeedSimError::Disconnected => "Disconnected".to_owned(),
    }
}

/// The reason of an error in quotes; nothing when there is none.
pub open spec fn quoted_reason(error: FeedSimError) -> Seq<char> {
    match error {
        FeedSimError::Config(reason) => quoted_form(reason@),
        FeedSimError::Spawn(reason) => quoted_form(reason@),
        FeedSimError::Disconnected => Seq::empty(),
    }
}

fn quote_reason(error: &FeedSimError) -> (text: String)
    ensures
        text@ == quoted_reason(*error),
{
    match error {
        FeedSimError::Config(reason) => quoted(reason.as_str()),
        FeedSimError::Spawn(reason) => quoted(reason.as_str()),
        FeedSimError::Disconnected => String::new(),
    }
}

/// The simulated feed as a source.
pub struct FeedSimUpstream {
    inner: FeedSubscriber,
}

impl FeedSimUpstream {
    /// The feed.
    pub closed spec fn feed(&self) -> FeedState {
        self.inner@
    }

    /// A source for a configuration, if that is valid.
    pub fn new(config: UpstreamConfig) -> (result: Result<FeedSimUpstream, String>)
        ensures
            ({
                let sim = <SubscriberConfig as FromSpec<UpstreamConfig>>::from_spec(config);
                match result {
                    Ok(upstream) => {
                        &&& sim.fault() is None
                        &&& upstream.valid()
                        &&& upstream.feed() == FeedState::initial(sim)
                    },
                    Err(text) => {
                        &&& sim.fault() is Some
                        &&& text@ == "feed-sim subscriber init failed: "@ + ("Config("@ + quoted_form(
                            sim.fault()->Some_0,
                        ) + ")"@)
                    },
                }
            }),
    {
        match FeedSubscriber::new(SubscriberConfig::from(config)) {
            Ok(inner) => Ok(FeedSimUpstream { inner }),
            Err(error) => {
                let shown = error_text(&error, quote_reason(&error).as_str());
                Err("feed-sim subscriber init failed: ".to_owned().concat(shown.as_str()))
            },
        }
    }

    /// The feed, for its generator.
    pub fn feed_mut(&mut self) -> (feed: &mut FeedSubscriber)
        requires
            old(self).valid(),
        ensures
            feed.wf(),
            feed@ == old(self).feed(),
            final(feed).wf() ==> final(self).valid(),
            final(self).feed() == final(feed)@,
    {
        &mut self.inner
    }
}

impl Upstream for FeedSimUpstream {
    closed spec fn valid(&self) -> bool {
        self.inner.wf()
    }

    open spec fn pending(&self) -> Seq<BookMessage> {
        self.feed().buffer
    }

    open spec fn finished(&self) -> bool {
        !self.feed().running
    }

    open spec fn generated(&self) -> u64 {
        self.feed().sent as u64
    }

    open spec fn failure_after(&self, n: nat) -> Option<Seq<char>> {
        None
    }

    fn receive(&mut self) -> Result<Option<BookMessage>, String> {
        proof {
            self.inner.lemma_wf();
        }
        match self.inner.receive() {
            Ok(Some(sample)) => Ok(Some(sample.into_inner())),
            Ok(None) => Ok(None),
            Err(error) => {
                let shown = error_text(&error, quote_reason(&error).as_str());
                Err("feed-sim receive failed: ".to_owned().concat(shown.as_str()))
            },
        }
    }

    fn wait(&self) -> Result<(), ()> {
        proof {
            self.inner.lemma_wf();
        }
        self.inner.wait()
    }

    fn total_generated(&self) -> u64 {
        self.inner.total_generated()
    }
}

/// A book of which only the instrument and the sequence number are set.
pub fn make_book(figi: &str, gateway_seq: u64) -> (book: BookMessage)
    ensures
        book.figi.0@ == padded(encode_utf8(figi@)),
        book.gateway_seq == gateway_seq,
        book.gateway_ts == 0,
        book.packet_seq == 0,
        book.header == (ExchangeHeader { time_ns: 0, seq: 0 }),
        book.contract_id == 0,
        book.book_flags@ == 0,
        book.condition_flags@ == 0,
        book.bid_count == 0,
        book.ask_count == 0,
        book.bids@ == Seq::new(MAX_BOOK_DEPTH as nat, |i: int| BookLevel::unset()),
        book.asks@ == Seq::new(MAX_BOOK_DEPTH as nat, |i: int| BookLevel::unset()),
{
    let mut book = BookMessage::default();
    book.figi = Figi::from_text(figi);
    book.gateway_seq = gateway_seq;
    book
}

/// A source that is filled by hand hands over what was put in, unchanged and in order: a new
/// book comes behind those that wait, and is counted, modulo 2^64.
pub proof fn law_pushed_books_wait_in_order(upstream: &mut MockUpstream, book: BookMessage)
    requires
        call_ensures(MockUpstream::push, (upstream, book), ()),
    ensures
        final(upstream).pending() == old(upstream).pending() + seq![book],
        final(upstream).finished() == old(upstream).finished(),
        final(upstream).generated() == (old(upstream).generated() + 1) % 0x1_0000_0000_0000_0000,
{
    assert(final(upstream).pending() =~= old(upstream).pending() + seq![book]);
}

/// Closing a source says that it is finished, and takes nothing away. A receiver blocks
/// exactly when there is nothing, and something may still come.
pub proof fn law_closing_keeps_what_waits(upstream: &mut MockUpstream, readiness: Readiness)
    requires
        call_ensures(MockUpstream::readiness, (&*old(upstream),), readiness),
        call_ensures(MockUpstream::close, (upstream,), ()),
    ensures
        final(upstream).finished(),
        final(upstream).pending() == old(upstream).pending(),
        final(upstream).generated() == old(upstream).generated(),
        readiness == Readiness::Ready <==> old(upstream).pending().len() > 0,
        readiness == Readiness::Block <==> old(upstream).pending().len() == 0 && !old(upstream).finished(),
{
}

/// A book made by hand has the instrument and the number that it was given, and no levels.
pub proof fn law_made_book_has_its_number(figi: &str, gateway_seq: u64, book: BookMessage, k: int)
    requires
        call_ensures(make_book, (figi, gateway_seq), book),
        0 <= k < 12,
    ensures
        book.gateway_seq == gateway_seq,
        book.figi.0@[k] == if k < encode_utf8(figi@).len() {
            encode_utf8(figi@)[k]
        } else {
            0
        },
        book.gateway_ts == 0 && book.packet_seq == 0 && book.contract_id == 0,
        book.header.time_ns == 0 && book.header.seq == 0,
        book.book_flags@ == 0 && book.condition_flags@ == 0,
        book.bid_count == 0 && book.ask_count == 0,
        forall|i: int| 0 <= i < 10 ==> (#[trigger] book.bids@[i]).price_bits == 0 && book.bids@[i].qty_bits == 0
            && book.bids@[i].orders == 0,
        forall|i: int| 0 <= i < 10 ==> (#[trigger] book.asks@[i]).price_bits == 0 && book.asks@[i].qty_bits == 0
            && book.asks@[i].orders == 0,
{
}

/// The source of a feed is the feed of its configuration: the same instruments, rate, depth,
/// cap, seed, first number and buffer, and bursts where a size for them is given. A
/// configuration without a valid feed is refused.
pub proof fn law_source_is_the_configured_feed(config: UpstreamConfig, result: Result<FeedSimUpstream, String>)
    requires
        call_ensures(FeedSimUpstream::new, (config,), result),
    ensures
        result is Ok <==> {
            &&& config.instruments > 0
            &&& config.rate_hz > 0
            &&& 1 <= config.depth <= 10
            &&& config.buffer_size > 0
            &&& config.burst_size != Some(0u32)
        },
        result is Ok ==> {
            let feed = result->Ok_0.feed();
            &&& feed.generator.instruments == config.instruments
            &&& feed.generator.depth == config.depth
            &&& feed.generator.seq == config.start_seq
            &&& feed.capacity == config.buffer_size
            &&& feed.cap == config.max_messages
            &&& feed.buffer.len() == 0 && feed.sent == 0 && feed.running
        },
{
}

/// A source hands over its oldest book, every field of it, and keeps the others; it tells the
/// end exactly when it is finished and has nothing left.
pub proof fn law_sources_hand_over_the_oldest(
    mock: &mut MockUpstream,
    mock_result: Result<Option<BookMessage>, String>,
    mock_waited: Result<(), ()>,
    feed: &mut FeedSimUpstream,
    feed_result: Result<Option<BookMessage>, String>,
    feed_waited: Result<(), ()>,
)
    requires
        call_ensures(<MockUpstream as Upstream>::wait, (&*old(mock),), mock_waited),
        call_ensures(<MockUpstream as Upstream>::receive, (mock,), mock_result),
        old(feed).valid(),
        call_ensures(<FeedSimUpstream as Upstream>::wait, (&*old(feed),), feed_waited),
        call_ensures(<FeedSimUpstream as Upstream>::receive, (feed,), feed_result),
    ensures
        mock_waited is Err <==> old(mock).finished() && old(mock).pending().len() == 0,
        mock_result is Ok,
        old(mock).pending().len() == 0 <==> mock_result->Ok_0 is None,
        old(mock).pending().len() > 0 ==> old(mock).pending() == seq![mock_result->Ok_0->Some_0] + final(mock).pending(),
        feed_waited is Err <==> !old(feed).feed().running && old(feed).feed().buffer.len() == 0,
        feed_result is Ok,
        old(feed).feed().buffer.len() == 0 <==> feed_result->Ok_0 is None,
        old(feed).feed().buffer.len() > 0 ==> old(feed).feed().buffer == seq![feed_result->Ok_0->Some_0] + final(
            feed).feed().buffer,
{
    if old(mock).pending().len() > 0 {
        assert(old(mock).pending() =~= seq![old(mock).pending()[0]] + old(mock).pending().drop_first());
    }
    let buffer = old(feed).feed().buffer;
    if buffer.len() > 0 {
        assert(buffer =~= seq![buffer[0]] + buffer.drop_first());
    }
}

/// An error is shown under its kind, with the quoted reason in brackets where it has one.
pub proof fn law_errors_are_shown_by_kind(error: FeedSimError, quoted: &str, text: String)
    requires
        call_ensures(error_text, (&error, quoted), text),
    ensures
        error is Config ==> text@ == "Config("@ + quoted@ + ")"@,
        error is Spawn ==> text@ == "Spawn("@ + quoted@ + ")"@,
        error is Disconnected ==> text@ == "Disconnected"@,
{
}

/// What is done to the feed of a source is done to the source.
pub proof fn law_feed_is_the_sources_own(upstream: &mut FeedSimUpstream, feed: &mut FeedSubscriber)
    requires
        old(upstream).valid(),
        call_ensures(FeedSimUpstream::feed_mut, (upstream,), feed),
    ensures
        old(feed)@ == old(upstream).feed(),
        final(upstream).feed() == final(feed)@,
{
}

/// A source that is filled by hand has nothing at first, and is not finished. Taking a book
/// out changes neither what it counted nor whether it is finished.
pub proof fn law_new_source_is_empty(
    mock: MockUpstream,
    upstream: &mut MockUpstream,
    result: Result<Option<BookMessage>, String>,
    total: u64,
)
    requires
        call_ensures(MockUpstream::new, (), mock),
        call_ensures(<MockUpstream as Upstream>::receive, (upstream,), result),
        call_ensures(<MockUpstream as Upstream>::total_generated, (&*old(upstream),), total),
    ensures
        mock.pending().len() == 0 && !mock.finished() && mock.generated() == 0,
        final(upstream).finished() == old(upstream).finished(),
        final(upstream).generated() == old(upstream).generated(),
        total == old(upstream).generated(),
{
}

/// A source starts at the start of the stream of its feed; one that cannot be set up names the
/// reason for which the feed has no such configuration.
pub proof fn law_source_names_the_reason(
    config: UpstreamConfig,
    result: Result<FeedSimUpstream, String>,
    feed: SubscriberConfig,
    checked: Result<(), FeedSimError>,
)
    requires
        call_ensures(FeedSimUpstream::new, (config,), result),
        call_ensures(<SubscriberConfig as From<UpstreamConfig>>::from, (config,), feed),
        call_ensures(SubscriberConfig::validate, (&feed,), checked),
    ensures
        result is Ok <==> checked is Ok,
        result is Ok ==> result->Ok_0.feed().generator == GenState::initial(feed),
        result is Err ==> checked->Err_0 is Config && result->Err_0@ == "feed-sim subscriber init failed: "@ + (
        "Config("@ + quoted_form(checked->Err_0->Config_0@) + ")"@),
{
}

} // verus!
