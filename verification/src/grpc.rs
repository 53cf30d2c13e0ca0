//! The rules of the wire protocol: what requests are refused, what they are answered,
//! and how a subscription is pumped to its client.

use vstd::prelude::*;
use vstd::string::*;
use vstd::utf8::encode_utf8;

use crate::bus::{figi_bytes, Bus, Next, Subscription};
use crate::course::{
    books_of, law_subscriber_gets_books_published_since, law_totals_never_go_down, published, Handed,
};
use crate::fanout::SubState;
use crate::ingest::{law_table_never_lags, published_at, put_all, stored_at};
use crate::isolation::{Action, World};
use crate::snapshot::Snapshot;
use crate::text::{decimal, decimal_text};
use crate::types::{padded, BookLevel, BookMessage, Figi, FIGI_LEN};

verus! {

/// One price level on the wire.
#[derive(Clone, Copy, Debug, PartialEq, Eq, Structural)]
pub struct Level {
    /// Price as the bits of a 64-bit float.
    pub price_bits: u64,
    /// Quantity as the bits of a 32-bit float.
    pub qty_bits: u32,
    /// Number of orders.
    pub orders: u32,
}

/// A book on the wire.
#[derive(Debug, PartialEq, Eq)]
pub struct Book {
    /// FIGI as text.
    pub figi: String,
    /// Sequence number of the gateway.
    pub gateway_seq: u64,
    /// Time of the gateway (nanoseconds since the UNIX epoch).
    pub gateway_ts: i64,
    /// Bid levels, best first.
    pub bids: Vec<Level>,
    /// Ask levels, best first.
    pub asks: Vec<Level>,
}

/// One update of a subscription on the wire.
#[derive(Debug, PartialEq, Eq)]
pub struct BookUpdate {
    /// The book.
    pub book: Book,
    /// How many books the subscription has lost so far, for whatever reason.
    pub dropped_total: u64,
}

/// The answer to a request for a snapshot.
#[derive(Debug, PartialEq, Eq)]
pub enum SnapshotResponse {
    /// The latest book.
    Found(Book),
    /// There has not been any book yet.
    NotYet,
}

/// A request that is refused because of its argument.
#[derive(Debug, PartialEq, Eq)]
pub struct InvalidArgument {
    /// The reason in words.
    pub message: String,
}

/// The level on the wire.
pub open spec fn wire_level(level: BookLevel) -> Level {
    Level { price_bits: level.price_bits, qty_bits: level.qty_bits, orders: level.orders as u32 }
}

impl Book {
    /// Whether it is `msg` on the wire: of the levels, only the valid ones.
    pub open spec fn shows(self, msg: BookMessage) -> bool {
        &&& self.figi@ == msg.figi.text()
        &&& self.gateway_seq == msg.gateway_seq
        &&& self.gateway_ts == msg.gateway_ts
        &&& self.bids@ == msg.bid_levels().map_values(|level: BookLevel| wire_level(level))
        &&& self.asks@ == msg.ask_levels().map_values(|level: BookLevel| wire_level(level))
    }

    /// Whether it is one of `books` on the wire, and that one for one of the instruments
    /// `figis`.
    pub open spec fn shows_one_of(self, books: Seq<BookMessage>, figis: Seq<Seq<u8>>) -> bool {
        exists|msg: BookMessage| #[trigger] self.shows(msg) && books.contains(msg) && figis.contains(msg.figi.0@)
    }
}

/// Puts a level on the wire.
pub fn level_to_proto(level: &BookLevel) -> (wire: Level)
    ensures
        wire == wire_level(*level),
{
    Level { price_bits: level.price_bits, qty_bits: level.qty_bits, orders: level.orders as u32 }
}

fn levels_to_proto(levels: &[BookLevel]) -> (wire: Vec<Level>)
    ensures
        wire@ == levels@.map_values(|level: BookLevel| wire_level(level)),
{
    let mut wire: Vec<Level> = Vec::new();
    let mut i: usize = 0;
    while i < levels.len()
        invariant
            i <= levels@.len(),
            wire@ == levels@.take(i as int).map_values(|level: BookLevel| wire_level(level)),
        decreases levels@.len() - i,
    {
        wire.push(level_to_proto(&levels[i]));
        i = i + 1;
        assert(wire@ =~= levels@.take(i as int).map_values(|level: BookLevel| wire_level(level)));
    }
    assert(levels@.take(i as int) =~= levels@);
    wire
}

/// Puts a book on the wire.
pub fn book_to_proto(msg: &BookMessage) -> (book: Book)
    ensures
        book.shows(*msg),
{
    Book {
        figi: msg.figi.as_str().to_owned(),
        gateway_seq: msg.gateway_seq,
        gateway_ts: msg.gateway_ts,
        bids: levels_to_proto(msg.bids()),
        asks: levels_to_proto(msg.asks()),
    }
}

/// Whether a text has more bytes than a FIGI.
pub open spec fn too_long(figi: Seq<char>) -> bool {
    encode_utf8(figi).len() > FIGI_LEN
}

/// Why a request for one FIGI that is too long is refused.
pub open spec fn too_long_reason(figi: Seq<char>) -> Seq<char> {
    "figi too long ("@ + decimal(encode_utf8(figi).len()) + " bytes, max 12)"@
}

fn too_long_text(len: usize) -> (text: String)
    ensures
        text@ == "figi too long ("@ + decimal(len as nat) + " bytes, max 12)"@,
{
    "figi too long (".to_owned().concat(decimal_text(len as u64).as_str()).concat(" bytes, max 12)")
}

/// The latest book of an instrument. A FIGI that is too long is refused rather than
/// cut.
pub fn get_snapshot(snapshot: &Snapshot, figi: &str) -> (result: Result<SnapshotResponse, InvalidArgument>)
    ensures
        ({
            let key = padded(encode_utf8(figi@));
            match result {
                Err(error) => too_long(figi@) && error.message@ == too_long_reason(figi@),
                Ok(SnapshotResponse::Found(book)) => {
                    &&& !too_long(figi@)
                    &&& snapshot@.contains_key(key)
                    &&& book.shows(snapshot@[key])
                },
                Ok(SnapshotResponse::NotYet) => !too_long(figi@) && !snapshot@.contains_key(key),
            }
        }),
{
    let len: usize = figi.as_bytes().len();
    if len > FIGI_LEN {
        return Err(InvalidArgument { message: too_long_text(len) });
    }
    match snapshot.get(&Figi::from_text(figi)) {
        Some(book) => Ok(SnapshotResponse::Found(book_to_proto(&book))),
        None => Ok(SnapshotResponse::NotYet),
    }
}

/// Why a list of FIGIs is refused, if it is: because of the first one that is too long.
pub open spec fn list_fault(figis: Seq<String>) -> Option<Seq<char>>
    decreases figis.len(),
{
    if figis.len() == 0 {
        None
    } else if too_long(figis[0]@) {
        Some(too_long_reason(figis[0]@) + ": "@ + figis[0]@)
    } else {
        list_fault(figis.drop_first())
    }
}

/// Why a subscription to a list of FIGIs is refused, if it is.
pub open spec fn subscribe_fault(figis: Seq<String>) -> Option<Seq<char>> {
    if figis.len() == 0 {
        Some("subscribe with empty figi list"@)
    } else {
        list_fault(figis)
    }
}

/// The bytes of the FIGIs of a list.
pub open spec fn list_bytes(figis: Seq<String>) -> Seq<Seq<u8>> {
    figis.map_values(|figi: String| padded(encode_utf8(figi@)))
}

/// Reads the list of FIGIs of a subscription, all of it or nothing.
pub fn requested_figis(figis: &Vec<String>) -> (result: Result<Vec<Figi>, InvalidArgument>)
    ensures
        match result {
            Ok(parsed) => subscribe_fault(figis@) is None && figi_bytes(parsed@) == list_bytes(figis@),
            Err(error) => subscribe_fault(figis@) == Some(error.message@),
        },
{
    if figis.len() == 0 {
        return Err(InvalidArgument { message: "subscribe with empty figi list".to_owned() });
    }
    let mut parsed: Vec<Figi> = Vec::new();
    let mut i: usize = 0;
    assert(figis@.skip(0) =~= figis@);
    while i < figis.len()
        invariant
            i <= figis@.len(),
            list_fault(figis@) == list_fault(figis@.skip(i as int)),
            parsed@.len() == i,
            forall|j: int| 0 <= j < i ==> (#[trigger] parsed@[j]).0@ == padded(encode_utf8(figis@[j]@)),
        decreases figis@.len() - i,
    {
        let text = figis[i].as_str();
        let len: usize = text.as_bytes().len();
        if len > FIGI_LEN {
            return Err(InvalidArgument { message: too_long_text(len).concat(": ").concat(text) });
        }
        parsed.push(Figi::from_text(text));
        assert(figis@.skip(i as int).drop_first() =~= figis@.skip(i + 1));
        i = i + 1;
    }
    assert(figi_bytes(parsed@) =~= list_bytes(figis@));
    Ok(parsed)
}

/// Subscribes to a list of instruments. An empty list, or one with a FIGI that is too
/// long, is refused as a whole and changes nothing.
pub fn subscribe(
    bus: &mut Bus,
    figis: &Vec<String>,
    subscriber_queue_size: usize,
) -> (result: Result<Subscription, InvalidArgument>)
    requires
        old(bus).wf(),
        subscribe_fault(figis@) is None ==> old(bus).capacity() <= usize::MAX / 2 && 0 < subscriber_queue_size
            <= usize::MAX / 8,
    ensures
        final(bus).wf(),
        final(bus).capacity() == old(bus).capacity(),
        forall|sub: Subscription| sub.attached_to(old(bus)) ==> #[trigger] sub.attached_to(final(bus)),
        match result {
            Ok(sub) => {
                &&& subscribe_fault(figis@) is None
                &&& final(bus)@ == old(bus)@.open_topics(list_bytes(figis@))
                &&& sub.wf()
                &&& sub.attached_to(final(bus))
                &&& sub@ == SubState::fresh(final(bus)@, list_bytes(figis@), subscriber_queue_size as nat)
            },
            Err(error) => subscribe_fault(figis@) == Some(error.message@) && final(bus)@ == old(bus)@,
        },
{
    match requested_figis(figis) {
        Ok(parsed) => Ok(bus.subscribe(parsed.as_slice(), subscriber_queue_size)),
        Err(error) => Err(error),
    }
}

/// What the pump of a subscription does next.
#[derive(Debug, PartialEq, Eq)]
pub enum Pump {
    /// Offer the update to the client, without waiting for it.
    Send(BookUpdate),
    /// Wait for something to happen.
    Wait,
    /// End the stream.
    Finish,
}

/// Takes the next update of a subscription, with the losses up to now.
pub fn next_update(sub: &mut Subscription) -> (pump: Pump)
    requires
        old(sub).wf(),
    ensures
        final(sub).wf(),
        final(sub)@ == old(sub)@.take(),
        forall|bus: &Bus| old(sub).attached_to(bus) ==> #[trigger] final(sub).attached_to(bus),
        match old(sub)@.next() {
            Next::Update(msg) => {
                &&& pump is Send
                &&& pump->Send_0.book.shows(msg)
                &&& pump->Send_0.dropped_total == old(sub)@.dropped
            },
            Next::Pending => pump is Wait,
            Next::Ended => pump is Finish,
        },
{
    match sub.next() {
        Next::Update(msg) => Pump::Send(
            BookUpdate { book: book_to_proto(&msg), dropped_total: sub.dropped_total() },
        ),
        Next::Pending => Pump::Wait,
        Next::Ended => Pump::Finish,
    }
}

/// What became of an update that was offered to a client.
#[derive(Clone, Copy, Debug, PartialEq, Eq, Structural)]
pub enum WireOutcome {
    /// It is on its way.
    Sent,
    /// The client does not keep up.
    Full,
    /// The client is gone.
    Closed,
}

/// Accounts for what became of an update: one that the client could not take is
/// dropped, and counts together with what was dropped before. Tells whether to go on.
pub fn on_wire(sub: &mut Subscription, outcome: WireOutcome) -> (go_on: bool)
    requires
        old(sub).wf(),
    ensures
        final(sub).wf(),
        forall|bus: &Bus| old(sub).attached_to(bus) ==> #[trigger] final(sub).attached_to(bus),
        final(sub)@ == if outcome is Full {
            old(sub)@.lose(1)
        } else {
            old(sub)@
        },
        go_on <==> !(outcome is Closed),
{
    match outcome {
        WireOutcome::Sent => true,
        WireOutcome::Full => {
            let counter = sub.dropped_counter();
            *counter = counter.wrapping_add(1);
            true
        },
        WireOutcome::Closed => false,
    }
}

/// A list of FIGIs is refused exactly when one of them is too long.
pub proof fn law_lists_are_refused_as_a_whole(figis: Seq<String>)
    ensures
        list_fault(figis) is Some <==> exists|i: int| 0 <= i < figis.len() && too_long(#[trigger] figis[i]@),
    decreases figis.len(),
{
    if figis.len() > 0 {
        let rest = figis.drop_first();
        law_lists_are_refused_as_a_whole(rest);
        if exists|i: int| 0 <= i < figis.len() && too_long(#[trigger] figis[i]@) {
            let i = choose|i: int| 0 <= i < figis.len() && too_long(#[trigger] figis[i]@);
            if i > 0 {
                assert(rest[i - 1] == figis[i]);
            }
        }
        if list_fault(rest) is Some {
            let i = choose|i: int| 0 <= i < rest.len() && too_long(#[trigger] rest[i]@);
            assert(figis[i + 1] == rest[i]);
        }
    }
}

/// Who hears of a book finds it or a later one: at every moment of a stream, an answer for
/// the instrument of any book published so far shows a book of the same instrument from
/// this place in the stream on.
pub proof fn law_answer_never_lags(
    books: Seq<BookMessage>,
    moment: nat,
    k: int,
    table: Map<Seq<u8>, BookMessage>,
    answer: Book,
)
    requires
        moment <= 2 * books.len(),
        0 <= k < published_at(moment),
        answer.shows(put_all(table, books.take(stored_at(moment)))[books[k].figi.0@]),
    ensures
        put_all(table, books.take(stored_at(moment))).contains_key(books[k].figi.0@),
        exists|q: int|
            k <= q < stored_at(moment) && answer.shows(#[trigger] books[q]) && books[q].figi.0@ == books[k].figi.0@,
{
    law_table_never_lags(table, books, moment, k);
    let latest = put_all(table, books.take(stored_at(moment)))[books[k].figi.0@];
    let q = choose|q: int|
        k <= q < stored_at(moment) && books[q].figi.0@ == books[k].figi.0@ && latest == #[trigger] books[q];
    assert(answer.shows(books[q]));
}

/// Whether `updates` are, one for one, what was handed over, each with the total of its
/// moment.
pub open spec fn carry(updates: Seq<BookUpdate>, handed: Seq<Handed>) -> bool {
    &&& updates.len() == handed.len()
    &&& forall|n: int|
        0 <= n < updates.len() ==> (#[trigger] updates[n]).book.shows(handed[n].book) && updates[n].dropped_total
            == handed[n].dropped
}

/// The updates of a subscription show books of its instruments that were published since,
/// and their totals of dropped books never go down, as long as these fit in 64 bits.
pub proof fn law_updates_show_books_published_since(
    world: World,
    figis: Seq<Seq<u8>>,
    limit: nat,
    actions: Seq<Action>,
    updates: Seq<BookUpdate>,
)
    requires
        world.valid(),
        carry(
            updates,
            world.step(Action::Subscribe(figis, limit)).handed(actions, world.subs.len() as int),
        ),
    ensures
        forall|n: int|
            0 <= n < updates.len() ==> (#[trigger] updates[n]).book.shows_one_of(published(actions), figis),
        world.step(Action::Subscribe(figis, limit)).lost(actions, world.subs.len() as int) <= u64::MAX ==> forall|
            n: int,
            m: int,
        |
            0 <= n < m < updates.len() ==> (#[trigger] updates[n]).dropped_total <= (
            #[trigger] updates[m]).dropped_total,
{
    let start = world.step(Action::Subscribe(figis, limit));
    let j = world.subs.len() as int;
    let handed = start.handed(actions, j);
    law_subscriber_gets_books_published_since(world, figis, limit, actions);
    let got = books_of(handed) + start.run(actions).subs[j].queue;
    assert forall|n: int| 0 <= n < updates.len() implies (#[trigger] updates[n]).book.shows_one_of(
        published(actions),
        figis,
    ) by {
        assert(got[n] == handed[n].book);
        assert(updates[n].book.shows(got[n]));
    }
    if start.lost(actions, j) <= u64::MAX {
        law_totals_never_go_down(start, actions, j);
        assert forall|n: int, m: int| 0 <= n < m < updates.len() implies (#[trigger] updates[n]).dropped_total <= (
        #[trigger] updates[m]).dropped_total by {
            assert(handed[n].dropped <= handed[m].dropped);
        }
    }
}

/// Whether `wire` is, level by level and in order, the first `count` of `levels`, of which
/// there are at most ten: each with its price, its quantity and its number of orders.
pub open spec fn same_levels(wire: Seq<Level>, levels: Seq<BookLevel>, count: u8) -> bool {
    &&& wire.len() == if count <= 10 {
        count as int
    } else {
        10
    }
    &&& forall|k: int|
        0 <= k < wire.len() ==> {
            &&& (#[trigger] wire[k]).price_bits == levels[k].price_bits
            &&& wire[k].qty_bits == levels[k].qty_bits
            &&& wire[k].orders == levels[k].orders
        }
}

/// Whether `book` says all that the wire has room for of `msg`, and nothing else.
pub open spec fn same_book(book: Book, msg: BookMessage) -> bool {
    &&& book.figi@ == msg.figi.text()
    &&& book.gateway_seq == msg.gateway_seq
    &&& book.gateway_ts == msg.gateway_ts
    &&& same_levels(book.bids@, msg.bids@, msg.bid_count)
    &&& same_levels(book.asks@, msg.asks@, msg.ask_count)
}

/// A book on the wire has as many bids and asks as the message counts, up to ten, and level
/// for level the same price, quantity and number of orders, best first.
pub proof fn law_wire_book_has_every_level(msg: BookMessage, book: Book)
    requires
        call_ensures(book_to_proto, (&msg,), book),
    ensures
        same_book(book, msg),
        msg.bid_count <= 10 ==> book.bids@.len() == msg.bid_count,
        msg.ask_count <= 10 ==> book.asks@.len() == msg.ask_count,
{
    lemma_shows_same_book(book, msg);
}

proof fn lemma_shows_same_book(book: Book, msg: BookMessage)
    requires
        book.shows(msg),
    ensures
        same_book(book, msg),
{
    assert(msg.bid_levels().len() == book.bids@.len());
    assert(msg.ask_levels().len() == book.asks@.len());
    assert forall|k: int| 0 <= k < book.bids@.len() implies {
        &&& (#[trigger] book.bids@[k]).price_bits == msg.bids@[k].price_bits
        &&& book.bids@[k].qty_bits == msg.bids@[k].qty_bits
        &&& book.bids@[k].orders == msg.bids@[k].orders
    } by {
        assert(msg.bid_levels()[k] == msg.bids@[k]);
    }
    assert forall|k: int| 0 <= k < book.asks@.len() implies {
        &&& (#[trigger] book.asks@[k]).price_bits == msg.asks@[k].price_bits
        &&& book.asks@[k].qty_bits == msg.asks@[k].qty_bits
        &&& book.asks@[k].orders == msg.asks@[k].orders
    } by {
        assert(msg.ask_levels()[k] == msg.asks@[k]);
    }
}

/// A level keeps its price, its quantity and its number of orders on the wire.
pub proof fn law_wire_level_keeps_its_numbers(level: BookLevel, wire: Level)
    requires
        call_ensures(level_to_proto, (&level,), wire),
    ensures
        wire.price_bits == level.price_bits,
        wire.qty_bits == level.qty_bits,
        wire.orders == level.orders,
{
}

/// The key under which a request finds its instrument: the bytes of the text, and zeros
/// behind them.
pub open spec fn is_key(key: Seq<u8>, text: Seq<char>) -> bool {
    let bytes = encode_utf8(text);
    &&& key.len() == 12
    &&& forall|k: int|
        0 <= k < 12 ==> #[trigger] key[k] == if k < bytes.len() {
            bytes[k]
        } else {
            0
        }
}

/// A request for a snapshot is refused exactly when its text has more than twelve bytes. Else
/// it is answered with the book that the table has under this text, in full, or with the
/// word that there is none.
pub proof fn law_snapshot_is_answered_in_full(
    snapshot: Snapshot,
    figi: &str,
    result: Result<SnapshotResponse, InvalidArgument>,
    key: Seq<u8>,
)
    requires
        call_ensures(get_snapshot, (&snapshot, figi), result),
        is_key(key, figi@),
    ensures
        result is Err <==> encode_utf8(figi@).len() > 12,
        result is Err ==> result->Err_0.message@ == "figi too long ("@ + decimal(encode_utf8(figi@).len())
            + " bytes, max 12)"@,
        result is Ok ==> match result->Ok_0 {
            SnapshotResponse::Found(book) => snapshot@.contains_key(key) && same_book(book, snapshot@[key]),
            SnapshotResponse::NotYet => !snapshot@.contains_key(key),
        },
{
    assert(key =~= padded(encode_utf8(figi@)));
    if result is Ok {
        match result->Ok_0 {
            SnapshotResponse::Found(book) => lemma_shows_same_book(book, snapshot@[key]),
            SnapshotResponse::NotYet => {},
        }
    }
}

/// A stored book is found again: after it was stored, the request for its instrument is
/// answered with it, in full.
pub proof fn law_stored_book_is_answered(
    snapshot: &mut Snapshot,
    msg: BookMessage,
    figi: &str,
    result: Result<SnapshotResponse, InvalidArgument>,
)
    requires
        old(snapshot).wf(),
        call_ensures(Snapshot::put, (snapshot, msg), ()),
        call_ensures(get_snapshot, (&*final(snapshot), figi), result),
        encode_utf8(figi@).len() <= 12,
        is_key(msg.figi.0@, figi@),
    ensures
        result is Ok,
        result->Ok_0 is Found,
        same_book(result->Ok_0->Found_0, msg),
{
    law_snapshot_is_answered_in_full(*final(snapshot), figi, result, msg.figi.0@);
}

/// A list is accepted exactly when it has entries and none of them has more than twelve
/// bytes; and then each entry is taken, in its place: its bytes, and zeros behind them.
pub proof fn law_every_entry_is_requested(figis: Vec<String>, result: Result<Vec<Figi>, InvalidArgument>)
    requires
        call_ensures(requested_figis, (&figis,), result),
    ensures
        result is Ok <==> figis@.len() > 0 && forall|i: int|
            0 <= i < figis@.len() ==> encode_utf8(#[trigger] figis@[i]@).len() <= 12,
        result is Ok ==> {
            let parsed = result->Ok_0@;
            &&& parsed.len() == figis@.len()
            &&& forall|i: int| 0 <= i < figis@.len() ==> is_key((#[trigger] parsed[i]).0@, figis@[i]@)
        },
{
    law_lists_are_refused_as_a_whole(figis@);
    if result is Ok {
        let parsed = result->Ok_0@;
        let bytes = figi_bytes(parsed);
        assert(bytes.len() == list_bytes(figis@).len());
        assert forall|i: int| 0 <= i < figis@.len() implies is_key((#[trigger] parsed[i]).0@, figis@[i]@) by {
            assert(bytes[i] == parsed[i].0@);
            assert(list_bytes(figis@)[i] == padded(encode_utf8(figis@[i]@)));
        }
        assert forall|i: int| 0 <= i < figis@.len() implies encode_utf8(#[trigger] figis@[i]@).len() <= 12 by {
            assert(!too_long(figis@[i]@));
        }
    }
}

/// A refusal names what is wrong: that there is no entry, or the first entry that is too
/// long, with its length.
pub proof fn law_refusal_names_the_first_offender(
    figis: Vec<String>,
    result: Result<Vec<Figi>, InvalidArgument>,
    i: int,
)
    requires
        call_ensures(requested_figis, (&figis,), result),
        figis@.len() > 0 ==> {
            &&& 0 <= i < figis@.len()
            &&& encode_utf8(figis@[i]@).len() > 12
            &&& forall|k: int| 0 <= k < i ==> encode_utf8(#[trigger] figis@[k]@).len() <= 12
        },
    ensures
        result is Err,
        result->Err_0.message@ == if figis@.len() == 0 {
            "subscribe with empty figi list"@
        } else {
            "figi too long ("@ + decimal(encode_utf8(figis@[i]@).len()) + " bytes, max 12)"@ + ": "@ + figis@[i]@
        },
{
    if figis@.len() > 0 {
        lemma_first_offender(figis@, i);
    }
}

proof fn lemma_first_offender(figis: Seq<String>, i: int)
    requires
        0 <= i < figis.len(),
        encode_utf8(figis[i]@).len() > 12,
        forall|k: int| 0 <= k < i ==> encode_utf8(#[trigger] figis[k]@).len() <= 12,
    ensures
        list_fault(figis) == Some(
            "figi too long ("@ + decimal(encode_utf8(figis[i]@).len()) + " bytes, max 12)"@ + ": "@ + figis[i]@,
        ),
    decreases i,
{
    if i > 0 {
        assert(encode_utf8(figis[0]@).len() <= 12);
        let rest = figis.drop_first();
        assert forall|k: int| 0 <= k < i - 1 implies encode_utf8(#[trigger] rest[k]@).len() <= 12 by {
            assert(rest[k] == figis[k + 1]);
        }
        lemma_first_offender(rest, i - 1);
    }
}

/// An accepted subscription follows as many topics as the list has entries, topic `i` being
/// the instrument of entry `i`; it starts behind what was published before, with nothing
/// waiting and nothing lost. A refused one changes no topic.
pub proof fn law_accepted_list_is_followed(
    bus: &mut Bus,
    figis: Vec<String>,
    queue_size: usize,
    result: Result<Subscription, InvalidArgument>,
    i: int,
)
    requires
        old(bus).wf(),
        call_ensures(subscribe, (bus, &figis, queue_size), result),
    ensures
        result is Ok <==> figis@.len() > 0 && forall|k: int|
            0 <= k < figis@.len() ==> encode_utf8(#[trigger] figis@[k]@).len() <= 12,
        result is Err ==> final(bus)@ == old(bus)@,
        result is Ok ==> {
            let sub = result->Ok_0@;
            &&& sub.feeds.len() == figis@.len()
            &&& sub.queue.len() == 0
            &&& sub.limit == queue_size
            &&& sub.dropped == 0
        },
        result is Ok && 0 <= i < figis@.len() ==> {
            let feed = result->Ok_0@.feeds[i];
            &&& is_key(feed.figi, figis@[i]@)
            &&& final(bus)@.topics.contains_key(feed.figi)
            &&& feed.read == final(bus)@.topics[feed.figi].len()
            &&& feed.read == if old(bus)@.topics.contains_key(feed.figi) {
                old(bus)@.topics[feed.figi].len()
            } else {
                0
            }
        },
{
    law_lists_are_refused_as_a_whole(figis@);
    if result is Ok {
        assert forall|k: int| 0 <= k < figis@.len() implies encode_utf8(#[trigger] figis@[k]@).len() <= 12 by {
            assert(!too_long(figis@[k]@));
        }
        let bytes = list_bytes(figis@);
        if 0 <= i < figis@.len() {
            assert(bytes[i] == padded(encode_utf8(figis@[i]@)));
            assert(bytes.contains(bytes[i]));
        }
    }
}

/// An update carries the oldest waiting book in full, with the total of that moment; the
/// rest waits on. With nothing waiting, the pump waits, or is done when nothing is followed.
pub proof fn law_update_carries_the_oldest_book(sub: &mut Subscription, pump: Pump)
    requires
        old(sub).wf(),
        call_ensures(next_update, (sub,), pump),
    ensures
        old(sub)@.queue.len() > 0 ==> {
            &&& pump is Send
            &&& same_book(pump->Send_0.book, old(sub)@.queue[0])
            &&& pump->Send_0.dropped_total == old(sub)@.dropped
            &&& old(sub)@.queue == seq![old(sub)@.queue[0]] + final(sub)@.queue
        },
        old(sub)@.queue.len() == 0 ==> {
            &&& final(sub)@.queue.len() == 0
            &&& pump is Finish <==> old(sub)@.feeds.len() == 0
            &&& pump is Wait <==> old(sub)@.feeds.len() > 0
        },
        final(sub)@.feeds == old(sub)@.feeds,
        final(sub)@.dropped == old(sub)@.dropped,
        final(sub)@.limit == old(sub)@.limit,
{
    if old(sub)@.queue.len() > 0 {
        lemma_shows_same_book(pump->Send_0.book, old(sub)@.queue[0]);
        assert(old(sub)@.queue =~= seq![old(sub)@.queue[0]] + old(sub)@.queue.drop_first());
    }
}

/// An update that the client could not take adds one to the total, modulo 2^64, and nothing
/// else does; only a client that is gone ends the stream.
pub proof fn law_wire_loss_is_counted(sub: &mut Subscription, outcome: WireOutcome, go_on: bool)
    requires
        old(sub).wf(),
        call_ensures(on_wire, (sub, outcome), go_on),
    ensures
        final(sub)@.dropped == (old(sub)@.dropped + if outcome == WireOutcome::Full {
            1int
        } else {
            0
        }) % 0x1_0000_0000_0000_0000,
        final(sub)@.queue == old(sub)@.queue,
        final(sub)@.feeds == old(sub)@.feeds,
        final(sub)@.limit == old(sub)@.limit,
        go_on <==> outcome != WireOutcome::Closed,
{
}

} // verus!
