//! The generator of the simulated feed.
//!
//! Everything in a book follows from the configuration and the number of books before
//! it, except the time and the prices, which the caller supplies. Prices that depend on
//! the instrument and on the number of books before alone make the whole payload
//! reproducible.

use vstd::arithmetic::power::pow;
use vstd::prelude::*;
use vstd::string::*;
use vstd::utf8::{encode_utf8, is_ascii_chars, is_ascii_chars_encode_utf8};

use crate::feed::config::SubscriberConfig;
use crate::feed::rng::{Rng, RngState};
use crate::feed::single::{lemma_single_parts, single_bits, whole_to_single_bits};
use crate::text::{
    decimal, digit, law_padded_decimal_is_injective, lemma_decimal_digits, lemma_decimal_len, lemma_padded_reads, number,
    padded_decimal, padded_decimal_text, NumberError,
};
use crate::types::{
    law_equal_bits_are_equal_flags, law_figi_cuts_long_text, law_figi_keeps_short_text, padded, BookLevel, BookMessage, ConditionFlags, ExchangeHeader, Figi, MAX_BOOK_DEPTH,
};

verus! {

/// Prices of the levels of one book, best first, as bits of 64-bit floats.
#[derive(Clone, Copy, Debug, PartialEq, Eq)]
pub struct Ladder {
    /// Bid prices.
    pub bids: [u64; 10],
    /// Ask prices.
    pub asks: [u64; 10],
}

/// The state of the generator.
pub struct GenState {
    /// The number of instruments.
    pub instruments: nat,
    /// The number of levels on each side of a book.
    pub depth: nat,
    /// The random numbers to come.
    pub rng: RngState,
    /// The instrument of the next book.
    pub index: nat,
    /// The sequence number of the next book.
    pub seq: u64,
    /// The number of books so far, modulo 2^64.
    pub produced: u64,
    /// The number of the next packet of each instrument.
    pub packets: Seq<u32>,
    /// The number of the next exchange message of each instrument.
    pub exchange: Seq<u32>,
}

impl RngState {
    /// The state `n` numbers later.
    pub open spec fn steps(self, n: nat) -> RngState
        decreases n,
    {
        if n == 0 {
            self
        } else {
            self.steps((n - 1) as nat).step()
        }
    }
}

/// The text of the FIGI of instrument `i`: `BBG` and the number of the instrument, from
/// 1 on, in nine digits.
pub open spec fn figi_text(i: int) -> Seq<char> {
    "BBG"@ + padded_decimal((i + 1) as nat, 9)
}

/// The bytes of the FIGI of instrument `i`.
pub open spec fn instrument_figi(i: int) -> Seq<u8> {
    padded(encode_utf8(figi_text(i)))
}

/// A level made of a price and the next two random numbers: a quantity from 50 to 249
/// and a number of orders from 1 to 10.
pub open spec fn random_level(rng: RngState, price_bits: u64) -> BookLevel {
    BookLevel {
        price_bits,
        qty_bits: single_bits((50 + rng.in_range(200)) as nat) as u32,
        orders: (1 + rng.step().in_range(10)) as u16,
    }
}

/// The levels of one side, each with the four random numbers of its depth, of which
/// this side has the two after the first `offset`.
pub open spec fn random_levels(rng: RngState, depth: nat, offset: nat, prices: Seq<u64>) -> Seq<BookLevel> {
    Seq::new(
        MAX_BOOK_DEPTH as nat,
        |k: int|
            if k < depth {
                random_level(rng.steps((4 * k + offset) as nat), prices[k])
            } else {
                BookLevel::unset()
            },
    )
}

impl GenState {
    /// The state before the first book.
    pub open spec fn initial(config: SubscriberConfig) -> GenState {
        GenState {
            instruments: config.instruments as nat,
            depth: if config.depth < MAX_BOOK_DEPTH {
                config.depth as nat
            } else {
                MAX_BOOK_DEPTH as nat
            },
            rng: RngState::seeded(config.seed),
            index: 0,
            seq: config.start_seq,
            produced: 0,
            packets: Seq::new(config.instruments as nat, |i: int| 1u32),
            exchange: Seq::new(config.instruments as nat, |i: int| 1u32),
        }
    }

    /// The state after one book.
    pub open spec fn step(self) -> GenState {
        let i = self.index as int;
        GenState {
            rng: self.rng.steps(4 * self.depth),
            index: (self.index + 1) % self.instruments,
            seq: self.seq.wrapping_add(1),
            produced: self.produced.wrapping_add(1),
            packets: self.packets.update(i, self.packets[i].wrapping_add(1)),
            exchange: self.exchange.update(i, self.exchange[i].wrapping_add(1)),
            ..self
        }
    }

    /// The state after `n` books.
    pub open spec fn after(self, n: nat) -> GenState
        decreases n,
    {
        if n == 0 {
            self
        } else {
            self.after((n - 1) as nat).step()
        }
    }

    /// `book` is the next book, at the time `now_ns` and with the prices `ladder`.
    pub open spec fn emits(self, now_ns: i64, ladder: Ladder, book: BookMessage) -> bool {
        let i = self.index as int;
        &&& book.gateway_seq == self.seq
        &&& book.gateway_ts == now_ns
        &&& book.packet_seq == self.packets[i]
        &&& book.header == (ExchangeHeader { time_ns: now_ns, seq: self.exchange[i] })
        &&& book.contract_id == 1_000_000 + i
        &&& book.figi.0@ == instrument_figi(i)
        &&& book.book_flags@ == 0
        &&& book.condition_flags@ == 0x0f
        &&& book.bid_count == self.depth
        &&& book.ask_count == self.depth
        &&& book.bids@ == random_levels(self.rng, self.depth, 0, ladder.bids@)
        &&& book.asks@ == random_levels(self.rng, self.depth, 2, ladder.asks@)
    }
}

/// The deterministic generator of books.
pub struct Generator {
    depth: u8,
    rng: Rng,
    figis: Vec<Figi>,
    per_figi_packet_seq: Vec<u32>,
    per_figi_exchange_seq: Vec<u32>,
    next_index: usize,
    next_seq: u64,
    produced: u64,
}

/// A level made of a price and two random numbers.
fn draw_level(rng: &mut Rng, price_bits: u64) -> (level: BookLevel)
    ensures
        level == random_level(old(rng)@, price_bits),
        final(rng)@ == old(rng)@.step().step(),
{
    let qty: u32 = 50 + rng.next_in_range(200);
    let orders: u16 = 1 + rng.next_in_range(10) as u16;
    BookLevel { price_bits, qty_bits: whole_to_single_bits(qty), orders }
}

impl Generator {
    /// What the next books depend on.
    pub closed spec fn view(&self) -> GenState {
        GenState {
            instruments: self.figis@.len(),
            depth: self.depth as nat,
            rng: self.rng@,
            index: self.next_index as nat,
            seq: self.next_seq,
            produced: self.produced,
            packets: self.per_figi_packet_seq@,
            exchange: self.per_figi_exchange_seq@,
        }
    }

    /// Each instrument has its FIGI and its counters, and one of them is next.
    pub closed spec fn wf(&self) -> bool {
        &&& self.depth <= MAX_BOOK_DEPTH
        &&& self.figis@.len() <= u32::MAX
        &&& self.per_figi_packet_seq@.len() == self.figis@.len()
        &&& self.per_figi_exchange_seq@.len() == self.figis@.len()
        &&& self.figis@.len() > 0 ==> self.next_index < self.figis@.len()
        &&& forall|i: int| 0 <= i < self.figis@.len() ==> (#[trigger] self.figis@[i]).0@ == instrument_figi(i)
    }

    /// The generator for a configuration.
    pub fn new(config: &SubscriberConfig) -> (generator: Generator)
        ensures
            generator.wf(),
            generator@ == GenState::initial(*config),
    {
        let n: u32 = config.instruments;
        let mut figis: Vec<Figi> = Vec::new();
        let mut packets: Vec<u32> = Vec::new();
        let mut exchange: Vec<u32> = Vec::new();
        let mut i: u32 = 0;
        while i < n
            invariant
                i <= n,
                figis@.len() == i,
                forall|j: int| 0 <= j < i ==> (#[trigger] figis@[j]).0@ == instrument_figi(j),
                packets@ == Seq::new(i as nat, |j: int| 1u32),
                exchange@ == Seq::new(i as nat, |j: int| 1u32),
            decreases n - i,
        {
            let text = "BBG".to_owned().concat(padded_decimal_text(i as u64 + 1, 9).as_str());
            figis.push(Figi::from_text(text.as_str()));
            packets.push(1);
            exchange.push(1);
            i = i + 1;
            assert(packets@ =~= Seq::new(i as nat, |j: int| 1u32));
            assert(exchange@ =~= Seq::new(i as nat, |j: int| 1u32));
        }
        Generator {
            depth: if (config.depth as usize) < MAX_BOOK_DEPTH { config.depth } else { 10 },
            rng: Rng::new(config.seed),
            figis,
            per_figi_packet_seq: packets,
            per_figi_exchange_seq: exchange,
            next_index: 0,
            next_seq: config.start_seq,
            produced: 0,
        }
    }

    /// The instrument of the next book, to find the prices for it.
    pub fn next_instrument(&self) -> (index: usize)
        ensures
            index == self@.index,
    {
        self.next_index
    }

    /// How many books were made so far, modulo 2^64, to find the prices for the next one.
    pub fn produced(&self) -> (count: u64)
        ensures
            count == self@.produced,
    {
        self.produced
    }

    /// The next book, at the time `now_ns` (nanoseconds since the UNIX epoch) and with
    /// the prices `ladder`.
    pub fn next(&mut self, now_ns: i64, ladder: &Ladder) -> (book: BookMessage)
        requires
            old(self).wf(),
            old(self)@.instruments > 0,
            1_000_000 + old(self)@.index <= u32::MAX,
        ensures
            final(self).wf(),
            final(self)@ == old(self)@.step(),
            old(self)@.emits(now_ns, *ladder, book),
    {
        let i: usize = self.next_index;
        self.next_index = (self.next_index + 1) % self.figis.len();

        let depth: usize = self.depth as usize;
        let mut book = BookMessage::default();
        let ghost rng = self.rng@;
        let mut k: usize = 0;
        while k < depth
            invariant
                k <= depth <= MAX_BOOK_DEPTH,
                self.rng@ == rng.steps((4 * k) as nat),
                book.bids@ == random_levels(rng, k as nat, 0, ladder.bids@),
                book.asks@ == random_levels(rng, k as nat, 2, ladder.asks@),
                book.book_flags@ == 0,
                self.depth == old(self).depth,
                self.figis == old(self).figis,
                self.per_figi_packet_seq == old(self).per_figi_packet_seq,
                self.per_figi_exchange_seq == old(self).per_figi_exchange_seq,
                self.next_seq == old(self).next_seq,
                self.produced == old(self).produced,
                self.next_index == (i + 1) % old(self).figis@.len() as int,
            decreases depth - k,
        {
            proof {
                reveal_with_fuel(RngState::steps, 5);
            }
            book.bids[k] = draw_level(&mut self.rng, ladder.bids[k]);
            book.asks[k] = draw_level(&mut self.rng, ladder.asks[k]);
            k = k + 1;
            assert(book.bids@ =~= random_levels(rng, k as nat, 0, ladder.bids@));
            assert(book.asks@ =~= random_levels(rng, k as nat, 2, ladder.asks@));
        }

        book.gateway_seq = self.next_seq;
        self.next_seq = self.next_seq.wrapping_add(1);
        self.produced = self.produced.wrapping_add(1);

        let packet_seq: u32 = self.per_figi_packet_seq[i];
        self.per_figi_packet_seq[i] = packet_seq.wrapping_add(1);
        let exchange_seq: u32 = self.per_figi_exchange_seq[i];
        self.per_figi_exchange_seq[i] = exchange_seq.wrapping_add(1);

        book.gateway_ts = now_ns;
        book.packet_seq = packet_seq;
        book.header = ExchangeHeader { time_ns: now_ns, seq: exchange_seq };
        book.contract_id = 1_000_000 + i as u32;
        book.figi = self.figis[i];
        book.condition_flags = ConditionFlags::from_bits_truncate(
            ConditionFlags::ENTER | ConditionFlags::REVISE | ConditionFlags::CANCEL | ConditionFlags::TRADING,
        );
        assert((0x01u8 | 0x02u8 | 0x04u8 | 0x08u8) & 0x7f == 0x0f) by (bit_vector);
        book.bid_count = depth as u8;
        book.ask_count = depth as u8;
        book
    }
}

/// The next instrument is the one after; behind the last comes the first.
pub proof fn law_instruments_take_turns(state: GenState, n: nat)
    requires
        state.instruments > 0,
        state.index < state.instruments,
    ensures
        state.after(n).index == (state.index + n) % state.instruments,
        state.after(n).instruments == state.instruments,
        state.after(n).depth == state.depth,
    decreases n,
{
    if n > 0 {
        law_instruments_take_turns(state, (n - 1) as nat);
        let k = state.instruments as int;
        vstd::arithmetic::div_mod::lemma_add_mod_noop((state.index + n - 1) as int, 1, k);
        vstd::arithmetic::div_mod::lemma_add_mod_noop((state.index + n - 1) % k, 1, k);
        vstd::arithmetic::div_mod::lemma_mod_twice((state.index + n - 1) as int, k);
    } else {
        vstd::arithmetic::div_mod::lemma_small_mod(state.index, state.instruments);
    }
}

/// Sequence numbers go up by one with each book, and start over at zero behind the
/// greatest one; so does the number of books.
pub proof fn law_sequence_is_consecutive(state: GenState, n: nat)
    ensures
        state.after(n).seq == (state.seq + n) % 0x1_0000_0000_0000_0000,
        state.after(n).produced == (state.produced + n) % 0x1_0000_0000_0000_0000,
    decreases n,
{
    if n > 0 {
        law_sequence_is_consecutive(state, (n - 1) as nat);
    }
}

/// Packets are numbered per instrument: book number `n` of a stream, counted from zero,
/// is packet and exchange message number `n / instruments + 1` of its instrument, modulo
/// 2^32.
pub proof fn law_packets_are_numbered(config: SubscriberConfig, n: nat, i: int)
    requires
        config.instruments > 0,
        0 <= i < config.instruments,
    ensures
        ({
            let state = GenState::initial(config).after(n);
            let count = config.instruments as int;
            &&& state.packets.len() == count
            &&& state.packets == state.exchange
            &&& state.packets[i] == (1 + (n + count - 1 - i) / count) % 0x1_0000_0000
            &&& state.index == i ==> state.packets[i] == (1 + n / config.instruments as nat) % 0x1_0000_0000
        }),
    decreases n,
{
    let initial = GenState::initial(config);
    let count = config.instruments as int;
    law_instruments_take_turns(initial, n);
    if n > 0 {
        let m = (n - 1) as nat;
        law_packets_are_numbered(config, m, i);
        law_instruments_take_turns(initial, m);
        let before = initial.after(m);
        let turn = before.index as int;
        law_packets_are_numbered(config, m, turn);
        assert(turn == m as int % count);
        lemma_turn(m as int, count, i);
        assert(initial.after(n).packets =~= before.packets.update(turn, before.packets[turn].wrapping_add(1)));
    } else {
        assert((count - 1 - i) / count == 0) by (nonlinear_arith)
            requires
                0 <= i < count,
        ;
        assert(initial.after(n).packets == initial.packets);
    }
    if initial.after(n).index == i {
        lemma_turn(n as int, count, i);
    }
}

/// How many of the first `m` and `m + 1` numbers fall on `i`, counting modulo `count`.
proof fn lemma_turn(m: int, count: int, i: int)
    requires
        m >= 0,
        0 <= i < count,
    ensures
        i == m % count ==> (m + count - 1 - i) / count == m / count && (m + 1 + count - 1 - i) / count == m / count + 1,
        i != m % count ==> (m + 1 + count - 1 - i) / count == (m + count - 1 - i) / count,
{
    let q = m / count;
    let r = m % count;
    vstd::arithmetic::div_mod::lemma_fundamental_div_mod(m, count);
    vstd::arithmetic::div_mod::lemma_mod_bound(m, count);
    assert(m == count * q + r && m == q * count + r) by (nonlinear_arith)
        requires
            m == count * q + r,
    ;
    let low = r + count - 1 - i;
    // `low` is from 0 to 2 * count - 2.
    if i == r {
        vstd::arithmetic::div_mod::lemma_fundamental_div_mod_converse(m + count - 1 - i, count, q, count - 1);
        assert(m + count - i == count * (q + 1) + 0) by (nonlinear_arith)
            requires
                m == count * q + r,
                i == r,
        ;
        vstd::arithmetic::div_mod::lemma_fundamental_div_mod_converse(m + count - i, count, q + 1, 0);
    } else if i < r {
        assert(m + count - 1 - i == count * (q + 1) + (r - 1 - i)) by (nonlinear_arith)
            requires
                m == count * q + r,
        ;
        assert(m + count - i == count * (q + 1) + (r - i)) by (nonlinear_arith)
            requires
                m == count * q + r,
        ;
        vstd::arithmetic::div_mod::lemma_fundamental_div_mod_converse(m + count - 1 - i, count, q + 1, r - 1 - i);
        vstd::arithmetic::div_mod::lemma_fundamental_div_mod_converse(m + count - i, count, q + 1, r - i);
    } else {
        vstd::arithmetic::div_mod::lemma_fundamental_div_mod_converse(m + count - 1 - i, count, q, low);
        vstd::arithmetic::div_mod::lemma_fundamental_div_mod_converse(m + count - i, count, q, low + 1);
    }
}

/// Whether two configurations agree on what decides the stream.
pub open spec fn same_stream(config: SubscriberConfig, other: SubscriberConfig) -> bool {
    &&& config.seed == other.seed
    &&& config.start_seq == other.start_seq
    &&& config.instruments == other.instruments
    &&& config.depth == other.depth
}

/// The same seed gives the same stream: of two books at the same place in two streams
/// with the same seed, first sequence number, instruments and depth, everything is the same
/// except the times and the prices, which are those that were supplied.
pub proof fn law_same_seed_same_payloads(
    config: SubscriberConfig,
    other: SubscriberConfig,
    n: nat,
    first_ns: i64,
    first_ladder: Ladder,
    first: BookMessage,
    second_ns: i64,
    second_ladder: Ladder,
    second: BookMessage,
)
    requires
        same_stream(config, other),
        GenState::initial(config).after(n).emits(first_ns, first_ladder, first),
        GenState::initial(other).after(n).emits(second_ns, second_ladder, second),
    ensures
        first.gateway_seq == second.gateway_seq,
        first.packet_seq == second.packet_seq,
        first.header.seq == second.header.seq,
        first.contract_id == second.contract_id,
        first.figi.0@ == second.figi.0@,
        first.book_flags@ == second.book_flags@,
        first.condition_flags@ == second.condition_flags@,
        first.bid_count == second.bid_count,
        first.ask_count == second.ask_count,
        forall|k: int|
            0 <= k < MAX_BOOK_DEPTH ==> {
                &&& (#[trigger] first.bids@[k]).qty_bits == second.bids@[k].qty_bits
                &&& first.bids@[k].orders == second.bids@[k].orders
            },
        forall|k: int|
            0 <= k < MAX_BOOK_DEPTH ==> {
                &&& (#[trigger] first.asks@[k]).qty_bits == second.asks@[k].qty_bits
                &&& first.asks@[k].orders == second.asks@[k].orders
            },
{
    assert(GenState::initial(config) == GenState::initial(other));
    let state = GenState::initial(config).after(n);
    let (rng, depth) = (state.rng, state.depth);
    assert forall|k: int| 0 <= k < MAX_BOOK_DEPTH implies {
        &&& (#[trigger] first.bids@[k]).qty_bits == second.bids@[k].qty_bits
        &&& first.bids@[k].orders == second.bids@[k].orders
    } by {
        assert(first.bids@[k] == random_levels(rng, depth, 0, first_ladder.bids@)[k]);
        assert(second.bids@[k] == random_levels(rng, depth, 0, second_ladder.bids@)[k]);
    }
    assert forall|k: int| 0 <= k < MAX_BOOK_DEPTH implies {
        &&& (#[trigger] first.asks@[k]).qty_bits == second.asks@[k].qty_bits
        &&& first.asks@[k].orders == second.asks@[k].orders
    } by {
        assert(first.asks@[k] == random_levels(rng, depth, 2, first_ladder.asks@)[k]);
        assert(second.asks@[k] == random_levels(rng, depth, 2, second_ladder.asks@)[k]);
    }
}

/// The same seed gives the same payload: when prices depend on the instrument and on the
/// number of books before alone, two books at the same place in two streams with the same
/// seed, first sequence number, instruments and depth have everything in common except the
/// times.
pub proof fn law_same_seed_same_books(
    config: SubscriberConfig,
    other: SubscriberConfig,
    n: nat,
    prices: spec_fn(nat, u64) -> Ladder,
    first_ns: i64,
    first: BookMessage,
    second_ns: i64,
    second: BookMessage,
)
    requires
        same_stream(config, other),
        ({
            let state = GenState::initial(config).after(n);
            state.emits(first_ns, prices(state.index, state.produced), first)
        }),
        ({
            let state = GenState::initial(other).after(n);
            state.emits(second_ns, prices(state.index, state.produced), second)
        }),
    ensures
        first.gateway_seq == second.gateway_seq,
        first.packet_seq == second.packet_seq,
        first.header.seq == second.header.seq,
        first.contract_id == second.contract_id,
        first.figi.0@ == second.figi.0@,
        first.book_flags == second.book_flags,
        first.condition_flags == second.condition_flags,
        first.bid_count == second.bid_count,
        first.ask_count == second.ask_count,
        first.bids@ == second.bids@,
        first.asks@ == second.asks@,
{
    assert(GenState::initial(config) == GenState::initial(other));
    law_equal_bits_are_equal_flags(
        first.book_flags,
        second.book_flags,
        first.condition_flags,
        second.condition_flags,
    );
}

impl Ladder {
    /// Whether the first `depth` prices go from best to worst on both sides, with the bids
    /// below the asks. The bits of floats that are not negative are ordered as the floats
    /// are.
    pub open spec fn best_to_worst(self, depth: nat) -> bool {
        &&& forall|j: int, k: int| 0 <= j < k < depth ==> #[trigger] self.bids@[j] > #[trigger] self.bids@[k]
        &&& forall|j: int, k: int| 0 <= j < k < depth ==> #[trigger] self.asks@[j] < #[trigger] self.asks@[k]
        &&& depth > 0 ==> self.bids@[0] < self.asks@[0]
    }
}

/// Whether a level has a quantity from 50 to 249 and from 1 to 10 orders.
pub open spec fn plausible(level: BookLevel) -> bool {
    &&& exists|qty: nat| 50 <= qty <= 249 && level.qty_bits == #[trigger] single_bits(qty)
    &&& 1 <= level.orders <= 10
}

/// A book has as many levels on each side as it says, each of them plausible and the rest
/// unset, and carries one time. Its prices are those that were supplied, and so go from
/// best to worst when these do.
pub proof fn law_books_are_well_formed(state: GenState, now_ns: i64, ladder: Ladder, book: BookMessage)
    requires
        state.depth <= MAX_BOOK_DEPTH,
        state.emits(now_ns, ladder, book),
    ensures
        book.bid_count == state.depth && book.ask_count == state.depth,
        book.header.time_ns == book.gateway_ts,
        forall|k: int| 0 <= k < state.depth ==> plausible(#[trigger] book.bids@[k]),
        forall|k: int| 0 <= k < state.depth ==> plausible(#[trigger] book.asks@[k]),
        forall|k: int| 0 <= k < state.depth ==> (#[trigger] book.bids@[k]).price_bits == ladder.bids@[k],
        forall|k: int| 0 <= k < state.depth ==> (#[trigger] book.asks@[k]).price_bits == ladder.asks@[k],
        forall|k: int| state.depth <= k < MAX_BOOK_DEPTH ==> #[trigger] book.bids@[k] == BookLevel::unset(),
        forall|k: int| state.depth <= k < MAX_BOOK_DEPTH ==> #[trigger] book.asks@[k] == BookLevel::unset(),
        ladder.best_to_worst(state.depth) ==> {
            &&& forall|j: int, k: int|
                0 <= j < k < state.depth ==> (#[trigger] book.bids@[j]).price_bits > (
                #[trigger] book.bids@[k]).price_bits
            &&& forall|j: int, k: int|
                0 <= j < k < state.depth ==> (#[trigger] book.asks@[j]).price_bits < (
                #[trigger] book.asks@[k]).price_bits
            &&& state.depth > 0 ==> book.bids@[0].price_bits < book.asks@[0].price_bits
        },
{
    assert forall|k: int| 0 <= k < state.depth implies plausible(#[trigger] book.bids@[k]) by {
        lemma_plausible(state.rng.steps((4 * k) as nat), ladder.bids@[k]);
    }
    assert forall|k: int| 0 <= k < state.depth implies plausible(#[trigger] book.asks@[k]) by {
        lemma_plausible(state.rng.steps((4 * k + 2) as nat), ladder.asks@[k]);
    }
}

proof fn lemma_plausible(rng: RngState, price_bits: u64)
    ensures
        plausible(random_level(rng, price_bits)),
{
    let qty = (50 + rng.in_range(200)) as nat;
    lemma_single_parts(qty);
    assert(random_level(rng, price_bits).qty_bits == single_bits(qty));
}

/// The FIGI of one of the first 999,999,999 instruments is its text, unchanged: twelve
/// characters, one byte each.
pub proof fn law_figi_is_its_text(i: int, figi: Figi)
    requires
        0 <= i < 999_999_999,
        figi.0@ == instrument_figi(i),
    ensures
        figi.text() == figi_text(i),
        figi_text(i).len() == 12,
{
    let n = (i + 1) as nat;
    reveal_strlit("BBG");
    assert(pow(10, 9) == 1_000_000_000) by {
        reveal_with_fuel(pow, 10);
    }
    lemma_decimal_len(n, 9);
    lemma_decimal_digits(n);
    let text = figi_text(i);
    assert forall|k: int| 0 <= k < text.len() implies 0 < text[k] as nat && text[k] as nat <= 0x7f by {
        let fill = 9 - decimal(n).len();
        if k >= 3 + fill {
            assert(text[k] == decimal(n)[k - 3 - fill]);
        }
    }
    assert(is_ascii_chars(text));
    is_ascii_chars_encode_utf8(text);
    law_figi_keeps_short_text(text, figi);
}

/// Different instruments, among the first 999,999,999, have different FIGIs.
pub proof fn law_instruments_have_distinct_figis(i: int, j: int, figi: Figi, other: Figi)
    requires
        0 <= i < 999_999_999,
        0 <= j < 999_999_999,
        figi.0@ == instrument_figi(i),
        other.0@ == instrument_figi(j),
        i != j,
    ensures
        figi.0@ != other.0@,
{
    if figi.0@ == other.0@ {
        law_figi_is_its_text(i, figi);
        law_figi_is_its_text(j, other);
        assert(figi_text(i).skip(3) =~= padded_decimal((i + 1) as nat, 9)) by {
            reveal_strlit("BBG");
        }
        assert(figi_text(j).skip(3) =~= padded_decimal((j + 1) as nat, 9)) by {
            reveal_strlit("BBG");
        }
        law_padded_decimal_is_injective((i + 1) as nat, (j + 1) as nat, 9);
    }
}

proof fn lemma_steps_add_up(state: RngState, m: nat, n: nat)
    ensures
        state.steps(m).steps(n) == state.steps(m + n),
    decreases n,
{
    if n > 0 {
        lemma_steps_add_up(state, m, (n - 1) as nat);
    }
}

proof fn lemma_random_numbers_used(config: SubscriberConfig, n: nat)
    ensures
        ({
            let initial = GenState::initial(config);
            &&& initial.after(n).rng == initial.rng.steps(4 * initial.depth * n)
            &&& initial.after(n).depth == initial.depth
        }),
    decreases n,
{
    let initial = GenState::initial(config);
    let d = 4 * initial.depth;
    if n > 0 {
        lemma_random_numbers_used(config, (n - 1) as nat);
        lemma_steps_add_up(initial.rng, d * (n - 1) as nat, d);
        assert(d * (n - 1) as nat + d == d * n) by (nonlinear_arith)
            requires
                n > 0,
        ;
    } else {
        assert(d * 0 == 0) by (nonlinear_arith);
    }
}

/// A new generator is at the start of the stream of its configuration.
pub proof fn law_new_generator_is_at_the_start(
    config: SubscriberConfig,
    generator: Generator,
    index: usize,
    count: u64,
)
    requires
        call_ensures(Generator::new, (&config,), generator),
        call_ensures(Generator::next_instrument, (&generator,), index),
        call_ensures(Generator::produced, (&generator,), count),
    ensures
        generator.wf(),
        generator@ == GenState::initial(config).after(0),
        index == 0,
        count == 0,
{
}

/// Each book moves the generator on by one place in the stream.
pub proof fn law_generator_moves_on(
    config: SubscriberConfig,
    n: nat,
    generator: &mut Generator,
    now_ns: i64,
    ladder: Ladder,
    book: BookMessage,
    index: usize,
    count: u64,
)
    requires
        config.instruments > 0,
        old(generator).wf(),
        old(generator)@ == GenState::initial(config).after(n),
        call_ensures(Generator::next_instrument, (&*old(generator),), index),
        call_ensures(Generator::produced, (&*old(generator),), count),
        call_ensures(Generator::next, (generator, now_ns, &ladder), book),
    ensures
        final(generator).wf(),
        final(generator)@ == GenState::initial(config).after(n + 1),
        index == n % (config.instruments as nat),
        count == n % 0x1_0000_0000_0000_0000,
{
    law_instruments_take_turns(GenState::initial(config), n);
    law_sequence_is_consecutive(GenState::initial(config), n);
}

/// The books of a stream. Book number `n`, counted from zero, is for instrument
/// `n % instruments`, and everything in it follows from `n` and the configuration: its numbers
/// count on from the first one, its contract is that of the instrument, it has the
/// configured number of levels on each side, up to ten, and says that trading is normal. Time
/// and prices are those handed in.
pub proof fn law_nth_book_of_a_stream(
    config: SubscriberConfig,
    n: nat,
    generator: &mut Generator,
    now_ns: i64,
    ladder: Ladder,
    book: BookMessage,
)
    requires
        config.instruments > 0,
        old(generator).wf(),
        old(generator)@ == GenState::initial(config).after(n),
        call_ensures(Generator::next, (generator, now_ns, &ladder), book),
    ensures
        book.gateway_seq == (config.start_seq + n) % 0x1_0000_0000_0000_0000,
        book.gateway_ts == now_ns,
        book.header.time_ns == now_ns,
        book.packet_seq == (1 + n / (config.instruments as nat)) % 0x1_0000_0000,
        book.header.seq == (1 + n / (config.instruments as nat)) % 0x1_0000_0000,
        book.contract_id == 1_000_000 + n % (config.instruments as nat),
        book.book_flags@ == 0,
        book.condition_flags@ == 1 + 2 + 4 + 8,
        book.bid_count == if config.depth <= 10 {
            config.depth
        } else {
            10
        },
        book.ask_count == book.bid_count,
        forall|k: int| 0 <= k < book.bid_count ==> (#[trigger] book.bids@[k]).price_bits == ladder.bids@[k],
        forall|k: int| 0 <= k < book.ask_count ==> (#[trigger] book.asks@[k]).price_bits == ladder.asks@[k],
        forall|k: int|
            book.bid_count <= k < 10 ==> #[trigger] book.bids@[k] == (BookLevel {
                price_bits: 0,
                qty_bits: 0,
                orders: 0,
            }),
        forall|k: int|
            book.ask_count <= k < 10 ==> #[trigger] book.asks@[k] == (BookLevel {
                price_bits: 0,
                qty_bits: 0,
                orders: 0,
            }),
{
    let i = (n % (config.instruments as nat)) as int;
    law_instruments_take_turns(GenState::initial(config), n);
    law_sequence_is_consecutive(GenState::initial(config), n);
    law_packets_are_numbered(config, n, i);
    lemma_random_numbers_used(config, n);
}

/// The random numbers of a stream are used one after the other, four for each level: the
/// quantity and the orders of the bid, and then those of the ask. A quantity is 50 and a
/// number below 200 more, the orders are one and a number below 10 more.
pub proof fn law_levels_use_the_random_numbers_in_turn(
    config: SubscriberConfig,
    n: nat,
    generator: &mut Generator,
    now_ns: i64,
    ladder: Ladder,
    book: BookMessage,
    k: int,
)
    requires
        config.instruments > 0,
        old(generator).wf(),
        old(generator)@ == GenState::initial(config).after(n),
        call_ensures(Generator::next, (generator, now_ns, &ladder), book),
        0 <= k < book.bid_count,
    ensures
        ({
            let rng = RngState::seeded(config.seed);
            let used = 4 * (book.bid_count * n + k);
            &&& book.bids@[k].qty_bits == single_bits((50 + rng.steps(used as nat).in_range(200)) as nat)
            &&& book.bids@[k].orders == 1 + rng.steps((used + 1) as nat).in_range(10)
            &&& book.asks@[k].qty_bits == single_bits((50 + rng.steps((used + 2) as nat).in_range(200)) as nat)
            &&& book.asks@[k].orders == 1 + rng.steps((used + 3) as nat).in_range(10)
        }),
{
    let initial = GenState::initial(config);
    let rng = RngState::seeded(config.seed);
    let before = 4 * initial.depth * n;
    lemma_random_numbers_used(config, n);
    assert(before == 4 * (initial.depth * n)) by (nonlinear_arith)
        requires
            before == 4 * initial.depth * n,
    ;
    let at = 4 * k;
    lemma_steps_add_up(rng, before, at as nat);
    lemma_steps_add_up(rng, before, (at + 2) as nat);
    lemma_single_parts((50 + rng.steps((before + at) as nat).in_range(200)) as nat);
    lemma_single_parts((50 + rng.steps((before + at + 2) as nat).in_range(200)) as nat);
    assert(rng.steps((before + at + 1) as nat) == rng.steps((before + at) as nat).step());
    assert(rng.steps((before + at + 3) as nat) == rng.steps((before + at + 2) as nat).step());
}

/// One random number after the other: a step later is one step of the generator of random
/// numbers.
pub proof fn law_steps_are_single_steps(state: RngState, n: nat)
    ensures
        state.steps(0) == state,
        state.steps(n + 1) == state.steps(n).step(),
{
}

/// The FIGI of an instrument starts with `BBG`, and goes on with nine digits that read as the
/// number of the instrument, counted from one. So the books of a stream can be asked for by
/// that name. Of a number that has ten digits only the first nine fit.
pub proof fn law_figi_is_bbg_and_the_number(
    config: SubscriberConfig,
    n: nat,
    generator: &mut Generator,
    now_ns: i64,
    ladder: Ladder,
    book: BookMessage,
)
    requires
        config.instruments > 0,
        old(generator).wf(),
        old(generator)@ == GenState::initial(config).after(n),
        call_ensures(Generator::next, (generator, now_ns, &ladder), book),
    ensures
        ({
            let text = book.figi.text();
            &&& text.len() == 12
            &&& text[0] == 'B' && text[1] == 'B' && text[2] == 'G'
            &&& forall|k: int| 3 <= k < 12 ==> '0' <= #[trigger] text[k] <= '9'
            &&& number(text.skip(3), 999_999_999) == Ok::<nat, NumberError>(
                if n % (config.instruments as nat) < 999_999_999 {
                    n % (config.instruments as nat) + 1
                } else {
                    (n % (config.instruments as nat) + 1) / 10
                },
            )
            &&& forall|k: int| 0 <= k < 12 ==> #[trigger] book.figi.0@[k] == text[k] as u8
        }),
{
    law_instruments_take_turns(GenState::initial(config), n);
    let i = (n % (config.instruments as nat)) as int;
    if i < 999_999_999 {
        lemma_figi_characters(i, book.figi);
    } else {
        lemma_figi_of_ten_digits(i);
        lemma_figi_characters((i + 1) / 10 - 1, book.figi);
    }
}

/// Of a number with ten digits the last one is cut.
proof fn lemma_figi_of_ten_digits(i: int)
    requires
        999_999_999 <= i <= u32::MAX,
    ensures
        instrument_figi(i) == instrument_figi((i + 1) / 10 - 1),
{
    let n = (i + 1) as nat;
    let (long, short) = (figi_text(i), figi_text((i + 1) / 10 - 1));
    assert(decimal(n / 10).len() == 9) by {
        reveal_with_fuel(decimal, 10);
    }
    assert(decimal(n) == decimal(n / 10).push(digit((n % 10) as int)));
    assert(padded_decimal(n / 10, 9) == decimal(n / 10));
    reveal_strlit("BBG");
    assert(long =~= short.push(digit((n % 10) as int)));
    lemma_decimal_digits(n);
    lemma_decimal_digits(n / 10);
    assert(is_ascii_chars(long)) by {
        assert forall|k: int| 0 <= k < long.len() implies long[k] as nat <= 0x7f by {
            if k >= 3 {
                assert(long[k] == decimal(n)[k - 3]);
            }
        }
    }
    assert(is_ascii_chars(short)) by {
        assert forall|k: int| 0 <= k < short.len() implies short[k] as nat <= 0x7f by {
            if k >= 3 {
                assert(short[k] == decimal(n / 10)[k - 3]);
            }
        }
    }
    is_ascii_chars_encode_utf8(long);
    is_ascii_chars_encode_utf8(short);
    let (l, s) = (encode_utf8(long), encode_utf8(short));
    assert forall|k: int| 0 <= k < 12 implies l[k] == s[k] by {
        assert(long[k] == short[k]);
    }
    assert(s =~= l.subrange(0, 12));
    law_figi_cuts_long_text(long, short);
}

proof fn lemma_figi_characters(i: int, figi: Figi)
    requires
        0 <= i < 999_999_999,
        figi.0@ == instrument_figi(i),
    ensures
        ({
            let text = figi.text();
            &&& text.len() == 12
            &&& text[0] == 'B' && text[1] == 'B' && text[2] == 'G'
            &&& forall|k: int| 3 <= k < 12 ==> '0' <= #[trigger] text[k] <= '9'
            &&& number(text.skip(3), 999_999_999) == Ok::<nat, NumberError>((i + 1) as nat)
            &&& forall|k: int| 0 <= k < 12 ==> #[trigger] figi.0@[k] == text[k] as u8
        }),
{
    let n = (i + 1) as nat;
    let text = figi_text(i);
    law_figi_is_its_text(i, figi);
    reveal_strlit("BBG");
    lemma_decimal_digits(n);
    let digits = padded_decimal(n, 9);
    assert(text.skip(3) =~= digits);
    lemma_padded_reads(n, 9, 999_999_999);
    assert forall|k: int| 3 <= k < 12 implies '0' <= #[trigger] text[k] <= '9' by {
        let fill = 9 - decimal(n).len();
        if k - 3 >= fill {
            assert(text[k] == decimal(n)[k - 3 - fill]);
        }
    }
    assert(is_ascii_chars(text)) by {
        assert forall|k: int| 0 <= k < text.len() implies text[k] as nat <= 0x7f by {
            if k >= 3 {
                assert('0' <= text[k] <= '9');
            }
        }
    }
    is_ascii_chars_encode_utf8(text);
}

} // verus!
