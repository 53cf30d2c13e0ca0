//! Market data message types: instrument keys, flags and order book snapshots.

use vstd::prelude::*;
use vstd::string::*;
use vstd::utf8::{decode_utf8, decode_utf8_encode_utf8, encode_utf8, encode_utf8_decode_utf8, encode_utf8_valid_utf8, valid_utf8};

use crate::text::{enclosed, hex_byte, hex_byte_text, quoted, quoted_form, utf8_text};

verus! {

/// Length of a FIGI identifier in bytes.
pub const FIGI_LEN: usize = 12;

/// Largest number of book levels (bid or ask) carried in a [`BookMessage`].
pub const MAX_BOOK_DEPTH: usize = 10;

/// Fixed-size FIGI identifier (Financial Instrument Global Identifier), zero-padded.
///
/// It is the stable key under which all per-instrument state is kept.
#[derive(Clone, Copy, Debug, PartialEq, Eq, Hash)]
pub struct Figi(pub [u8; 12]);

/// The bytes before the first NUL.
pub open spec fn unpadded(bytes: Seq<u8>) -> Seq<u8>
    decreases bytes.len(),
{
    if bytes.len() == 0 || bytes[0] == 0 {
        Seq::empty()
    } else {
        seq![bytes[0]] + unpadded(bytes.drop_first())
    }
}

/// `bytes` cut or zero-padded to the length of a FIGI.
pub open spec fn padded(bytes: Seq<u8>) -> Seq<u8> {
    Seq::new(FIGI_LEN as nat, |i: int| if i < bytes.len() { bytes[i] } else { 0u8 })
}

proof fn lemma_unpadded(bytes: Seq<u8>, len: int)
    requires
        0 <= len <= bytes.len(),
        forall|i: int| 0 <= i < len ==> bytes[i] != 0,
        len < bytes.len() ==> bytes[len] == 0,
    ensures
        unpadded(bytes) == bytes.subrange(0, len),
    decreases len,
{
    if len > 0 {
        lemma_unpadded(bytes.drop_first(), len - 1);
        assert(bytes.subrange(0, len) =~= seq![bytes[0]] + bytes.drop_first().subrange(0, len - 1));
    } else {
        assert(bytes.subrange(0, len) =~= Seq::<u8>::empty());
    }
}

impl Figi {
    /// The text a FIGI stands for: the bytes before the first NUL, or nothing when
    /// they are not UTF-8.
    pub open spec fn text(self) -> Seq<char> {
        let bytes = unpadded(self.0@);
        if valid_utf8(bytes) {
            decode_utf8(bytes)
        } else {
            Seq::empty()
        }
    }

    /// The FIGI whose bytes are those of `s`, cut after [`FIGI_LEN`] bytes or padded
    /// with zeros.
    pub fn from_text(s: &str) -> (figi: Figi)
        ensures
            figi.0@ == padded(encode_utf8(s@)),
    {
        let bytes = s.as_bytes();
        let mut buf = [0u8; 12];
        let len: usize = if bytes.len() < FIGI_LEN { bytes.len() } else { FIGI_LEN };
        let mut i: usize = 0;
        while i < len
            invariant
                i <= len,
                len <= FIGI_LEN,
                len <= bytes@.len(),
                forall|j: int| 0 <= j < i ==> buf@[j] == bytes@[j],
                forall|j: int| i <= j < FIGI_LEN ==> buf@[j] == 0,
            decreases len - i,
        {
            buf[i] = bytes[i];
            i = i + 1;
        }
        assert(buf@ =~= padded(encode_utf8(s@)));
        Figi(buf)
    }

    /// The FIGI as text, without the padding.
    pub fn as_str(&self) -> (s: &str)
        ensures
            s@ == self.text(),
    {
        let mut len: usize = 0;
        while len < FIGI_LEN && self.0[len] != 0
            invariant
                len <= FIGI_LEN,
                forall|j: int| 0 <= j < len ==> self.0@[j] != 0,
            decreases FIGI_LEN - len,
        {
            len = len + 1;
        }
        proof {
            lemma_unpadded(self.0@, len as int);
        }
        let bytes = &self.0[0..len];
        match utf8_text(bytes) {
            Some(s) => {
                proof {
                    encode_utf8_decode_utf8(s@);
                }
                s
            },
            None => {
                proof {
                    reveal_strlit("");
                }
                ""
            },
        }
    }

    /// The FIGI for logs: its text, quoted.
    pub fn debug_text(&self) -> (text: String)
        ensures
            text@ == "Figi("@ + quoted_form(self.text()) + ")"@,
    {
        enclosed("Figi(", quoted(self.as_str()).as_str(), ")")
    }

    /// Whether the FIGI is unset, that is all zeros.
    pub fn is_empty(&self) -> (empty: bool)
        ensures
            empty <==> self.0@ == Seq::new(FIGI_LEN as nat, |i: int| 0u8),
    {
        let mut i: usize = 0;
        while i < FIGI_LEN
            invariant
                i <= FIGI_LEN,
                forall|j: int| 0 <= j < i ==> self.0@[j] == 0,
            decreases FIGI_LEN - i,
        {
            if self.0[i] != 0 {
                assert(self.0@ != Seq::new(FIGI_LEN as nat, |i: int| 0u8)) by {
                    assert(Seq::new(FIGI_LEN as nat, |i: int| 0u8)[i as int] == 0);
                }
                return false;
            }
            i = i + 1;
        }
        assert(self.0@ =~= Seq::new(FIGI_LEN as nat, |i: int| 0u8));
        true
    }
}

impl Default for Figi {
    fn default() -> (figi: Figi)
        ensures
            figi.0@ == Seq::new(FIGI_LEN as nat, |i: int| 0u8),
    {
        let figi = Figi([0u8; 12]);
        assert(figi.0@ =~= Seq::new(FIGI_LEN as nat, |i: int| 0u8));
        figi
    }
}

impl core::str::FromStr for Figi {
    type Err = core::convert::Infallible;

    fn from_str(s: &str) -> (result: Result<Figi, core::convert::Infallible>)
        ensures
            result is Ok,
            result->Ok_0.0@ == padded(encode_utf8(s@)),
    {
        Ok(Figi::from_text(s))
    }
}

/// A text of at most [`FIGI_LEN`] bytes without a NUL comes back from its FIGI.
pub proof fn law_figi_keeps_short_text(text: Seq<char>, figi: Figi)
    requires
        encode_utf8(text).len() <= FIGI_LEN,
        forall|i: int| 0 <= i < encode_utf8(text).len() ==> encode_utf8(text)[i] != 0,
        figi.0@ == padded(encode_utf8(text)),
    ensures
        figi.text() == text,
{
    let bytes = encode_utf8(text);
    lemma_unpadded(padded(bytes), bytes.len() as int);
    assert(padded(bytes).subrange(0, bytes.len() as int) =~= bytes);
    encode_utf8_valid_utf8(text);
    encode_utf8_decode_utf8(text);
}

/// Different texts of at most [`FIGI_LEN`] bytes without a NUL have different FIGIs.
pub proof fn law_short_texts_have_own_figis(a: Seq<char>, b: Seq<char>, figi: Figi)
    requires
        encode_utf8(a).len() <= FIGI_LEN,
        encode_utf8(b).len() <= FIGI_LEN,
        forall|i: int| 0 <= i < encode_utf8(a).len() ==> encode_utf8(a)[i] != 0,
        forall|i: int| 0 <= i < encode_utf8(b).len() ==> encode_utf8(b)[i] != 0,
        figi.0@ == padded(encode_utf8(a)),
        figi.0@ == padded(encode_utf8(b)),
    ensures
        a == b,
{
    law_figi_keeps_short_text(a, figi);
    law_figi_keeps_short_text(b, figi);
}

/// Only the first [`FIGI_LEN`] bytes count: texts that agree on these have the same
/// FIGI.
pub proof fn law_figi_cuts_long_text(long: Seq<char>, short: Seq<char>)
    requires
        encode_utf8(short).len() == FIGI_LEN,
        encode_utf8(short).is_prefix_of(encode_utf8(long)),
    ensures
        padded(encode_utf8(long)) == padded(encode_utf8(short)),
{
    let (l, s) = (encode_utf8(long), encode_utf8(short));
    assert forall|i: int| 0 <= i < FIGI_LEN implies l[i] == s[i] by {
        assert(l.subrange(0, s.len() as int)[i] == s[i]);
    }
    assert(padded(l) =~= padded(s));
}

/// Book status flags.
#[derive(Clone, Copy, Debug, PartialEq, Eq, Structural)]
pub struct BookFlags(u8);

impl BookFlags {
    /// Bit of a book that may be incorrect or incomplete.
    pub const SUSPECT: u8 = 0x01;

    /// The flag set as a number.
    pub closed spec fn view(self) -> u8 {
        self.0
    }

    /// No flag.
    pub fn empty() -> (flags: BookFlags)
        ensures
            flags@ == 0,
    {
        BookFlags(0)
    }

    /// All flags that are defined.
    pub fn all() -> (flags: BookFlags)
        ensures
            flags@ == BookFlags::SUSPECT,
    {
        BookFlags(BookFlags::SUSPECT)
    }

    /// The flags of `bits`, without the bits that stand for no flag.
    pub fn from_bits_truncate(bits: u8) -> (flags: BookFlags)
        ensures
            flags@ == bits & BookFlags::SUSPECT,
    {
        BookFlags(bits & BookFlags::all().0)
    }

    /// Whether `self` holds every flag of `other`.
    pub fn contains(self, other: BookFlags) -> (contained: bool)
        ensures
            contained <==> self@ & other@ == other@,
    {
        (self.0 & other.0) == other.0
    }

    /// The flag set as a number.
    pub fn bits(self) -> (bits: u8)
        ensures
            bits == self@,
    {
        self.0
    }

    /// The flags for logs, in hexadecimal.
    pub fn debug_text(&self) -> (text: String)
        ensures
            text@ == "BookFlags(0x"@ + hex_byte(self@) + ")"@,
    {
        enclosed("BookFlags(0x", hex_byte_text(self.0).as_str(), ")")
    }
}


/// Trading condition flags.
#[derive(Clone, Copy, Debug, PartialEq, Eq, Structural)]
pub struct ConditionFlags(u8);

impl ConditionFlags {
    /// Bit: orders can be entered.
    pub const ENTER: u8 = 0x01;

    /// Bit: orders can be revised.
    pub const REVISE: u8 = 0x02;

    /// Bit: orders can be cancelled.
    pub const CANCEL: u8 = 0x04;

    /// Bit: orders can be executed.
    pub const TRADING: u8 = 0x08;

    /// Bit: state not supported for this source.
    pub const UNKNOWN: u8 = 0x10;

    /// Bit: short-sale restrictions in effect.
    pub const SHORT_RESTRICTED: u8 = 0x20;

    /// Bit: single-price (for example auction) trading mode.
    pub const SINGLE_PRICE: u8 = 0x40;

    /// The flag set as a number.
    pub closed spec fn view(self) -> u8 {
        self.0
    }

    /// No flag.
    pub fn empty() -> (flags: ConditionFlags)
        ensures
            flags@ == 0,
    {
        ConditionFlags(0)
    }

    /// All flags that are defined.
    pub fn all() -> (flags: ConditionFlags)
        ensures
            flags@ == 0x7f,
    {
        let bits: u8 = ConditionFlags::ENTER | ConditionFlags::REVISE | ConditionFlags::CANCEL
            | ConditionFlags::TRADING | ConditionFlags::UNKNOWN | ConditionFlags::SHORT_RESTRICTED
            | ConditionFlags::SINGLE_PRICE;
        assert(0x01u8 | 0x02u8 | 0x04u8 | 0x08u8 | 0x10u8 | 0x20u8 | 0x40u8 == 0x7f) by (bit_vector);
        ConditionFlags(bits)
    }

    /// The flags of `bits`, without the bits that stand for no flag.
    pub fn from_bits_truncate(bits: u8) -> (flags: ConditionFlags)
        ensures
            flags@ == bits & 0x7f,
    {
        ConditionFlags(bits & ConditionFlags::all().0)
    }

    /// Whether `self` holds every flag of `other`.
    pub fn contains(self, other: ConditionFlags) -> (contained: bool)
        ensures
            contained <==> self@ & other@ == other@,
    {
        (self.0 & other.0) == other.0
    }

    /// The flag set as a number.
    pub fn bits(self) -> (bits: u8)
        ensures
            bits == self@,
    {
        self.0
    }

    /// The flags for logs, in hexadecimal.
    pub fn debug_text(&self) -> (text: String)
        ensures
            text@ == "ConditionFlags(0x"@ + hex_byte(self@) + ")"@,
    {
        enclosed("ConditionFlags(0x", hex_byte_text(self.0).as_str(), ")")
    }
}

/// Cutting off unknown bits twice is cutting them off once, and what is left is
/// contained in the set of all flags.
pub proof fn law_flags_are_cut_once(bits: u8)
    ensures
        (bits & BookFlags::SUSPECT) & BookFlags::SUSPECT == bits & BookFlags::SUSPECT,
        (bits & 0x7f) & 0x7f == bits & 0x7f,
        BookFlags::SUSPECT & (bits & BookFlags::SUSPECT) == bits & BookFlags::SUSPECT,
        0x7f & (bits & 0x7f) == bits & 0x7f,
{
    assert((bits & 0x01) & 0x01 == bits & 0x01) by (bit_vector);
    assert((bits & 0x7f) & 0x7f == bits & 0x7f) by (bit_vector);
    assert(0x01 & (bits & 0x01) == bits & 0x01) by (bit_vector);
    assert(0x7f & (bits & 0x7f) == bits & 0x7f) by (bit_vector);
}

/// Flags are their bits: sets with the same bits are the same.
pub proof fn law_equal_bits_are_equal_flags(
    book: BookFlags,
    other_book: BookFlags,
    condition: ConditionFlags,
    other_condition: ConditionFlags,
)
    ensures
        book@ == other_book@ ==> book == other_book,
        condition@ == other_condition@ ==> condition == other_condition,
{
}

/// Exchange-provided header.
#[derive(Clone, Copy, Debug, PartialEq, Eq, Structural)]
pub struct ExchangeHeader {
    /// Exchange timestamp (nanoseconds since the UNIX epoch). `0` if unknown.
    pub time_ns: i64,
    /// Exchange sequence number. `0` if unknown.
    pub seq: u32,
}

impl Default for ExchangeHeader {
    fn default() -> (header: ExchangeHeader)
        ensures
            header == (ExchangeHeader { time_ns: 0, seq: 0 }),
    {
        ExchangeHeader { time_ns: 0, seq: 0 }
    }
}

/// One price level in the order book. Price and quantity are carried as the bit
/// patterns of the IEEE 754 numbers that the gateway publishes.
#[derive(Clone, Copy, Debug, PartialEq, Eq, Structural)]
pub struct BookLevel {
    /// Price as the bits of a 64-bit float. `+/-inf` is permitted (market orders
    /// during auctions).
    pub price_bits: u64,
    /// Aggregate quantity at this level as the bits of a 32-bit float. `0` if unknown.
    pub qty_bits: u32,
    /// Number of orders aggregated at this level. `0` if unknown, clipped to `u16::MAX`.
    pub orders: u16,
}

impl BookLevel {
    /// The level of which nothing is known.
    pub open spec fn unset() -> BookLevel {
        BookLevel { price_bits: 0, qty_bits: 0, orders: 0 }
    }
}

impl Default for BookLevel {
    fn default() -> (level: BookLevel)
        ensures
            level == BookLevel::unset(),
    {
        BookLevel { price_bits: 0, qty_bits: 0, orders: 0 }
    }
}

/// Top-of-book snapshot (up to [`MAX_BOOK_DEPTH`] levels per side).
///
/// Each message is a complete snapshot of the top `bid_count` and `ask_count` levels
/// as the gateway saw them at `gateway_ts`.
#[derive(Clone, Copy, Debug, PartialEq, Eq)]
pub struct BookMessage {
    /// Gateway-assigned strictly monotonic sequence number across the whole stream.
    pub gateway_seq: u64,
    /// Nanoseconds since the UNIX epoch when the gateway received the upstream
    /// packet. `0` if unset.
    pub gateway_ts: i64,
    /// Per-instrument packet sequence number from the gateway.
    pub packet_seq: u32,
    /// Exchange header (timestamp and exchange sequence).
    pub header: ExchangeHeader,
    /// Numeric contract identifier (exchange-assigned).
    pub contract_id: u32,
    /// FIGI identifier, the primary instrument key.
    pub figi: Figi,
    /// Book status flags.
    pub book_flags: BookFlags,
    /// Trading condition flags.
    pub condition_flags: ConditionFlags,
    /// Number of valid bid levels (at most [`MAX_BOOK_DEPTH`]).
    pub bid_count: u8,
    /// Number of valid ask levels (at most [`MAX_BOOK_DEPTH`]).
    pub ask_count: u8,
    /// Bid levels, best to worst. Only the first `bid_count` are valid.
    pub bids: [BookLevel; 10],
    /// Ask levels, best to worst. Only the first `ask_count` are valid.
    pub asks: [BookLevel; 10],
}

/// The first `count` of `levels`, or all of them where there are fewer.
pub open spec fn valid_levels(levels: Seq<BookLevel>, count: u8) -> Seq<BookLevel> {
    levels.subrange(0, if count as int <= levels.len() { count as int } else { levels.len() as int })
}

impl Default for BookMessage {
    fn default() -> (book: BookMessage)
        ensures
            book.gateway_seq == 0,
            book.gateway_ts == 0,
            book.packet_seq == 0,
            book.header == (ExchangeHeader { time_ns: 0, seq: 0 }),
            book.contract_id == 0,
            book.figi.0@ == Seq::new(FIGI_LEN as nat, |i: int| 0u8),
            book.book_flags@ == 0,
            book.condition_flags@ == 0,
            book.bid_count == 0,
            book.ask_count == 0,
            book.bids@ == Seq::new(MAX_BOOK_DEPTH as nat, |i: int| BookLevel::unset()),
            book.asks@ == Seq::new(MAX_BOOK_DEPTH as nat, |i: int| BookLevel::unset()),
    {
        let book = BookMessage {
            gateway_seq: 0,
            gateway_ts: 0,
            packet_seq: 0,
            header: ExchangeHeader::default(),
            contract_id: 0,
            figi: Figi::default(),
            book_flags: BookFlags::empty(),
            condition_flags: ConditionFlags::empty(),
            bid_count: 0,
            ask_count: 0,
            bids: [BookLevel { price_bits: 0, qty_bits: 0, orders: 0 }; 10],
            asks: [BookLevel { price_bits: 0, qty_bits: 0, orders: 0 }; 10],
        };
        assert(book.bids@ =~= Seq::new(MAX_BOOK_DEPTH as nat, |i: int| BookLevel::unset()));
        assert(book.asks@ =~= Seq::new(MAX_BOOK_DEPTH as nat, |i: int| BookLevel::unset()));
        book
    }
}

impl BookMessage {
    /// The valid bid levels, best first.
    pub open spec fn bid_levels(self) -> Seq<BookLevel> {
        valid_levels(self.bids@, self.bid_count)
    }

    /// The valid ask levels, best first.
    pub open spec fn ask_levels(self) -> Seq<BookLevel> {
        valid_levels(self.asks@, self.ask_count)
    }

    /// The valid bid levels, best first.
    pub fn bids(&self) -> (levels: &[BookLevel])
        ensures
            levels@ == self.bid_levels(),
    {
        let count: usize = if (self.bid_count as usize) < MAX_BOOK_DEPTH {
            self.bid_count as usize
        } else {
            MAX_BOOK_DEPTH
        };
        &self.bids[0..count]
    }

    /// The valid ask levels, best first.
    pub fn asks(&self) -> (levels: &[BookLevel])
        ensures
            levels@ == self.ask_levels(),
    {
        let count: usize = if (self.ask_count as usize) < MAX_BOOK_DEPTH {
            self.ask_count as usize
        } else {
            MAX_BOOK_DEPTH
        };
        &self.asks[0..count]
    }

    /// The best bid, if there is any bid.
    pub fn best_bid(&self) -> (level: Option<&BookLevel>)
        ensures
            level is Some <==> self.bid_count > 0,
            level is Some ==> *level->Some_0 == self.bids@[0],
    {
        self.bids().first()
    }

    /// The best ask, if there is any ask.
    pub fn best_ask(&self) -> (level: Option<&BookLevel>)
        ensures
            level is Some <==> self.ask_count > 0,
            level is Some ==> *level->Some_0 == self.asks@[0],
    {
        self.asks().first()
    }
}

/// A FIGI made from a text has the bytes of the text, byte for byte, up to the twelfth, and
/// zeros behind them.
pub proof fn law_figi_has_the_bytes_of_its_text(s: &str, figi: Figi, k: int)
    requires
        call_ensures(Figi::from_text, (s,), figi),
        0 <= k < 12,
    ensures
        figi.0@[k] == if k < encode_utf8(s@).len() {
            encode_utf8(s@)[k]
        } else {
            0
        },
{
}

/// The text of a FIGI is made of the bytes before its first zero, of all of them; it is
/// empty when these are no text.
pub proof fn law_figi_text_ends_at_the_first_zero(figi: Figi, s: &str, n: int)
    requires
        call_ensures(Figi::as_str, (&figi,), s),
        0 <= n <= 12,
        forall|k: int| 0 <= k < n ==> figi.0@[k] != 0,
        n < 12 ==> figi.0@[n] == 0,
    ensures
        valid_utf8(figi.0@.subrange(0, n)) ==> encode_utf8(s@) == figi.0@.subrange(0, n),
        !valid_utf8(figi.0@.subrange(0, n)) ==> s@.len() == 0,
{
    lemma_unpadded(figi.0@, n);
    let bytes = figi.0@.subrange(0, n);
    if valid_utf8(bytes) {
        decode_utf8_encode_utf8(bytes);
    }
}

/// A short text without a NUL survives the way into a FIGI and out again.
pub proof fn law_short_text_comes_back(text: &str, figi: Figi, back: &str)
    requires
        call_ensures(Figi::from_text, (text,), figi),
        call_ensures(Figi::as_str, (&figi,), back),
        encode_utf8(text@).len() <= 12,
        forall|k: int| 0 <= k < encode_utf8(text@).len() ==> encode_utf8(text@)[k] != 0,
    ensures
        back@ == text@,
{
    law_figi_keeps_short_text(text@, figi);
}

/// A FIGI is unset exactly when each of its bytes is zero.
pub proof fn law_unset_figi_is_all_zeros(figi: Figi, empty: bool)
    requires
        call_ensures(Figi::is_empty, (&figi,), empty),
    ensures
        empty <==> forall|k: int| 0 <= k < 12 ==> figi.0@[k] == 0,
{
    let zeros = Seq::new(FIGI_LEN as nat, |i: int| 0u8);
    if forall|k: int| 0 <= k < 12 ==> figi.0@[k] == 0 {
        assert(figi.0@ =~= zeros);
    }
    if empty {
        assert forall|k: int| 0 <= k < 12 implies figi.0@[k] == 0 by {
            assert(zeros[k] == 0);
        }
    }
}

/// For logs, a FIGI is its text in quotes and flags are their bits, with what they are.
pub proof fn law_log_texts(
    figi: Figi,
    figi_log: String,
    book: BookFlags,
    book_log: String,
    condition: ConditionFlags,
    condition_log: String,
)
    requires
        call_ensures(Figi::debug_text, (&figi,), figi_log),
        call_ensures(BookFlags::debug_text, (&book,), book_log),
        call_ensures(ConditionFlags::debug_text, (&condition,), condition_log),
    ensures
        figi_log@ == "Figi("@ + quoted_form(figi.text()) + ")"@,
        book_log@ == "BookFlags(0x"@ + hex_byte(book@) + ")"@,
        condition_log@ == "ConditionFlags(0x"@ + hex_byte(condition@) + ")"@,
{
}

/// Flags made of bits have the known bits of these and no other: the lowest one of a book,
/// the lowest seven of a trading condition. What they say of their bits is what went in.
pub proof fn law_flags_keep_their_known_bits(
    bits: u8,
    book: BookFlags,
    book_bits: u8,
    condition: ConditionFlags,
    condition_bits: u8,
)
    requires
        call_ensures(BookFlags::from_bits_truncate, (bits,), book),
        call_ensures(BookFlags::bits, (book,), book_bits),
        call_ensures(ConditionFlags::from_bits_truncate, (bits,), condition),
        call_ensures(ConditionFlags::bits, (condition,), condition_bits),
    ensures
        book_bits == bits % 2,
        condition_bits == bits % 128,
{
    assert(bits & 0x01 == bits % 2) by (bit_vector);
    assert(bits & 0x7f == bits % 128) by (bit_vector);
}

/// A set of flags contains another exactly when joining the two adds no bit to it.
pub proof fn law_containing_adds_nothing(
    a: BookFlags,
    b: BookFlags,
    book_contains: bool,
    c: ConditionFlags,
    d: ConditionFlags,
    condition_contains: bool,
)
    requires
        call_ensures(BookFlags::contains, (a, b), book_contains),
        call_ensures(ConditionFlags::contains, (c, d), condition_contains),
    ensures
        book_contains <==> a@ | b@ == a@,
        condition_contains <==> c@ | d@ == c@,
{
    let (x, y, z, w) = (a@, b@, c@, d@);
    assert((x & y == y) <==> (x | y == x)) by (bit_vector);
    assert((z & w == w) <==> (z | w == z)) by (bit_vector);
}

/// The levels of a side are the first ones of it, as many as are counted, up to ten, each
/// unchanged and in its place.
pub proof fn law_levels_are_as_counted(msg: BookMessage, bids: &[BookLevel], asks: &[BookLevel])
    requires
        call_ensures(BookMessage::bids, (&msg,), bids),
        call_ensures(BookMessage::asks, (&msg,), asks),
    ensures
        bids@.len() == if msg.bid_count <= 10 {
            msg.bid_count as int
        } else {
            10
        },
        asks@.len() == if msg.ask_count <= 10 {
            msg.ask_count as int
        } else {
            10
        },
        forall|k: int| 0 <= k < bids@.len() ==> #[trigger] bids@[k] == msg.bids@[k],
        forall|k: int| 0 <= k < asks@.len() ==> #[trigger] asks@[k] == msg.asks@[k],
{
}

/// The best level of a side is its first one, if it has any.
pub proof fn law_best_is_first(msg: BookMessage, bid: Option<&BookLevel>, ask: Option<&BookLevel>)
    requires
        call_ensures(BookMessage::best_bid, (&msg,), bid),
        call_ensures(BookMessage::best_ask, (&msg,), ask),
    ensures
        bid is None <==> msg.bid_count == 0,
        ask is None <==> msg.ask_count == 0,
        bid is Some ==> *bid->Some_0 == msg.bids@[0],
        ask is Some ==> *ask->Some_0 == msg.asks@[0],
{
}

/// The empty set has no bit; the full one has every bit that is kept of a number.
pub proof fn law_empty_and_full_sets(
    none: BookFlags,
    every: BookFlags,
    no_condition: ConditionFlags,
    every_condition: ConditionFlags,
)
    requires
        call_ensures(BookFlags::empty, (), none),
        call_ensures(BookFlags::all, (), every),
        call_ensures(ConditionFlags::empty, (), no_condition),
        call_ensures(ConditionFlags::all, (), every_condition),
    ensures
        none@ == 0 && every@ == 1,
        no_condition@ == 0 && every_condition@ == 127,
{
}

/// In a book that is not filled in, everything is zero.
pub proof fn law_default_book_is_all_zeros(book: BookMessage, header: ExchangeHeader, level: BookLevel, k: int)
    requires
        call_ensures(<BookMessage as Default>::default, (), book),
        call_ensures(<ExchangeHeader as Default>::default, (), header),
        call_ensures(<BookLevel as Default>::default, (), level),
        0 <= k < 10,
    ensures
        book.gateway_seq == 0 && book.gateway_ts == 0 && book.packet_seq == 0,
        book.header.time_ns == 0 && book.header.seq == 0,
        book.contract_id == 0,
        forall|i: int| 0 <= i < 12 ==> #[trigger] book.figi.0@[i] == 0,
        book.book_flags@ == 0 && book.condition_flags@ == 0,
        book.bid_count == 0 && book.ask_count == 0,
        book.bids@[k].price_bits == 0 && book.bids@[k].qty_bits == 0 && book.bids@[k].orders == 0,
        book.asks@[k].price_bits == 0 && book.asks@[k].qty_bits == 0 && book.asks@[k].orders == 0,
        header.time_ns == 0 && header.seq == 0,
        level.price_bits == 0 && level.qty_bits == 0 && level.orders == 0,
{
}

} // verus!
