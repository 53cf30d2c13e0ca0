//! Text: numbers in decimal and hexadecimal, trimming, splitting, comparing.

use vstd::arithmetic::power::pow;
use vstd::prelude::*;
use vstd::string::*;
use vstd::utf8::{encode_utf8, valid_utf8};

verus! {

/// Calls `core::str::from_utf8`. The claim: the bytes are accepted exactly when they
/// are valid UTF-8, and then the text has just these bytes as its encoding.
#[verifier::external_body]
pub(crate) fn utf8_text(bytes: &[u8]) -> (text: Option<&str>)
    ensures
        text is Some <==> valid_utf8(bytes@),
        text is Some ==> encode_utf8(text->Some_0@) == bytes@,
{
    core::str::from_utf8(bytes).ok()
}

/// `text` in quotation marks, with the escapes of the `Debug` form of `str`.
pub uninterp spec fn quoted_form(text: Seq<char>) -> Seq<char>;

/// Formats by the `Debug` implementation of `str`, whose escapes follow the character
/// tables of the standard library. The claim: the result depends on the text alone.
#[verifier::external_body]
pub(crate) fn quoted(text: &str) -> (form: String)
    ensures
        form@ == quoted_form(text@),
{
    format!("{:?}", text)
}

/// `inner` between two texts.
pub fn enclosed(before: &str, inner: &str, after: &str) -> (text: String)
    ensures
        text@ == before@ + inner@ + after@,
{
    before.to_owned().concat(inner).concat(after)
}

/// The decimal digit for a number below ten.
pub open spec fn digit(d: int) -> char {
    seq!['0', '1', '2', '3', '4', '5', '6', '7', '8', '9'][d]
}

/// `n` in decimal, without leading zeros.
pub open spec fn decimal(n: nat) -> Seq<char>
    decreases n,
{
    if n < 10 {
        seq![digit(n as int)]
    } else {
        decimal(n / 10).push(digit((n % 10) as int))
    }
}

/// `n` in decimal with leading zeros, at least `width` digits.
pub open spec fn padded_decimal(n: nat, width: nat) -> Seq<char> {
    if decimal(n).len() < width {
        Seq::new((width - decimal(n).len()) as nat, |i: int| '0') + decimal(n)
    } else {
        decimal(n)
    }
}

fn digit_text(d: u64) -> (text: &'static str)
    requires
        d < 10,
    ensures
        text@ == seq![digit(d as int)],
{
    proof {
        reveal_strlit("0");
        reveal_strlit("1");
        reveal_strlit("2");
        reveal_strlit("3");
        reveal_strlit("4");
        reveal_strlit("5");
        reveal_strlit("6");
        reveal_strlit("7");
        reveal_strlit("8");
        reveal_strlit("9");
    }
    match d {
        0 => "0",
        1 => "1",
        2 => "2",
        3 => "3",
        4 => "4",
        5 => "5",
        6 => "6",
        7 => "7",
        8 => "8",
        _ => "9",
    }
}

/// Renders `n` in decimal.
pub fn decimal_text(n: u64) -> (text: String)
    ensures
        text@ == decimal(n as nat),
    decreases n,
{
    if n < 10 {
        digit_text(n).to_owned()
    } else {
        let mut text = decimal_text(n / 10);
        text.append(digit_text(n % 10));
        text
    }
}

/// Renders `n` in decimal with leading zeros, at least `width` digits.
pub fn padded_decimal_text(n: u64, width: usize) -> (text: String)
    ensures
        text@ == padded_decimal(n as nat, width as nat),
{
    let digits = decimal_text(n);
    let len: usize = digits.as_str().unicode_len();
    let mut text = String::new();
    let mut zeros: usize = 0;
    while len < width && zeros < width - len
        invariant
            len < width ==> zeros <= width - len,
            len >= width ==> zeros == 0,
            text@ == Seq::new(zeros as nat, |i: int| '0'),
        decreases width - zeros,
    {
        proof {
            reveal_strlit("0");
        }
        text.append("0");
        assert(text@ =~= Seq::new((zeros + 1) as nat, |i: int| '0'));
        zeros = zeros + 1;
    }
    text.append(digits.as_str());
    assert(text@ =~= padded_decimal(n as nat, width as nat));
    text
}

/// The hexadecimal digit for a number below sixteen.
pub open spec fn hex_digit(d: int) -> char {
    seq!['0', '1', '2', '3', '4', '5', '6', '7', '8', '9', 'a', 'b', 'c', 'd', 'e', 'f'][d]
}

fn hex_digit_text(d: u8) -> (text: &'static str)
    requires
        d < 16,
    ensures
        text@ == seq![hex_digit(d as int)],
{
    if d < 10 {
        return digit_text(d as u64);
    }
    proof {
        reveal_strlit("a");
        reveal_strlit("b");
        reveal_strlit("c");
        reveal_strlit("d");
        reveal_strlit("e");
        reveal_strlit("f");
    }
    match d {
        10 => "a",
        11 => "b",
        12 => "c",
        13 => "d",
        14 => "e",
        _ => "f",
    }
}

/// `n` as two hexadecimal digits.
pub open spec fn hex_byte(n: u8) -> Seq<char> {
    seq![hex_digit(n as int / 16), hex_digit(n as int % 16)]
}

/// Renders `n` as two hexadecimal digits.
pub fn hex_byte_text(n: u8) -> (text: String)
    ensures
        text@ == hex_byte(n),
{
    let mut text = hex_digit_text(n / 16).to_owned();
    text.append(hex_digit_text(n % 16));
    text
}

/// Why a text is not a number.
#[derive(Clone, Copy, Debug, PartialEq, Eq, Structural)]
pub enum NumberError {
    /// There is nothing.
    Empty,
    /// Something is not a digit.
    InvalidDigit,
    /// The number is too large.
    TooLarge,
}

impl NumberError {
    /// The error in words.
    pub open spec fn words(self) -> Seq<char> {
        match self {
            NumberError::Empty => "cannot parse integer from empty string"@,
            NumberError::InvalidDigit => "invalid digit found in string"@,
            NumberError::TooLarge => "number too large to fit in target type"@,
        }
    }

    /// The error in words.
    pub fn message(self) -> (text: &'static str)
        ensures
            text@ == self.words(),
    {
        match self {
            NumberError::Empty => "cannot parse integer from empty string",
            NumberError::InvalidDigit => "invalid digit found in string",
            NumberError::TooLarge => "number too large to fit in target type",
        }
    }
}

/// Whether `c` is a decimal digit.
pub open spec fn is_digit(c: char) -> bool {
    '0' <= c <= '9'
}

/// The number that decimal digits stand for, read from the left. The first character
/// that is no digit, or that makes the number exceed `max`, decides on the error.
pub open spec fn number(digits: Seq<char>, max: nat) -> Result<nat, NumberError>
    decreases digits.len(),
{
    if digits.len() == 0 {
        Ok(0)
    } else {
        match number(digits.drop_last(), max) {
            Err(error) => Err(error),
            Ok(high) => {
                let low = (digits.last() as nat - '0' as nat) as nat;
                if !is_digit(digits.last()) {
                    Err(NumberError::InvalidDigit)
                } else if high * 10 + low > max {
                    Err(NumberError::TooLarge)
                } else {
                    Ok(high * 10 + low)
                }
            },
        }
    }
}

/// The number that a text stands for: decimal digits, possibly behind a plus sign.
pub open spec fn unsigned(text: Seq<char>, max: nat) -> Result<nat, NumberError> {
    if text.len() == 0 {
        Err(NumberError::Empty)
    } else if text[0] == '+' {
        if text.len() == 1 {
            Err(NumberError::InvalidDigit)
        } else {
            number(text.drop_first(), max)
        }
    } else {
        number(text, max)
    }
}

/// An error on the way stays: more characters do not change it.
proof fn lemma_number_error_stays(digits: Seq<char>, len: int, max: nat)
    requires
        0 <= len <= digits.len(),
        number(digits.take(len), max) is Err,
    ensures
        number(digits, max) == number(digits.take(len), max),
    decreases digits.len(),
{
    if len == digits.len() {
        assert(digits.take(len) =~= digits);
    } else {
        assert(digits.drop_last().take(len) =~= digits.take(len));
        lemma_number_error_stays(digits.drop_last(), len, max);
    }
}

/// A number that is read is not above the greatest one allowed.
pub proof fn lemma_number_fits(digits: Seq<char>, max: nat)
    ensures
        number(digits, max) is Ok ==> number(digits, max)->Ok_0 <= max,
    decreases digits.len(),
{
    if digits.len() > 0 {
        lemma_number_fits(digits.drop_last(), max);
    }
}

/// The characters of `text`.
pub fn chars_of(text: &str) -> (chars: Vec<char>)
    ensures
        chars@ == text@,
{
    let mut chars: Vec<char> = Vec::new();
    for c in iter: text.chars()
        invariant
            iter.seq() == text@,
            chars@ == text@.take(iter.index()),
    {
        chars.push(c);
        assert(text@.take(iter.index() + 1) =~= text@.take(iter.index()).push(c));
    }
    assert(text@.take(text@.len() as int) =~= text@);
    chars
}

/// Reads a number that is at most `max`.
pub fn parse_unsigned(text: &str, max: u64) -> (result: Result<u64, NumberError>)
    ensures
        result == match unsigned(text@, max as nat) {
            Ok(value) => Ok::<u64, NumberError>(value as u64),
            Err(error) => Err(error),
        },
        result is Ok ==> result->Ok_0 == unsigned(text@, max as nat)->Ok_0 && result->Ok_0 <= max,
{
    let chars = chars_of(text);
    if chars.len() == 0 {
        return Err(NumberError::Empty);
    }
    let start: usize = if chars[0] == '+' { 1 } else { 0 };
    if start == chars.len() {
        return Err(NumberError::InvalidDigit);
    }
    let ghost digits = text@.skip(start as int);
    assert(start == 1 ==> digits =~= text@.drop_first());
    assert(start == 0 ==> digits =~= text@);
    let mut value: u64 = 0;
    let mut i: usize = start;
    assert(digits.take(0) =~= Seq::<char>::empty());
    while i < chars.len()
        invariant
            start <= i <= chars@.len(),
            chars@ == text@,
            digits == text@.skip(start as int),
            unsigned(text@, max as nat) == number(digits, max as nat),
            number(digits.take(i - start), max as nat) == Ok::<nat, NumberError>(value as nat),
            value <= max,
        decreases chars@.len() - i,
    {
        let c = chars[i];
        proof {
            assert(digits.take(i - start + 1).drop_last() =~= digits.take(i - start));
            assert(digits.take(i - start + 1).last() == c);
        }
        if c < '0' || c > '9' {
            proof {
                lemma_number_error_stays(digits, i - start + 1, max as nat);
            }
            return Err(NumberError::InvalidDigit);
        }
        let low: u64 = c as u64 - '0' as u64;
        if value > max / 10 || (value == max / 10 && low > max % 10) {
            proof {
                lemma_number_error_stays(digits, i - start + 1, max as nat);
            }
            return Err(NumberError::TooLarge);
        }
        value = value * 10 + low;
        i = i + 1;
    }
    assert(digits.take(i - start) =~= digits);
    Ok(value)
}

/// A number that fits comes back from its decimal form.
pub proof fn law_decimal_is_read_back(n: nat, max: nat)
    requires
        n <= max,
    ensures
        unsigned(decimal(n), max) == Ok::<nat, NumberError>(n),
{
    lemma_decimal_number(n, max);
    lemma_decimal_digits(n);
}

/// A decimal form is made of digits, and there is at least one.
pub proof fn lemma_decimal_digits(n: nat)
    ensures
        decimal(n).len() > 0,
        forall|i: int| 0 <= i < decimal(n).len() ==> is_digit(#[trigger] decimal(n)[i]),
    decreases n,
{
    if n >= 10 {
        lemma_decimal_digits(n / 10);
    }
}

proof fn lemma_digit(d: int)
    requires
        0 <= d < 10,
    ensures
        is_digit(digit(d)),
        digit(d) as nat - '0' as nat == d,
{
    if d < 5 {
        assert(d == 0 || d == 1 || d == 2 || d == 3 || d == 4);
    } else {
        assert(d == 5 || d == 6 || d == 7 || d == 8 || d == 9);
    }
}

proof fn lemma_decimal_number(n: nat, max: nat)
    requires
        n <= max,
    ensures
        number(decimal(n), max) == Ok::<nat, NumberError>(n),
    decreases n,
{
    if n < 10 {
        lemma_digit(n as int);
        assert(decimal(n).drop_last() =~= Seq::<char>::empty());
        assert(decimal(n).last() == digit(n as int));
        assert(number(decimal(n).drop_last(), max) == Ok::<nat, NumberError>(0));
    } else {
        lemma_digit((n % 10) as int);
        lemma_decimal_number(n / 10, max);
        assert(decimal(n).drop_last() =~= decimal(n / 10));
        assert(decimal(n).last() == digit((n % 10) as int));
    }
}

/// Different numbers have different decimal forms.
pub proof fn law_decimal_is_injective(m: nat, n: nat)
    requires
        decimal(m) == decimal(n),
    ensures
        m == n,
{
    let max = if m < n { n } else { m };
    law_decimal_is_read_back(m, max);
    law_decimal_is_read_back(n, max);
}

/// A number below a power of ten has no more digits than the power has zeros.
pub proof fn lemma_decimal_len(n: nat, width: nat)
    requires
        width > 0,
        n < pow(10, width),
    ensures
        decimal(n).len() <= width,
    decreases width,
{
    if n >= 10 {
        reveal(pow);
        assert(pow(10, width) == 10 * pow(10, (width - 1) as nat));
        if width == 1 {
            assert(pow(10, 0) == 1);
        } else {
            lemma_decimal_len(n / 10, (width - 1) as nat);
        }
    }
}

proof fn lemma_zeros_number(zeros: nat, n: nat, max: nat)
    requires
        n <= max,
    ensures
        number(Seq::new(zeros, |i: int| '0') + decimal(n), max) == Ok::<nat, NumberError>(n),
    decreases n, zeros,
{
    let lead = Seq::new(zeros, |i: int| '0');
    let text = lead + decimal(n);
    if n >= 10 {
        lemma_zeros_number(zeros, n / 10, max);
        lemma_digit((n % 10) as int);
        assert(text.drop_last() =~= lead + decimal(n / 10));
        assert(text.last() == digit((n % 10) as int));
    } else {
        lemma_digit(n as int);
        assert(text.drop_last() =~= lead);
        assert(text.last() == digit(n as int));
        lemma_only_zeros(zeros, max);
    }
}

proof fn lemma_only_zeros(zeros: nat, max: nat)
    ensures
        number(Seq::new(zeros, |i: int| '0'), max) == Ok::<nat, NumberError>(0),
    decreases zeros,
{
    if zeros > 0 {
        let less = (zeros - 1) as nat;
        lemma_only_zeros(less, max);
        assert(Seq::new(zeros, |i: int| '0').drop_last() =~= Seq::new(less, |i: int| '0'));
        assert(Seq::new(zeros, |i: int| '0').last() == '0');
    }
}

/// Different numbers have different forms with leading zeros.
pub proof fn law_padded_decimal_is_injective(m: nat, n: nat, width: nat)
    requires
        padded_decimal(m, width) == padded_decimal(n, width),
    ensures
        m == n,
{
    let max = if m < n { n } else { m };
    let fill = |k: nat| if decimal(k).len() < width { (width - decimal(k).len()) as nat } else { 0 };
    lemma_zeros_number(fill(m), m, max);
    lemma_zeros_number(fill(n), n, max);
    assert(Seq::new(fill(m), |i: int| '0') + decimal(m) =~= padded_decimal(m, width));
    assert(Seq::new(fill(n), |i: int| '0') + decimal(n) =~= padded_decimal(n, width));
}

/// Whether Unicode counts `c` as white space.
pub open spec fn is_white_space(c: char) -> bool {
    let code = c as u32;
    ||| 0x09 <= code <= 0x0d
    ||| code == 0x20
    ||| code == 0x85
    ||| code == 0xa0
    ||| code == 0x1680
    ||| 0x2000 <= code <= 0x200a
    ||| code == 0x2028
    ||| code == 0x2029
    ||| code == 0x202f
    ||| code == 0x205f
    ||| code == 0x3000
}

/// `text` without the white space at its start.
pub open spec fn trimmed_start(text: Seq<char>) -> Seq<char>
    decreases text.len(),
{
    if text.len() > 0 && is_white_space(text[0]) {
        trimmed_start(text.drop_first())
    } else {
        text
    }
}

/// `text` without the white space at its end.
pub open spec fn trimmed_end(text: Seq<char>) -> Seq<char>
    decreases text.len(),
{
    if text.len() > 0 && is_white_space(text.last()) {
        trimmed_end(text.drop_last())
    } else {
        text
    }
}

/// `text` without the white space around it.
pub open spec fn trimmed(text: Seq<char>) -> Seq<char> {
    trimmed_end(trimmed_start(text))
}

fn white_space(c: char) -> (white: bool)
    ensures
        white == is_white_space(c),
{
    let code: u32 = c as u32;
    (0x09 <= code && code <= 0x0d) || code == 0x20 || code == 0x85 || code == 0xa0 || code == 0x1680 || (0x2000 <= code
        && code <= 0x200a) || code == 0x2028 || code == 0x2029 || code == 0x202f || code == 0x205f || code == 0x3000
}

/// The part of `text` between the white space around it.
pub fn trim(text: &str) -> (part: &str)
    ensures
        part@ == trimmed(text@),
{
    let chars = chars_of(text);
    let mut start: usize = 0;
    assert(text@.skip(0) =~= text@);
    while start < chars.len() && white_space(chars[start])
        invariant
            chars@ == text@,
            start <= text@.len(),
            trimmed_start(text@) == trimmed_start(text@.skip(start as int)),
        decreases chars@.len() - start,
    {
        assert(text@.skip(start as int).drop_first() =~= text@.skip(start + 1));
        start = start + 1;
    }
    let mut end: usize = chars.len();
    let ghost rest = text@.skip(start as int);
    assert(text@.subrange(start as int, end as int) =~= rest);
    while start < end && white_space(chars[end - 1])
        invariant
            chars@ == text@,
            start <= end <= text@.len(),
            trimmed_end(rest) == trimmed_end(text@.subrange(start as int, end as int)),
        decreases end,
    {
        assert(text@.subrange(start as int, end as int).drop_last() =~= text@.subrange(start as int, end - 1));
        end = end - 1;
    }
    text.substring_char(start, end)
}

/// `c` in lower case, if it is an ASCII letter.
pub open spec fn ascii_lower(c: char) -> char {
    if 'A' <= c <= 'Z' {
        (c as u32 + 32) as char
    } else {
        c
    }
}

/// Whether two texts are the same but for the case of ASCII letters.
pub open spec fn same_ignoring_case(a: Seq<char>, b: Seq<char>) -> bool {
    a.len() == b.len() && forall|i: int| 0 <= i < a.len() ==> ascii_lower(#[trigger] a[i]) == ascii_lower(b[i])
}

fn lower_code(c: char) -> (code: u32)
    ensures
        code == ascii_lower(c) as u32,
{
    if 'A' <= c && c <= 'Z' {
        c as u32 + 32
    } else {
        c as u32
    }
}

/// Compares two texts, with upper and lower case ASCII letters being the same.
pub fn eq_ignore_ascii_case(a: &str, b: &str) -> (same: bool)
    ensures
        same == same_ignoring_case(a@, b@),
{
    let x = chars_of(a);
    let y = chars_of(b);
    if x.len() != y.len() {
        return false;
    }
    let mut i: usize = 0;
    while i < x.len()
        invariant
            x@ == a@,
            y@ == b@,
            x@.len() == y@.len(),
            i <= x@.len(),
            forall|j: int| 0 <= j < i ==> ascii_lower(#[trigger] a@[j]) == ascii_lower(b@[j]),
        decreases x@.len() - i,
    {
        if lower_code(x[i]) != lower_code(y[i]) {
            assert(ascii_lower(a@[i as int]) != ascii_lower(b@[i as int]));
            return false;
        }
        i = i + 1;
    }
    true
}

/// What follows `prefix` in `text`, if it starts with it.
pub fn strip_prefix<'a>(text: &'a str, prefix: &str) -> (rest: Option<&'a str>)
    ensures
        rest is Some <==> prefix@.is_prefix_of(text@),
        rest is Some ==> rest->Some_0@ == text@.skip(prefix@.len() as int),
{
    let x = chars_of(text);
    let y = chars_of(prefix);
    if x.len() < y.len() {
        return None;
    }
    let mut i: usize = 0;
    while i < y.len()
        invariant
            x@ == text@,
            y@ == prefix@,
            y@.len() <= x@.len(),
            i <= y@.len(),
            forall|j: int| 0 <= j < i ==> text@[j] == prefix@[j],
        decreases y@.len() - i,
    {
        if x[i] != y[i] {
            assert(text@[i as int] != prefix@[i as int]);
            return None;
        }
        i = i + 1;
    }
    assert(prefix@ =~= text@.subrange(0, prefix@.len() as int));
    let rest = text.substring_char(y.len(), x.len());
    assert(rest@ =~= text@.skip(prefix@.len() as int));
    Some(rest)
}

/// The value of one decimal digit.
pub open spec fn digit_value(c: char) -> int {
    c as int - 48
}

/// How numbers are read, one character at a time. One digit is its value. One more digit
/// makes the number ten times as large and adds its value; it is too large when that exceeds
/// the greatest number allowed. Anything else is no digit. An error is not made good by what
/// follows, and a plus sign in front of a number changes nothing.
pub proof fn law_numbers_are_read_digit_by_digit(
    text: &str,
    result: Result<u64, NumberError>,
    longer: &str,
    longer_result: Result<u64, NumberError>,
    signed: &str,
    signed_result: Result<u64, NumberError>,
    max: u64,
    c: char,
)
    requires
        call_ensures(parse_unsigned, (text, max), result),
        call_ensures(parse_unsigned, (longer, max), longer_result),
        call_ensures(parse_unsigned, (signed, max), signed_result),
        longer@ == text@.push(c),
        signed@ == seq!['+'] + text@,
    ensures
        text@.len() == 0 ==> {
            &&& result == Err::<u64, NumberError>(NumberError::Empty)
            &&& longer_result == if !('0' <= c <= '9') {
                Err(NumberError::InvalidDigit)
            } else if digit_value(c) > max {
                Err(NumberError::TooLarge)
            } else {
                Ok(digit_value(c) as u64)
            }
            &&& signed_result == Err::<u64, NumberError>(NumberError::InvalidDigit)
        },
        text@.len() > 0 && result is Ok ==> {
            let value = result->Ok_0 * 10 + digit_value(c);
            &&& result->Ok_0 <= max
            &&& longer_result == if !('0' <= c <= '9') {
                Err(NumberError::InvalidDigit)
            } else if value > max {
                Err(NumberError::TooLarge)
            } else {
                Ok(value as u64)
            }
        },
        text@.len() > 0 && result is Err && text@ != seq!['+'] ==> longer_result == result,
        text@.len() > 0 && text@[0] != '+' ==> signed_result == result,
        text@.len() > 0 && text@[0] == '+' ==> signed_result == Err::<u64, NumberError>(NumberError::InvalidDigit),
{
    let m = max as nat;
    let (t, l, g) = (text@, longer@, signed@);
    assert(g.drop_first() =~= t);
    assert(number(Seq::<char>::empty(), m) == Ok::<nat, NumberError>(0));
    if t.len() == 0 {
        assert(l.drop_last() =~= Seq::<char>::empty());
        assert(l =~= seq![c]);
    } else if t[0] == '+' {
        assert(l.drop_first().drop_last() =~= t.drop_first());
        assert(l.drop_first().last() == c);
        if t.len() == 1 {
            assert(t =~= seq!['+']);
        }
        assert(t.take(1) =~= seq!['+']);
        assert(t.take(1).drop_last() =~= Seq::<char>::empty());
        assert(number(t.take(1), m) == Err::<nat, NumberError>(NumberError::InvalidDigit));
        lemma_number_error_stays(t, 1, m);
    } else {
        assert(l.drop_last() =~= t);
        assert(l.last() == c);
    }
}

/// A number in decimal is made of digits, without a leading zero, and is read back as the
/// number that it was; with leading zeros it is as wide as asked for and still the same
/// number.
pub proof fn law_rendered_numbers_are_read_back(
    n: u64,
    width: usize,
    plain: String,
    wide: String,
    as_plain: &str,
    as_wide: &str,
    max: u64,
    plain_result: Result<u64, NumberError>,
    wide_result: Result<u64, NumberError>,
)
    requires
        call_ensures(decimal_text, (n,), plain),
        call_ensures(padded_decimal_text, (n, width), wide),
        as_plain@ == plain@,
        as_wide@ == wide@,
        call_ensures(parse_unsigned, (as_plain, max), plain_result),
        call_ensures(parse_unsigned, (as_wide, max), wide_result),
        n <= max,
    ensures
        plain_result == Ok::<u64, NumberError>(n),
        wide_result == Ok::<u64, NumberError>(n),
        plain@.len() > 1 ==> plain@[0] != '0',
        forall|k: int| 0 <= k < plain@.len() ==> '0' <= #[trigger] plain@[k] <= '9',
        forall|k: int| 0 <= k < wide@.len() ==> '0' <= #[trigger] wide@[k] <= '9',
        wide@.len() >= width,
        plain@.len() >= width ==> wide@ == plain@,
        plain@.len() < width ==> wide@.len() == width && wide@.skip(width - plain@.len()) == plain@,
{
    lemma_padded_reads(n as nat, width as nat, max as nat);
    law_decimal_is_read_back(n as nat, max as nat);
    lemma_decimal_digits(n as nat);
    lemma_no_leading_zero(n as nat);
    assert forall|k: int| 0 <= k < wide@.len() implies '0' <= #[trigger] wide@[k] <= '9' by {
        let fill = wide@.len() - plain@.len();
        if k >= fill {
            assert(wide@[k] == plain@[k - fill]);
        }
    }
    if plain@.len() < width {
        assert(wide@.skip(width - plain@.len()) =~= plain@);
    }
}

/// A form with leading zeros is made of digits and is read as the number.
pub proof fn lemma_padded_reads(n: nat, width: nat, max: nat)
    requires
        n <= max,
    ensures
        unsigned(padded_decimal(n, width), max) == Ok::<nat, NumberError>(n),
        number(padded_decimal(n, width), max) == Ok::<nat, NumberError>(n),
{
    let fill = if decimal(n).len() < width {
        (width - decimal(n).len()) as nat
    } else {
        0
    };
    lemma_zeros_number(fill, n, max);
    lemma_decimal_digits(n);
    assert(Seq::new(fill, |i: int| '0') + decimal(n) =~= padded_decimal(n, width));
    assert(is_digit(decimal(n)[0]));
}

proof fn lemma_no_leading_zero(n: nat)
    ensures
        decimal(n).len() > 1 ==> decimal(n)[0] != '0',
        n > 0 ==> decimal(n)[0] != '0',
    decreases n,
{
    if n >= 10 {
        lemma_no_leading_zero(n / 10);
        lemma_decimal_digits(n / 10);
        assert(decimal(n)[0] == decimal(n / 10)[0]);
    } else {
        assert(decimal(n)[0] == digit(n as int));
        if n > 0 {
            lemma_digit(n as int);
        }
    }
}

/// The value of one hexadecimal digit.
pub open spec fn hex_value(c: char) -> int {
    if '0' <= c <= '9' {
        c as int - 48
    } else {
        c as int - 87
    }
}

/// A byte in hexadecimal is two digits in lower case, the higher one first.
pub proof fn law_hex_digits_make_the_byte(n: u8, text: String)
    requires
        call_ensures(hex_byte_text, (n,), text),
    ensures
        text@.len() == 2,
        forall|k: int| 0 <= k < 2 ==> ('0' <= #[trigger] text@[k] <= '9' || 'a' <= text@[k] <= 'f'),
        n == 16 * hex_value(text@[0]) + hex_value(text@[1]),
{
    lemma_hex_digit(n as int / 16);
    lemma_hex_digit(n as int % 16);
}

proof fn lemma_hex_digit(d: int)
    requires
        0 <= d < 16,
    ensures
        '0' <= hex_digit(d) <= '9' || 'a' <= hex_digit(d) <= 'f',
        hex_value(hex_digit(d)) == d,
{
    if d < 8 {
        assert(d == 0 || d == 1 || d == 2 || d == 3 || d == 4 || d == 5 || d == 6 || d == 7);
    } else {
        assert(d == 8 || d == 9 || d == 10 || d == 11 || d == 12 || d == 13 || d == 14 || d == 15);
    }
}

proof fn lemma_trimmed_start(text: Seq<char>) -> (start: int)
    ensures
        0 <= start <= text.len(),
        trimmed_start(text) == text.skip(start),
        forall|k: int| 0 <= k < start ==> is_white_space(#[trigger] text[k]),
        start < text.len() ==> !is_white_space(text[start]),
    decreases text.len(),
{
    if text.len() > 0 && is_white_space(text[0]) {
        let start = lemma_trimmed_start(text.drop_first());
        assert(text.drop_first().skip(start) =~= text.skip(start + 1));
        assert forall|k: int| 0 <= k < start + 1 implies is_white_space(#[trigger] text[k]) by {
            if k > 0 {
                assert(text[k] == text.drop_first()[k - 1]);
            }
        }
        start + 1
    } else {
        assert(text.skip(0) =~= text);
        0
    }
}

proof fn lemma_trimmed_end(text: Seq<char>) -> (end: int)
    ensures
        0 <= end <= text.len(),
        trimmed_end(text) == text.take(end),
        forall|k: int| end <= k < text.len() ==> is_white_space(#[trigger] text[k]),
        end > 0 ==> !is_white_space(text[end - 1]),
    decreases text.len(),
{
    if text.len() > 0 && is_white_space(text.last()) {
        let end = lemma_trimmed_end(text.drop_last());
        assert(text.drop_last().take(end) =~= text.take(end));
        assert forall|k: int| end <= k < text.len() implies is_white_space(#[trigger] text[k]) by {
            if k < text.len() - 1 {
                assert(text[k] == text.drop_last()[k]);
            }
        }
        end
    } else {
        assert(text.take(text.len() as int) =~= text);
        text.len() as int
    }
}

/// Trimming takes away white space at both ends, all of it, and nothing else.
pub proof fn law_trimming_takes_white_space_only(text: &str, part: &str)
    requires
        call_ensures(trim, (text,), part),
    ensures
        exists|start: int, end: int|
            0 <= start <= end <= text@.len() && part@ == #[trigger] text@.subrange(start, end) && (forall|k: int|
                0 <= k < start || end <= k < text@.len() ==> is_white_space(#[trigger] text@[k])),
        part@.len() > 0 ==> !is_white_space(part@[0]) && !is_white_space(part@.last()),
{
    let start = lemma_trimmed_start(text@);
    let rest = text@.skip(start);
    let len = lemma_trimmed_end(rest);
    assert(part@ =~= text@.subrange(start, start + len));
    assert forall|k: int| 0 <= k < start || start + len <= k < text@.len() implies is_white_space(
        #[trigger] text@[k],
    ) by {
        if k >= start + len {
            assert(text@[k] == rest[k - start]);
        }
    }
}

/// The white space that is trimmed are these 25 characters: of a text with one character
/// nothing is left exactly when it is one of them.
pub proof fn law_white_space_is_trimmed(text: &str, part: &str, c: char)
    requires
        text@ == seq![c],
        call_ensures(trim, (text,), part),
    ensures
        part@.len() == 0 <==> {
            ||| c == '\t'
            ||| c == '\n'
            ||| c == '\u{b}'
            ||| c == '\u{c}'
            ||| c == '\r'
            ||| c == ' '
            ||| c == '\u{85}'
            ||| c == '\u{a0}'
            ||| c == '\u{1680}'
            ||| c == '\u{2000}'
            ||| c == '\u{2001}'
            ||| c == '\u{2002}'
            ||| c == '\u{2003}'
            ||| c == '\u{2004}'
            ||| c == '\u{2005}'
            ||| c == '\u{2006}'
            ||| c == '\u{2007}'
            ||| c == '\u{2008}'
            ||| c == '\u{2009}'
            ||| c == '\u{200a}'
            ||| c == '\u{2028}'
            ||| c == '\u{2029}'
            ||| c == '\u{202f}'
            ||| c == '\u{205f}'
            ||| c == '\u{3000}'
        },
        part@.len() > 0 ==> part@ == text@,
{
    law_trimming_takes_white_space_only(text, part);
    let (start, end) = choose|start: int, end: int|
        0 <= start <= end <= text@.len() && part@ == #[trigger] text@.subrange(start, end) && (forall|k: int|
            0 <= k < start || end <= k < text@.len() ==> is_white_space(#[trigger] text@[k]));
    assert(text@[0] == c);
    if part@.len() > 0 {
        assert(part@ =~= text@);
    }
}

/// Two texts are the same but for case exactly when they are as long as each other and each
/// two characters are equal, or are the two cases of one ASCII letter.
pub proof fn law_case_of_letters_is_ignored(a: &str, b: &str, same: bool)
    requires
        call_ensures(eq_ignore_ascii_case, (a, b), same),
    ensures
        same <==> a@.len() == b@.len() && forall|k: int|
            0 <= k < a@.len() ==> {
                let (x, y) = (#[trigger] a@[k], b@[k]);
                ||| x == y
                ||| 'A' <= x <= 'Z' && y as int == x as int + 32
                ||| 'A' <= y <= 'Z' && x as int == y as int + 32
            },
{
    if a@.len() == b@.len() {
        assert forall|k: int| 0 <= k < a@.len() implies (ascii_lower(#[trigger] a@[k]) == ascii_lower(b@[k]) <==> {
            let (x, y) = (a@[k], b@[k]);
            ||| x == y
            ||| 'A' <= x <= 'Z' && y as int == x as int + 32
            ||| 'A' <= y <= 'Z' && x as int == y as int + 32
        }) by {
        }
    }
}

/// A prefix is stripped exactly when the text starts with it; prefix and rest make the text.
pub proof fn law_prefix_and_rest_make_the_text(text: &str, prefix: &str, rest: Option<&str>)
    requires
        call_ensures(strip_prefix, (text, prefix), rest),
    ensures
        rest is Some ==> text@ == prefix@ + rest->Some_0@,
        rest is None ==> forall|other: Seq<char>| text@ != #[trigger] (prefix@ + other),
{
    if rest is Some {
        assert(text@ =~= prefix@ + rest->Some_0@);
    } else {
        assert forall|other: Seq<char>| text@ != #[trigger] (prefix@ + other) by {
            if text@ == prefix@ + other {
                assert(prefix@ =~= text@.subrange(0, prefix@.len() as int));
            }
        }
    }
}

/// The characters of a text are all of it, in order; a text between two others is just that.
pub proof fn law_texts_are_kept(
    text: &str,
    chars: Vec<char>,
    before: &str,
    after: &str,
    whole: String,
    error: NumberError,
    words: &str,
)
    requires
        call_ensures(chars_of, (text,), chars),
        call_ensures(enclosed, (before, text, after), whole),
        call_ensures(NumberError::message, (error,), words),
    ensures
        chars@ == text@,
        whole@ == before@ + text@ + after@,
        words@ == match error {
            NumberError::Empty => "cannot parse integer from empty string"@,
            NumberError::InvalidDigit => "invalid digit found in string"@,
            NumberError::TooLarge => "number too large to fit in target type"@,
        },
{
}

} // verus!
