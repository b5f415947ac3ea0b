//! Decimal numerals: reading a number from text and writing one out.

use vstd::prelude::*;
use vstd::string::*;
use vstd::utf8::is_ascii_chars;

verus! {

/// The byte of the digit `0`.
pub const DIGIT_ZERO: u8 = 48;

/// The byte of the digit `9`.
pub const DIGIT_NINE: u8 = 57;

/// The byte of the sign `+`.
pub const PLUS_SIGN: u8 = 43;

/// The byte of the decimal point `.`.
pub const DECIMAL_POINT: u8 = 46;

/// `c` is one of the ten ASCII digits.
pub open spec fn is_digit(c: char) -> bool {
    '0' <= c <= '9'
}

/// The number that the digit `c` stands for.
pub open spec fn digit_value(c: char) -> nat {
    (c as u32 - '0' as u32) as nat
}

/// The digit that stands for `d`, a number below ten.
pub open spec fn digit_char(d: nat) -> char {
    ('0' as u32 + d) as char
}

/// Every character of `s` is a digit.
pub open spec fn all_digits(s: Seq<char>) -> bool {
    forall|i: int| 0 <= i < s.len() ==> is_digit(#[trigger] s[i])
}

/// The number that a run of digits spells, most significant digit first.
/// The empty run spells zero.
pub open spec fn digits_value(s: Seq<char>) -> nat
    decreases s.len(),
{
    if s.len() == 0 {
        0
    } else {
        10 * digits_value(s.drop_last()) + digit_value(s.last())
    }
}

/// The text without the plus sign that may stand in front of a number.
pub open spec fn unsigned_part(s: Seq<char>) -> Seq<char> {
    if s.len() > 0 && s[0] == '+' {
        s.skip(1)
    } else {
        s
    }
}

/// The natural number that the text spells: an optional `+` and then one
/// digit or more, nothing before, between or after them.
pub open spec fn natural_of(s: Seq<char>) -> Option<nat> {
    let body = unsigned_part(s);
    if body.len() > 0 && all_digits(body) {
        Some(digits_value(body))
    } else {
        None
    }
}

/// The decimal number that the text spells, as all its digits read as one
/// number and the count of those behind the point.
///
/// The text is an optional `+`, digits, and optionally a point with digits
/// behind it.  Either side of the point may be empty, not both.
pub open spec fn decimal_of(s: Seq<char>) -> Option<(nat, nat)> {
    let body = unsigned_part(s);
    match body.index_of_first('.') {
        None => if body.len() > 0 && all_digits(body) {
            Some((digits_value(body), 0nat))
        } else {
            None
        },
        Some(point) => {
            let whole = body.take(point);
            let fraction = body.skip(point + 1);
            if all_digits(whole) && all_digits(fraction) && whole.len() + fraction.len() > 0 {
                Some((digits_value(whole + fraction), fraction.len()))
            } else {
                None
            }
        },
    }
}

/// The shortest numeral for `n`: no sign, no leading zero but for zero itself.
pub open spec fn numeral_of(n: nat) -> Seq<char>
    decreases n,
{
    if n < 10 {
        seq![digit_char(n)]
    } else {
        numeral_of(n / 10).push(digit_char(n % 10))
    }
}

/// Why a text could not be read as a number.
#[derive(Clone, Copy, Debug, PartialEq, Eq, Structural)]
pub enum NumberError {
    /// The text is not a numeral.
    Malformed,
    /// The text is a numeral for a number beyond the limit.
    TooLarge,
}

/// What has been read of a run of digits: its value while that is within
/// the limit, or the fact that it is not.
pub open spec fn tallied(seen: Seq<char>, value: u64, beyond: bool, limit: u64) -> bool {
    if beyond {
        digits_value(seen) > limit
    } else {
        digits_value(seen) == value && value <= limit
    }
}

/// The bytes are the characters, one for one.
pub open spec fn spelled_by(bytes: Seq<u8>, chars: Seq<char>) -> bool {
    &&& bytes.len() == chars.len()
    &&& forall|i: int| 0 <= i < chars.len() ==> '\0' <= #[trigger] chars[i] <= '\u{7f}'
    &&& forall|i: int| 0 <= i < chars.len() ==> #[trigger] bytes[i] == chars[i] as u8
}

/// Reads on from `start` as long as digits come, adding them to the tally
/// of the digits `seen` before.  Returns where it stopped and the new tally.
pub(crate) fn scan_digits(
    bytes: &[u8],
    start: usize,
    value: u64,
    beyond: bool,
    limit: u64,
    Ghost(chars): Ghost<Seq<char>>,
    Ghost(seen): Ghost<Seq<char>>,
) -> (r: (usize, u64, bool))
    requires
        spelled_by(bytes@, chars),
        start <= bytes.len(),
        tallied(seen, value, beyond, limit),
    ensures
        start <= r.0 <= bytes.len(),
        all_digits(chars.subrange(start as int, r.0 as int)),
        r.0 < bytes.len() ==> !is_digit(chars[r.0 as int]),
        tallied(seen + chars.subrange(start as int, r.0 as int), r.1, r.2, limit),
{
    let mut at: usize = start;
    let mut value: u64 = value;
    let mut beyond: bool = beyond;
    assert(seen + chars.subrange(start as int, start as int) =~= seen);
    while at < bytes.len() && DIGIT_ZERO <= bytes[at] && bytes[at] <= DIGIT_NINE
        invariant
            spelled_by(bytes@, chars),
            start <= at <= bytes.len(),
            all_digits(chars.subrange(start as int, at as int)),
            tallied(seen + chars.subrange(start as int, at as int), value, beyond, limit),
        decreases bytes.len() - at,
    {
        let digit: u8 = bytes[at] - DIGIT_ZERO;
        proof {
            let before = seen + chars.subrange(start as int, at as int);
            let after = seen + chars.subrange(start as int, at + 1);
            assert(after.drop_last() =~= before);
            assert(after.last() == chars[at as int]);
            assert(digit_value(chars[at as int]) == digit);
            assert forall|i: int| 0 <= i < at + 1 - start implies is_digit(
                #[trigger] chars.subrange(start as int, at + 1)[i],
            ) by {
                if i < at - start {
                    assert(chars.subrange(start as int, at as int)[i] == chars[start + i]);
                }
            }
        }
        if !beyond {
            let next: u128 = 10 * (value as u128) + digit as u128;
            if next > limit as u128 {
                beyond = true;
            } else {
                value = next as u64;
            }
        }
        at = at + 1;
    }
    (at, value, beyond)
}

/// A text with a character outside ASCII spells no number.
pub(crate) proof fn lemma_numerals_are_ascii(s: Seq<char>)
    requires
        !is_ascii_chars(s),
    ensures
        natural_of(s) is None,
        decimal_of(s) is None,
{
    let i = choose|i: int| 0 <= i < s.len() && !('\0' <= #[trigger] s[i] <= '\u{7f}');
    let body = unsigned_part(s);
    let at = if body.len() == s.len() {
        i
    } else {
        i - 1
    };
    assert(body[at] == s[i]);
    assert(!is_digit(body[at]));
    body.index_of_first_ensures('.');
    match body.index_of_first('.') {
        None => {},
        Some(point) => {
            if at < point {
                assert(body.take(point)[at] == body[at]);
            } else {
                assert(body.skip(point + 1)[at - point - 1] == body[at]);
            }
        },
    }
}

/// The bytes of an ASCII text are its characters.
pub(crate) fn ascii_bytes(text: &str) -> (bytes: &[u8])
    requires
        is_ascii_chars(text@),
    ensures
        spelled_by(bytes@, text@),
{
    broadcast use is_ascii_spec_bytes;

    let bytes = text.as_bytes();
    assert(is_ascii(text));
    bytes
}

/// Where the digits begin: behind a leading plus sign, if there is one.
pub(crate) fn skip_sign(bytes: &[u8], Ghost(chars): Ghost<Seq<char>>) -> (start: usize)
    requires
        spelled_by(bytes@, chars),
    ensures
        start <= bytes.len(),
        unsigned_part(chars) == chars.skip(start as int),
{
    if bytes.len() > 0 && bytes[0] == PLUS_SIGN {
        assert(chars[0] == '+');
        1
    } else {
        assert(chars.skip(0) =~= chars);
        0
    }
}

/// Reads a natural number of at most `limit`.
///
/// The text is an optional `+` followed by one decimal digit or more and
/// nothing else: no spaces, no separators, no other sign.  Leading zeros are
/// read like any other digit.
pub fn parse_natural(text: &str, limit: u64) -> (result: Result<u64, NumberError>)
    ensures
        match result {
            Ok(n) => natural_of(text@) == Some(n as nat) && n <= limit,
            Err(NumberError::Malformed) => natural_of(text@) is None,
            Err(NumberError::TooLarge) => natural_of(text@) matches Some(n) && n > limit,
        },
{
    if !text.is_ascii() {
        proof {
            lemma_numerals_are_ascii(text@);
        }
        return Err(NumberError::Malformed);
    }
    let bytes = ascii_bytes(text);
    let start = skip_sign(bytes, Ghost(text@));
    let ghost body = unsigned_part(text@);
    let (end, value, beyond) = scan_digits(
        bytes,
        start,
        0,
        false,
        limit,
        Ghost(text@),
        Ghost(Seq::empty()),
    );
    proof {
        assert(Seq::<char>::empty() + text@.subrange(start as int, end as int) =~= body.take(
            end - start,
        ));
        if end < bytes.len() {
            assert(body[end - start] == text@[end as int]);
        } else {
            assert(body.take(end - start) =~= body);
        }
    }
    if end == start || end < bytes.len() {
        Err(NumberError::Malformed)
    } else if beyond {
        Err(NumberError::TooLarge)
    } else {
        Ok(value)
    }
}

/// The one-character text of a digit.
fn digit_text(d: u8) -> (text: &'static str)
    requires
        d < 10,
    ensures
        text@ == seq![digit_char(d as nat)],
{
    proof {
        reveal_strlit("0");
        reveal_strlit("1");
        reveal_strlit("2");
        reveal_strlit("3");
        reveal_strlit("4");
        reveal_strlit("5");
        reveal_strlit("6");
        reveal_strlit("7");
        reveal_strlit("8");
        reveal_strlit("9");
    }
    let text = match d {
        0 => "0",
        1 => "1",
        2 => "2",
        3 => "3",
        4 => "4",
        5 => "5",
        6 => "6",
        7 => "7",
        8 => "8",
        _ => "9",
    };
    assert(text@ =~= seq![digit_char(d as nat)]);
    text
}

/// Writes `n` in decimal digits, without sign or leading zeros.
pub fn format_natural(n: u64) -> (text: String)
    ensures
        text@ == numeral_of(n as nat),
    decreases n,
{
    if n < 10 {
        String::from_str(digit_text(n as u8))
    } else {
        let mut text = format_natural(n / 10);
        text.append(digit_text((n % 10) as u8));
        text
    }
}

/// A numeral as this module writes it consists of digits, at least one.
proof fn lemma_numeral_digits(n: nat)
    ensures
        numeral_of(n).len() > 0,
        all_digits(numeral_of(n)),
        digits_value(numeral_of(n)) == n,
    decreases n,
{
    if n < 10 {
        assert(numeral_of(n).drop_last() =~= Seq::<char>::empty());
        assert(digits_value(numeral_of(n).drop_last()) == 0);
    } else {
        lemma_numeral_digits(n / 10);
        assert(numeral_of(n).drop_last() =~= numeral_of(n / 10));
    }
}

/// What is written out reads back as the same number.
pub proof fn law_numeral_reads_back(n: nat)
    ensures
        natural_of(numeral_of(n)) == Some(n),
        decimal_of(numeral_of(n)) == Some((n, 0nat)),
{
    lemma_numeral_digits(n);
    let text = numeral_of(n);
    assert(is_digit(text[0]));
    text.index_of_first_ensures('.');
    match text.index_of_first('.') {
        None => {},
        Some(point) => {
            assert(is_digit(text[point]));
        },
    }
}

} // verus!
