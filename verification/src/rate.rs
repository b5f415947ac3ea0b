//! Frame rates: a decimal value and the exact rational that a timing
//! pipeline wants in its place.

use vstd::prelude::*;
use vstd::arithmetic::div_mod::{
    lemma_div_multiples_vanish_quotient,
    lemma_fundamental_div_mod,
    lemma_mod_multiples_basic,
    lemma_truncate_middle,
};
use vstd::arithmetic::mul::lemma_mul_is_commutative;
use crate::numeral::{
    ascii_bytes,
    decimal_of,
    is_digit,
    lemma_numerals_are_ascii,
    scan_digits,
    skip_sign,
    unsigned_part,
    NumberError,
    DECIMAL_POINT,
};

verus! {

/// Ten to the power `n`.
pub open spec fn pow10(n: nat) -> nat
    decreases n,
{
    if n == 0 {
        1
    } else {
        10 * pow10((n - 1) as nat)
    }
}

/// A non-negative decimal number: `digits / 10^scale`.
///
/// `digits` holds every digit of the number read as one integer, `scale`
/// says how many of them stand behind the decimal point.  `29.97` is
/// `digits = 2997, scale = 2`.
#[derive(Clone, Copy, Debug, PartialEq, Eq, Structural)]
pub struct FrameRate {
    pub digits: u64,
    pub scale: u32,
}

/// A frame rate as `numerator / denominator`.
#[derive(Clone, Copy, Debug, PartialEq, Eq, Structural)]
pub struct RationalFrameRate {
    pub numerator: u32,
    pub denominator: u32,
}

/// `digits / 10^scale` has no fractional part.
pub open spec fn is_whole(digits: nat, scale: nat) -> bool {
    digits % pow10(scale) == 0
}

/// `digits / 10^scale` lies less than one thousandth away from
/// `milli / 1000`.
pub open spec fn within_a_thousandth(digits: nat, scale: nat, milli: nat) -> bool {
    &&& 1000 * digits < milli * pow10(scale) + pow10(scale)
    &&& milli * pow10(scale) < 1000 * digits + pow10(scale)
}

/// The well-known broadcast rate that `digits / 10^scale` stands for, if any.
/// The entries are tried in this order and the first that is near enough wins.
pub open spec fn broadcast_rate(digits: nat, scale: nat) -> Option<(nat, nat)> {
    if within_a_thousandth(digits, scale, 23_976) {
        Some((24_000nat, 1001nat))
    } else if within_a_thousandth(digits, scale, 29_970) {
        Some((30_000nat, 1001nat))
    } else if within_a_thousandth(digits, scale, 59_940) {
        Some((60_000nat, 1001nat))
    } else if within_a_thousandth(digits, scale, 119_880) {
        Some((120_000nat, 1001nat))
    } else {
        None
    }
}

/// How often `digits / 10^scale` must be multiplied by ten, after `done`
/// multiplications that did not suffice, until nothing is left behind the
/// decimal point.
pub open spec fn scaling_steps_from(digits: nat, scale: nat, done: nat) -> nat
    decreases scale - done,
{
    if is_whole(digits * pow10(done), scale) || done >= scale {
        done
    } else {
        scaling_steps_from(digits, scale, done + 1)
    }
}

/// The number of multiplications by ten that make `digits / 10^scale` whole.
pub open spec fn scaling_steps(digits: nat, scale: nat) -> nat {
    scaling_steps_from(digits, scale, 0)
}

/// The rational `(numerator, denominator)` for the rate `digits / 10^scale`:
/// a whole rate over one; else a well-known broadcast rate, where the value
/// is near one; else the value scaled up by tens until it is whole, over
/// that power of ten.
pub open spec fn fraction_of(digits: nat, scale: nat) -> (nat, nat) {
    if is_whole(digits, scale) {
        (digits / pow10(scale), 1nat)
    } else {
        match broadcast_rate(digits, scale) {
            Some(known) => known,
            None => {
                let steps = scaling_steps(digits, scale);
                (digits * pow10(steps) / pow10(scale), pow10(steps))
            },
        }
    }
}

/// Both parts of the rational fit the 32 bits that a
/// [`RationalFrameRate`] gives them.
pub open spec fn representable(fraction: (nat, nat)) -> bool {
    fraction.0 <= u32::MAX && fraction.1 <= u32::MAX
}

impl FrameRate {
    /// The rate of `n` frames a second.
    pub fn whole(n: u32) -> (rate: FrameRate)
        ensures
            rate.digits == n,
            rate.scale == 0,
    {
        FrameRate { digits: n as u64, scale: 0 }
    }

    /// Reads a frame rate from its decimal notation, such as `30`, `29.97`
    /// or `+12.5`.
    ///
    /// The text is an optional `+`, digits, and optionally a point with
    /// digits behind it; one side of the point may be empty.  Every digit
    /// is kept, trailing zeros too: `12.50` has a scale of two.  A number
    /// with more digits than the type can hold is reported as too large.
    pub fn parse(text: &str) -> (result: Result<FrameRate, NumberError>)
        ensures
            match result {
                Ok(rate) => decimal_of(text@) == Some((rate.digits as nat, rate.scale as nat)),
                Err(NumberError::Malformed) => decimal_of(text@) is None,
                Err(NumberError::TooLarge) => decimal_of(text@) matches Some(d) && (d.0 > u64::MAX
                    || d.1 > u32::MAX),
            },
    {
        if !text.is_ascii() {
            proof {
                lemma_numerals_are_ascii(text@);
            }
            return Err(NumberError::Malformed);
        }
        let bytes = ascii_bytes(text);
        let length = bytes.len();
        let start = skip_sign(bytes, Ghost(text@));
        let ghost body = unsigned_part(text@);
        let (point, value, beyond) = scan_digits(
            bytes,
            start,
            0,
            false,
            u64::MAX,
            Ghost(text@),
            Ghost(Seq::empty()),
        );
        let ghost whole = text@.subrange(start as int, point as int);
        proof {
            body.index_of_first_ensures('.');
            assert(Seq::<char>::empty() + whole =~= whole);
            assert(whole =~= body.take(point - start));
            assert forall|i: int| 0 <= i < point - start implies is_digit(#[trigger] body[i]) by {
                assert(whole[i] == body[i]);
            }
        }
        if point == length {
            proof {
                assert(body.take(point - start) =~= body);
            }
            return if point == start {
                Err(NumberError::Malformed)
            } else if beyond {
                Err(NumberError::TooLarge)
            } else {
                Ok(FrameRate { digits: value, scale: 0 })
            };
        }
        proof {
            assert(body[point - start] == text@[point as int]);
        }
        if bytes[point] != DECIMAL_POINT {
            proof {
                match body.index_of_first('.') {
                    None => {},
                    Some(first) => {
                        assert(body.take(first)[point - start] == body[point - start]);
                    },
                }
            }
            return Err(NumberError::Malformed);
        }
        assert(body.index_of_first('.') == Some(point - start));
        let (end, value, beyond) = scan_digits(
            bytes,
            point + 1,
            value,
            beyond,
            u64::MAX,
            Ghost(text@),
            Ghost(whole),
        );
        let ghost fraction = body.skip(point - start + 1);
        proof {
            if end < length {
                assert(fraction[end - point - 1] == text@[end as int]);
            } else {
                assert(text@.subrange(point + 1, end as int) =~= fraction);
            }
        }
        if end < length || length - start == 1 {
            return Err(NumberError::Malformed);
        }
        let places = length - point - 1;
        if beyond || places > u32::MAX as usize {
            Err(NumberError::TooLarge)
        } else {
            Ok(FrameRate { digits: value, scale: places as u32 })
        }
    }
}

/// Every power of ten is positive.
proof fn lemma_pow10_positive(n: nat)
    ensures
        pow10(n) > 0,
    decreases n,
{
    if n > 0 {
        lemma_pow10_positive((n - 1) as nat);
    }
}

/// Powers of ten multiply by adding their exponents.
proof fn lemma_pow10_add(a: nat, b: nat)
    ensures
        pow10(a + b) == pow10(a) * pow10(b),
    decreases a,
{
    if a > 0 {
        lemma_pow10_add((a - 1) as nat, b);
        assert(pow10(a + b) == 10 * pow10((a - 1 + b) as nat));
        assert(10 * (pow10((a - 1) as nat) * pow10(b)) == (10 * pow10((a - 1) as nat)) * pow10(b))
            by (nonlinear_arith);
    } else {
        assert(1 * pow10(b) == pow10(b));
    }
}

/// A larger exponent gives no smaller power of ten.
proof fn lemma_pow10_monotonic(a: nat, b: nat)
    requires
        a <= b,
    ensures
        pow10(a) <= pow10(b),
    decreases b,
{
    if a < b {
        lemma_pow10_monotonic(a, (b - 1) as nat);
    }
}

/// The powers of ten at the edges of the integer types in use here.
proof fn lemma_pow10_values()
    ensures
        pow10(0) == 1,
        pow10(1) == 10,
        pow10(9) == 1_000_000_000,
        pow10(10) == 10_000_000_000,
        pow10(18) == 1_000_000_000_000_000_000,
        pow10(19) == 10_000_000_000_000_000_000,
{
    reveal_with_fuel(pow10, 20);
}

/// A power of ten that numerator and denominator share can be cancelled.
proof fn lemma_cancel(x: nat, scale: nat, shared: nat)
    ensures
        is_whole(x * pow10(shared), scale + shared) == is_whole(x, scale),
        (x * pow10(shared)) / pow10(scale + shared) == x / pow10(scale),
{
    lemma_pow10_positive(shared);
    lemma_pow10_positive(scale);
    lemma_pow10_add(scale, shared);
    let b = pow10(shared) as int;
    let c = pow10(scale) as int;
    lemma_truncate_middle(x as int, b, c);
    lemma_div_multiples_vanish_quotient(b, x as int, c);
    lemma_mul_is_commutative(x as int, b);
    lemma_mul_is_commutative(b, c);
    assert(b * (x as int % c) == 0 <==> x as int % c == 0) by (nonlinear_arith)
        requires
            b > 0,
    ;
}

/// What a power of ten above the zeroth divides, ten divides.
proof fn lemma_ten_divides(x: nat, n: nat)
    requires
        n >= 1,
        x % pow10(n) == 0,
    ensures
        x % 10 == 0,
{
    let c = pow10((n - 1) as nat) as int;
    lemma_pow10_positive(n);
    lemma_fundamental_div_mod(x as int, pow10(n) as int);
    let q = x as int / (pow10(n) as int);
    assert(x == (c * q) * 10) by (nonlinear_arith)
        requires
            x == (10 * c) * q,
    ;
    lemma_mod_multiples_basic(c * q, 10);
}

/// `x * 10^scale` over `10^scale` is the whole number `x`.
proof fn lemma_scaled_is_whole(x: nat, scale: nat)
    ensures
        is_whole(x * pow10(scale), scale),
        (x * pow10(scale)) / pow10(scale) == x,
{
    lemma_cancel(x, 0, scale);
    assert(pow10(0) == 1);
}

/// A number that does not end in zero needs as many multiplications by ten
/// as it has digits behind the point; zeros that were appended to it change
/// nothing.
proof fn lemma_scaling_steps(x: nat, scale: nat, zeros: nat, done: nat)
    requires
        x % 10 != 0,
        done <= scale,
    ensures
        scaling_steps_from(x * pow10(zeros), scale + zeros, done) == scale,
    decreases scale - done,
{
    let padded = x * pow10(zeros);
    assert(padded * pow10(done) == (x * pow10(done)) * pow10(zeros)) by (nonlinear_arith)
        requires
            padded == x * pow10(zeros),
    ;
    lemma_cancel(x * pow10(done), scale, zeros);
    if done < scale {
        let rest = (scale - done) as nat;
        lemma_cancel(x, rest, done);
        if is_whole(x, rest) {
            lemma_ten_divides(x, rest);
        }
        lemma_scaling_steps(x, scale, zeros, done + 1);
    } else {
        lemma_scaled_is_whole(x, scale);
    }
}

/// Appended zeros do not move a value towards or away from a table entry.
proof fn lemma_within_padded(x: nat, scale: nat, zeros: nat, milli: nat)
    ensures
        within_a_thousandth(x * pow10(zeros), scale + zeros, milli) == within_a_thousandth(
            x,
            scale,
            milli,
        ),
{
    lemma_pow10_positive(zeros);
    lemma_pow10_add(scale, zeros);
    let p = pow10(zeros) as int;
    let q = pow10(scale) as int;
    assert((1000 * (x * p) < milli * (q * p) + q * p) == (1000 * x < milli * q + q))
        by (nonlinear_arith)
        requires
            p > 0,
    ;
    assert((milli * (q * p) < 1000 * (x * p) + q * p) == (milli * q < 1000 * x + q))
        by (nonlinear_arith)
        requires
            p > 0,
    ;
}

/// Appended zeros do not change which broadcast rate a value stands for.
proof fn lemma_broadcast_padded(x: nat, scale: nat, zeros: nat)
    ensures
        broadcast_rate(x * pow10(zeros), scale + zeros) == broadcast_rate(x, scale),
{
    lemma_within_padded(x, scale, zeros, 23_976);
    lemma_within_padded(x, scale, zeros, 29_970);
    lemma_within_padded(x, scale, zeros, 59_940);
    lemma_within_padded(x, scale, zeros, 119_880);
}

/// Ten to the power `n`, for the powers that the table test works with.
fn power_of_ten(n: u32) -> (power: u128)
    requires
        n <= 18,
    ensures
        power == pow10(n as nat),
{
    let mut power: u128 = 1;
    let mut i: u32 = 0;
    while i < n
        invariant
            i <= n <= 18,
            power == pow10(i as nat),
        decreases n - i,
    {
        proof {
            lemma_pow10_monotonic(i as nat, 18);
            lemma_pow10_values();
        }
        power = power * 10;
        i = i + 1;
    }
    power
}

/// Tests one table entry against `digits / unit`, where `unit` is a power
/// of ten.
fn near_entry(digits: u64, unit: u128, milli: u32) -> (near: bool)
    requires
        unit <= 1_000_000_000_000_000_000,
        milli <= 1_000_000,
    ensures
        near == (1000 * digits < milli * unit + unit && milli * unit < 1000 * digits + unit),
{
    let value: u128 = 1000 * (digits as u128);
    assert(milli * unit <= 1_000_000 * 1_000_000_000_000_000_000) by (nonlinear_arith)
        requires
            unit <= 1_000_000_000_000_000_000,
            milli <= 1_000_000,
    ;
    let entry: u128 = (milli as u128) * unit;
    value < entry + unit && entry < value + unit
}

/// The table of broadcast rates, tried in order on `digits / 10^scale`.
fn known_rate(digits: u64, scale: u32) -> (known: Option<RationalFrameRate>)
    ensures
        match known {
            Some(q) => broadcast_rate(digits as nat, scale as nat) == Some(
                (q.numerator as nat, q.denominator as nat),
            ),
            None => broadcast_rate(digits as nat, scale as nat) is None,
        },
{
    if scale > 18 {
        proof {
            lemma_pow10_monotonic(19, scale as nat);
            lemma_pow10_values();
            let unit = pow10(scale as nat);
            assert(23_976 * unit >= 1000 * digits + unit) by (nonlinear_arith)
                requires
                    unit >= 10_000_000_000_000_000_000,
                    digits <= u64::MAX,
            ;
            assert(29_970 * unit >= 23_976 * unit && 59_940 * unit >= 23_976 * unit && 119_880
                * unit >= 23_976 * unit) by (nonlinear_arith)
                requires
                    unit >= 0,
            ;
        }
        return None;
    }
    let unit = power_of_ten(scale);
    proof {
        lemma_pow10_monotonic(scale as nat, 18);
        lemma_pow10_values();
    }
    if near_entry(digits, unit, 23_976) {
        Some(RationalFrameRate { numerator: 24_000, denominator: 1001 })
    } else if near_entry(digits, unit, 29_970) {
        Some(RationalFrameRate { numerator: 30_000, denominator: 1001 })
    } else if near_entry(digits, unit, 59_940) {
        Some(RationalFrameRate { numerator: 60_000, denominator: 1001 })
    } else if near_entry(digits, unit, 119_880) {
        Some(RationalFrameRate { numerator: 120_000, denominator: 1001 })
    } else {
        None
    }
}

/// Converts a decimal frame rate to an exact rational.
///
/// A whole rate becomes itself over one.  A rate within a thousandth of
/// 23.976, 29.97, 59.94 or 119.88 becomes the broadcast rate of that name
/// (24000, 30000, 60000, 120000 over 1001).  Any other rate is multiplied by
/// ten until nothing is left behind the decimal point and set over that power
/// of ten, unreduced: 12.5 becomes 125/10.
///
/// The result is `None` exactly when that rational does not fit into two
/// 32-bit numbers.
pub fn get_fraction(fps: FrameRate) -> (result: Option<RationalFrameRate>)
    ensures
        match result {
            Some(q) => (q.numerator as nat, q.denominator as nat) == fraction_of(
                fps.digits as nat,
                fps.scale as nat,
            ),
            None => !representable(fraction_of(fps.digits as nat, fps.scale as nat)),
        },
{
    if fps.digits == 0 {
        proof {
            lemma_pow10_positive(fps.scale as nat);
        }
        return Some(RationalFrameRate { numerator: 0, denominator: 1 });
    }
    let mut digits: u64 = fps.digits;
    let mut scale: u32 = fps.scale;
    let ghost mut zeros: nat = 0;
    assert(pow10(0) == 1);
    while scale > 0 && digits % 10 == 0
        invariant
            digits > 0,
            fps.digits == digits * pow10(zeros),
            fps.scale == scale + zeros,
        decreases scale,
    {
        proof {
            assert((digits / 10) * pow10(zeros + 1) == digits * pow10(zeros)) by (nonlinear_arith)
                requires
                    digits % 10 == 0,
                    pow10(zeros + 1) == 10 * pow10(zeros),
            ;
            zeros = zeros + 1;
        }
        digits = digits / 10;
        scale = scale - 1;
    }
    proof {
        lemma_cancel(digits as nat, scale as nat, zeros);
        lemma_broadcast_padded(digits as nat, scale as nat, zeros);
        lemma_pow10_values();
    }
    if scale == 0 {
        assert(is_whole(digits as nat, 0));
        assert(fraction_of(fps.digits as nat, fps.scale as nat) == (digits as nat, 1nat));
        if digits <= u32::MAX as u64 {
            Some(RationalFrameRate { numerator: digits as u32, denominator: 1 })
        } else {
            None
        }
    } else {
        proof {
            if is_whole(digits as nat, scale as nat) {
                lemma_ten_divides(digits as nat, scale as nat);
            }
        }
        match known_rate(digits, scale) {
            Some(known) => Some(known),
            None => {
                proof {
                    lemma_scaling_steps(digits as nat, scale as nat, zeros, 0);
                    lemma_pow10_add(scale as nat, zeros);
                    lemma_scaled_is_whole(digits as nat, (scale + zeros) as nat);
                    assert((digits * pow10(zeros)) * pow10(scale as nat) == digits * (pow10(
                        scale as nat,
                    ) * pow10(zeros))) by (nonlinear_arith);
                    assert(scaling_steps(fps.digits as nat, fps.scale as nat) == scale);
                    assert(fraction_of(fps.digits as nat, fps.scale as nat) == (
                        digits as nat,
                        pow10(scale as nat),
                    ));
                }
                if scale <= 9 && digits <= u32::MAX as u64 {
                    proof {
                        lemma_pow10_monotonic(scale as nat, 9);
                    }
                    let unit = power_of_ten(scale);
                    Some(RationalFrameRate { numerator: digits as u32, denominator: unit as u32 })
                } else {
                    proof {
                        if scale > 9 {
                            lemma_pow10_monotonic(10, scale as nat);
                        }
                    }
                    None
                }
            },
        }
    }
}

/// From `done` on, the scaling count is the first number of multiplications
/// by ten that leaves a whole number.
proof fn lemma_scaling_steps_first(digits: nat, scale: nat, done: nat)
    requires
        done <= scale,
    ensures
        done <= scaling_steps_from(digits, scale, done) <= scale,
        is_whole(digits * pow10(scaling_steps_from(digits, scale, done)), scale),
        forall|fewer: nat|
            done <= fewer < scaling_steps_from(digits, scale, done) ==> !is_whole(
                digits * #[trigger] pow10(fewer),
                scale,
            ),
    decreases scale - done,
{
    if is_whole(digits * pow10(done), scale) {
    } else if done >= scale {
        lemma_scaled_is_whole(digits, scale);
    } else {
        lemma_scaling_steps_first(digits, scale, done + 1);
    }
}

/// A rate without a fractional part converts to itself over one.
pub proof fn law_whole_rate_over_one(digits: nat, scale: nat)
    requires
        is_whole(digits, scale),
    ensures
        fraction_of(digits, scale) == (digits / pow10(scale), 1nat),
{
}

/// Every integer rate `n` converts to `n / 1`, and the conversion succeeds
/// for each of them.
pub proof fn law_integer_rate(n: u32)
    ensures
        fraction_of(n as nat, 0) == (n as nat, 1nat),
        representable(fraction_of(n as nat, 0)),
{
    assert(pow10(0) == 1);
}

/// The decimal scaling multiplies by ten as often as needed and no more:
/// the count it arrives at leaves a whole number, and no smaller count does.
pub proof fn law_scaling_steps_least(digits: nat, scale: nat)
    ensures
        scaling_steps(digits, scale) <= scale,
        is_whole(digits * pow10(scaling_steps(digits, scale)), scale),
        forall|fewer: nat|
            fewer < scaling_steps(digits, scale) ==> !is_whole(
                digits * #[trigger] pow10(fewer),
                scale,
            ),
{
    lemma_scaling_steps_first(digits, scale, 0);
}

/// A product with a factor whose value is known.
proof fn lemma_known_factor(factor: nat, value: nat, other: nat)
    requires
        factor == value,
    ensures
        factor * other == value * other,
        other * factor == value * other,
{
    assert(other * factor == factor * other) by (nonlinear_arith);
}

/// The rational stands for the rate it was made from: its denominator is at
/// least one, it equals the rate exactly unless it was taken from the table
/// of broadcast rates, and it is never further than two thousandths away.
pub proof fn law_fraction_is_close(digits: nat, scale: nat)
    ensures
        ({
            let (numerator, denominator) = fraction_of(digits, scale);
            let unit = pow10(scale);
            &&& denominator >= 1
            &&& is_whole(digits, scale) || broadcast_rate(digits, scale) is None ==> numerator
                * unit == digits * denominator
            &&& 1000 * (numerator * unit - digits * denominator) < 2 * (denominator * unit)
            &&& 1000 * (digits * denominator - numerator * unit) < 2 * (denominator * unit)
        }),
{
    let unit = pow10(scale);
    let (numerator, denominator) = fraction_of(digits, scale);
    lemma_pow10_positive(scale);
    if is_whole(digits, scale) {
        lemma_fundamental_div_mod(digits as int, unit as int);
        lemma_mul_is_commutative(unit as int, digits as int / unit as int);
        lemma_known_factor(denominator, 1, unit);
        lemma_known_factor(denominator, 1, digits);
    } else if broadcast_rate(digits, scale) is None {
        let steps = scaling_steps(digits, scale);
        let scaled = digits * pow10(steps);
        law_scaling_steps_least(digits, scale);
        lemma_pow10_positive(steps);
        lemma_fundamental_div_mod(scaled as int, unit as int);
        lemma_mul_is_commutative(unit as int, scaled as int / unit as int);
        assert(denominator * unit > 0) by (nonlinear_arith)
            requires
                denominator > 0,
                unit > 0,
        ;
    } else {
        lemma_known_factor(denominator, 1001, unit);
        lemma_known_factor(denominator, 1001, digits);
        if within_a_thousandth(digits, scale, 23_976) {
            lemma_known_factor(numerator, 24_000, unit);
        } else if within_a_thousandth(digits, scale, 29_970) {
            lemma_known_factor(numerator, 30_000, unit);
        } else if within_a_thousandth(digits, scale, 59_940) {
            lemma_known_factor(numerator, 60_000, unit);
        } else {
            lemma_known_factor(numerator, 120_000, unit);
        }
    }
}

} // verus!
