use vstd::prelude::*;
use vstd::string::*;

use crate::text::{digit_char, digit_value, digits_value, int_text, is_digit, nat_text, push_nat};

verus! {

pub const SECONDS_PER_WEEK: u64 = 604800;
pub const SECONDS_PER_DAY: u64 = 86400;
pub const SECONDS_PER_HOUR: u64 = 3600;
pub const SECONDS_PER_MINUTE: u64 = 60;

/// Twenty times the least 53-bit mantissa: a value `x / 20` with
/// `MANTISSA_FLOOR <= x < 2 * MANTISSA_FLOOR` has an integer part of 53 bits.
pub const MANTISSA_FLOOR: u128 = 90071992547409920;

/// `x` doubled until `x / 20` has a 53-bit integer part.
pub open spec fn mantissa_scaled(x: nat) -> nat
    decreases (if x >= MANTISSA_FLOOR { 0 } else { MANTISSA_FLOOR - x }),
{
    if x == 0 || x >= MANTISSA_FLOOR {
        x
    } else {
        mantissa_scaled(2 * x)
    }
}

/// Whether the `f64` nearest `n / 20` (rounding to the nearest, ties to an
/// even mantissa) lies above it.
pub open spec fn nearest_double_above(n: nat) -> bool {
    let x = mantissa_scaled(n);
    let r = x % 20;
    2 * r > 20 || (2 * r == 20 && (x / 20) % 2 == 1)
}

/// Whether `n / 20` is itself an `f64`.
pub open spec fn is_double(n: nat) -> bool {
    mantissa_scaled(n) % 20 == 0
}

/// `s / unit` in tenths, rounded as the `f64` nearest `s / unit` is rounded
/// to one decimal: to the nearest tenth; where `s / unit` lies halfway
/// between two tenths, toward the side of that double, or to the even tenth
/// where the double is exact.
pub open spec fn rounded_tenths(s: nat, unit: nat) -> nat
    recommends
        unit > 0,
{
    let q = (10 * s) / unit;
    let r = (10 * s) % unit;
    let n = 2 * q + 1;
    if 2 * r > unit {
        q + 1
    } else if 2 * r < unit {
        q
    } else if is_double(n) {
        if q % 2 == 1 { q + 1 } else { q }
    } else if nearest_double_above(n) {
        q + 1
    } else {
        q
    }
}

/// `n / 20` scaled to a 53-bit integer part, for `n` below twice the floor.
fn scale_to_mantissa(n: u128) -> (x: u128)
    requires
        n < 2 * MANTISSA_FLOOR,
    ensures
        x == mantissa_scaled(n as nat),
{
    let mut x: u128 = n;
    while x != 0 && x < MANTISSA_FLOOR
        invariant
            x < 2 * MANTISSA_FLOOR,
            mantissa_scaled(n as nat) == mantissa_scaled(x as nat),
        decreases (if x >= MANTISSA_FLOOR { 0 } else { MANTISSA_FLOOR - x }),
    {
        x = 2 * x;
    }
    x
}

/// `s / unit` written with one decimal, followed by the unit's letter.
pub open spec fn tenths_text(s: nat, unit: nat, letter: char) -> Seq<char> {
    let t = rounded_tenths(s, unit);
    nat_text(t / 10) + seq!['.'] + seq![digit_char(t % 10)] + seq![letter]
}

/// A duration in seconds written in the largest unit it exceeds.
pub open spec fn duration_text(s: int) -> Seq<char> {
    if s > SECONDS_PER_WEEK {
        tenths_text(s as nat, SECONDS_PER_WEEK as nat, 'w')
    } else if s > SECONDS_PER_DAY {
        tenths_text(s as nat, SECONDS_PER_DAY as nat, 'd')
    } else if s > SECONDS_PER_HOUR {
        tenths_text(s as nat, SECONDS_PER_HOUR as nat, 'h')
    } else if s > SECONDS_PER_MINUTE {
        tenths_text(s as nat, SECONDS_PER_MINUTE as nat, 'm')
    } else {
        int_text(s) + seq!['s']
    }
}

fn push_tenths(out: &mut String, s: u64, unit: u64, letter: &str)
    requires
        unit >= 10,
        s <= i64::MAX,
        10 * (s as int) < MANTISSA_FLOOR * (unit as int),
        letter@.len() == 1,
    ensures
        final(out)@ == old(out)@ + tenths_text(s as nat, unit as nat, letter@[0]),
{
    let scaled: u128 = 10 * (s as u128);
    let q: u128 = scaled / (unit as u128);
    let r: u128 = scaled % (unit as u128);
    let t: u128 = if 2 * r > unit as u128 {
        q + 1
    } else if 2 * r < unit as u128 {
        q
    } else {
        proof {
            vstd::arithmetic::div_mod::lemma_fundamental_div_mod(scaled as int, unit as int);
            vstd::arithmetic::div_mod::lemma_mod_pos_bound(scaled as int, unit as int);
            let qq = q as int;
            let uu = unit as int;
            assert(qq * uu <= scaled) by (nonlinear_arith)
                requires scaled as int == uu * qq + r as int, r >= 0;
            assert(qq < MANTISSA_FLOOR) by (nonlinear_arith)
                requires qq * uu <= scaled, scaled == 10 * (s as int), 10 * (s as int) < MANTISSA_FLOOR * uu, uu > 0;
        }
        let x = scale_to_mantissa(2 * q + 1);
        let rem = x % 20;
        if rem == 0 {
            if q % 2 == 1 { q + 1 } else { q }
        } else if 2 * rem > 20 || (2 * rem == 20 && (x / 20) % 2 == 1) {
            q + 1
        } else {
            q
        }
    };
    assert(t == rounded_tenths(s as nat, unit as nat));
    assert(t <= u64::MAX) by (nonlinear_arith)
        requires
            t <= q + 1,
            q == scaled / (unit as u128),
            scaled == 10 * (s as u128),
            s <= i64::MAX,
            unit >= 10,
    {
        assert(scaled / (unit as u128) <= scaled / 10);
    }
    push_nat(out, (t / 10) as u64);
    proof { reveal_strlit("."); }
    out.append(".");
    push_nat(out, (t % 10) as u64);
    out.append(letter);
    proof {
        assert(nat_text((t % 10) as nat) == seq![digit_char((t % 10) as nat)]);
        assert(letter@ =~= seq![letter@[0]]);
        assert(out@ =~= old(out)@ + tenths_text(s as nat, unit as nat, letter@[0]));
    }
}

/// Writes a duration in seconds for people: one decimal of the largest unit
/// (weeks, days, hours, minutes) that it exceeds, or whole seconds.
pub fn fmt_t(s: i64) -> (r: String)
    ensures
        r@ == duration_text(s as int),
{
    let mut out = String::new();
    if s > 604800 {
        proof { reveal_strlit("w"); }
        push_tenths(&mut out, s as u64, SECONDS_PER_WEEK, "w");
    } else if s > 86400 {
        proof { reveal_strlit("d"); }
        push_tenths(&mut out, s as u64, SECONDS_PER_DAY, "d");
    } else if s > 3600 {
        proof { reveal_strlit("h"); }
        push_tenths(&mut out, s as u64, SECONDS_PER_HOUR, "h");
    } else if s > 60 {
        proof { reveal_strlit("m"); }
        push_tenths(&mut out, s as u64, SECONDS_PER_MINUTE, "m");
    } else {
        if s < 0 {
            proof { reveal_strlit("-"); }
            out.append("-");
            let magnitude: u64 = (-(s as i128)) as u64;
            push_nat(&mut out, magnitude);
        } else {
            push_nat(&mut out, s as u64);
        }
        proof { reveal_strlit("s"); }
        out.append("s");
        proof {
            assert(out@ =~= int_text(s as int) + seq!['s']);
        }
    }
    out
}

/// Why a time cost could not be read.
#[derive(Clone, Copy, Debug, PartialEq, Eq, Structural)]
pub enum TimeCostError {
    /// No run of digits followed by one of `w`, `d`, `h`, `m`, `s`.
    Malformed,
    /// The amount does not fit in a signed 64-bit count of seconds.
    OutOfRange,
}

/// Whether `c` names a unit of time.
pub open spec fn is_time_unit(c: char) -> bool {
    c == 'w' || c == 'd' || c == 'h' || c == 'm' || c == 's'
}

/// The seconds in one of the unit `c`.
pub open spec fn unit_seconds(c: char) -> nat {
    if c == 'w' {
        SECONDS_PER_WEEK as nat
    } else if c == 'd' {
        SECONDS_PER_DAY as nat
    } else if c == 'h' {
        SECONDS_PER_HOUR as nat
    } else if c == 'm' {
        SECONDS_PER_MINUTE as nat
    } else {
        1
    }
}

/// Scans `s` from `i`, where `run` is the start of the digit run that ends
/// at `i` (negative when `i` is not inside one). Gives the bounds of the first
/// digit run that a unit letter directly follows.
pub open spec fn first_quantity(s: Seq<char>, i: int, run: int) -> Option<(int, int)>
    decreases s.len() - i,
{
    if i < 0 || i >= s.len() {
        None
    } else if is_digit(s[i]) {
        first_quantity(s, i + 1, if run < 0 { i } else { run })
    } else if run >= 0 && is_time_unit(s[i]) {
        Some((run, i))
    } else {
        first_quantity(s, i + 1, -1)
    }
}

/// The seconds that a time cost such as `3d` or `90m` stands for: the first
/// run of digits in the text that a unit letter follows.
pub open spec fn time_cost_seconds(s: Seq<char>) -> Result<i64, TimeCostError> {
    match first_quantity(s, 0, -1) {
        None => Err(TimeCostError::Malformed),
        Some((a, b)) => {
            let v = digits_value(s.subrange(a, b)) * unit_seconds(s[b]);
            if v <= i64::MAX {
                Ok(v as i64)
            } else {
                Err(TimeCostError::OutOfRange)
            }
        },
    }
}

fn unit_of(c: char) -> (r: u64)
    ensures
        r == unit_seconds(c),
{
    if c == 'w' {
        SECONDS_PER_WEEK
    } else if c == 'd' {
        SECONDS_PER_DAY
    } else if c == 'h' {
        SECONDS_PER_HOUR
    } else if c == 'm' {
        SECONDS_PER_MINUTE
    } else {
        1
    }
}

/// Reads a time cost written as digits and a unit letter (`w`, `d`, `h`,
/// `m`, `s`) into seconds.
pub fn parse_time_cost(s: &str) -> (r: Result<i64, TimeCostError>)
    ensures
        r == time_cost_seconds(s@),
{
    let n = s.unicode_len();
    let mut i: usize = 0;
    let mut in_run: bool = false;
    let mut run: usize = 0;
    let mut acc: u64 = 0;
    let mut big: bool = false;
    while i < n
        invariant
            n == s@.len(),
            i <= n,
            in_run ==> run <= i,
            first_quantity(s@, 0, -1) == first_quantity(
                s@,
                i as int,
                if in_run { run as int } else { -1 },
            ),
            in_run ==> all_digits_between(s@, run as int, i as int),
            in_run && !big ==> acc == digits_value(s@.subrange(run as int, i as int)),
            in_run && !big ==> acc <= i64::MAX,
            in_run && big ==> digits_value(s@.subrange(run as int, i as int)) > i64::MAX,
        decreases n - i,
    {
        let c = s.get_char(i);
        if '0' <= c && c <= '9' {
            let d: u64 = ((c as u32) - ('0' as u32)) as u64;
            assert(d == digit_value(c));
            let ghost start: int = if in_run { run as int } else { i as int };
            let ghost prev: nat = digits_value(s@.subrange(start, i as int));
            proof {
                let sub = s@.subrange(start, i + 1);
                assert(sub.drop_last() =~= s@.subrange(start, i as int));
                assert(sub.last() == c);
                assert(digits_value(sub) == prev * 10 + d);
                if !in_run {
                    assert(s@.subrange(start, i as int) =~= Seq::<char>::empty());
                }
            }
            if !in_run {
                in_run = true;
                run = i;
                acc = d;
                big = false;
            } else if !big {
                if acc <= (9223372036854775807u64 - d) / 10 {
                    acc = acc * 10 + d;
                } else {
                    proof {
                        assert(prev * 10 + d > i64::MAX) by (nonlinear_arith)
                            requires prev == acc, acc > (9223372036854775807u64 - d) / 10, d <= 9;
                    }
                    big = true;
                }
            } else {
                proof {
                    assert(prev * 10 + d > i64::MAX) by (nonlinear_arith)
                        requires prev > i64::MAX;
                }
            }
            i = i + 1;
        } else if in_run && (c == 'w' || c == 'd' || c == 'h' || c == 'm' || c == 's') {
            let unit = unit_of(c);
            if big {
                proof {
                    assert(digits_value(s@.subrange(run as int, i as int)) * unit_seconds(c)
                        >= digits_value(s@.subrange(run as int, i as int))) by (nonlinear_arith)
                        requires unit_seconds(c) >= 1;
                }
                return Err(TimeCostError::OutOfRange);
            }
            if acc <= 9223372036854775807u64 / unit {
                proof {
                    assert(acc * unit <= i64::MAX) by (nonlinear_arith)
                        requires acc <= 9223372036854775807u64 / unit, unit >= 1;
                }
                return Ok((acc * unit) as i64);
            } else {
                proof {
                    assert(acc * unit > i64::MAX) by (nonlinear_arith)
                        requires acc > 9223372036854775807u64 / unit, unit >= 1;
                }
                return Err(TimeCostError::OutOfRange);
            }
        } else {
            in_run = false;
            i = i + 1;
        }
    }
    Err(TimeCostError::Malformed)
}

/// Whether every character of `s` in `[a, b)` is a decimal digit.
pub open spec fn all_digits_between(s: Seq<char>, a: int, b: int) -> bool {
    forall|k: int| a <= k < b ==> is_digit(#[trigger] s[k])
}

} // verus!
