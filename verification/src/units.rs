//! Sizes, rates and times as shown to the user.
//!
//! Sizes and rates are shown as the decimal rounding of a double-precision
//! quotient, so the roundings of that format are part of the result.

use vstd::prelude::*;
use crate::text;

verus! {

pub const KIB: u64 = 1024;

pub const MIB: u64 = 1_048_576;

pub const GIB: u64 = 1_073_741_824;

pub const TIB: u64 = 1_099_511_627_776;

/// The first whole number above which not every whole number is a
/// double-precision value.
pub const FLOAT_LIMIT: u64 = 9_007_199_254_740_992;

/// `a / b` rounded to the nearest whole number, a tie to the even one.
pub open spec fn round_even(a: nat, b: nat) -> nat {
    let q = a / b;
    let r = a % b;
    if 2 * r > b || (2 * r == b && q % 2 == 1) {
        q + 1
    } else {
        q
    }
}

/// How far apart double-precision values are around `n`.
pub open spec fn float_spacing(n: nat) -> nat
    decreases n,
{
    if n < FLOAT_LIMIT {
        1
    } else {
        2 * float_spacing(n / 2)
    }
}

/// The double-precision value nearest to `n`.
pub open spec fn float_of(n: nat) -> nat {
    round_even(n, float_spacing(n)) * float_spacing(n)
}

/// How far the numerator `x` of `x / d` is below the point from which on the
/// quotient has 53 binary digits before the point.
pub open spec fn digits_missing(x: nat, d: nat) -> nat {
    let enough = 4_503_599_627_370_496 * d;
    if x >= enough {
        0
    } else {
        (enough - x) as nat
    }
}

/// The double-precision quotient of `x` and `d`, over a power of two that is
/// `den` times the one needed: numerator and denominator.
pub open spec fn float_quotient(x: nat, d: nat, den: nat) -> (nat, nat)
    decreases digits_missing(x, d),
{
    if x == 0 || digits_missing(x, d) == 0 {
        (round_even(x, d), den)
    } else {
        float_quotient(2 * x, d, 2 * den)
    }
}

/// `n` units of `unit` bytes with two decimals, then the unit's name.
pub open spec fn sized_text(n: nat, unit: nat, name: Seq<char>) -> Seq<char> {
    let h = round_even(float_of(n) * 100, unit);
    text::decimal(h / 100) + "."@ + text::two_digits(h % 100) + name
}

/// A size in the largest unit, up to GiB, of which it is at least one.
pub open spec fn size_text(n: nat) -> Seq<char> {
    if n >= GIB {
        sized_text(n, GIB as nat, " GiB"@)
    } else if n >= MIB {
        sized_text(n, MIB as nat, " MiB"@)
    } else if n >= KIB {
        sized_text(n, KIB as nat, " KiB"@)
    } else {
        text::decimal(n) + " B"@
    }
}

/// A size in the largest unit, up to TiB, of which it is at least one.
pub open spec fn bytes_text(n: nat) -> Seq<char> {
    if n >= TIB {
        sized_text(n, TIB as nat, " TiB"@)
    } else {
        size_text(n)
    }
}

/// A bit rate: in Mbps with one decimal from one million on, else in kbps.
pub open spec fn bitrate_text(bps: nat) -> Seq<char> {
    if bps >= 1_000_000 {
        let (m, den) = float_quotient(float_of(bps), 1_000_000, 1);
        let t = round_even(m * 10, den);
        text::decimal(t / 10) + "."@ + text::decimal(t % 10) + " Mbps"@
    } else {
        let (m, den) = float_quotient(float_of(bps), 1_000, 1);
        text::decimal(round_even(m, den)) + " kbps"@
    }
}

/// Whether a frame rate is a fraction of two whole numbers that the
/// double-precision format holds, the numerator with a digit to spare.
pub open spec fn is_fraction(s: Seq<char>) -> bool {
    let at = text::next_at(s, '/', 0);
    let n = s.subrange(0, at);
    let d = s.subrange(at + 1, s.len() as int);
    &&& at < s.len()
    &&& text::all_digits(n)
    &&& text::all_digits(d)
    &&& text::value_of(n) < 4_503_599_627_370_496
    &&& text::value_of(d) <= FLOAT_LIMIT
}

/// A frame rate in frames per second with three decimals; one that is no
/// fraction, or whose denominator is zero, as it stands.
pub open spec fn frame_rate_text(s: Seq<char>) -> Seq<char> {
    let at = text::next_at(s, '/', 0);
    let n = text::value_of(s.subrange(0, at));
    let d = text::value_of(s.subrange(at + 1, s.len() as int));
    if at < s.len() && d > 0 {
        let (m, den) = float_quotient(n, d, 1);
        let t = round_even(m * 1000, den);
        text::decimal(t / 1000) + "."@ + text::three_digits(t % 1000) + " fps"@
    } else {
        s
    }
}

/// A number of seconds as `h:mm:ss`, or `m:ss` below one hour.
pub open spec fn duration_text(secs: nat) -> Seq<char> {
    let h = secs / 3600;
    let m = (secs % 3600) / 60;
    let s = secs % 60;
    if h > 0 {
        text::decimal(h) + ":"@ + text::two_digits(m) + ":"@ + text::two_digits(s)
    } else {
        text::decimal(m) + ":"@ + text::two_digits(s)
    }
}

/// The rounded quotient times the divisor is off by at most half the divisor.
pub proof fn law_round_even_is_nearest(a: nat, b: nat)
    requires
        b > 0,
    ensures
        2 * (round_even(a, b) * b - a) <= b,
        2 * (a - round_even(a, b) * b) <= b,
{
    let q = a / b;
    let r = a % b;
    assert(a == q * b + r && r < b) by (nonlinear_arith)
        requires
            b > 0,
            q == a / b,
            r == a % b,
    ;
    assert((q + 1) * b == q * b + b) by (nonlinear_arith);
}

fn rounded(a: u128, b: u128) -> (r: u128)
    requires
        b > 0,
    ensures
        r == round_even(a as nat, b as nat),
{
    let q: u128 = a / b;
    let rest: u128 = a % b;
    if rest > b - rest || (rest == b - rest && q % 2 == 1) {
        proof {
            assert(q < u128::MAX) by (nonlinear_arith)
                requires
                    q == a / b,
                    rest == a % b,
                    rest > 0,
                    b > rest,
                    a <= u128::MAX,
            ;
        }
        q + 1
    } else {
        q
    }
}

fn spacing(n: u64) -> (r: u64)
    ensures
        r == float_spacing(n as nat),
        1 <= r,
        r == 1 || r <= n,
    decreases n,
{
    if n < FLOAT_LIMIT {
        1
    } else {
        2 * spacing(n / 2)
    }
}

fn nearest_float(n: u64) -> (r: u128)
    ensures
        r == float_of(n as nat),
        r <= 2 * n,
        n > 0 ==> r > 0,
{
    let step: u64 = spacing(n);
    let k: u128 = rounded(n as u128, step as u128);
    proof {
        law_round_even_is_nearest(n as nat, step as nat);
        if step == 1 {
            assert(k * step == k) by (nonlinear_arith)
                requires
                    step == 1,
            ;
        }
    }
    k * step as u128
}

/// The double-precision quotient of `x` and `d`.
fn quotient(x: u128, d: u128) -> (r: (u128, u128))
    requires
        0 < d <= FLOAT_LIMIT,
        x <= 0x2_0000_0000_0000_0000,
    ensures
        (r.0 as nat, r.1 as nat) == float_quotient(x as nat, d as nat, 1),
        r.0 <= 0x800_0000_0000_0000_0000_0000_0000,
        r.1 > 0,
{
    if x == 0 {
        return (rounded(x, d), 1);
    }
    let enough: u128 = 4_503_599_627_370_496 * d;
    let mut y: u128 = x;
    let mut den: u128 = 1;
    while y < enough
        invariant
            0 < d <= FLOAT_LIMIT,
            enough == 4_503_599_627_370_496 * d,
            0 < y <= 0x400_0000_0000_0000_0000_0000_0000,
            0 < den <= y,
            float_quotient(x as nat, d as nat, 1) == float_quotient(y as nat, d as nat, den as nat),
        decreases digits_missing(y as nat, d as nat),
    {
        y = 2 * y;
        den = 2 * den;
    }
    let m: u128 = rounded(y, d);
    proof {
        law_round_even_is_nearest(y as nat, d as nat);
        assert(m <= m * d) by (nonlinear_arith)
            requires
                d >= 1,
        ;
    }
    (m, den)
}

fn sized(n: u64, unit: u64, name: &str) -> (r: String)
    requires
        unit > 0,
    ensures
        r@ == sized_text(n as nat, unit as nat, name@),
{
    let h: u128 = rounded(nearest_float(n) * 100, unit as u128);
    let whole = text::decimal_string(h / 100);
    let cents = text::two_digit_string((h % 100) as u64);
    let mut r = text::cat3(whole.as_str(), ".", cents.as_str());
    r.append(name);
    r
}

/// A size in the largest unit, up to GiB, of which it is at least one.
pub fn format_size(n: u64) -> (r: String)
    ensures
        r@ == size_text(n as nat),
{
    if n >= GIB {
        sized(n, GIB, " GiB")
    } else if n >= MIB {
        sized(n, MIB, " MiB")
    } else if n >= KIB {
        sized(n, KIB, " KiB")
    } else {
        let digits = text::decimal_string(n as u128);
        text::cat(digits.as_str(), " B")
    }
}

/// A size in the largest unit, up to TiB, of which it is at least one.
pub fn format_bytes(bytes: u64) -> (r: String)
    ensures
        r@ == bytes_text(bytes as nat),
{
    if bytes >= TIB {
        sized(bytes, TIB, " TiB")
    } else {
        format_size(bytes)
    }
}

/// A bit rate in Mbps or kbps.
pub fn format_bitrate(bps: u64) -> (r: String)
    ensures
        r@ == bitrate_text(bps as nat),
{
    let x: u128 = nearest_float(bps);
    if bps >= 1_000_000 {
        let (m, den) = quotient(x, 1_000_000);
        let t: u128 = rounded(m * 10, den);
        let whole = text::decimal_string(t / 10);
        let tenth = text::decimal_string(t % 10);
        let mut r = text::cat3(whole.as_str(), ".", tenth.as_str());
        r.append(" Mbps");
        r
    } else {
        let (m, den) = quotient(x, 1_000);
        let whole = text::decimal_string(rounded(m, den));
        text::cat(whole.as_str(), " kbps")
    }
}

/// A frame rate as ffprobe writes it, in frames per second. There is no answer
/// for a fraction that is not made of whole numbers, or of too large ones.
pub fn format_frame_rate(s: &str) -> (r: Option<String>)
    ensures
        match r {
            Some(t) => (text::next_at(s@, '/', 0) == s@.len() || is_fraction(s@)) && t@
                == frame_rate_text(s@),
            None => text::next_at(s@, '/', 0) < s@.len() && !is_fraction(s@),
        },
{
    let chars = text::chars_of(s);
    let at: usize = text::find_next(&chars, '/', 0);
    if at == chars.len() {
        return Some(s.to_owned());
    }
    let top = text::string_of(&chars, 0, at);
    let bottom = text::string_of(&chars, at + 1, chars.len());
    let n: u64 = match text::parse_digits(top.as_str()) {
        Some(n) => n,
        None => {
            return None;
        },
    };
    let d: u64 = match text::parse_digits(bottom.as_str()) {
        Some(d) => d,
        None => {
            return None;
        },
    };
    if n >= 4_503_599_627_370_496 || d > FLOAT_LIMIT {
        return None;
    }
    if d == 0 {
        return Some(s.to_owned());
    }
    let (m, den) = quotient(n as u128, d as u128);
    let t: u128 = rounded(m * 1000, den);
    let whole = text::decimal_string(t / 1000);
    let rest = text::three_digit_string((t % 1000) as u64);
    let mut r = text::cat3(whole.as_str(), ".", rest.as_str());
    r.append(" fps");
    Some(r)
}

/// A number of seconds as `h:mm:ss`, or `m:ss` below one hour.
pub fn format_duration(secs: u64) -> (r: String)
    ensures
        r@ == duration_text(secs as nat),
{
    let h: u64 = secs / 3600;
    let m: u64 = (secs % 3600) / 60;
    let s: u64 = secs % 60;
    let ss = text::two_digit_string(s);
    if h > 0 {
        let hh = text::decimal_string(h as u128);
        let mm = text::two_digit_string(m);
        let mut r = text::cat3(hh.as_str(), ":", mm.as_str());
        r.append(":");
        r.append(ss.as_str());
        r
    } else {
        let mm = text::decimal_string(m as u128);
        text::cat3(mm.as_str(), ":", ss.as_str())
    }
}

// -------------------------------------------------------------------- laws --

/// Whole numbers below the limit of the format are values of it.
proof fn lemma_exact(n: nat)
    requires
        n < FLOAT_LIMIT,
    ensures
        float_of(n) == n,
{
    assert(float_spacing(n) == 1);
    assert(n / 1 == n && n % 1 == 0);
    assert(round_even(n, 1) == n);
    assert(n * 1 == n);
}

/// How far a double-precision quotient is off.
proof fn lemma_quotient(x: nat, d: nat, den: nat)
    requires
        d > 0,
        den > 0,
    ensures
        ({
            let (m, q) = float_quotient(x, d, den);
            &&& 2 * (m * d * den - x * q) <= d * den
            &&& 2 * (x * q - m * d * den) <= d * den
            &&& x > 0 ==> x * q >= 4_503_599_627_370_496 * d * den
            &&& q > 0
        }),
    decreases digits_missing(x, d),
{
    let (m, q) = float_quotient(x, d, den);
    if x == 0 || digits_missing(x, d) == 0 {
        law_round_even_is_nearest(x, d);
        assert(m == round_even(x, d) && q == den);
        assert(2 * (m * d * den - x * q) <= d * den && 2 * (x * q - m * d * den) <= d * den)
            by (nonlinear_arith)
            requires
                q == den,
                den > 0,
                2 * (m * d - x) <= d,
                2 * (x - m * d) <= d,
        ;
        if x > 0 {
            assert(x * q >= 4_503_599_627_370_496 * d * den) by (nonlinear_arith)
                requires
                    q == den,
                    den > 0,
                    x >= 4_503_599_627_370_496 * d,
            ;
        }
    } else {
        lemma_quotient(2 * x, d, 2 * den);
        assert(2 * (m * d * den - x * q) <= d * den && 2 * (x * q - m * d * den) <= d * den)
            by (nonlinear_arith)
            requires
                2 * (m * d * (2 * den) - (2 * x) * q) <= d * (2 * den),
                2 * ((2 * x) * q - m * d * (2 * den)) <= d * (2 * den),
        ;
        assert(x * q >= 4_503_599_627_370_496 * d * den) by (nonlinear_arith)
            requires
                (2 * x) * q >= 4_503_599_627_370_496 * d * (2 * den),
        ;
    }
}

/// How far a quotient that is shown in parts is off: half a part, and what the
/// format loses.
proof fn lemma_parts(x: nat, d: nat, parts: nat) -> (t: nat)
    requires
        d > 0,
    ensures
        ({
            let (m, q) = float_quotient(x, d, 1);
            &&& t == round_even(m * parts, q)
            &&& q > 0
            &&& 2 * (t * d - parts * x) * q <= d * q + parts * d
            &&& 2 * (parts * x - t * d) * q <= d * q + parts * d
            &&& x > 0 ==> x * q >= 4_503_599_627_370_496 * d
        }),
{
    let (m, q) = float_quotient(x, d, 1);
    lemma_quotient(x, d, 1);
    assert(m * d * 1 == m * d && d * 1 == d && 4_503_599_627_370_496 * d * 1
        == 4_503_599_627_370_496 * d);
    let t = round_even(m * parts, q);
    law_round_even_is_nearest(m * parts, q);
    assert(2 * (t * d - parts * x) * q <= d * q + parts * d && 2 * (parts * x - t * d) * q <= d * q
        + parts * d) by {
        let a = t * q - m * parts;
        let b = m * d - x * q;
        assert((t * d - parts * x) * q == a * d + parts * b) by (nonlinear_arith)
            requires
                a == t * q - m * parts,
                b == m * d - x * q,
        ;
        assert((parts * x - t * d) * q == -(a * d + parts * b)) by (nonlinear_arith)
            requires
                a == t * q - m * parts,
                b == m * d - x * q,
        ;
        assert(2 * a * d <= q * d && -(2 * a * d) <= q * d) by (nonlinear_arith)
            requires
                2 * a <= q,
                -(2 * a) <= q,
                d > 0,
        ;
        assert(2 * parts * b <= parts * d && -(2 * parts * b) <= parts * d) by (nonlinear_arith)
            requires
                2 * b <= d,
                -(2 * b) <= d,
                parts >= 0,
        ;
        assert(q * d == d * q) by (nonlinear_arith);
        assert(2 * (t * d - parts * x) * q == 2 * a * d + 2 * parts * b) by (nonlinear_arith)
            requires
                (t * d - parts * x) * q == a * d + parts * b,
        ;
        assert(2 * (parts * x - t * d) * q == -(2 * a * d) - (2 * parts * b)) by (nonlinear_arith)
            requires
                (parts * x - t * d) * q == -(a * d + parts * b),
        ;
    }
    t
}

/// Whether a text shows `h` hundredths, and a name behind them.
pub open spec fn shows_hundredths(t: Seq<char>, h: nat, name: Seq<char>) -> bool {
    t == text::decimal(h / 100) + "."@ + text::two_digits(h % 100) + name
}

/// Whether a text shows `n` in units of `unit`, to the nearest hundredth.
pub open spec fn shows_size(t: Seq<char>, n: nat, unit: nat, name: Seq<char>) -> bool {
    exists|h: nat| #[trigger]
        shows_hundredths(t, h, name) && 2 * (h * unit - 100 * n) <= unit && 2 * (100 * n - h * unit)
            <= unit
}

proof fn lemma_sized(n: nat, unit: nat, name: Seq<char>)
    requires
        n < FLOAT_LIMIT,
        unit > 0,
    ensures
        shows_size(sized_text(n, unit, name), n, unit, name),
{
    lemma_exact(n);
    let h = round_even(n * 100, unit);
    law_round_even_is_nearest(n * 100, unit);
    assert(shows_hundredths(sized_text(n, unit, name), h, name));
}

/// A size is shown in the largest unit, up to TiB, of which it is at least one, to
/// the nearest hundredth of it; below one KiB in bytes. A unit is 1024 of the one
/// before.
pub proof fn law_sizes_are_shown_to_the_hundredth(n: nat)
    requires
        n < FLOAT_LIMIT,
    ensures
        n < 1024 ==> bytes_text(n) == text::decimal(n) + " B"@,
        1024 <= n < 1_048_576 ==> shows_size(bytes_text(n), n, 1024, " KiB"@),
        1_048_576 <= n < 1_073_741_824 ==> shows_size(bytes_text(n), n, 1_048_576, " MiB"@),
        1_073_741_824 <= n < 1_099_511_627_776 ==> shows_size(
            bytes_text(n),
            n,
            1_073_741_824,
            " GiB"@,
        ),
        1_099_511_627_776 <= n ==> shows_size(bytes_text(n), n, 1_099_511_627_776, " TiB"@),
        n < 1_099_511_627_776 ==> size_text(n) == bytes_text(n),
        1_099_511_627_776 <= n ==> shows_size(size_text(n), n, 1_073_741_824, " GiB"@),
{
    lemma_sized(n, 1024, " KiB"@);
    lemma_sized(n, 1_048_576, " MiB"@);
    lemma_sized(n, 1_073_741_824, " GiB"@);
    lemma_sized(n, 1_099_511_627_776, " TiB"@);
}

/// Whether a text shows `t` tenths of a megabit per second.
pub open spec fn shows_tenths(s: Seq<char>, t: nat) -> bool {
    s == text::decimal(t / 10) + "."@ + text::decimal(t % 10) + " Mbps"@
}

/// Whether a text shows `t` kilobits per second.
pub open spec fn shows_kilobits(s: Seq<char>, t: nat) -> bool {
    s == text::decimal(t) + " kbps"@
}

/// A bit rate is shown in megabits with one decimal from one million on, and else
/// in kilobits: the number that is shown is off by at most half its last place,
/// but for what the format of the quotient loses, ten bits at most.
pub proof fn law_bitrates_are_shown_to_the_last_place(bps: nat) -> (t: nat)
    requires
        bps < FLOAT_LIMIT,
    ensures
        bps >= 1_000_000 ==> shows_tenths(bitrate_text(bps), t) && 2 * (t * 1_000_000 - 10 * bps)
            <= 1_000_020 && 2 * (10 * bps - t * 1_000_000) <= 1_000_020,
        bps < 1_000_000 ==> shows_kilobits(bitrate_text(bps), t) && 2 * (t * 1_000 - bps) <= 1_000
            && 2 * (bps - t * 1_000) <= 1_000,
{
    lemma_exact(bps);
    if bps >= 1_000_000 {
        let t = lemma_parts(bps, 1_000_000, 10);
        let (m, q) = float_quotient(bps, 1_000_000, 1);
        assert(q >= 500_000) by (nonlinear_arith)
            requires
                bps * q >= 4_503_599_627_370_496 * 1_000_000,
                0 < bps < 9_007_199_254_740_992,
        ;
        let a = t * 1_000_000 - 10 * bps;
        assert(2 * a <= 1_000_020 && -(2 * a) <= 1_000_020) by (nonlinear_arith)
            requires
                2 * a * q <= 1_000_000 * q + 10_000_000,
                2 * (-a) * q <= 1_000_000 * q + 10_000_000,
                q >= 500_000,
        ;
        t
    } else {
        let t = lemma_parts(bps, 1_000, 1);
        let (m, q) = float_quotient(bps, 1_000, 1);
        assert(m * 1 == m);
        let a = t * 1_000 - bps;
        if bps > 0 {
            assert(q > 1_000) by (nonlinear_arith)
                requires
                    bps * q >= 4_503_599_627_370_496 * 1_000,
                    0 < bps < 1_000_000,
            ;
            assert(2 * a <= 1_000 && -(2 * a) <= 1_000) by (nonlinear_arith)
                requires
                    2 * a * q <= 1_000 * q + 1_000,
                    2 * (-a) * q <= 1_000 * q + 1_000,
                    q > 1_000,
            ;
        } else {
            assert(round_even(0, 1_000) == 0);
            assert(m == 0 && q == 1);
            assert(t == 0);
        }
        t
    }
}

/// A time is shown as hours, minutes and seconds, minutes and seconds with two
/// digits, and without the hours where there are none.
pub proof fn law_times_are_shown_on_the_clock(h: nat, m: nat, s: nat)
    requires
        m < 60,
        s < 60,
    ensures
        h > 0 ==> duration_text(3600 * h + 60 * m + s) == text::decimal(h) + ":"@
            + text::two_digits(m) + ":"@ + text::two_digits(s),
        duration_text(60 * m + s) == text::decimal(m) + ":"@ + text::two_digits(s),
{
    let n = 3600 * h + 60 * m + s;
    assert(n / 3600 == h && n % 3600 == 60 * m + s) by (nonlinear_arith)
        requires
            n == 3600 * h + 60 * m + s,
            0 <= 60 * m + s < 3600,
    ;
    assert((60 * m + s) / 60 == m && n % 60 == s);
    assert((60 * m + s) / 3600 == 0 && (60 * m + s) % 3600 == 60 * m + s);
}

/// Whether a text shows `t` thousandths of a frame per second.
pub open spec fn shows_thousandths(s: Seq<char>, t: nat) -> bool {
    s == text::decimal(t / 1000) + "."@ + text::three_digits(t % 1000) + " fps"@
}

/// A frame rate that is a fraction is shown in frames per second, to within one
/// thousandth.
pub proof fn law_frame_rates_are_shown_to_the_thousandth(n: nat, d: nat) -> (t: nat)
    requires
        0 < d,
        n <= 4_398_046_511_104 * d,
    ensures
        shows_thousandths(frame_rate_text(text::decimal(n) + "/"@ + text::decimal(d)), t),
        t * d - 1000 * n <= d,
        1000 * n - t * d <= d,
{
    reveal_strlit("/");
    let a = text::decimal(n);
    let b = text::decimal(d);
    let s = a + "/"@ + b;
    text::lemma_decimal_digits(n);
    text::lemma_decimal_digits(d);
    assert forall|k: int| 0 <= k < a.len() implies s[k] != '/' by {
        assert(text::is_digit(a[k]));
        assert(s[k] == a[k]);
    }
    text::lemma_next_at_is(s, '/', 0, a.len() as int);
    assert(s.subrange(0, a.len() as int) =~= a);
    assert(s.subrange(a.len() as int + 1, s.len() as int) =~= b);
    let t = lemma_parts(n, d, 1000);
    let (m, q) = float_quotient(n, d, 1);
    let x = t * d - 1000 * n;
    if n > 0 {
        assert(q >= 1000) by (nonlinear_arith)
            requires
                n * q >= 4_503_599_627_370_496 * d,
                0 < n <= 4_398_046_511_104 * d,
                d > 0,
        ;
        assert(x <= d && -x <= d) by (nonlinear_arith)
            requires
                2 * x * q <= d * q + 1000 * d,
                2 * (-x) * q <= d * q + 1000 * d,
                q >= 1000,
                d > 0,
        ;
    } else {
        assert(round_even(0, d) == 0) by {
            assert(0nat / d == 0 && 0nat % d == 0) by (nonlinear_arith)
                requires
                    d > 0,
            ;
        }
        assert(m == 0 && q == 1);
        assert(t == 0);
        assert(t * d == 0) by (nonlinear_arith)
            requires
                t == 0,
        ;
    }
    t
}

/// Halfway between two whole numbers the even one is taken.
pub proof fn law_ties_go_to_the_even_number(a: nat, b: nat)
    requires
        b > 0,
        2 * (a % b) == b,
    ensures
        round_even(a, b) % 2 == 0,
        round_even(a, b) == a / b || round_even(a, b) == a / b + 1,
{
}

/// The value of the format that is nearest to a whole number is off by at most half
/// the distance of its values there, which doubles with each power of two beyond
/// the limit.
pub proof fn law_float_is_nearest(n: nat)
    ensures
        2 * (float_of(n) - n) <= float_spacing(n),
        2 * (n - float_of(n)) <= float_spacing(n),
        n < 9_007_199_254_740_992 ==> float_of(n) == n,
        n >= 9_007_199_254_740_992 ==> float_spacing(n) == 2 * float_spacing(n / 2),
{
    lemma_spacing_positive(n);
    law_round_even_is_nearest(n, float_spacing(n));
    if n < 9_007_199_254_740_992 {
        lemma_exact(n);
    }
}

proof fn lemma_spacing_positive(n: nat)
    ensures
        float_spacing(n) > 0,
    decreases n,
{
    if n >= FLOAT_LIMIT {
        lemma_spacing_positive(n / 2);
    }
}

} // verus!
