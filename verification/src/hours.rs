//! Lengths in hours, rounded exactly as binary floating point of 53
//! significant bits rounds them.
use vstd::prelude::*;

use crate::text;
use crate::text::push_digits;

verus! {

/// The seconds of an hour.
pub const HOUR: u128 = 3600;

/// 2 to the power 53: an integer below it has at most 53 significant bits.
pub const EXACT: u128 = 9007199254740992;

/// 3600 times half of [`EXACT`]: from here up to twice as much, the 3600th
/// part has 53 significant bits before the point.
pub const FULL: u128 = 16212958658533785600;

/// `n / d`, rounded to the nearest integer, and to the even one of two that
/// are equally near.
pub open spec fn nearest(n: nat, d: nat) -> nat {
    let quotient = n / d;
    let rest = n % d;
    if 2 * rest > d || 2 * rest == d && quotient % 2 == 1 {
        quotient + 1
    } else {
        quotient
    }
}

/// The power of two by which `n` is multiplied so that its 3600th part has
/// 53 significant bits before the point.
pub open spec fn scale(n: nat) -> nat
    decreases 2 * FULL - n,
{
    if n == 0 || n >= FULL {
        1
    } else {
        2 * scale(2 * n)
    }
}

/// The value of the last of the 53 significant bits of `n`.
pub open spec fn last_bit(n: nat) -> nat
    decreases n,
{
    if n < EXACT {
        1
    } else {
        2 * last_bit(n / 2)
    }
}

/// `n`, rounded to 53 significant bits.
pub open spec fn rounded(n: nat) -> nat {
    if n < EXACT {
        n
    } else {
        nearest(n, last_bit(n)) * last_bit(n)
    }
}

/// The hours of `secs` seconds, rounded to 53 significant bits, as a fraction
/// over `scale(rounded(secs))`.
pub open spec fn hours_significand(secs: nat) -> nat {
    nearest(rounded(secs) * scale(rounded(secs)), HOUR as nat)
}

/// The tenths of an hour in `secs` seconds.
pub open spec fn tenths(secs: nat) -> nat {
    nearest(10 * hours_significand(secs), scale(rounded(secs)))
}

/// The hundredths of an hour in `secs` seconds, halves rounded up.
pub open spec fn hundredths(secs: nat) -> nat {
    let unit = scale(rounded(secs));
    (2 * rounded(100 * hours_significand(secs)) + unit) / (2 * unit)
}

/// The hours of `secs` seconds with one decimal place.
pub open spec fn hours_text(secs: nat) -> Seq<char> {
    text::decimal(tenths(secs) / 10) + "."@ + text::decimal(tenths(secs) % 10)
}

/// [`nearest`] is off by half a unit at most.
proof fn lemma_nearest(n: nat, d: nat)
    requires
        d > 0,
    ensures
        2 * n - d <= 2 * (d * nearest(n, d)) <= 2 * n + d,
{
    let quotient = n / d;
    let rest = n % d;
    assert(n == d * quotient + rest && rest < d) by (nonlinear_arith)
        requires
            quotient == n / d,
            rest == n % d,
            d > 0,
    ;
    assert(d * (quotient + 1) == d * quotient + d) by (nonlinear_arith);
}

proof fn lemma_scale(n: nat)
    requires
        n > 0,
    ensures
        n * scale(n) >= FULL,
    decreases 2 * FULL - n,
{
    if n < FULL {
        lemma_scale(2 * n);
        let rest = scale(2 * n);
        assert(n * (2 * rest) == (2 * n) * rest) by (nonlinear_arith);
    } else {
        assert(n * 1 == n);
    }
}

/// Lengths below 2 to the power 53 are shown to the nearest tenth of an hour.
pub proof fn law_tenths_are_nearest(secs: nat)
    requires
        secs < EXACT,
    ensures
        secs - 180 <= 360 * tenths(secs) <= secs + 180,
{
    if secs > 0 {
        let unit = scale(secs);
        let product = secs * unit;
        let significand = hours_significand(secs);
        let count = tenths(secs);
        lemma_scale(secs);
        assert(unit > 1800) by (nonlinear_arith)
            requires
                secs * unit >= FULL,
                FULL == 1800 * EXACT,
                0 < secs < EXACT,
        ;
        lemma_nearest(product, HOUR as nat);
        lemma_nearest(10 * significand, unit);
        let shown = unit * count;
        if 360 * count > secs + 180 {
            assert(360 * shown >= product + 181 * unit) by (nonlinear_arith)
                requires
                    360 * count >= secs + 181,
                    shown == unit * count,
                    product == secs * unit,
            ;
        }
        if 360 * count < secs - 180 {
            assert(360 * shown <= product - 181 * unit) by (nonlinear_arith)
                requires
                    360 * count <= secs - 181,
                    shown == unit * count,
                    product == secs * unit,
            ;
        }
    } else {
        assert(scale(0) == 1);
        assert(rounded(0) * scale(rounded(0)) == 0) by (nonlinear_arith)
            requires
                rounded(0) == 0,
        ;
        assert(hours_significand(0) == nearest(0, HOUR as nat));
        lemma_nearest(0, HOUR as nat);
        assert(tenths(0) == nearest(0, 1));
        lemma_nearest(0, 1);
    }
}

fn nearest_int(n: u128, d: u128) -> (r: u128)
    requires
        0 < d <= u128::MAX / 2,
        n < u128::MAX,
    ensures
        r == nearest(n as nat, d as nat),
        r <= n / d + 1,
{
    let quotient: u128 = n / d;
    let rest: u128 = n % d;
    if 2 * rest > d || 2 * rest == d && quotient % 2 == 1 {
        proof {
            if d == 1 {
                assert(rest == 0);
            }
            assert(quotient <= n) by (nonlinear_arith)
                requires
                    quotient == n / d,
                    d > 0,
            ;
        }
        quotient + 1
    } else {
        quotient
    }
}

fn scale_of(n: u128) -> (r: u128)
    requires
        n < 2 * FULL,
    ensures
        r == scale(n as nat),
        0 < r <= 2 * FULL,
        n * r < 2 * FULL,
    decreases 2 * FULL - n,
{
    if n == 0 || n >= FULL {
        1
    } else {
        let rest: u128 = scale_of(2 * n);
        assert(n * (2 * rest) == (2 * n) * rest && 2 * rest <= (2 * n) * rest) by (nonlinear_arith)
            requires
                n > 0,
        ;
        2 * rest
    }
}

fn last_bit_of(n: u128) -> (r: u128)
    requires
        n <= u64::MAX,
    ensures
        r == last_bit(n as nat),
        0 < r,
        r == 1 || r * EXACT <= 2 * n,
    decreases n,
{
    if n < EXACT {
        1
    } else {
        2 * last_bit_of(n / 2)
    }
}

/// `n`, rounded to 53 significant bits.
fn rounded_int(n: u128) -> (r: u128)
    requires
        n <= u64::MAX,
    ensures
        r == rounded(n as nat),
        r < 2 * FULL,
        r <= 2 * n,
{
    if n < EXACT {
        return n;
    }
    let unit: u128 = last_bit_of(n);
    let count: u128 = nearest_int(n, unit);
    assert(count * unit <= n + unit) by (nonlinear_arith)
        requires
            count <= n / unit + 1,
            unit > 0,
    ;
    count * unit
}

/// The significand of the hours of `secs` seconds, and what it counts.
fn hours_of(secs: u64) -> (r: (u128, u128))
    ensures
        r.0 == hours_significand(secs as nat),
        r.1 == scale(rounded(secs as nat)),
        r.0 <= EXACT + 1,
        0 < r.1 <= 2 * FULL,
{
    let exact: u128 = rounded_int(secs as u128);
    let unit: u128 = scale_of(exact);
    let significand: u128 = nearest_int(exact * unit, HOUR);
    (significand, unit)
}

/// The tenths of an hour in `secs` seconds.
pub fn count_tenths(secs: u64) -> (r: u64)
    ensures
        r == tenths(secs as nat),
{
    let (significand, unit) = hours_of(secs);
    let decimal: u128 = 10 * significand;
    let r: u128 = nearest_int(decimal, unit);
    assert(decimal / unit <= decimal) by (nonlinear_arith)
        requires
            unit > 0,
    ;
    r as u64
}

/// The hundredths of an hour in `secs` seconds, halves rounded up.
pub fn count_hundredths(secs: u64) -> (r: u64)
    ensures
        r == hundredths(secs as nat),
{
    let (significand, unit) = hours_of(secs);
    let scaled: u128 = rounded_int(100 * significand);
    let halves: u128 = 2 * scaled + unit;
    let r: u128 = halves / (2 * unit);
    assert(r <= scaled + 1) by (nonlinear_arith)
        requires
            halves == 2 * scaled + unit,
            r == halves / ((2 * unit) as u128),
            unit > 0,
            2 * unit <= u128::MAX,
    ;
    r as u64
}

/// Appends the hours of `secs` seconds with one decimal place.
pub fn push_hours(out: &mut String, secs: u64)
    ensures
        final(out)@ == old(out)@ + hours_text(secs as nat),
{
    let count: u64 = count_tenths(secs);
    push_digits(out, count / 10, 1);
    out.append(".");
    push_digits(out, count % 10, 1);
    assert(out@ =~= old(out)@ + hours_text(secs as nat));
}

/// The hours of `secs` seconds, as in `1.5h`.
pub fn fmt_hours(secs: u64) -> (r: String)
    ensures
        r@ == hours_text(secs as nat) + "h"@,
{
    let mut r = String::new();
    push_hours(&mut r, secs);
    r.append("h");
    assert(r@ =~= hours_text(secs as nat) + "h"@);
    r
}

/// Hours are written as a whole number, a point, and one digit for the tenths.
pub proof fn law_hours_text_names_the_tenths(secs: nat)
    ensures
        ({
            let shown = hours_text(secs);
            let split = shown.len() - 2;
            &&& split >= 1
            &&& shown[split] == '.'
            &&& text::all_digits(shown.take(split))
            &&& text::all_digits(shown.skip(split + 1))
            &&& 10 * text::number_in(shown.take(split)) + text::number_in(shown.skip(split + 1))
                == tenths(secs)
            &&& split > 1 ==> shown[0] != '0'
        }),
{
    let shown = hours_text(secs);
    let whole = text::decimal(tenths(secs) / 10);
    let rest = text::decimal(tenths(secs) % 10);
    text::law_digits_name_the_number(tenths(secs) / 10, 1);
    text::law_digits_name_the_number(tenths(secs) % 10, 1);
    reveal_strlit(".");
    assert(rest.len() == 1);
    assert(shown.take(shown.len() - 2) =~= whole);
    assert(shown.skip(shown.len() - 1) =~= rest);
}

proof fn lemma_scale_bounds(n: nat)
    requires
        0 < n < 2 * FULL,
    ensures
        n * scale(n) < 2 * FULL,
    decreases 2 * FULL - n,
{
    if n < FULL {
        lemma_scale_bounds(2 * n);
        let rest = scale(2 * n);
        assert(n * (2 * rest) == (2 * n) * rest) by (nonlinear_arith);
    } else {
        assert(n * 1 == n);
    }
}

proof fn lemma_last_bit(n: nat)
    ensures
        last_bit(n) >= 1,
        last_bit(n) == 1 || last_bit(n) * EXACT <= 2 * n,
    decreases n,
{
    if n >= EXACT {
        lemma_last_bit(n / 2);
    }
}

/// Lengths below 2 to the power 51 are given to the nearest hundredth of an hour.
pub proof fn law_hundredths_are_nearest(secs: nat)
    requires
        secs < 2251799813685248,
    ensures
        secs - 18 <= 36 * hundredths(secs) <= secs + 18,
{
    if secs > 0 {
        let unit = scale(secs);
        let product = secs * unit;
        let significand = hours_significand(secs);
        lemma_scale(secs);
        lemma_scale_bounds(secs);
        assert(unit > 7000) by (nonlinear_arith)
            requires
                secs * unit >= FULL,
                FULL == 1800 * EXACT,
                EXACT == 4 * 2251799813685248,
                0 < secs < 2251799813685248,
        ;
        lemma_nearest(product, HOUR as nat);
        assert(significand <= EXACT);
        let exact = 100 * significand;
        let bit = last_bit(exact);
        lemma_last_bit(exact);
        assert(bit <= 200);
        lemma_nearest(exact, bit);
        let close = rounded(exact);
        assert(exact - 100 <= close <= exact + 100) by {
            if exact >= EXACT {
                let count = nearest(exact, bit);
                assert(count * bit == bit * count) by (nonlinear_arith);
            }
        }
        let count = hundredths(secs);
        let halves = 2 * close + unit;
        let shown = unit * count;
        assert(2 * shown <= halves < 2 * shown + 2 * unit) by (nonlinear_arith)
            requires
                count == halves / (2 * unit),
                shown == unit * count,
                unit > 0,
        ;
        assert(product - 1800 <= 36 * exact <= product + 1800);
        if 36 * count > secs + 18 {
            assert(36 * shown >= product + 19 * unit) by (nonlinear_arith)
                requires
                    36 * count >= secs + 19,
                    shown == unit * count,
                    product == secs * unit,
            ;
        }
        if 36 * count < secs - 18 {
            assert(36 * shown <= product - 19 * unit) by (nonlinear_arith)
                requires
                    36 * count <= secs - 19,
                    shown == unit * count,
                    product == secs * unit,
            ;
        }
    } else {
        assert(scale(0) == 1);
        assert(rounded(0) * scale(rounded(0)) == 0) by (nonlinear_arith)
            requires
                rounded(0) == 0,
        ;
        assert(hours_significand(0) == nearest(0, HOUR as nat));
        lemma_nearest(0, HOUR as nat);
        assert(rounded(100 * hours_significand(0)) == 0);
        assert(hundredths(0) == (2 * 0nat + 1nat) / (2 * 1nat));
    }
}

} // verus!
