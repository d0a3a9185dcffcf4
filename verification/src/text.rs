//! Texts shown to people: numbers and times of day.
use vstd::prelude::*;

verus! {

/// The character of a decimal digit.
pub open spec fn digit_char(d: nat) -> char
    recommends
        d < 10,
{
    (48 + d) as char
}

/// The decimal digits of `n`, with zeros in front up to `width` digits.
pub open spec fn digits(n: nat, width: nat) -> Seq<char>
    decreases n + width,
{
    if n < 10 && width <= 1 {
        seq![digit_char(n)]
    } else {
        let rest = if width > 0 {
            (width - 1) as nat
        } else {
            0
        };
        digits(n / 10, rest).push(digit_char(n % 10))
    }
}

/// The decimal digits of `n`, without leading zeros.
pub open spec fn decimal(n: nat) -> Seq<char> {
    digits(n, 1)
}

/// Different numbers have different digits.
pub proof fn lemma_decimal_injective(a: nat, b: nat)
    requires
        decimal(a) == decimal(b),
    ensures
        a == b,
{
    lemma_digits_injective(a, b, 1, 1);
}

proof fn lemma_digits_injective(a: nat, b: nat, v: nat, w: nat)
    requires
        v <= 1,
        w <= 1,
        digits(a, v) == digits(b, w),
    ensures
        a == b,
    decreases a + b,
{
    lemma_digits_length(a, v);
    lemma_digits_length(b, w);
    assert(digits(a, v).last() == digit_char(a % 10));
    assert(digits(b, w).last() == digit_char(b % 10));
    assert(a % 10 == b % 10);
    if a >= 10 || b >= 10 {
        if a >= 10 {
            lemma_digits_length(a / 10, 0);
            assert(digits(a, v).drop_last() =~= digits(a / 10, 0));
        }
        if b >= 10 {
            lemma_digits_length(b / 10, 0);
            assert(digits(b, w).drop_last() =~= digits(b / 10, 0));
        }
        assert(a >= 10 && b >= 10);
        lemma_digits_injective(a / 10, b / 10, 0, 0);
    }
}

proof fn lemma_digits_length(n: nat, width: nat)
    ensures
        digits(n, width).len() >= 1,
        n >= 10 ==> digits(n, width).len() >= 2,
        n < 10 && width <= 1 ==> digits(n, width).len() == 1,
    decreases n + width,
{
    if !(n < 10 && width <= 1) {
        let rest = if width > 0 {
            (width - 1) as nat
        } else {
            0
        };
        lemma_digits_length(n / 10, rest);
    }
}

fn digit_text(d: u64) -> (r: &'static str)
    requires
        d < 10,
    ensures
        r@ == seq![digit_char(d as nat)],
{
    proof {
        reveal_strlit("0");
        reveal_strlit("1");
        reveal_strlit("2");
        reveal_strlit("3");
        reveal_strlit("4");
        reveal_strlit("5");
        reveal_strlit("6");
        reveal_strlit("7");
        reveal_strlit("8");
        reveal_strlit("9");
    }
    match d {
        0 => "0",
        1 => "1",
        2 => "2",
        3 => "3",
        4 => "4",
        5 => "5",
        6 => "6",
        7 => "7",
        8 => "8",
        _ => "9",
    }
}

/// Appends the digits of `n`, zero-padded to `width`.
pub fn push_digits(out: &mut String, n: u64, width: u32)
    ensures
        final(out)@ == old(out)@ + digits(n as nat, width as nat),
    decreases n + width,
{
    if n < 10 && width <= 1 {
        out.append(digit_text(n));
    } else {
        let rest: u32 = if width > 0 {
            width - 1
        } else {
            0
        };
        push_digits(out, n / 10, rest);
        out.append(digit_text(n % 10));
        assert(out@ =~= old(out)@ + digits(n as nat, width as nat));
    }
}

/// A time of day as `HH:MM`, from the minutes since midnight.
pub open spec fn clock_text(minutes: nat) -> Seq<char> {
    digits(minutes / 60, 2) + ":"@ + digits(minutes % 60, 2)
}

/// Writes the minutes since midnight as `HH:MM`.
pub fn fmt_average_start_time(minutes: u32) -> (r: String)
    ensures
        r@ == clock_text(minutes as nat),
{
    let mut r = String::new();
    push_digits(&mut r, (minutes / 60) as u64, 2);
    r.append(":");
    push_digits(&mut r, (minutes % 60) as u64, 2);
    assert(r@ =~= clock_text(minutes as nat));
    r
}

/// The number that a text of decimal digits names.
pub open spec fn number_in(text: Seq<char>) -> int {
    text.fold_left(0int, |number: int, digit: char| 10 * number + (digit as int - '0' as int))
}

/// Whether a text holds decimal digits only.
pub open spec fn all_digits(text: Seq<char>) -> bool {
    forall|i: int| 0 <= i < text.len() ==> '0' as int <= #[trigger] text[i] as int <= '9' as int
}

proof fn lemma_number_push(text: Seq<char>, digit: char)
    ensures
        number_in(text.push(digit)) == 10 * number_in(text) + (digit as int - '0' as int),
        number_in(Seq::empty()) == 0,
{
    reveal(Seq::fold_left);
    assert(text.push(digit).drop_last() =~= text);
}

/// The digits written for a number name that number, there are at least as
/// many as asked for, and none in front is zero beyond that.
pub proof fn law_digits_name_the_number(n: nat, width: nat)
    ensures
        all_digits(digits(n, width)),
        number_in(digits(n, width)) == n,
        digits(n, width).len() >= width,
        digits(n, width).len() >= 1,
        digits(n, width).len() > width && digits(n, width).len() > 1 ==> digits(n, width)[0] != '0',
    decreases n + width,
{
    if n < 10 && width <= 1 {
        lemma_number_push(Seq::empty(), digit_char(n));
        assert(digits(n, width) =~= Seq::empty().push(digit_char(n)));
    } else {
        let rest = if width > 0 {
            (width - 1) as nat
        } else {
            0
        };
        law_digits_name_the_number(n / 10, rest);
        lemma_number_push(digits(n / 10, rest), digit_char(n % 10));
        let front = digits(n / 10, rest);
        lemma_digits_length(n / 10, rest);
        assert(digits(n, width)[0] == front[0]);
        if digits(n, width).len() > width && front.len() == 1 {
            assert(n >= 10 && n / 10 < 10 && rest == 0);
            assert(front =~= seq![digit_char(n / 10)]);
        }
    }
}

/// A time of day shows the hours and the minutes past the hour, with two
/// digits each, or more for the hours where they need them.
pub proof fn law_clock_shows_hours_and_minutes(minutes: nat)
    ensures
        ({
            let shown = clock_text(minutes);
            let split = shown.len() - 3;
            &&& split >= 2
            &&& shown[split] == ':'
            &&& all_digits(shown.take(split))
            &&& all_digits(shown.skip(split + 1))
            &&& number_in(shown.take(split)) * 60 + number_in(shown.skip(split + 1)) == minutes
            &&& number_in(shown.skip(split + 1)) < 60
            &&& minutes < 6000 ==> split == 2
        }),
{
    let hours = digits(minutes / 60, 2);
    let rest = digits(minutes % 60, 2);
    let shown = clock_text(minutes);
    law_digits_name_the_number(minutes / 60, 2);
    law_digits_name_the_number(minutes % 60, 2);
    reveal_strlit(":");
    lemma_two_digits(minutes % 60);
    if minutes < 6000 {
        lemma_two_digits(minutes / 60);
    }
    assert(shown.take(shown.len() - 3) =~= hours);
    assert(shown.skip(shown.len() - 2) =~= rest);
}

proof fn lemma_two_digits(n: nat)
    requires
        n < 100,
    ensures
        digits(n, 2).len() == 2,
{
    assert(n / 10 < 10);
    assert(digits(n / 10, 1).len() == 1);
}

} // verus!
