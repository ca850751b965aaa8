//! Amounts of bytes and spans of time as text.

use crate::clock::unix_seconds_now;
use vstd::prelude::*;
use vstd::string::*;

verus! {

/// The character that stands for the digit `d`.
pub open spec fn digit_char(d: nat) -> char {
    if d == 0 {
        '0'
    } else if d == 1 {
        '1'
    } else if d == 2 {
        '2'
    } else if d == 3 {
        '3'
    } else if d == 4 {
        '4'
    } else if d == 5 {
        '5'
    } else if d == 6 {
        '6'
    } else if d == 7 {
        '7'
    } else if d == 8 {
        '8'
    } else {
        '9'
    }
}

/// The decimal digits of `n`, most significant first, without leading zeros.
pub open spec fn decimal_digits(n: nat) -> Seq<char>
    decreases n,
{
    if n < 10 {
        seq![digit_char(n)]
    } else {
        decimal_digits(n / 10).push(digit_char(n % 10))
    }
}

/// The decimal notation of `i`, with a minus sign where it is negative.
pub open spec fn decimal_text(i: int) -> Seq<char> {
    if i < 0 {
        seq!['-'] + decimal_digits((-i) as nat)
    } else {
        decimal_digits(i as nat)
    }
}

/// The one-character text of the digit `d`.
fn digit_text(d: u8) -> (text: &'static str)
    requires
        d < 10,
    ensures
        text@ == seq![digit_char(d as nat)],
{
    proof {
        reveal_strlit("0");
        reveal_strlit("1");
        reveal_strlit("2");
        reveal_strlit("3");
        reveal_strlit("4");
        reveal_strlit("5");
        reveal_strlit("6");
        reveal_strlit("7");
        reveal_strlit("8");
        reveal_strlit("9");
    }
    let text = if d == 0 {
        "0"
    } else if d == 1 {
        "1"
    } else if d == 2 {
        "2"
    } else if d == 3 {
        "3"
    } else if d == 4 {
        "4"
    } else if d == 5 {
        "5"
    } else if d == 6 {
        "6"
    } else if d == 7 {
        "7"
    } else if d == 8 {
        "8"
    } else {
        "9"
    };
    assert(text@ =~= seq![digit_char(d as nat)]);
    text
}

/// The digits of `n` that `digits` holds from its end backwards, behind
/// those of `rest`.
spec fn digits_so_far(rest: nat, digits: Seq<u8>) -> Seq<char> {
    let head = if rest == 0 {
        Seq::<char>::empty()
    } else {
        decimal_digits(rest)
    };
    head + Seq::new(digits.len(), |i: int| digit_char(digits[digits.len() - 1 - i] as nat))
}

/// Appends the decimal digits of `n` to `out`.
pub fn append_decimal(out: &mut String, n: u128)
    ensures
        final(out)@ == old(out)@ + decimal_digits(n as nat),
{
    let ghost start = out@;
    let mut digits: Vec<u8> = Vec::new();
    digits.push((n % 10) as u8);
    let mut rest: u128 = n / 10;
    assert(digits_so_far(rest as nat, digits@) =~= decimal_digits(n as nat));
    while rest > 0
        invariant
            digits@.len() >= 1,
            forall|i: int| 0 <= i < digits@.len() ==> digits@[i] < 10,
            digits_so_far(rest as nat, digits@) == decimal_digits(n as nat),
        decreases rest,
    {
        let ghost before = digits@;
        digits.push((rest % 10) as u8);
        proof {
            let next = (rest / 10) as nat;
            assert(digits_so_far(next, digits@) =~= digits_so_far(rest as nat, before));
        }
        rest = rest / 10;
    }
    let ghost wanted = decimal_digits(n as nat);
    assert(wanted =~= Seq::new(
        digits@.len(),
        |i: int| digit_char(digits@[digits@.len() - 1 - i] as nat),
    ));
    let mut i: usize = digits.len();
    assert(out@ =~= start + wanted.take(0));
    while i > 0
        invariant
            i <= digits.len(),
            wanted.len() == digits@.len(),
            forall|j: int| 0 <= j < digits@.len() ==> digits@[j] < 10,
            forall|j: int|
                0 <= j < wanted.len() ==> wanted[j] == digit_char(
                    digits@[digits@.len() - 1 - j] as nat,
                ),
            out@ == start + wanted.take(digits@.len() - i),
        decreases i,
    {
        let ghost before = out@;
        out.append(digit_text(digits[i - 1]));
        proof {
            let k = digits@.len() - i;
            assert(wanted.take(k + 1) =~= wanted.take(k).push(wanted[k]));
            assert(out@ =~= start + wanted.take(k + 1));
        }
        i -= 1;
    }
    assert(wanted.take(wanted.len() as int) =~= wanted);
}

/// Appends the decimal notation of `i` to `out`.
pub fn append_signed(out: &mut String, i: i64)
    ensures
        final(out)@ == old(out)@ + decimal_text(i as int),
{
    let ghost start = out@;
    if i < 0 {
        proof {
            reveal_strlit("-");
        }
        out.append("-");
        let magnitude: u128 = (-(i as i128)) as u128;
        append_decimal(out, magnitude);
        assert(out@ =~= start + decimal_text(i as int));
    } else {
        append_decimal(out, i as u128);
    }
}

/// A span of time in days, hours, minutes and seconds. For a span that
/// reaches into the future all four are negative or zero.
#[derive(Clone, Copy, Debug, PartialEq, Eq, Structural)]
pub struct Time {
    pub days: i64,
    pub hours: i32,
    pub minutes: i32,
    pub seconds: i32,
}

/// The number of seconds in a minute.
pub const SECONDS_PER_MINUTE: u128 = 60;

/// The number of seconds in an hour.
pub const SECONDS_PER_HOUR: u128 = 3600;

/// The number of seconds in a day.
pub const SECONDS_PER_DAY: u128 = 86400;

/// A span of `seconds` seconds, none of them negative, split into whole
/// days, the whole hours of what is left, the whole minutes of what is then
/// left, and the seconds left over.
pub open spec fn whole_parts(seconds: int) -> Time {
    Time {
        days: (seconds / 86400) as i64,
        hours: ((seconds % 86400) / 3600) as i32,
        minutes: ((seconds % 3600) / 60) as i32,
        seconds: (seconds % 60) as i32,
    }
}

/// The span of the same length in the other direction.
pub open spec fn reversed(time: Time) -> Time {
    Time {
        days: (-time.days) as i64,
        hours: (-time.hours) as i32,
        minutes: (-time.minutes) as i32,
        seconds: (-time.seconds) as i32,
    }
}

/// The span of `seconds` seconds in days, hours, minutes and seconds. A
/// negative span is split as the positive one of its length and then
/// reversed.
pub open spec fn time_split(seconds: int) -> Time {
    if seconds < 0 {
        reversed(whole_parts(-seconds))
    } else {
        whole_parts(seconds)
    }
}

/// The text of a span of time.
pub open spec fn time_text(time: Time) -> Seq<char> {
    decimal_text(time.days as int) + " days, "@ + decimal_text(time.hours as int) + " hours, "@
        + decimal_text(time.minutes as int) + " minutes, "@ + decimal_text(time.seconds as int)
        + " seconds"@
}

impl Time {
    /// The span as text, such as `3 days, 4 hours, 0 minutes, 12 seconds`.
    pub fn to_text(&self) -> (text: String)
        ensures
            text@ == time_text(*self),
    {
        let mut text = String::new();
        append_signed(&mut text, self.days);
        text.append(" days, ");
        append_signed(&mut text, self.hours as i64);
        text.append(" hours, ");
        append_signed(&mut text, self.minutes as i64);
        text.append(" minutes, ");
        append_signed(&mut text, self.seconds as i64);
        text.append(" seconds");
        assert(text@ =~= time_text(*self));
        text
    }
}

/// The time from the moment `then` to the moment `now`, both in seconds
/// since the epoch.
pub fn elapsed_between(now: i64, then: i64) -> (time: Time)
    ensures
        time == time_split(now - then),
{
    let span: i128 = now as i128 - then as i128;
    let negative = span < 0;
    let magnitude: u128 = if negative {
        (-span) as u128
    } else {
        span as u128
    };
    let days = (magnitude / SECONDS_PER_DAY) as i64;
    let hours = ((magnitude % SECONDS_PER_DAY) / SECONDS_PER_HOUR) as i32;
    let minutes = ((magnitude % SECONDS_PER_HOUR) / SECONDS_PER_MINUTE) as i32;
    let seconds = (magnitude % SECONDS_PER_MINUTE) as i32;
    if negative {
        Time { days: -days, hours: -hours, minutes: -minutes, seconds: -seconds }
    } else {
        Time { days, hours, minutes, seconds }
    }
}

/// The time that has passed since the moment `secs`, in seconds since the
/// epoch, by the clock of this machine.
pub fn time_since_timestamp(secs: i64) -> (time: Time)
    ensures
        exists|now: i64| time == #[trigger] time_split(now - secs),
{
    let now = unix_seconds_now();
    elapsed_between(now, secs)
}

/// Two to the power 52: the weight of a full significand.
pub const SIGNIFICAND_UNIT: u128 = 0x10_0000_0000_0000;

/// The size of a kilobyte, in bytes.
pub const KILOBYTE: u64 = 1_000;

/// The size of a megabyte, in bytes.
pub const MEGABYTE: u64 = 1_000_000;

/// The size of a gigabyte, in bytes.
pub const GIGABYTE: u64 = 1_000_000_000;

/// `num / den` rounded to the nearest whole number, and to the even one of
/// the two where it lies halfway between them.
pub open spec fn nearest_even(num: nat, den: nat) -> nat {
    let floor = num / den;
    let rest = num % den;
    if 2 * rest < den || (2 * rest == den && floor % 2 == 0) {
        floor
    } else {
        floor + 1
    }
}

/// The greatest power of two that is not above `x`, and 1 for 0.
pub open spec fn binade(x: nat) -> nat
    decreases x,
{
    if x < 2 {
        1
    } else {
        2 * binade(x / 2)
    }
}

/// `n` as a binary floating point number with 53 significant bits holds it:
/// the nearest multiple of the spacing that such numbers have at `n`.
pub open spec fn as_binary64(n: nat) -> nat {
    let spacing = binade(n / 0x10_0000_0000_0000);
    nearest_even(n, spacing) * spacing
}

/// Two to the power 52 times the quotient `n / unit` as binary floating
/// point division with 53 significant bits gives it.
pub open spec fn binary64_quotient(n: nat, unit: nat) -> nat {
    let scale = binade(n / unit);
    nearest_even(n * 0x10_0000_0000_0000, unit * scale) * scale
}

/// The number of `unit`s that `bytes` bytes are, in hundredths: the quotient
/// as binary floating point arithmetic gives it, rounded to the nearest
/// hundredth.
pub open spec fn hundredths_of(bytes: nat, unit: nat) -> nat {
    nearest_even(binary64_quotient(as_binary64(bytes), unit) * 100, 0x10_0000_0000_0000)
}

/// A number of hundredths as text with two decimals.
pub open spec fn two_decimals(hundredths: nat) -> Seq<char> {
    decimal_digits(hundredths / 100) + seq!['.', digit_char(hundredths % 100 / 10), digit_char(
        hundredths % 10,
    )]
}

/// An amount of bytes as text: in gigabytes, megabytes or kilobytes with two
/// decimals from the first full unit on, in bytes below that.
pub open spec fn bytes_text(bytes: nat) -> Seq<char> {
    if bytes >= 1_000_000_000 {
        two_decimals(hundredths_of(bytes, 1_000_000_000)) + " GB"@
    } else if bytes >= 1_000_000 {
        two_decimals(hundredths_of(bytes, 1_000_000)) + " MB"@
    } else if bytes >= 1_000 {
        two_decimals(hundredths_of(bytes, 1_000)) + " KB"@
    } else {
        decimal_digits(bytes) + " bytes"@
    }
}

/// `binade` with the doublings made so far carried along.
spec fn binade_from(x: nat, doubled: nat) -> nat
    decreases x,
{
    if x < 2 {
        doubled
    } else {
        binade_from(x / 2, 2 * doubled)
    }
}

proof fn lemma_binade_from(x: nat, doubled: nat)
    ensures
        binade_from(x, doubled) == doubled * binade(x),
        binade_from(x, doubled) >= doubled,
    decreases x,
{
    if x >= 2 {
        lemma_binade_from(x / 2, 2 * doubled);
        lemma_binade_bounds(x / 2);
        assert((2 * doubled) * binade(x / 2) == doubled * (2 * binade(x / 2)))
            by (nonlinear_arith);
        assert(doubled * (2 * binade(x / 2)) >= doubled) by (nonlinear_arith)
            requires
                binade(x / 2) >= 1,
        ;
    } else {
        assert(doubled * 1 == doubled);
    }
}

/// The binade of a number is a power of two at or below it and more than
/// half of it.
pub proof fn lemma_binade_bounds(x: nat)
    ensures
        binade(x) >= 1,
        x >= 1 ==> binade(x) <= x < 2 * binade(x),
    decreases x,
{
    if x >= 2 {
        lemma_binade_bounds(x / 2);
    }
}

/// A rounded quotient is the quotient rounded down, or one more.
pub proof fn lemma_nearest_even_bounds(num: nat, den: nat)
    requires
        den > 0,
    ensures
        num / den <= nearest_even(num, den) <= num / den + 1,
{
}

/// Computes the binade of `x`.
fn binade_of(x: u128) -> (scale: u128)
    ensures
        scale == binade(x as nat),
        scale >= 1,
        x >= 1 ==> scale <= x < 2 * scale,
{
    let mut rest = x;
    let mut scale: u128 = 1;
    proof {
        lemma_binade_from(x as nat, 1);
        lemma_binade_bounds(x as nat);
    }
    while rest >= 2
        invariant
            binade(x as nat) == binade_from(rest as nat, scale as nat),
            binade(x as nat) <= x || x == 0,
            scale >= 1,
        decreases rest,
    {
        proof {
            lemma_binade_from((rest / 2) as nat, (2 * scale) as nat);
        }
        rest = rest / 2;
        scale = scale * 2;
    }
    scale
}

/// Rounds `num / den` to the nearest whole number, halves to the even one.
fn round_nearest_even(num: u128, den: u128) -> (rounded: u128)
    requires
        0 < den <= 0x1_0000_0000_0000_0000_0000,
        num < u128::MAX,
    ensures
        rounded == nearest_even(num as nat, den as nat),
{
    let floor = num / den;
    let rest = num % den;
    if 2 * rest < den || (2 * rest == den && floor % 2 == 0) {
        floor
    } else {
        floor + 1
    }
}

/// The quotient of a number below twice `scale` units stays below two full
/// significands.
proof fn lemma_quotient_fits(n: nat, unit: nat, scale: nat)
    requires
        unit >= 1,
        scale >= 1,
        n / unit < 2 * scale,
    ensures
        (n * 0x10_0000_0000_0000) / (unit * scale) < 0x20_0000_0000_0000,
{
    let part = unit * scale;
    assert(part >= 1) by (nonlinear_arith)
        requires
            unit >= 1,
            scale >= 1,
            part == unit * scale,
    ;
    assert(n < unit * (2 * scale)) by (nonlinear_arith)
        requires
            unit >= 1,
            n / unit < 2 * scale,
    ;
    assert(n * 0x10_0000_0000_0000 < 0x20_0000_0000_0000 * part) by (nonlinear_arith)
        requires
            n < unit * (2 * scale),
            part == unit * scale,
    ;
    assert((n * 0x10_0000_0000_0000) / part < 0x20_0000_0000_0000) by (nonlinear_arith)
        requires
            part >= 1,
            n * 0x10_0000_0000_0000 < 0x20_0000_0000_0000 * part,
    ;
}

/// Computes the hundredths of `unit`s that `bytes` bytes are.
fn hundredths(bytes: u64, unit: u64) -> (hundredths: u128)
    requires
        1 <= unit <= bytes,
    ensures
        hundredths == hundredths_of(bytes as nat, unit as nat),
{
    let bytes = bytes as u128;
    let unit = unit as u128;
    let spacing = binade_of(bytes / SIGNIFICAND_UNIT);
    assert(spacing <= 0x1000) by {
        if bytes / SIGNIFICAND_UNIT >= 1 {
        }
    }
    let steps = round_nearest_even(bytes, spacing);
    proof {
        lemma_nearest_even_bounds(bytes as nat, spacing as nat);
        assert(steps * spacing <= bytes + spacing) by (nonlinear_arith)
            requires
                steps <= bytes / spacing + 1,
                spacing >= 1,
        ;
        assert(steps * spacing >= 0) by (nonlinear_arith)
            requires
                steps >= 0,
                spacing >= 0,
        ;
    }
    let held: u128 = steps * spacing;
    let scale = binade_of(held / unit);
    proof {
        assert(held / unit < 2 * scale);
        assert(held / unit <= held) by (nonlinear_arith)
            requires
                unit >= 1,
                held >= 0,
        ;
        assert(unit * scale <= 0x2_0000_0000_0000_0000) by {
            if held / unit >= 1 {
                assert(unit * scale <= held) by (nonlinear_arith)
                    requires
                        unit >= 1,
                        0 <= scale <= held / unit,
                ;
            } else {
                assert(unit * scale == unit) by (nonlinear_arith)
                    requires
                        scale == 1,
                ;
            }
        }
        assert(unit * scale >= 1) by (nonlinear_arith)
            requires
                unit >= 1,
                scale >= 1,
        ;
        assert(held * SIGNIFICAND_UNIT <= 0x2_0000_0000_0000_0000 * 0x10_0000_0000_0000)
            by (nonlinear_arith)
            requires
                0 <= held <= 0x2_0000_0000_0000_0000,
                SIGNIFICAND_UNIT == 0x10_0000_0000_0000,
        ;
        lemma_quotient_fits(held as nat, unit as nat, scale as nat);
        lemma_nearest_even_bounds(
            (held * SIGNIFICAND_UNIT) as nat,
            (unit * scale) as nat,
        );
    }
    let significand = round_nearest_even(held * SIGNIFICAND_UNIT, unit * scale);
    proof {
        assert(significand <= 0x20_0000_0000_0000);
        assert(scale <= 0x2_0000_0000_0000_0000);
        assert(significand * scale <= 0x20_0000_0000_0000 * 0x2_0000_0000_0000_0000)
            by (nonlinear_arith)
            requires
                significand <= 0x20_0000_0000_0000,
                scale <= 0x2_0000_0000_0000_0000,
                significand >= 0,
                scale >= 0,
        ;
        assert(significand * scale >= 0) by (nonlinear_arith)
            requires
                significand >= 0,
                scale >= 0,
        ;
    }
    let quotient: u128 = significand * scale;
    round_nearest_even(quotient * 100, SIGNIFICAND_UNIT)
}

/// Appends a number of hundredths as text with two decimals.
fn append_two_decimals(out: &mut String, hundredths: u128)
    ensures
        final(out)@ == old(out)@ + two_decimals(hundredths as nat),
{
    let ghost start = out@;
    append_decimal(out, hundredths / 100);
    proof {
        reveal_strlit(".");
    }
    out.append(".");
    out.append(digit_text((hundredths % 100 / 10) as u8));
    out.append(digit_text((hundredths % 10) as u8));
    assert(out@ =~= start + two_decimals(hundredths as nat));
}

/// Formats an amount of bytes for reading: with two decimals in the largest
/// unit that it fills, or as a plain count of bytes below a kilobyte.
pub fn format_bytes(bytes: u64) -> (text: String)
    ensures
        text@ == bytes_text(bytes as nat),
{
    let mut text = String::new();
    if bytes >= GIGABYTE {
        append_two_decimals(&mut text, hundredths(bytes, GIGABYTE));
        text.append(" GB");
    } else if bytes >= MEGABYTE {
        append_two_decimals(&mut text, hundredths(bytes, MEGABYTE));
        text.append(" MB");
    } else if bytes >= KILOBYTE {
        append_two_decimals(&mut text, hundredths(bytes, KILOBYTE));
        text.append(" KB");
    } else {
        append_decimal(&mut text, bytes as u128);
        text.append(" bytes");
    }
    assert(text@ =~= bytes_text(bytes as nat));
    text
}

/// Formats a total of bytes for reading. A total beyond the greatest amount
/// that `format_bytes` takes reads as that amount.
pub fn format_total(bytes: u128) -> (text: String)
    ensures
        text@ == bytes_text(
            if bytes <= u64::MAX {
                bytes as nat
            } else {
                u64::MAX as nat
            },
        ),
{
    if bytes <= u64::MAX as u128 {
        format_bytes(bytes as u64)
    } else {
        format_bytes(u64::MAX)
    }
}

} // verus!
