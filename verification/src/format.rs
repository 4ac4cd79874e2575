//! Text of temporal, decimal and binary values.

use vstd::prelude::*;

use arrow_array::types::DecimalType;
use base64::Engine;

use crate::error::RunError;
use crate::model::TimeUnit;
use crate::text::{
    decimal, padded_decimal, push_char, push_padded_decimal, push_signed_decimal, push_str,
    push_zero_padded, repeat, signed_decimal, zero_padded,
};

verus! {

// ---------------------------------------------------------------------------
// Calendar text (chrono)
// ---------------------------------------------------------------------------

pub open spec fn date_pattern() -> Seq<char> {
    "%Y-%m-%d"@
}

pub open spec fn datetime_pattern() -> Seq<char> {
    "%Y-%m-%dT%H:%M:%S"@
}

/// What chrono writes for the UTC instant `seconds` + `nanos` after the Unix
/// epoch with the strftime `pattern`; `None` when chrono has no such instant.
pub uninterp spec fn utc_calendar_text(seconds: i64, nanos: u32, pattern: Seq<char>) -> Option<
    Seq<char>,
>;

/// chrono's `DateTime::<Utc>::from_timestamp(seconds, nanos)`, then
/// `format(pattern).to_string()`. The contract only says that the result is
/// `utc_calendar_text` of the arguments: the calendar arithmetic and the
/// range of instants are chrono's.
#[verifier::external_body]
fn utc_calendar(seconds: i64, nanos: u32, pattern: &str) -> (r: Option<String>)
    requires
        pattern@ == date_pattern() || pattern@ == datetime_pattern(),
    ensures
        match r {
            Some(t) => utc_calendar_text(seconds, nanos, pattern@) == Some(t@),
            None => utc_calendar_text(seconds, nanos, pattern@) is None,
        },
{
    match chrono::DateTime::<chrono::Utc>::from_timestamp(seconds, nanos) {
        Some(dt) => Some(dt.format(pattern).to_string()),
        None => None,
    }
}

/// The calendar date of day `days` after the epoch.
pub open spec fn date32_text(days: i32) -> Option<Seq<char>> {
    utc_calendar_text((days * 86400) as i64, 0, date_pattern())
}

/// The calendar date of millisecond `ms` after the epoch.
pub open spec fn date64_text(ms: i64) -> Option<Seq<char>> {
    utc_calendar_text((ms / 1000) as i64, ((ms % 1000) * 1_000_000) as u32, date_pattern())
}

pub open spec fn out_of_range_text(what: Seq<char>, value: int) -> Seq<char> {
    what + " value `"@ + signed_decimal(value) + "` is out of range"@
}

/// A failure that carries `message`.
pub open spec fn is_unsupported(e: RunError, message: Seq<char>) -> bool {
    e matches RunError::Unsupported(m) && m@ == message
}

fn out_of_range(what: &str, value: i64) -> (e: RunError)
    ensures
        is_unsupported(e, out_of_range_text(what@, value as int)),
{
    let mut m = String::new();
    push_str(&mut m, what);
    push_str(&mut m, " value `");
    push_signed_decimal(&mut m, value);
    push_str(&mut m, "` is out of range");
    RunError::Unsupported(m)
}

/// `YYYY-MM-DD` of a 32-bit date.
pub fn format_date32(days: i32) -> (r: Result<String, RunError>)
    ensures
        match date32_text(days) {
            Some(t) => r matches Ok(s) && s@ == t,
            None => r matches Err(e) && is_unsupported(e, out_of_range_text("date"@, days as int)),
        },
{
    let seconds: i64 = (days as i64) * 86400;
    match utc_calendar(seconds, 0, "%Y-%m-%d") {
        Some(t) => Ok(t),
        None => Err(out_of_range("date", days as i64)),
    }
}

/// `YYYY-MM-DD` of a 64-bit date.
pub fn format_date64(milliseconds: i64) -> (r: Result<String, RunError>)
    ensures
        match date64_text(milliseconds) {
            Some(t) => r matches Ok(s) && s@ == t,
            None => r matches Err(e) && is_unsupported(
                e,
                out_of_range_text("date64"@, milliseconds as int),
            ),
        },
{
    let seconds = milliseconds.checked_div_euclid(1000).unwrap();
    let rest = milliseconds.checked_rem_euclid(1000).unwrap();
    let nanos: u32 = (rest as u32) * 1_000_000;
    match utc_calendar(seconds, nanos, "%Y-%m-%d") {
        Some(t) => Ok(t),
        None => Err(out_of_range("date64", milliseconds)),
    }
}

// ---------------------------------------------------------------------------
// Time of day
// ---------------------------------------------------------------------------

/// Division rounding toward zero, as Rust's `/` on signed integers.
pub open spec fn tdiv(a: int, b: int) -> int {
    if a >= 0 {
        a / b
    } else {
        -((-a) / b)
    }
}

/// The remainder that goes with `tdiv`, as Rust's `%` on signed integers.
pub open spec fn trem(a: int, b: int) -> int {
    if a >= 0 {
        a % b
    } else {
        -((-a) % b)
    }
}

/// How many nanoseconds one `unit` is.
pub open spec fn unit_nanos(unit: TimeUnit) -> i64 {
    match unit {
        TimeUnit::Second => 1_000_000_000,
        TimeUnit::Millisecond => 1_000_000,
        TimeUnit::Microsecond => 1_000,
        TimeUnit::Nanosecond => 1,
    }
}

/// `value` in nanoseconds, wrapping around on overflow.
pub open spec fn time_nanos(value: i64, unit: TimeUnit) -> int {
    vstd::wrapping::i64_specs::wrapping_mul(value, unit_nanos(unit)) as int
}

/// `HH:MM:SS` followed by as many fractional digits as the unit has.
#[verifier::opaque]
pub open spec fn time_text(value: i64, unit: TimeUnit) -> Seq<char> {
    let nanos = time_nanos(value, unit);
    let hours = tdiv(nanos, 3_600_000_000_000);
    let minutes = tdiv(trem(nanos, 3_600_000_000_000), 60_000_000_000);
    let seconds = tdiv(trem(nanos, 60_000_000_000), 1_000_000_000);
    let fraction = trem(nanos, 1_000_000_000);
    let clock = padded_decimal(hours, 2) + seq![':'] + padded_decimal(minutes, 2) + seq![':']
        + padded_decimal(seconds, 2);
    match unit {
        TimeUnit::Second => clock,
        TimeUnit::Millisecond => clock + seq!['.'] + padded_decimal(tdiv(fraction, 1_000_000), 3),
        TimeUnit::Microsecond => clock + seq!['.'] + padded_decimal(tdiv(fraction, 1_000), 6),
        TimeUnit::Nanosecond => clock + seq!['.'] + padded_decimal(fraction, 9),
    }
}

fn nanos_per_unit(unit: TimeUnit) -> (n: i64)
    ensures
        n == unit_nanos(unit),
{
    match unit {
        TimeUnit::Second => 1_000_000_000,
        TimeUnit::Millisecond => 1_000_000,
        TimeUnit::Microsecond => 1_000,
        TimeUnit::Nanosecond => 1,
    }
}

fn div_toward_zero(a: i64, b: i64) -> (q: i64)
    requires
        b > 0,
    ensures
        q == tdiv(a as int, b as int),
{
    a.checked_div(b).unwrap()
}

fn rem_toward_zero(a: i64, b: i64) -> (r: i64)
    requires
        b > 1,
    ensures
        r == trem(a as int, b as int),
{
    a.checked_rem(b).unwrap()
}

/// The time of day `value` in `unit` since midnight.
pub fn format_time(value: i64, unit: TimeUnit) -> (s: String)
    ensures
        s@ == time_text(value, unit),
{
    reveal(time_text);
    let nanos: i64 = value.wrapping_mul(nanos_per_unit(unit));
    assert(nanos as int == time_nanos(value, unit));
    let hours = div_toward_zero(nanos, 3_600_000_000_000);
    let minutes = div_toward_zero(rem_toward_zero(nanos, 3_600_000_000_000), 60_000_000_000);
    let seconds = div_toward_zero(rem_toward_zero(nanos, 60_000_000_000), 1_000_000_000);
    let fraction = rem_toward_zero(nanos, 1_000_000_000);
    let mut s = String::new();
    push_padded_decimal(&mut s, hours, 2);
    push_char(&mut s, ':');
    push_padded_decimal(&mut s, minutes, 2);
    push_char(&mut s, ':');
    push_padded_decimal(&mut s, seconds, 2);
    let ghost clock = s@;
    assert(clock =~= padded_decimal(hours as int, 2) + seq![':'] + padded_decimal(minutes as int, 2)
        + seq![':'] + padded_decimal(seconds as int, 2));
    match unit {
        TimeUnit::Second => {},
        TimeUnit::Millisecond => {
            push_char(&mut s, '.');
            push_padded_decimal(&mut s, div_toward_zero(fraction, 1_000_000), 3);
        },
        TimeUnit::Microsecond => {
            push_char(&mut s, '.');
            push_padded_decimal(&mut s, div_toward_zero(fraction, 1_000), 6);
        },
        TimeUnit::Nanosecond => {
            push_char(&mut s, '.');
            push_padded_decimal(&mut s, fraction, 9);
        },
    }
    s
}

// ---------------------------------------------------------------------------
// Timestamps
// ---------------------------------------------------------------------------

/// How many fractional digits a timestamp in `unit` shows.
pub open spec fn unit_precision(unit: TimeUnit) -> nat {
    match unit {
        TimeUnit::Second => 0,
        TimeUnit::Millisecond => 3,
        TimeUnit::Microsecond => 6,
        TimeUnit::Nanosecond => 9,
    }
}

/// How many `unit`s make one second.
pub open spec fn units_per_second(unit: TimeUnit) -> int {
    match unit {
        TimeUnit::Second => 1,
        TimeUnit::Millisecond => 1_000,
        TimeUnit::Microsecond => 1_000_000,
        TimeUnit::Nanosecond => 1_000_000_000,
    }
}

/// `YYYY-MM-DDTHH:MM:SS`, the fraction of the second in the unit's digits,
/// and `Z` when the column has a time zone.
#[verifier::opaque]
pub open spec fn timestamp_text(value: i64, unit: TimeUnit, utc: bool) -> Option<Seq<char>> {
    let per = units_per_second(unit);
    let seconds = value as int / per;
    let sub = value as int % per;
    let nanos = sub * (1_000_000_000int / per);
    let suffix = if utc {
        seq!['Z']
    } else {
        Seq::empty()
    };
    match utc_calendar_text(seconds as i64, nanos as u32, datetime_pattern()) {
        None => None,
        Some(base) => Some(
            if unit_precision(unit) == 0 {
                base + suffix
            } else {
                base + seq!['.'] + zero_padded(decimal(sub as nat), unit_precision(unit)) + suffix
            },
        ),
    }
}

fn per_second(unit: TimeUnit) -> (n: i64)
    ensures
        n == units_per_second(unit),
{
    match unit {
        TimeUnit::Second => 1,
        TimeUnit::Millisecond => 1_000,
        TimeUnit::Microsecond => 1_000_000,
        TimeUnit::Nanosecond => 1_000_000_000,
    }
}

/// The instant `value` in `unit` since the epoch, in UTC.
pub fn format_timestamp(value: i64, unit: TimeUnit, utc: bool) -> (r: Result<String, RunError>)
    ensures
        match timestamp_text(value, unit, utc) {
            Some(t) => r matches Ok(s) && s@ == t,
            None => r matches Err(e) && is_unsupported(
                e,
                out_of_range_text("timestamp"@, value as int),
            ),
        },
{
    reveal(timestamp_text);
    let per = per_second(unit);
    let seconds = value.checked_div_euclid(per).unwrap();
    let sub = value.checked_rem_euclid(per).unwrap();
    let nanos: u32 = (sub as u32) * ((1_000_000_000 / per) as u32);
    let base = match utc_calendar(seconds, nanos, "%Y-%m-%dT%H:%M:%S") {
        Some(b) => b,
        None => {
            return Err(out_of_range("timestamp", value));
        },
    };
    let ghost b = base@;
    let mut s = base;
    let precision: usize = match unit {
        TimeUnit::Second => 0,
        TimeUnit::Millisecond => 3,
        TimeUnit::Microsecond => 6,
        TimeUnit::Nanosecond => 9,
    };
    if precision > 0 {
        // Scaling the nanoseconds back down gives the sub-second count again.
        let scaled: u32 = nanos / ((1_000_000_000 / per) as u32);
        assert(scaled == sub) by (nonlinear_arith)
            requires
                nanos as int == sub as int * (1_000_000_000int / per as int),
                1_000_000_000int / per as int > 0,
                scaled as int == nanos as int / (1_000_000_000int / per as int),
        ;
        push_char(&mut s, '.');
        push_zero_padded(&mut s, scaled as u64, precision);
    }
    if utc {
        push_char(&mut s, 'Z');
    }
    proof {
        let suffix = if utc {
            seq!['Z']
        } else {
            Seq::<char>::empty()
        };
        if precision == 0 {
            assert(s@ =~= b + suffix);
        } else {
            assert(s@ =~= b + seq!['.'] + zero_padded(decimal(sub as nat), precision as nat) + suffix);
        }
    }
    Ok(s)
}

// ---------------------------------------------------------------------------
// Decimals (arrow)
// ---------------------------------------------------------------------------

/// An unscaled decimal value with `scale` fractional digits, as Arrow writes
/// it: the decimal point `scale` digits from the right with leading zeros as
/// needed, or `-scale` zeros appended when the scale is negative (but never
/// to zero itself).
#[verifier::opaque]
pub open spec fn decimal_text(value: int, scale: int) -> Seq<char> {
    let text = signed_decimal(value);
    let digits = decimal(if value < 0 {
        (-value) as nat
    } else {
        value as nat
    });
    let sign = if value < 0 {
        seq!['-']
    } else {
        Seq::empty()
    };
    if scale == 0 {
        text
    } else if scale < 0 {
        if digits == seq!['0'] {
            text
        } else {
            text + repeat('0', (-scale) as nat)
        }
    } else if digits.len() > scale {
        text.take(text.len() - scale) + seq!['.'] + text.skip(text.len() - scale)
    } else {
        sign + seq!['0', '.'] + repeat('0', (scale - digits.len()) as nat) + digits
    }
}

/// arrow's `Decimal128Type::format_decimal` (what `value_as_string` returns
/// for 32, 64 and 128-bit decimal arrays): claimed to be `decimal_text`,
/// which restates arrow-data's `write_decimal_str`.
#[verifier::external_body]
fn arrow_decimal128_text(value: i128, precision: u8, scale: i8) -> (s: String)
    ensures
        s@ == decimal_text(value as int, scale as int),
{
    arrow_array::types::Decimal128Type::format_decimal(value, precision, scale)
}

/// The value of a 256-bit integer given as its signed high and unsigned low halves.
pub open spec fn wide_value(high: i128, low: u128) -> int {
    high * 0x1_0000_0000_0000_0000_0000_0000_0000_0000 + low
}

/// arrow's `Decimal256Type::format_decimal` of `i256::from_parts(low, high)`:
/// claimed to be `decimal_text` of the 256-bit value.
#[verifier::external_body]
fn arrow_decimal256_text(high: i128, low: u128, precision: u8, scale: i8) -> (s: String)
    ensures
        s@ == decimal_text(wide_value(high, low), scale as int),
{
    arrow_array::types::Decimal256Type::format_decimal(
        arrow_buffer::i256::from_parts(low, high),
        precision,
        scale,
    )
}

/// Text of a decimal of up to 128 bits.
pub fn format_decimal(value: i128, precision: u8, scale: i8) -> (s: String)
    ensures
        s@ == decimal_text(value as int, scale as int),
{
    arrow_decimal128_text(value, precision, scale)
}

/// Text of a 256-bit decimal.
pub fn format_decimal256(high: i128, low: u128, precision: u8, scale: i8) -> (s: String)
    ensures
        s@ == decimal_text(wide_value(high, low), scale as int),
{
    arrow_decimal256_text(high, low, precision, scale)
}

// ---------------------------------------------------------------------------
// Binary (base64)
// ---------------------------------------------------------------------------

/// The character for a 6-bit group in the standard base64 alphabet.
pub open spec fn base64_char(n: int) -> char {
    if n < 26 {
        (65 + n) as char
    } else if n < 52 {
        (97 + n - 26) as char
    } else if n < 62 {
        (48 + n - 52) as char
    } else if n == 62 {
        '+'
    } else {
        '/'
    }
}

/// Standard base64 with `=` padding.
pub open spec fn base64_text(b: Seq<u8>) -> Seq<char>
    decreases b.len(),
{
    if b.len() == 0 {
        Seq::empty()
    } else if b.len() == 1 {
        seq![base64_char(b[0] as int / 4), base64_char((b[0] as int % 4) * 16), '=', '=']
    } else if b.len() == 2 {
        seq![
            base64_char(b[0] as int / 4),
            base64_char((b[0] as int % 4) * 16 + b[1] as int / 16),
            base64_char((b[1] as int % 16) * 4),
            '=',
        ]
    } else {
        seq![
            base64_char(b[0] as int / 4),
            base64_char((b[0] as int % 4) * 16 + b[1] as int / 16),
            base64_char((b[1] as int % 16) * 4 + b[2] as int / 64),
            base64_char(b[2] as int % 64),
        ] + base64_text(b.skip(3))
    }
}

/// base64's `BASE64_STANDARD.encode_string(bytes, out)`: appends the standard,
/// padded base64 text of `bytes`.
#[verifier::external_body]
fn base64_standard_append(out: &mut String, bytes: &[u8])
    ensures
        final(out)@ == old(out)@ + base64_text(bytes@),
{
    base64::prelude::BASE64_STANDARD.encode_string(bytes, out);
}

/// The text of a binary value: `base64:` and the base64 of the bytes.
#[verifier::opaque]
pub open spec fn binary_text(b: Seq<u8>) -> Seq<char> {
    "base64:"@ + base64_text(b)
}

pub fn format_binary(bytes: &[u8]) -> (s: String)
    ensures
        s@ == binary_text(bytes@),
{
    reveal(binary_text);
    let mut s = String::from_str("base64:");
    base64_standard_append(&mut s, bytes);
    s
}

// ---------------------------------------------------------------------------
// Laws of the time of day
// ---------------------------------------------------------------------------

/// Scaling both sides of a division by `k` keeps the quotient and scales the
/// remainder.
proof fn lemma_scaled_div_mod(a: int, m: int, k: int)
    requires
        0 <= a,
        0 < m,
        0 < k,
    ensures
        (a * k) / (m * k) == a / m,
        (a * k) % (m * k) == (a % m) * k,
{
    let q = a / m;
    let r = a % m;
    assert(a == q * m + r && 0 <= r < m) by {
        vstd::arithmetic::div_mod::lemma_fundamental_div_mod(a, m);
    }
    assert(a * k == q * (m * k) + r * k && 0 <= r * k < m * k) by (nonlinear_arith)
        requires
            a == q * m + r,
            0 <= r < m,
            0 < k,
    ;
    vstd::arithmetic::div_mod::lemma_fundamental_div_mod_converse(a * k, m * k, q, r * k);
}

proof fn lemma_small_nanos(v: i64, unit: TimeUnit)
    requires
        0 <= v < 86400 * units_per_second(unit),
    ensures
        time_nanos(v, unit) == v * (1_000_000_000int / units_per_second(unit)),
        unit_nanos(unit) == 1_000_000_000int / units_per_second(unit),
{
    let k = unit_nanos(unit) as int;
    match unit {
        TimeUnit::Second => {
            assert(k == 1_000_000_000);
        },
        TimeUnit::Millisecond => {
            assert(k == 1_000_000);
        },
        TimeUnit::Microsecond => {
            assert(k == 1_000);
        },
        TimeUnit::Nanosecond => {
            assert(k == 1);
        },
    }
    let x = v * k;
    assert(0 <= x < 86400 * 1_000_000_000int);
    vstd::arithmetic::div_mod::lemma_small_mod(x as nat, 0x1_0000_0000_0000_0000nat);
    assert(x % 0x1_0000_0000_0000_0000int == x);
    assert(vstd::wrapping::i64_specs::wrapping_mul(v, unit_nanos(unit)) == x);
}

/// Two digits, zero-padded, of a number below 100.
proof fn lemma_two_digits(n: int)
    requires
        0 <= n < 100,
    ensures
        padded_decimal(n, 2).len() == 2,
{
    reveal_with_fuel(crate::text::pow10, 3);
    crate::text::lemma_decimal_len(n as nat, 2);
    crate::text::lemma_repeat_len('0', (2 - decimal(n as nat).len()) as nat);
}

/// The time of day of `value` units after midnight (within the day) is its
/// hours, minutes and seconds, two digits each, and, for units finer than a
/// second, the count of units within the second, zero-padded to exactly the
/// unit's number of fractional digits (3, 6 or 9).
pub proof fn law_time_of_day(value: i64, unit: TimeUnit)
    requires
        0 <= value < 86400 * units_per_second(unit),
    ensures
        ({
            let per = units_per_second(unit);
            let v = value as int;
            let p = unit_precision(unit);
            &&& time_text(value, unit) == padded_decimal(v / (3600 * per), 2) + seq![':']
                + padded_decimal((v % (3600 * per)) / (60 * per), 2) + seq![':'] + padded_decimal(
                (v % (60 * per)) / per,
                2,
            ) + (if p == 0 {
                Seq::empty()
            } else {
                seq!['.'] + zero_padded(decimal((v % per) as nat), p)
            })
            &&& time_text(value, unit).len() == 8 + (if p == 0 {
                0
            } else {
                1 + p
            })
        }),
{
    reveal(time_text);
    let per = units_per_second(unit);
    let v = value as int;
    let k = 1_000_000_000int / per;
    let p = unit_precision(unit);
    lemma_small_nanos(value, unit);
    assert(per * k == 1_000_000_000);
    let nanos = v * k;
    assert(time_nanos(value, unit) == nanos);
    lemma_scaled_div_mod(v, 3600 * per, k);
    lemma_scaled_div_mod(v, 60 * per, k);
    lemma_scaled_div_mod(v, per, k);
    lemma_scaled_div_mod(v % (3600 * per), 60 * per, k);
    lemma_scaled_div_mod(v % (60 * per), per, k);
    assert((3600 * per) * k == 3_600_000_000_000) by (nonlinear_arith)
        requires
            per * k == 1_000_000_000,
    ;
    assert((60 * per) * k == 60_000_000_000) by (nonlinear_arith)
        requires
            per * k == 1_000_000_000,
    ;
    let hours = v / (3600 * per);
    let minutes = (v % (3600 * per)) / (60 * per);
    let seconds = (v % (60 * per)) / per;
    let within = v % per;
    assert(tdiv(nanos, 3_600_000_000_000) == hours);
    assert(trem(nanos, 3_600_000_000_000) == (v % (3600 * per)) * k);
    assert(tdiv(trem(nanos, 3_600_000_000_000), 60_000_000_000) == minutes);
    assert(trem(nanos, 60_000_000_000) == (v % (60 * per)) * k);
    assert(tdiv(trem(nanos, 60_000_000_000), 1_000_000_000) == seconds);
    assert(trem(nanos, 1_000_000_000) == within * k);
    assert(0 <= hours < 24) by {
        vstd::arithmetic::div_mod::lemma_div_is_ordered(v, 86400 * per - 1, 3600 * per);
        assert((86400 * per - 1) / (3600 * per) == 23) by (nonlinear_arith)
            requires
                per >= 1,
        ;
    }
    assert(0 <= minutes < 60) by (nonlinear_arith)
        requires
            minutes == (v % (3600 * per)) / (60 * per),
            0 <= v % (3600 * per) < 3600 * per,
            per >= 1,
    ;
    assert(0 <= seconds < 60) by (nonlinear_arith)
        requires
            seconds == (v % (60 * per)) / per,
            0 <= v % (60 * per) < 60 * per,
            per >= 1,
    ;
    assert(0 <= within < per);
    lemma_two_digits(hours);
    lemma_two_digits(minutes);
    lemma_two_digits(seconds);
    match unit {
        TimeUnit::Second => {},
        TimeUnit::Millisecond => {
            assert(tdiv(within * k, 1_000_000) == within);
            reveal_with_fuel(crate::text::pow10, 4);
            crate::text::lemma_decimal_len(within as nat, 3);
            crate::text::lemma_repeat_len('0', (3 - decimal(within as nat).len()) as nat);
        },
        TimeUnit::Microsecond => {
            assert(tdiv(within * k, 1_000) == within);
            reveal_with_fuel(crate::text::pow10, 7);
            crate::text::lemma_decimal_len(within as nat, 6);
            crate::text::lemma_repeat_len('0', (6 - decimal(within as nat).len()) as nat);
        },
        TimeUnit::Nanosecond => {
            reveal_with_fuel(crate::text::pow10, 10);
            crate::text::lemma_decimal_len(within as nat, 9);
            crate::text::lemma_repeat_len('0', (9 - decimal(within as nat).len()) as nat);
        },
    }
}

} // verus!
