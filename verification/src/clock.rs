//! When a session was last written to, as its row shows it.

use vstd::prelude::*;
use crate::text::{
    all_digits, concat, concat3, decimal, digits, lemma_a_number_reads_back,
    lemma_padding_keeps_the_number, value_of, zero_pad, zero_padded,
};

verus! {

/// `time::OffsetDateTime`: a date and a time of day with an offset from UTC.
#[verifier::external_type_specification]
#[verifier::external_body]
pub struct ExOffsetDateTime(time::OffsetDateTime);

/// What `time::OffsetDateTime::year` returns.
pub uninterp spec fn year_of(t: time::OffsetDateTime) -> int;

/// The number of the month that `time::OffsetDateTime::month` returns.
pub uninterp spec fn month_of(t: time::OffsetDateTime) -> int;

/// What `time::OffsetDateTime::day` returns.
pub uninterp spec fn day_of(t: time::OffsetDateTime) -> int;

/// What `time::OffsetDateTime::hour` returns.
pub uninterp spec fn hour_of(t: time::OffsetDateTime) -> int;

/// What `time::OffsetDateTime::minute` returns.
pub uninterp spec fn minute_of(t: time::OffsetDateTime) -> int;

/// `time::OffsetDateTime::year`: the year in the stored offset. It has at most
/// six digits.
pub assume_specification[ time::OffsetDateTime::year ](t: time::OffsetDateTime) -> (year: i32)
    ensures
        year == year_of(t),
        -999_999 <= year <= 999_999,
;

/// `time::OffsetDateTime::month`, as the month's number: January is one.
#[verifier::external_body]
fn month_number(t: time::OffsetDateTime) -> (month: u8)
    ensures
        month == month_of(t),
        1 <= month <= 12,
{
    u8::from(t.month())
}

/// `time::OffsetDateTime::day`: the day of the month in the stored offset.
pub assume_specification[ time::OffsetDateTime::day ](t: time::OffsetDateTime) -> (day: u8)
    ensures
        day == day_of(t),
        1 <= day <= 31,
;

/// `time::OffsetDateTime::hour`: the hour in the stored offset.
pub assume_specification[ time::OffsetDateTime::hour ](t: time::OffsetDateTime) -> (hour: u8)
    ensures
        hour == hour_of(t),
        hour < 24,
;

/// `time::OffsetDateTime::minute`: the minute in the stored offset.
pub assume_specification[ time::OffsetDateTime::minute ](t: time::OffsetDateTime) -> (minute: u8)
    ensures
        minute == minute_of(t),
        minute < 60,
;

/// A number in at least `width` characters, its sign counted, with zeros in
/// front of its digits.
pub open spec fn padded(n: int, width: nat) -> Seq<char> {
    if n < 0 && width > 0 {
        "-"@ + zero_padded(digits((-n) as nat), (width - 1) as nat)
    } else if n < 0 {
        "-"@ + digits((-n) as nat)
    } else {
        zero_padded(digits(n as nat), width)
    }
}

/// Write `n` in at least `width` characters.
fn pad(n: i32, width: usize) -> (out: String)
    ensures
        out@ == padded(n as int, width as nat),
{
    if n < 0 {
        let magnitude = decimal((-(n as i64)) as u64);
        if width > 0 {
            concat("-", zero_pad(magnitude.as_str(), width - 1).as_str())
        } else {
            concat("-", magnitude.as_str())
        }
    } else {
        zero_pad(decimal(n as u64).as_str(), width)
    }
}

/// A moment as a row shows it: `YYYY-MM-DD HH:MM`.
pub open spec fn moment_text(year: int, month: int, day: int, hour: int, minute: int) -> Seq<char> {
    padded(year, 4) + "-"@ + padded(month, 2) + "-"@ + padded(day, 2) + " "@ + padded(hour, 2)
        + ":"@ + padded(minute, 2)
}

/// Write a moment as a row shows it.
pub fn format_moment(year: i32, month: u8, day: u8, hour: u8, minute: u8) -> (out: String)
    ensures
        out@ == moment_text(year as int, month as int, day as int, hour as int, minute as int),
{
    let mut out = concat3(pad(year, 4).as_str(), "-", pad(month as i32, 2).as_str());
    out.append("-");
    out.append(pad(day as i32, 2).as_str());
    out.append(" ");
    out.append(pad(hour as i32, 2).as_str());
    out.append(":");
    out.append(pad(minute as i32, 2).as_str());
    out
}

/// What a row shows in place of a moment that is not known.
pub const NO_TIME: &'static str = "--";

/// What a row shows for its session's moment.
pub open spec fn time_text(ts: Option<time::OffsetDateTime>) -> Seq<char> {
    match ts {
        Some(t) => moment_text(year_of(t), month_of(t), day_of(t), hour_of(t), minute_of(t)),
        None => NO_TIME@,
    }
}

/// What a row shows for its session's moment.
pub fn short_time(ts: Option<time::OffsetDateTime>) -> (out: String)
    ensures
        out@ == time_text(ts),
{
    match ts {
        Some(t) => format_moment(t.year(), month_number(t), t.day(), t.hour(), t.minute()),
        None => NO_TIME.to_owned(),
    }
}

/// A moment has always the same width, where the year has four digits.
pub proof fn lemma_moments_line_up(year: int, month: int, day: int, hour: int, minute: int)
    requires
        0 <= year <= 9999,
        1 <= month <= 12,
        1 <= day <= 31,
        0 <= hour < 24,
        0 <= minute < 60,
    ensures
        moment_text(year, month, day, hour, minute).len() == 16,
{
    reveal_strlit("-");
    reveal_strlit(" ");
    reveal_strlit(":");
    reveal_with_fuel(digits, 5);
}

/// A field of a moment has its digits and reads back.
proof fn lemma_a_field_reads_back(n: int, width: nat)
    requires
        0 <= n,
    ensures
        all_digits(padded(n, width)),
        value_of(padded(n, width)) == n,
        padded(n, width).len() >= width,
{
    lemma_a_number_reads_back(n as nat);
    lemma_padding_keeps_the_number(digits(n as nat), width);
}

/// A moment reads back: behind the year stand the month, the day, the hour and the
/// minute, each in two digits at its place, with a dash, a dash, a space and a colon
/// between them.
pub proof fn lemma_a_moment_reads_back(year: int, month: int, day: int, hour: int, minute: int)
    requires
        0 <= year <= 9999,
        1 <= month <= 12,
        1 <= day <= 31,
        0 <= hour < 24,
        0 <= minute < 60,
    ensures
        ({
            let text = moment_text(year, month, day, hour, minute);
            &&& text.len() == 16
            &&& value_of(text.subrange(0, 4)) == year
            &&& text[4] == '-'
            &&& value_of(text.subrange(5, 7)) == month
            &&& text[7] == '-'
            &&& value_of(text.subrange(8, 10)) == day
            &&& text[10] == ' '
            &&& value_of(text.subrange(11, 13)) == hour
            &&& text[13] == ':'
            &&& value_of(text.subrange(14, 16)) == minute
        }),
{
    reveal_strlit("-");
    reveal_strlit(" ");
    reveal_strlit(":");
    let text = moment_text(year, month, day, hour, minute);
    lemma_a_field_reads_back(year, 4);
    lemma_a_field_reads_back(month, 2);
    lemma_a_field_reads_back(day, 2);
    lemma_a_field_reads_back(hour, 2);
    lemma_a_field_reads_back(minute, 2);
    assert(padded(year, 4).len() == 4 && padded(month, 2).len() == 2 && padded(day, 2).len() == 2
        && padded(hour, 2).len() == 2 && padded(minute, 2).len() == 2) by {
        reveal_with_fuel(digits, 5);
    }
    assert(text.subrange(0, 4) =~= padded(year, 4));
    assert(text.subrange(5, 7) =~= padded(month, 2));
    assert(text.subrange(8, 10) =~= padded(day, 2));
    assert(text.subrange(11, 13) =~= padded(hour, 2));
    assert(text.subrange(14, 16) =~= padded(minute, 2));
}

/// A year before the common era reads with a sign, and its digits behind it.
pub proof fn lemma_an_early_year_reads_with_a_sign(year: int)
    requires
        year < 0,
    ensures
        padded(year, 4)[0] == '-',
        value_of(padded(year, 4).skip(1)) == -year,
        padded(year, 4).len() >= 4,
{
    reveal_strlit("-");
    lemma_a_number_reads_back((-year) as nat);
    lemma_padding_keeps_the_number(digits((-year) as nat), 3);
    assert(padded(year, 4).skip(1) =~= zero_padded(digits((-year) as nat), 3));
}

/// A row shows its own session's moment, each field in its place, and says so where it
/// is not known.
pub proof fn lemma_a_row_shows_the_moment_it_was_given(t: time::OffsetDateTime)
    requires
        0 <= year_of(t) <= 9999,
        1 <= month_of(t) <= 12,
        1 <= day_of(t) <= 31,
        0 <= hour_of(t) < 24,
        0 <= minute_of(t) < 60,
    ensures
        ({
            let text = time_text(Some(t));
            &&& value_of(text.subrange(0, 4)) == year_of(t)
            &&& value_of(text.subrange(5, 7)) == month_of(t)
            &&& value_of(text.subrange(8, 10)) == day_of(t)
            &&& value_of(text.subrange(11, 13)) == hour_of(t)
            &&& value_of(text.subrange(14, 16)) == minute_of(t)
            &&& time_text(None) != text
        }),
{
    reveal_strlit("--");
    lemma_a_moment_reads_back(year_of(t), month_of(t), day_of(t), hour_of(t), minute_of(t));
}

} // verus!
