//! Calendar timestamps with second granularity, and their text form
//! `YYYY-MM-DD HH:MM:SS`.

use crate::text::{
    format_padded, is_digit, is_number, lemma_concat_excludes, lemma_number_excludes, lemma_split_three,
    lemma_split_two, lemma_zero_padded_round_trip, parse_unsigned, read_number, split, split_text,
    texts, zero_padded,
};
use vstd::prelude::*;

verus! {

/// True for the leap years of the proleptic Gregorian calendar.
pub open spec fn is_leap_year(year: int) -> bool {
    year % 4 == 0 && (year % 100 != 0 || year % 400 == 0)
}

/// The number of days of a month, for months 1 to 12.
pub open spec fn days_in_month(year: int, month: int) -> int {
    if month == 2 {
        if is_leap_year(year) {
            29
        } else {
            28
        }
    } else if month == 4 || month == 6 || month == 9 || month == 11 {
        30
    } else {
        31
    }
}

/// True when the month is one of the twelve and the day is one of its days.
pub open spec fn is_calendar_date(year: int, month: int, day: int) -> bool {
    1 <= month <= 12 && 1 <= day <= days_in_month(year, month)
}

/// True for the times of day from 00:00:00 to 23:59:59.
pub open spec fn is_clock_time(hour: int, minute: int, second: int) -> bool {
    0 <= hour < 24 && 0 <= minute < 60 && 0 <= second < 60
}

/// Asks `time::Date::from_calendar_date` whether it accepts the date. For
/// years within four digits and a month from 1 to 12 it does so exactly when
/// the day is one of the days of that month in the proleptic Gregorian
/// calendar. (`time::Month::try_from` turns the number into the month.)
#[verifier::external_body]
fn calendar_date_exists(year: i32, month: u8, day: u8) -> (exists: bool)
    requires
        -9999 <= year <= 9999,
        1 <= month <= 12,
    ensures
        exists == is_calendar_date(year as int, month as int, day as int),
{
    match time::Month::try_from(month) {
        Ok(m) => time::Date::from_calendar_date(year, m, day).is_ok(),
        Err(_) => false,
    }
}

/// Asks `time::Time::from_hms` whether it accepts the time of day, which it
/// does exactly for hours below 24 and minutes and seconds below 60.
#[verifier::external_body]
fn clock_time_exists(hour: u8, minute: u8, second: u8) -> (exists: bool)
    ensures
        exists == is_clock_time(hour as int, minute as int, second as int),
{
    time::Time::from_hms(hour, minute, second).is_ok()
}

/// Asks `time::UtcOffset::current_local_offset` for the offset of local time
/// from UTC, in seconds. Nothing is claimed of the answer: it depends on the
/// machine and the moment, and there may be none.
#[verifier::external_body]
pub(crate) fn local_offset_seconds() -> (offset: Option<i32>) {
    match time::UtcOffset::current_local_offset() {
        Ok(offset) => Some(offset.whole_seconds()),
        Err(_) => None,
    }
}

/// A date and time of day with the offset from UTC, in seconds, in which
/// they are meant.
#[derive(Clone, Copy, Debug, PartialEq, Eq, Structural)]
pub struct Timestamp {
    pub year: i32,
    pub month: u8,
    pub day: u8,
    pub hour: u8,
    pub minute: u8,
    pub second: u8,
    pub offset_seconds: i32,
}

/// The year as its text form has it: four digits at least, and a minus sign
/// before a negative year.
pub open spec fn year_text(year: int) -> Seq<char> {
    if year < 0 {
        seq!['-'] + zero_padded((-year) as nat, 4)
    } else {
        zero_padded(year as nat, 4)
    }
}

/// The date part of the text form: `YYYY-MM-DD`.
pub open spec fn date_text(t: Timestamp) -> Seq<char> {
    year_text(t.year as int) + seq!['-'] + zero_padded(t.month as nat, 2) + seq!['-']
        + zero_padded(t.day as nat, 2)
}

/// The time part of the text form: `HH:MM:SS`.
pub open spec fn clock_text(t: Timestamp) -> Seq<char> {
    zero_padded(t.hour as nat, 2) + seq![':'] + zero_padded(t.minute as nat, 2) + seq![':']
        + zero_padded(t.second as nat, 2)
}

/// The text form of a timestamp. The offset is not part of it.
pub open spec fn stamp_text(t: Timestamp) -> Seq<char> {
    date_text(t) + seq![' '] + clock_text(t)
}

/// The timestamp that a text stands for when read in the given offset: a
/// date of at least three numerals parted by `-`, a space, and a time of at
/// least three numerals parted by `:`, which name an existing day of a year
/// from 0 to 9999 and an existing time of day.
pub open spec fn read_stamp(s: Seq<char>, offset_seconds: i32) -> Option<Timestamp> {
    let halves = split(s, ' ');
    if halves.len() < 2 {
        None
    } else {
        let date = split(halves[0], '-');
        let clock = split(halves[1], ':');
        if date.len() < 3 || clock.len() < 3 {
            None
        } else {
            let year = read_number(date[0], 9999);
            let month = read_number(date[1], 255);
            let day = read_number(date[2], 255);
            let hour = read_number(clock[0], 255);
            let minute = read_number(clock[1], 255);
            let second = read_number(clock[2], 255);
            if year is Some && month is Some && day is Some && hour is Some && minute is Some
                && second is Some && is_calendar_date(
                year->0 as int,
                month->0 as int,
                day->0 as int,
            ) && is_clock_time(hour->0 as int, minute->0 as int, second->0 as int) {
                Some(
                    Timestamp {
                        year: year->0 as i32,
                        month: month->0 as u8,
                        day: day->0 as u8,
                        hour: hour->0 as u8,
                        minute: minute->0 as u8,
                        second: second->0 as u8,
                        offset_seconds,
                    },
                )
            } else {
                None
            }
        }
    }
}

impl Timestamp {
    /// True when the date exists, in a year of at most four digits, and the
    /// time of day exists.
    pub open spec fn is_valid(&self) -> bool {
        &&& -9999 <= self.year <= 9999
        &&& is_calendar_date(self.year as int, self.month as int, self.day as int)
        &&& is_clock_time(self.hour as int, self.minute as int, self.second as int)
    }

    /// The timestamp with these parts, where they name an existing moment.
    pub fn new(
        year: i32,
        month: u8,
        day: u8,
        hour: u8,
        minute: u8,
        second: u8,
        offset_seconds: i32,
    ) -> (made: Option<Timestamp>)
        ensures
            made == if (Timestamp { year, month, day, hour, minute, second, offset_seconds })
                .is_valid() {
                Some(Timestamp { year, month, day, hour, minute, second, offset_seconds })
            } else {
                None
            },
    {
        if year < -9999 || year > 9999 || month < 1 || month > 12 {
            return None;
        }
        if !calendar_date_exists(year, month, day) || !clock_time_exists(hour, minute, second) {
            return None;
        }
        Some(Timestamp { year, month, day, hour, minute, second, offset_seconds })
    }

    /// Writes the timestamp as `YYYY-MM-DD HH:MM:SS`.
    pub fn format(&self) -> (s: String)
        ensures
            s@ == stamp_text(*self),
    {
        let mut s = if self.year < 0 {
            let mut signed = String::from_str("-");
            let digits = format_padded((-(self.year as i64)) as u64, 4);
            signed.append(digits.as_str());
            proof {
                reveal_strlit("-");
                assert(signed@ =~= year_text(self.year as int));
            }
            signed
        } else {
            format_padded(self.year as u64, 4)
        };
        proof {
            reveal_strlit("-");
            reveal_strlit(" ");
            reveal_strlit(":");
        }
        s.append("-");
        let month = format_padded(self.month as u64, 2);
        s.append(month.as_str());
        s.append("-");
        let day = format_padded(self.day as u64, 2);
        s.append(day.as_str());
        assert(s@ =~= date_text(*self));
        s.append(" ");
        let hour = format_padded(self.hour as u64, 2);
        s.append(hour.as_str());
        s.append(":");
        let minute = format_padded(self.minute as u64, 2);
        s.append(minute.as_str());
        s.append(":");
        let second = format_padded(self.second as u64, 2);
        s.append(second.as_str());
        assert(s@ =~= stamp_text(*self));
        s
    }

    /// Reads a timestamp from its text form; the text does not say in which
    /// offset it is meant, so the caller does.
    pub fn parse(s: &str, offset_seconds: i32) -> (read: Option<Timestamp>)
        ensures
            read == read_stamp(s@, offset_seconds),
    {
        let halves = split_text(s, ' ');
        if halves.len() < 2 {
            return None;
        }
        let date = split_text(halves[0].as_str(), '-');
        let clock = split_text(halves[1].as_str(), ':');
        if date.len() < 3 || clock.len() < 3 {
            return None;
        }
        assert(texts(halves@)[0] == halves@[0]@ && texts(halves@)[1] == halves@[1]@);
        assert(texts(date@)[0] == date@[0]@ && texts(date@)[1] == date@[1]@ && texts(date@)[2]
            == date@[2]@);
        assert(texts(clock@)[0] == clock@[0]@ && texts(clock@)[1] == clock@[1]@ && texts(
            clock@,
        )[2] == clock@[2]@);
        let year = parse_unsigned(date[0].as_str(), 9999);
        let month = parse_unsigned(date[1].as_str(), 255);
        let day = parse_unsigned(date[2].as_str(), 255);
        let hour = parse_unsigned(clock[0].as_str(), 255);
        let minute = parse_unsigned(clock[1].as_str(), 255);
        let second = parse_unsigned(clock[2].as_str(), 255);
        match (year, month, day, hour, minute, second) {
            (Some(year), Some(month), Some(day), Some(hour), Some(minute), Some(second)) => {
                Timestamp::new(
                    year as i32,
                    month as u8,
                    day as u8,
                    hour as u8,
                    minute as u8,
                    second as u8,
                    offset_seconds,
                )
            },
            _ => None,
        }
    }

}

/// A text of one character other than `c` does not hold `c`.
proof fn lemma_single_excludes(only: char, c: char)
    requires
        only != c,
    ensures
        !seq![only].contains(c),
{
}

/// A zero-padded numeral holds none of the characters that part the fields
/// of a timestamp or of a ledger.
proof fn lemma_field_is_clean(n: nat, width: nat)
    ensures
        is_number(zero_padded(n, width)),
        read_number(zero_padded(n, width), n) == Some(n),
        !zero_padded(n, width).contains('-'),
        !zero_padded(n, width).contains(':'),
        !zero_padded(n, width).contains(' '),
        !zero_padded(n, width).contains('\t'),
        !zero_padded(n, width).contains('\n'),
{
    lemma_zero_padded_round_trip(n, width);
    lemma_number_excludes(zero_padded(n, width), '-');
    lemma_number_excludes(zero_padded(n, width), ':');
    lemma_number_excludes(zero_padded(n, width), ' ');
    lemma_number_excludes(zero_padded(n, width), '\t');
    lemma_number_excludes(zero_padded(n, width), '\n');
}

/// Three clean fields joined by `joint` hold `c` only if `joint` is `c`.
proof fn lemma_triple_excludes(x: Seq<char>, y: Seq<char>, z: Seq<char>, joint: char, c: char)
    requires
        !x.contains(c),
        !y.contains(c),
        !z.contains(c),
        joint != c,
    ensures
        !(x + seq![joint] + y + seq![joint] + z).contains(c),
{
    lemma_single_excludes(joint, c);
    lemma_concat_excludes(x, seq![joint], c);
    lemma_concat_excludes(x + seq![joint], y, c);
    lemma_concat_excludes(x + seq![joint] + y, seq![joint], c);
    lemma_concat_excludes(x + seq![joint] + y + seq![joint], z, c);
}

/// Reading the text form of an existing moment of a year that is not
/// negative, in the offset of that moment, gives the moment back. The text
/// form holds neither a tab nor a line break.
pub proof fn lemma_stamp_round_trip(t: Timestamp)
    requires
        t.is_valid(),
        t.year >= 0,
    ensures
        read_stamp(stamp_text(t), t.offset_seconds) == Some(t),
        !stamp_text(t).contains('\t'),
        !stamp_text(t).contains('\n'),
{
    let y = zero_padded(t.year as nat, 4);
    let mo = zero_padded(t.month as nat, 2);
    let d = zero_padded(t.day as nat, 2);
    let h = zero_padded(t.hour as nat, 2);
    let mi = zero_padded(t.minute as nat, 2);
    let se = zero_padded(t.second as nat, 2);
    lemma_field_is_clean(t.year as nat, 4);
    lemma_field_is_clean(t.month as nat, 2);
    lemma_field_is_clean(t.day as nat, 2);
    lemma_field_is_clean(t.hour as nat, 2);
    lemma_field_is_clean(t.minute as nat, 2);
    lemma_field_is_clean(t.second as nat, 2);
    let date = date_text(t);
    let clock = clock_text(t);
    assert(date == y + seq!['-'] + mo + seq!['-'] + d);
    assert(clock == h + seq![':'] + mi + seq![':'] + se);
    lemma_triple_excludes(y, mo, d, '-', ' ');
    lemma_triple_excludes(y, mo, d, '-', '\t');
    lemma_triple_excludes(y, mo, d, '-', '\n');
    lemma_triple_excludes(h, mi, se, ':', ' ');
    lemma_triple_excludes(h, mi, se, ':', '\t');
    lemma_triple_excludes(h, mi, se, ':', '\n');
    lemma_split_two(date, clock, ' ');
    lemma_split_three(y, mo, d, '-');
    lemma_split_three(h, mi, se, ':');
    lemma_single_excludes(' ', '\t');
    lemma_single_excludes(' ', '\n');
    lemma_concat_excludes(date, seq![' '], '\t');
    lemma_concat_excludes(date + seq![' '], clock, '\t');
    lemma_concat_excludes(date, seq![' '], '\n');
    lemma_concat_excludes(date + seq![' '], clock, '\n');
    let halves = split(stamp_text(t), ' ');
    assert(halves == seq![date, clock]);
    assert(halves[0] == date && halves[1] == clock);
    assert(split(halves[0], '-') == seq![y, mo, d]);
    assert(split(halves[1], ':') == seq![h, mi, se]);
    assert(read_number(y, 9999) == Some(t.year as nat));
    assert(read_number(mo, 255) == Some(t.month as nat));
    assert(read_number(d, 255) == Some(t.day as nat));
    assert(read_number(h, 255) == Some(t.hour as nat));
    assert(read_number(mi, 255) == Some(t.minute as nat));
    assert(read_number(se, 255) == Some(t.second as nat));
}

/// The text form of a timestamp ends in a digit.
pub proof fn lemma_stamp_ends_in_digit(t: Timestamp)
    ensures
        stamp_text(t).len() > 0,
        is_digit(stamp_text(t).last()),
{
    let seconds = zero_padded(t.second as nat, 2);
    lemma_zero_padded_round_trip(t.second as nat, 2);
    assert(is_digit(seconds[seconds.len() - 1]));
    assert(stamp_text(t).last() == seconds.last());
}

} // verus!
