//! Points in time as text: seconds since 1970, or a date with a time of day and
//! an offset.

use vstd::prelude::*;
use vstd::slice::*;

use crate::text::{
    chars_of, copied, find_char, first_of, is_digit, lemma_first_of, parse_int, parsed_int,
    parts_of, split_at, views,
};

verus! {

pub open spec fn fits(n: int) -> bool {
    i64::MIN <= n <= i64::MAX
}

// ---------------------------------------------------------------------------
// The calendar
// ---------------------------------------------------------------------------
/// The year that starts with March, so that a leap day is its last day.
pub open spec fn march_year(year: int, month: int) -> int {
    if month <= 2 {
        year - 1
    } else {
        year
    }
}

/// The day of a year that starts with March.
pub open spec fn day_of_march_year(month: int, day: int) -> int {
    (153 * (if month > 2 {
        month - 3
    } else {
        month + 9
    }) + 2) / 5 + day - 1
}

/// The days before a year that starts with March, from the start of a cycle of
/// four hundred such years.
pub open spec fn days_before(year_of_era: int) -> int {
    year_of_era * 365 + year_of_era / 4 - year_of_era / 100
}

/// The number of days from the first of January 1970 to a date.
pub open spec fn civil_days(year: int, month: int, day: int) -> int {
    let adjusted = march_year(year, month);
    let era = adjusted / 400;
    era * 146097 + days_before(adjusted - era * 400) + day_of_march_year(month, day) - 719468
}

/// The same number, where the date is one and every step of the way to it fits
/// into 64 bits.
pub open spec fn days_of(year: int, month: int, day: int) -> Option<int> {
    let adjusted = march_year(year, month);
    let era = adjusted / 400;
    let day_of_era = days_before(adjusted - era * 400) + day_of_march_year(month, day);
    if 1 <= month <= 12 && 1 <= day <= 31 && fits(adjusted) && fits(era * 146097) && fits(
        era * 146097 + day_of_era,
    ) && fits(civil_days(year, month, day)) {
        Some(civil_days(year, month, day))
    } else {
        None
    }
}

/// The number of days from the first of January 1970 to a date.
pub fn days_from_civil(year: i64, month: i64, day: i64) -> (days: Option<i64>)
    ensures
        match days {
            Some(d) => days_of(year as int, month as int, day as int) == Some(d as int),
            None => days_of(year as int, month as int, day as int) is None,
        },
{
    if month < 1 || month > 12 || day < 1 || day > 31 {
        return None;
    }
    let adjusted: i64 = if month <= 2 {
        if year == i64::MIN {
            return None;
        }
        year - 1
    } else {
        year
    };
    let era: i64 = if adjusted >= 0 {
        adjusted / 400
    } else {
        let wide: i128 = (adjusted as i128) * -1;
        let up: i128 = (wide + 399) / 400;
        (0 - up) as i64
    };
    proof {
        if adjusted < 0 {
            let wide = -(adjusted as int);
            let up = (wide + 399) / 400;
            assert(up * 400 >= wide && up * 400 <= wide + 399);
            assert(-up == (adjusted as int) / 400);
        }
    }
    let year_of_era: i64 = (adjusted as i128 - era as i128 * 400) as i64;
    proof {
        assert(0 <= year_of_era < 400);
    }
    let month_index: i64 = if month > 2 {
        month - 3
    } else {
        month + 9
    };
    let day_of_year: i64 = (153 * month_index + 2) / 5 + day - 1;
    let day_of_era: i64 = year_of_era * 365 + year_of_era / 4 - year_of_era / 100 + day_of_year;
    let scaled = match era.checked_mul(146097) {
        Some(n) => n,
        None => {
            return None;
        },
    };
    let summed = match scaled.checked_add(day_of_era) {
        Some(n) => n,
        None => {
            return None;
        },
    };
    summed.checked_sub(719468)
}

pub open spec fn is_leap(year: int) -> bool {
    year % 4 == 0 && (year % 100 != 0 || year % 400 == 0)
}

pub open spec fn days_in_month(year: int, month: int) -> int {
    if month == 2 {
        if is_leap(year) {
            29
        } else {
            28
        }
    } else if month == 4 || month == 6 || month == 9 || month == 11 {
        30
    } else {
        31
    }
}

/// The day after the last of a month is the first of the next.
pub proof fn lemma_months_follow_each_other(year: int, month: int)
    requires
        1 <= month <= 12,
    ensures
        month < 12 ==> civil_days(year, month + 1, 1) == civil_days(year, month, 1)
            + days_in_month(year, month),
        month == 12 ==> civil_days(year + 1, 1, 1) == civil_days(year, 12, 1) + 31,
{
    if month == 2 {
        lemma_march_years_follow_each_other(year - 1);
        assert(day_of_march_year(2, 1) == 337);
        assert(day_of_march_year(3, 1) == 0);
    }
}

/// A year that starts with March has 365 days, or 366 where the calendar year in
/// which it ends is a leap year.
proof fn lemma_march_years_follow_each_other(year: int)
    ensures
        ({
            let era = year / 400;
            let next = (year + 1) / 400;
            next * 146097 + days_before(year + 1 - next * 400) == era * 146097 + days_before(
                year - era * 400,
            ) + (if is_leap(year + 1) {
                366int
            } else {
                365int
            })
        }),
{
    let era = year / 400;
    let y = year - era * 400;
    assert(0 <= y < 400);
    lemma_leap_within_era(era, y + 1);
    assert(era * 400 + (y + 1) == year + 1);
    if y == 399 {
        assert((year + 1) / 400 == era + 1);
        assert(year + 1 - (era + 1) * 400 == 0);
        assert(days_before(399) == 146097 - 366);
        assert(days_before(0) == 0);
        assert(is_leap(400));
    } else {
        assert((year + 1) / 400 == era);
        lemma_days_before_step(y);
    }
}

/// Leap years come again after four hundred years.
proof fn lemma_leap_within_era(era: int, y: int)
    ensures
        is_leap(era * 400 + y) == is_leap(y),
{
    vstd::arithmetic::div_mod::lemma_mod_multiples_vanish(era * 100, y, 4);
    vstd::arithmetic::div_mod::lemma_mod_multiples_vanish(era * 4, y, 100);
    vstd::arithmetic::div_mod::lemma_mod_multiples_vanish(era, y, 400);
    assert(4 * (era * 100) + y == era * 400 + y);
    assert(100 * (era * 4) + y == era * 400 + y);
    assert(400 * era + y == era * 400 + y);
}

proof fn lemma_days_before_step(y: int)
    requires
        0 <= y < 399,
    ensures
        days_before(y + 1) == days_before(y) + (if is_leap(y + 1) {
            366int
        } else {
            365int
        }),
{
    assert((y + 1) / 4 == y / 4 + (if (y + 1) % 4 == 0 {
        1int
    } else {
        0int
    }));
    assert((y + 1) / 100 == y / 100 + (if (y + 1) % 100 == 0 {
        1int
    } else {
        0int
    }));
    assert((y + 1) % 400 == y + 1);
    if (y + 1) % 100 == 0 {
        assert((y + 1) % 4 == 0);
    }
}

// ---------------------------------------------------------------------------
// Dates with a time of day
// ---------------------------------------------------------------------------
/// The position of the last sign, if there is one.
pub open spec fn last_sign(s: Seq<char>) -> Option<int>
    decreases s.len(),
{
    if s.len() == 0 {
        None
    } else if s.last() == '+' || s.last() == '-' {
        Some(s.len() - 1)
    } else {
        last_sign(s.drop_last())
    }
}

/// The seconds of an offset: hours and minutes behind a sign.
pub open spec fn offset_of(zone: Seq<char>) -> Option<int> {
    let parts = parts_of(zone.drop_first(), ':');
    let hours = parsed_int(parts[0]);
    let minutes = parsed_int(parts[1]);
    if parts.len() == 2 && hours is Some && minutes is Some && hours->0 <= 23 && minutes->0 <= 59 {
        let seconds = hours->0 * 3600 + minutes->0 * 60;
        Some(
            if zone[0] == '-' {
                -seconds
            } else {
                seconds
            },
        )
    } else {
        None
    }
}

/// The time of day and the offset behind it; a `Z` stands for no offset.
pub open spec fn clock_and_offset(s: Seq<char>) -> Option<(Seq<char>, int)> {
    if s.len() > 0 && s.last() == 'Z' {
        Some((s.drop_last(), 0))
    } else {
        match last_sign(s) {
            Some(at) => match offset_of(s.skip(at)) {
                Some(seconds) => Some((s.take(at), seconds)),
                None => None,
            },
            None => None,
        }
    }
}

/// The seconds of a time of day; a fraction of a second is left out.
pub open spec fn clock_seconds(clock: Seq<char>) -> Option<int> {
    let parts = parts_of(clock.take(first_of(clock, '.')), ':');
    let hour = parsed_int(parts[0]);
    let minute = parsed_int(parts[1]);
    let second = parsed_int(parts[2]);
    if parts.len() == 3 && hour is Some && minute is Some && second is Some && hour->0 <= 23
        && minute->0 <= 59 && second->0 <= 60 {
        Some(hour->0 * 3600 + minute->0 * 60 + second->0)
    } else {
        None
    }
}

/// The day of a date.
pub open spec fn date_days(date: Seq<char>) -> Option<int> {
    let parts = parts_of(date, '-');
    let year = parsed_int(parts[0]);
    let month = parsed_int(parts[1]);
    let day = parsed_int(parts[2]);
    if parts.len() == 3 && year is Some && month is Some && day is Some {
        days_of(year->0, month->0, day->0)
    } else {
        None
    }
}

/// The point in time that a day, a time of day and an offset give, where every
/// step of the way to it fits into 64 bits.
pub open spec fn instant_from(days: int, seconds: int, offset: int) -> Option<int> {
    let start = days * 86400;
    let local = start + seconds;
    if fits(start) && fits(local) && fits(local - offset) {
        Some(local - offset)
    } else {
        None
    }
}

/// The point in time that a date with a time of day stands for.
pub open spec fn dated_instant(s: Seq<char>) -> Option<int> {
    let at = first_of(s, 'T');
    if at < s.len() {
        match (date_days(s.take(at)), clock_and_offset(s.skip(at + 1))) {
            (Some(days), Some((clock, offset))) => match clock_seconds(clock) {
                Some(seconds) => instant_from(days, seconds, offset),
                None => None,
            },
            _ => None,
        }
    } else {
        None
    }
}

/// The point in time that a text stands for, in seconds since 1970.
pub open spec fn instant_of(s: Seq<char>) -> Option<int> {
    match parsed_int(s) {
        Some(seconds) => Some(seconds),
        None => dated_instant(s),
    }
}

fn find_last_sign(s: &[char]) -> (at: Option<usize>)
    ensures
        match at {
            Some(i) => last_sign(s@) == Some(i as int) && i < s@.len(),
            None => last_sign(s@) is None,
        },
{
    let mut end: usize = s.len();
    proof {
        assert(s@.take(s@.len() as int) =~= s@);
    }
    while end > 0
        invariant
            end <= s@.len(),
            s.len() == s@.len(),
            last_sign(s@) == last_sign(s@.take(end as int)),
        decreases end,
    {
        proof {
            assert(s@.take(end as int).last() == s@[end - 1]);
            assert(s@.take(end as int).drop_last() =~= s@.take(end - 1));
        }
        if s[end - 1] == '+' || s[end - 1] == '-' {
            return Some(end - 1);
        }
        end = end - 1;
    }
    None
}

fn part_int(parts: &Vec<Vec<char>>, at: usize) -> (n: Option<i64>)
    requires
        at < parts@.len(),
    ensures
        match n {
            Some(v) => parsed_int(views(parts@)[at as int]) == Some(v as int),
            None => parsed_int(views(parts@)[at as int]) is None,
        },
{
    parse_int(parts[at].as_slice())
}

fn read_offset(zone: &[char]) -> (seconds: Option<i128>)
    requires
        zone@.len() > 0,
    ensures
        match seconds {
            Some(n) => offset_of(zone@) == Some(n as int) && -0x1_0000_0000_0000_0000_0000 < n
                < 0x1_0000_0000_0000_0000_0000,
            None => offset_of(zone@) is None,
        },
{
    let digits = slice_subrange(zone, 1, zone.len());
    proof {
        assert(digits@ =~= zone@.drop_first());
    }
    let parts = split_at(digits, ':');
    if parts.len() != 2 {
        return None;
    }
    let hours = match part_int(&parts, 0) {
        Some(n) => n,
        None => {
            return None;
        },
    };
    let minutes = match part_int(&parts, 1) {
        Some(n) => n,
        None => {
            return None;
        },
    };
    if hours > 23 || minutes > 59 {
        return None;
    }
    let seconds: i128 = hours as i128 * 3600 + minutes as i128 * 60;
    if zone[0] == '-' {
        Some(0 - seconds)
    } else {
        Some(seconds)
    }
}

fn read_clock(clock: &[char]) -> (seconds: Option<i128>)
    ensures
        match seconds {
            Some(n) => clock_seconds(clock@) == Some(n as int) && -0x1_0000_0000_0000_0000_0000 < n
                < 0x1_0000_0000_0000_0000_0000,
            None => clock_seconds(clock@) is None,
        },
{
    let dot = find_char(clock, '.');
    let whole = slice_subrange(clock, 0, dot);
    proof {
        assert(whole@ =~= clock@.take(first_of(clock@, '.')));
    }
    let parts = split_at(whole, ':');
    if parts.len() != 3 {
        return None;
    }
    let hour = part_int(&parts, 0);
    let minute = part_int(&parts, 1);
    let second = part_int(&parts, 2);
    match (hour, minute, second) {
        (Some(h), Some(m), Some(s)) => {
            if h > 23 || m > 59 || s > 60 {
                return None;
            }
            Some(h as i128 * 3600 + m as i128 * 60 + s as i128)
        },
        _ => None,
    }
}

fn read_date(date: &[char]) -> (days: Option<i64>)
    ensures
        match days {
            Some(n) => date_days(date@) == Some(n as int),
            None => date_days(date@) is None,
        },
{
    let parts = split_at(date, '-');
    if parts.len() != 3 {
        return None;
    }
    let year = part_int(&parts, 0);
    let month = part_int(&parts, 1);
    let day = part_int(&parts, 2);
    match (year, month, day) {
        (Some(y), Some(m), Some(d)) => days_from_civil(y, m, d),
        _ => None,
    }
}

fn parse_rfc3339(value: &[char]) -> (instant: Option<i64>)
    ensures
        match instant {
            Some(n) => dated_instant(value@) == Some(n as int),
            None => dated_instant(value@) is None,
        },
{
    let at = find_char(value, 'T');
    if at == value.len() {
        return None;
    }
    let date = slice_subrange(value, 0, at);
    let rest = slice_subrange(value, at + 1, value.len());
    proof {
        assert(date@ =~= value@.take(at as int));
        assert(rest@ =~= value@.skip(at + 1));
    }
    let (clock, offset): (Vec<char>, i128) = if rest.len() > 0 && rest[rest.len() - 1] == 'Z' {
        let clock = copied(slice_subrange(rest, 0, rest.len() - 1));
        proof {
            assert(clock@ =~= rest@.drop_last());
        }
        (clock, 0)
    } else {
        match find_last_sign(rest) {
            Some(sign) => {
                let zone = slice_subrange(rest, sign, rest.len());
                let clock = copied(slice_subrange(rest, 0, sign));
                proof {
                    assert(zone@ =~= rest@.skip(sign as int));
                    assert(clock@ =~= rest@.take(sign as int));
                }
                match read_offset(zone) {
                    Some(seconds) => (clock, seconds),
                    None => {
                        return None;
                    },
                }
            },
            None => {
                return None;
            },
        }
    };
    let seconds = match read_clock(clock.as_slice()) {
        Some(n) => n,
        None => {
            return None;
        },
    };
    let days = match read_date(date) {
        Some(n) => n,
        None => {
            return None;
        },
    };
    let start: i128 = days as i128 * 86400;
    let local: i128 = start + seconds;
    let instant: i128 = local - offset;
    let low: i128 = i64::MIN as i128;
    let high: i128 = i64::MAX as i128;
    if start < low || start > high || local < low || local > high || instant < low || instant > high {
        None
    } else {
        Some(instant as i64)
    }
}

/// Reads a point in time: seconds since 1970, or a date with a time of day and
/// an offset.
pub fn parse_timestamp(value: &str) -> (instant: Option<i64>)
    ensures
        match instant {
            Some(n) => instant_of(value@) == Some(n as int),
            None => instant_of(value@) is None,
        },
{
    let chars = chars_of(value);
    match parse_int(chars.as_slice()) {
        Some(seconds) => Some(seconds),
        None => parse_rfc3339(chars.as_slice()),
    }
}

/// Seconds since 1970 in decimal are read back as they are.
pub proof fn lemma_seconds_read_back(seconds: int)
    requires
        fits(seconds),
    ensures
        instant_of(crate::text::decimal(seconds)) == Some(seconds),
{
    crate::text::lemma_decimal_reads_back(seconds);
}

/// Days are counted from the start of 1970, one by one within a month.
pub proof fn lemma_days_are_counted(year: int, month: int, day: int)
    ensures
        civil_days(1970, 1, 1) == 0,
        civil_days(year, month, day) == civil_days(year, month, 1) + day - 1,
        0 <= year <= 9999 && 1 <= month <= 12 && 1 <= day <= 31 ==> days_of(year, month, day)
            == Some(civil_days(year, month, day)),
        month < 1 || month > 12 || day < 1 || day > 31 ==> days_of(year, month, day) is None,
{
}

/// Three parts that do not hold the character between them are read back.
proof fn lemma_three_parts(a: Seq<char>, b: Seq<char>, d: Seq<char>, c: char)
    requires
        !a.contains(c),
        !b.contains(c),
        !d.contains(c),
    ensures
        parts_of(a + seq![c] + b + seq![c] + d, c) == seq![a, b, d],
{
    let s = a + seq![c] + b + seq![c] + d;
    let t = b + seq![c] + d;
    lemma_first_of(s, c, a.len() as int);
    assert(s.skip(a.len() as int + 1) =~= t);
    assert(s.take(a.len() as int) =~= a);
    lemma_two_parts(b, d, c);
    assert(seq![a] + seq![b, d] =~= seq![a, b, d]);
}

proof fn lemma_two_parts(b: Seq<char>, d: Seq<char>, c: char)
    requires
        !b.contains(c),
        !d.contains(c),
    ensures
        parts_of(b + seq![c] + d, c) == seq![b, d],
{
    let t = b + seq![c] + d;
    lemma_first_of(t, c, b.len() as int);
    assert(t.skip(b.len() as int + 1) =~= d);
    assert(t.take(b.len() as int) =~= b);
    lemma_first_of(d, c, d.len() as int);
    assert(parts_of(d, c) == seq![d]);
    assert(seq![b] + seq![d] =~= seq![b, d]);
}

/// A clock is hours, minutes and seconds between colons. Fractions of a second
/// are passed over.
pub proof fn lemma_clock_is_read(
    hour: Seq<char>,
    minute: Seq<char>,
    second: Seq<char>,
    fraction: Seq<char>,
)
    requires
        !hour.contains(':') && !hour.contains('.'),
        !minute.contains(':') && !minute.contains('.'),
        !second.contains(':') && !second.contains('.'),
        fraction.len() == 0 || fraction[0] == '.',
    ensures
        ({
            let h = parsed_int(hour);
            let m = parsed_int(minute);
            let s = parsed_int(second);
            clock_seconds(hour + seq![':'] + minute + seq![':'] + second + fraction) == if h is Some
                && m is Some && s is Some && h->0 <= 23 && m->0 <= 59 && s->0 <= 60 {
                Some(3600 * h->0 + 60 * m->0 + s->0)
            } else {
                None
            }
        }),
{
    let clock = hour + seq![':'] + minute + seq![':'] + second;
    let whole = clock + fraction;
    assert forall|i: int| 0 <= i < clock.len() implies whole[i] != '.' by {
        assert(whole[i] == clock[i]);
        if i < hour.len() {
            assert(clock[i] == hour[i]);
            assert(hour.contains(hour[i]));
        } else if i == hour.len() {
            assert(clock[i] == ':');
        } else if i < hour.len() + 1 + minute.len() {
            assert(clock[i] == minute[i - hour.len() - 1]);
            assert(minute.contains(minute[i - hour.len() - 1]));
        } else if i == hour.len() + 1 + minute.len() {
            assert(clock[i] == ':');
        } else {
            assert(clock[i] == second[i - hour.len() - 2 - minute.len()]);
            assert(second.contains(second[i - hour.len() - 2 - minute.len()]));
        }
    }
    lemma_first_of(whole, '.', clock.len() as int);
    assert(whole.take(clock.len() as int) =~= clock);
    lemma_three_parts(hour, minute, second, ':');
}

/// A date, a clock and a zone give one moment: the days since 1970, the seconds
/// of the day, less what the zone is ahead.
pub proof fn lemma_date_and_clock_give_the_moment(
    date: Seq<char>,
    days: int,
    clock: Seq<char>,
    seconds: int,
    zone: Seq<char>,
    offset: int,
)
    requires
        !date.contains('T'),
        date.len() > 1,
        date_days(date) == Some(days),
        clock_seconds(clock) == Some(seconds),
        -1_000_000_000 <= days <= 1_000_000_000,
        -1_000_000_000 <= seconds <= 1_000_000_000,
        -1_000_000_000 <= offset <= 1_000_000_000,
        zone == "Z"@ && offset == 0 || (zone.len() > 1 && (zone[0] == '+' || zone[0] == '-')
            && zone.last() != 'Z' && (forall|i: int|
            1 <= i < zone.len() ==> (#[trigger] zone[i]) != '+' && zone[i] != '-') && offset_of(
            zone,
        ) == Some(offset)),
    ensures
        instant_of(date + seq!['T'] + clock + zone) == Some(86400 * days + seconds - offset),
{
    let text = date + seq!['T'] + clock + zone;
    let n = date.len() as int;
    assert(text[n] == 'T');
    lemma_a_letter_is_no_number(text, n);
    assert forall|i: int| 0 <= i < n implies text[i] != 'T' by {
        assert(text[i] == date[i]);
        assert(date.contains(date[i]));
    }
    lemma_first_of(text, 'T', n);
    assert(text.take(n) =~= date);
    let rest = text.skip(n + 1);
    assert(rest =~= clock + zone);
    lemma_zone_stands_last(clock, zone, offset);
    assert(clock_and_offset(rest) == Some((clock, offset)));
    assert(instant_from(days, seconds, offset) == Some(86400 * days + seconds - offset));
}

proof fn lemma_zone_stands_last(clock: Seq<char>, zone: Seq<char>, offset: int)
    requires
        zone == "Z"@ && offset == 0 || (zone.len() > 1 && (zone[0] == '+' || zone[0] == '-')
            && zone.last() != 'Z' && (forall|i: int|
            1 <= i < zone.len() ==> (#[trigger] zone[i]) != '+' && zone[i] != '-') && offset_of(
            zone,
        ) == Some(offset)),
    ensures
        clock_and_offset(clock + zone) == Some((clock, offset)),
{
    let rest = clock + zone;
    let len = clock.len() as int;
    reveal_strlit("Z");
    if zone == "Z"@ {
        assert(rest.drop_last() =~= clock);
    } else {
        assert(rest.last() == zone.last());
        lemma_last_sign(clock, zone);
        assert(rest.skip(len) =~= zone);
        assert(rest.take(len) =~= clock);
    }
}

proof fn lemma_a_letter_is_no_number(text: Seq<char>, n: int)
    requires
        1 <= n < text.len(),
        text[n] == 'T',
    ensures
        parsed_int(text) is None,
{
    assert(!is_digit('T'));
    if text[0] == '-' || text[0] == '+' {
        assert(text.drop_first()[n - 1] == 'T');
    }
}

proof fn lemma_last_sign(before: Seq<char>, zone: Seq<char>)
    requires
        zone.len() > 0,
        zone[0] == '+' || zone[0] == '-',
        forall|i: int| 1 <= i < zone.len() ==> (#[trigger] zone[i]) != '+' && zone[i] != '-',
    ensures
        last_sign(before + zone) == Some(before.len() as int),
    decreases zone.len(),
{
    let s = before + zone;
    assert(s.last() == zone.last());
    if zone.len() > 1 {
        assert(s.drop_last() =~= before + zone.drop_last());
        assert(zone[zone.len() - 1] == zone.last());
        lemma_last_sign(before, zone.drop_last());
    }
}

/// A date is a year, a month and a day between dashes.
pub proof fn lemma_date_is_read(year: Seq<char>, month: Seq<char>, day: Seq<char>)
    requires
        !year.contains('-'),
        !month.contains('-'),
        !day.contains('-'),
    ensures
        ({
            let date = year + seq!['-'] + month + seq!['-'] + day;
            if parsed_int(year) is Some && parsed_int(month) is Some && parsed_int(day) is Some {
                date_days(date) == days_of(
                    parsed_int(year)->0,
                    parsed_int(month)->0,
                    parsed_int(day)->0,
                )
            } else {
                date_days(date) is None
            }
        }),
{
    lemma_three_parts(year, month, day, '-');
}

/// A zone is hours and minutes behind a sign; it is ahead with a plus.
pub proof fn lemma_zone_is_read(sign: char, hours: Seq<char>, minutes: Seq<char>)
    requires
        !hours.contains(':'),
        !minutes.contains(':'),
        parsed_int(hours) is Some,
        parsed_int(minutes) is Some,
        sign == '+' || sign == '-',
    ensures
        ({
            let h = parsed_int(hours)->0;
            let m = parsed_int(minutes)->0;
            offset_of(seq![sign] + (hours + seq![':'] + minutes)) == if h <= 23 && m <= 59 {
                Some(
                    if sign == '+' {
                        3600 * h + 60 * m
                    } else {
                        -(3600 * h + 60 * m)
                    },
                )
            } else {
                None
            }
        }),
{
    let zone = seq![sign] + (hours + seq![':'] + minutes);
    assert(zone.drop_first() =~= hours + seq![':'] + minutes);
    lemma_two_parts(hours, minutes, ':');
}

/// A moment beyond the clock is none.
pub proof fn lemma_moments_beyond_the_clock(days: int, seconds: int, offset: int)
    ensures
        instant_from(days, seconds, offset) is Some <==> i64::MIN <= 86400 * days <= i64::MAX
            && i64::MIN <= 86400 * days + seconds <= i64::MAX && i64::MIN <= 86400 * days + seconds
            - offset <= i64::MAX,
        instant_from(days, seconds, offset) matches Some(at) ==> at == 86400 * days + seconds
            - offset,
{
}

} // verus!
