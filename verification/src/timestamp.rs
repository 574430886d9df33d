//! Instants and their text form.
//!
//! An instant is a count of microseconds from 1970-01-01T00:00:00Z, within the
//! years 0000 to 9999 of UTC. A text that names one is `YYYY-MM-DDThh:mm:ss`,
//! an optional fraction of a second (a dot and one to nine digits), and a
//! zone: `Z`, or a sign and `hh:mm`. An instant is written out in UTC with six
//! digits of fraction, and what is written out reads back as the instant.
use crate::calendar::{
    civil_seconds, days_before_month, days_before_year, days_in_month, days_in_year, days_to_month,
    days_to_year, lemma_date_is_determined, lemma_days_before_month, lemma_year_end_bound,
    lemma_year_start_bound, month_length, month_of_day, year_of_day, SECONDS_PER_DAY,
};
use vstd::prelude::*;

verus! {

/// The microseconds in a second.
pub const MICROS_PER_SECOND: i64 = 1000000;

/// The length of the longest timestamp: nine digits of fraction, and a zone
/// written as an offset.
pub const MAX_TIMESTAMP_CHARS: usize = 35;

/// The first instant of the calendar: 0000-01-01T00:00:00Z.
pub const MIN_INSTANT: i64 = -62167219200000000;

/// The last instant of the calendar: 9999-12-31T23:59:59.999999Z.
pub const MAX_INSTANT: i64 = 253402300799999999;

/// The value of a decimal digit, and `None` for any other character.
pub open spec fn digit_of(c: char) -> Option<int> {
    if '0' <= c <= '9' {
        Some(c as int - '0' as int)
    } else {
        None
    }
}

/// The number written by the `width` digits that start at `at`, and `None`
/// where the text ends before them or one of them is no digit.
pub open spec fn number_at(s: Seq<char>, at: int, width: nat) -> Option<int>
    decreases width,
{
    if width == 0 {
        Some(0)
    } else if at < 0 || at + width > s.len() {
        None
    } else {
        match (number_at(s, at, (width - 1) as nat), digit_of(s[at + width - 1])) {
            (Some(high), Some(low)) => Some(10 * high + low),
            _ => None,
        }
    }
}

/// Whether the text has the character `c` at `at`.
pub open spec fn has_char(s: Seq<char>, at: int, c: char) -> bool {
    0 <= at < s.len() && s[at] == c
}

/// How many digits stand in a row from `from` on.
pub open spec fn digits_run(s: Seq<char>, from: int) -> nat
    decreases s.len() - from,
{
    if 0 <= from < s.len() && digit_of(s[from]) is Some {
        1 + digits_run(s, from + 1)
    } else {
        0
    }
}

/// The date and time of day that the first nineteen characters write, as
/// seconds from 1970-01-01T00:00:00 in the text's own zone. `None` where they
/// are not of the form `YYYY-MM-DDThh:mm:ss` or name no day of the calendar or
/// no second of the day.
pub open spec fn local_seconds(s: Seq<char>) -> Option<int> {
    match (
        number_at(s, 0, 4),
        number_at(s, 5, 2),
        number_at(s, 8, 2),
        number_at(s, 11, 2),
        number_at(s, 14, 2),
        number_at(s, 17, 2),
    ) {
        (Some(year), Some(month), Some(day), Some(hour), Some(minute), Some(second)) => {
            if has_char(s, 4, '-') && has_char(s, 7, '-') && has_char(s, 10, 'T') && has_char(
                s,
                13,
                ':',
            ) && has_char(s, 16, ':') && 1 <= month <= 12 && 1 <= day <= days_in_month(
                year,
                month,
            ) && hour <= 23 && minute <= 59 && second <= 59 {
                Some(civil_seconds(year, month, day, hour, minute, second))
            } else {
                None
            }
        },
        _ => None,
    }
}

/// The number of characters that the fraction of a second takes, its dot
/// included; 0 where the text has none.
pub open spec fn fraction_width(s: Seq<char>) -> int {
    if has_char(s, 19, '.') {
        1 + digits_run(s, 20) as int
    } else {
        0
    }
}

/// A fraction, where there is one, has at least one digit and at most nine.
pub open spec fn fraction_is_well_formed(s: Seq<char>) -> bool {
    has_char(s, 19, '.') ==> 1 <= digits_run(s, 20) <= 9
}

/// The digit of the fraction at place `place` after the dot (0 for the
/// tenths), and 0 where the fraction is shorter.
pub open spec fn fraction_digit(s: Seq<char>, place: int) -> int {
    if has_char(s, 19, '.') && 0 <= place < digits_run(s, 20) {
        s[20 + place] as int - '0' as int
    } else {
        0
    }
}

/// The fraction of a second in whole microseconds; digits beyond the sixth
/// are cut off.
pub open spec fn fraction_micros(s: Seq<char>) -> int {
    fraction_digit(s, 0) * 100000 + fraction_digit(s, 1) * 10000 + fraction_digit(s, 2) * 1000
        + fraction_digit(s, 3) * 100 + fraction_digit(s, 4) * 10 + fraction_digit(s, 5)
}

/// The zone that is written from `at` to the end of the text, as the seconds
/// by which its clocks are ahead of UTC. `None` where the rest of the text is
/// neither `Z` nor a sign and `hh:mm` with `hh` up to 23 and `mm` up to 59.
pub open spec fn zone_offset_seconds(s: Seq<char>, at: int) -> Option<int> {
    if has_char(s, at, 'Z') && s.len() == at + 1 {
        Some(0)
    } else if (has_char(s, at, '+') || has_char(s, at, '-')) && s.len() == at + 6 && has_char(
        s,
        at + 3,
        ':',
    ) {
        match (number_at(s, at + 1, 2), number_at(s, at + 4, 2)) {
            (Some(hours), Some(minutes)) => {
                if hours <= 23 && minutes <= 59 {
                    if has_char(s, at, '+') {
                        Some(hours * 3600 + minutes * 60)
                    } else {
                        Some(-(hours * 3600 + minutes * 60))
                    }
                } else {
                    None
                }
            },
            _ => None,
        }
    } else {
        None
    }
}

/// Whether an instant lies in the years 0000 to 9999 of UTC.
pub open spec fn in_calendar(instant: int) -> bool {
    MIN_INSTANT <= instant <= MAX_INSTANT
}

/// The instant that a text writes. `None` where the text is no timestamp,
/// and where the instant it writes lies outside the years 0000 to 9999 of
/// UTC.
pub open spec fn instant_of(s: Seq<char>) -> Option<int> {
    match (local_seconds(s), zone_offset_seconds(s, 19 + fraction_width(s))) {
        (Some(local), Some(offset)) => {
            let instant = (local - offset) * MICROS_PER_SECOND + fraction_micros(s);
            if fraction_is_well_formed(s) && in_calendar(instant) {
                Some(instant)
            } else {
                None
            }
        },
        _ => None,
    }
}

/// Every instant that a text names lies in the calendar, so it can be
/// written out again.
pub proof fn lemma_named_instant_is_in_calendar(s: Seq<char>)
    requires
        instant_of(s) is Some,
    ensures
        in_calendar(instant_of(s)->0),
        s.len() <= MAX_TIMESTAMP_CHARS,
{
}

/// An executable result that says what a model result says.
pub open spec fn same_number(r: Option<i64>, model: Option<int>) -> bool {
    match r {
        Some(v) => model == Some(v as int),
        None => model is None,
    }
}

fn has_char_at(text: &str, length: usize, at: usize, c: char) -> (r: bool)
    requires
        length == text@.len(),
    ensures
        r == has_char(text@, at as int, c),
{
    at < length && text.get_char(at) == c
}

fn read_digit(text: &str, at: usize) -> (r: Option<i64>)
    requires
        at < text@.len(),
    ensures
        same_number(r, digit_of(text@[at as int])),
        r is Some ==> 0 <= r->0 <= 9,
{
    let c: char = text.get_char(at);
    if '0' <= c && c <= '9' {
        Some((c as u32 - '0' as u32) as i64)
    } else {
        None
    }
}

fn read_number(text: &str, length: usize, at: usize, width: usize) -> (r: Option<i64>)
    requires
        length == text@.len(),
        width <= 4,
        at <= 100,
    ensures
        same_number(r, number_at(text@, at as int, width as nat)),
        r is Some ==> 0 <= r->0 <= 9999,
        r is Some && width <= 2 ==> r->0 <= 99,
{
    if width == 0 {
        return Some(0);
    }
    if at + width > length {
        return None;
    }
    let mut value: i64 = 0;
    let mut taken: usize = 0;
    while taken < width
        invariant
            length == text@.len(),
            0 <= taken <= width <= 4,
            at + width <= length,
            number_at(text@, at as int, taken as nat) == Some(value as int),
            taken == 0 ==> value == 0,
            taken == 1 ==> 0 <= value <= 9,
            taken == 2 ==> 0 <= value <= 99,
            taken == 3 ==> 0 <= value <= 999,
            taken == 4 ==> 0 <= value <= 9999,
        decreases width - taken,
    {
        match read_digit(text, at + taken) {
            Some(digit) => {
                value = 10 * value + digit;
                taken = taken + 1;
            },
            None => {
                proof {
                    lemma_number_needs_digits(text@, at as int, taken as nat, width as nat);
                }
                return None;
            },
        }
    }
    Some(value)
}

/// A number of `width` digits has a digit at each of its places.
pub proof fn lemma_number_needs_digits(s: Seq<char>, at: int, place: nat, width: nat)
    requires
        0 <= at,
        place < width,
        at + width <= s.len(),
        digit_of(s[at + place]) is None,
    ensures
        number_at(s, at, width) is None,
    decreases width,
{
    if place + 1 < width {
        lemma_number_needs_digits(s, at, place, (width - 1) as nat);
    }
}

fn count_digits(text: &str, length: usize, from: usize) -> (r: usize)
    requires
        length == text@.len(),
        from <= length,
    ensures
        r == digits_run(text@, from as int),
        from + r <= length,
{
    let mut at: usize = from;
    while at < length && read_digit(text, at).is_some()
        invariant
            length == text@.len(),
            from <= at <= length,
            digits_run(text@, from as int) == (at - from) + digits_run(text@, at as int),
        decreases length - at,
    {
        at = at + 1;
    }
    at - from
}

fn read_fraction_digit(text: &str, length: usize, digits: usize, place: usize) -> (r: i64)
    requires
        length == text@.len(),
        has_char(text@, 19, '.'),
        digits == digits_run(text@, 20),
        20 + digits <= length,
        place <= 5,
    ensures
        r == fraction_digit(text@, place as int),
        0 <= r <= 9,
{
    if place < digits {
        proof {
            lemma_digits_run_holds_digits(text@, 20, place as int);
        }
        match read_digit(text, 20 + place) {
            Some(digit) => digit,
            None => 0,
        }
    } else {
        0
    }
}

/// Each place within a run of digits holds a digit.
pub proof fn lemma_digits_run_holds_digits(s: Seq<char>, from: int, place: int)
    requires
        0 <= from,
        0 <= place < digits_run(s, from),
    ensures
        from + place < s.len(),
        digit_of(s[from + place]) is Some,
    decreases place,
{
    if place > 0 {
        lemma_digits_run_holds_digits(s, from + 1, place - 1);
    }
}

fn read_local_seconds(text: &str, length: usize) -> (r: Option<i64>)
    requires
        length == text@.len(),
    ensures
        same_number(r, local_seconds(text@)),
        r is Some ==> -62208000000 <= r->0 <= 254102400000,
{
    let year = read_number(text, length, 0, 4);
    let month = read_number(text, length, 5, 2);
    let day = read_number(text, length, 8, 2);
    let hour = read_number(text, length, 11, 2);
    let minute = read_number(text, length, 14, 2);
    let second = read_number(text, length, 17, 2);
    match (year, month, day, hour, minute, second) {
        (Some(year), Some(month), Some(day), Some(hour), Some(minute), Some(second)) => {
            if has_char_at(text, length, 4, '-') && has_char_at(text, length, 7, '-')
                && has_char_at(text, length, 10, 'T') && has_char_at(text, length, 13, ':')
                && has_char_at(text, length, 16, ':') && 1 <= month && month <= 12 && 1 <= day
                && day <= month_length(year, month) && hour <= 23 && minute <= 59 && second
                <= 59 {
                let days: i64 = days_to_year(year) + days_to_month(year, month) + day - 1;
                Some(days * SECONDS_PER_DAY + hour * 3600 + minute * 60 + second)
            } else {
                None
            }
        },
        _ => None,
    }
}

fn read_zone_offset(text: &str, length: usize, at: usize) -> (r: Option<i64>)
    requires
        length == text@.len(),
        at <= 64,
    ensures
        same_number(r, zone_offset_seconds(text@, at as int)),
        r is Some ==> -86400 < r->0 < 86400,
{
    if has_char_at(text, length, at, 'Z') && length == at + 1 {
        Some(0)
    } else if (has_char_at(text, length, at, '+') || has_char_at(text, length, at, '-'))
        && length == at + 6 && has_char_at(text, length, at + 3, ':') {
        match (read_number(text, length, at + 1, 2), read_number(text, length, at + 4, 2)) {
            (Some(hours), Some(minutes)) => {
                if hours <= 23 && minutes <= 59 {
                    if has_char_at(text, length, at, '+') {
                        Some(hours * 3600 + minutes * 60)
                    } else {
                        Some(-(hours * 3600 + minutes * 60))
                    }
                } else {
                    None
                }
            },
            _ => None,
        }
    } else {
        None
    }
}

/// Reads a timestamp: the instant that `text` writes, in microseconds from
/// 1970-01-01T00:00:00Z. `None` where `text` is no timestamp or writes an
/// instant outside the calendar.
pub fn parse_timestamp(text: &str) -> (r: Option<i64>)
    ensures
        same_number(r, instant_of(text@)),
{
    let length: usize = text.unicode_len();
    if length > MAX_TIMESTAMP_CHARS {
        return None;
    }
    let local = read_local_seconds(text, length);
    let has_fraction: bool = has_char_at(text, length, 19, '.');
    let digits: usize = if has_fraction {
        count_digits(text, length, 20)
    } else {
        0
    };
    if has_fraction && (digits < 1 || digits > 9) {
        return None;
    }
    let zone_at: usize = if has_fraction {
        20 + digits
    } else {
        19
    };
    let offset = read_zone_offset(text, length, zone_at);
    match (local, offset) {
        (Some(local), Some(offset)) => {
            let micros: i64 = if has_fraction {
                read_fraction_digit(text, length, digits, 0) * 100000 + read_fraction_digit(
                    text,
                    length,
                    digits,
                    1,
                ) * 10000 + read_fraction_digit(text, length, digits, 2) * 1000
                    + read_fraction_digit(text, length, digits, 3) * 100 + read_fraction_digit(
                    text,
                    length,
                    digits,
                    4,
                ) * 10 + read_fraction_digit(text, length, digits, 5)
            } else {
                0
            };
            let instant: i64 = (local - offset) * MICROS_PER_SECOND + micros;
            if MIN_INSTANT <= instant && instant <= MAX_INSTANT {
                Some(instant)
            } else {
                None
            }
        },
        _ => None,
    }
}

/// The form in which an instant is written out: in UTC, with all six digits
/// of the microseconds.
pub open spec fn is_canonical(s: Seq<char>) -> bool {
    s.len() == 27 && s[19] == '.' && s[26] == 'Z'
}

/// The character that writes a digit.
pub open spec fn digit_char(digit: int) -> char {
    ('0' as int + digit) as char
}

/// The text `YYYY-MM-DDThh:mm:ss.ffffffZ` for a date, a time of day and a
/// count of microseconds. Each pair of digits writes a number below 100:
/// the year is two such pairs, the microseconds are three.
#[verifier::opaque]
pub open spec fn canonical_text(
    year: int,
    month: int,
    day: int,
    hour: int,
    minute: int,
    second: int,
    micros: int,
) -> Seq<char> {
    seq![
        digit_char(year / 100 / 10),
        digit_char(year / 100 % 10),
        digit_char(year % 100 / 10),
        digit_char(year % 100 % 10),
        '-',
        digit_char(month / 10),
        digit_char(month % 10),
        '-',
        digit_char(day / 10),
        digit_char(day % 10),
        'T',
        digit_char(hour / 10),
        digit_char(hour % 10),
        ':',
        digit_char(minute / 10),
        digit_char(minute % 10),
        ':',
        digit_char(second / 10),
        digit_char(second % 10),
        '.',
        digit_char(micros / 10000 / 10),
        digit_char(micros / 10000 % 10),
        digit_char(micros / 100 % 100 / 10),
        digit_char(micros / 100 % 100 % 10),
        digit_char(micros % 100 / 10),
        digit_char(micros % 100 % 10),
        'Z',
    ]
}

/// Whether the two characters at `at` write `value`.
pub open spec fn writes_two_digits(s: Seq<char>, at: int, value: int) -> bool {
    &&& 0 <= at && at + 2 <= s.len()
    &&& s[at] == digit_char(value / 10)
    &&& s[at + 1] == digit_char(value % 10)
}

/// The characters of a canonical text, field by field.
pub proof fn lemma_canonical_text_fields(
    year: int,
    month: int,
    day: int,
    hour: int,
    minute: int,
    second: int,
    micros: int,
)
    ensures
        ({
            let s = canonical_text(year, month, day, hour, minute, second, micros);
            &&& s.len() == 27
            &&& writes_two_digits(s, 0, year / 100)
            &&& writes_two_digits(s, 2, year % 100)
            &&& s[4] == '-'
            &&& writes_two_digits(s, 5, month)
            &&& s[7] == '-'
            &&& writes_two_digits(s, 8, day)
            &&& s[10] == 'T'
            &&& writes_two_digits(s, 11, hour)
            &&& s[13] == ':'
            &&& writes_two_digits(s, 14, minute)
            &&& s[16] == ':'
            &&& writes_two_digits(s, 17, second)
            &&& s[19] == '.'
            &&& writes_two_digits(s, 20, micros / 10000)
            &&& writes_two_digits(s, 22, micros / 100 % 100)
            &&& writes_two_digits(s, 24, micros % 100)
            &&& s[26] == 'Z'
        }),
{
    reveal(canonical_text);
}

/// Two characters that write a number below 100 are read as that number.
pub proof fn lemma_two_digits_read_back(s: Seq<char>, at: int, value: int)
    requires
        0 <= value <= 99,
        writes_two_digits(s, at, value),
    ensures
        number_at(s, at, 2) == Some(value),
        digit_of(s[at]) == Some(value / 10),
        digit_of(s[at + 1]) == Some(value % 10),
{
    reveal_with_fuel(number_at, 3);
}

/// Four characters that write a number below 10000, two digits and two, are
/// read as that number.
pub proof fn lemma_four_digits_read_back(s: Seq<char>, at: int, value: int)
    requires
        0 <= value <= 9999,
        writes_two_digits(s, at, value / 100),
        writes_two_digits(s, at + 2, value % 100),
    ensures
        number_at(s, at, 4) == Some(value),
{
    lemma_two_digits_read_back(s, at, value / 100);
    lemma_two_digits_read_back(s, at + 2, value % 100);
    reveal_with_fuel(number_at, 5);
    assert(number_at(s, at, 2) == Some(value / 100));
    assert(number_at(s, at, 3) == Some(10 * (value / 100) + value % 100 / 10));
    assert(number_at(s, at, 4) == Some(10 * (10 * (value / 100) + value % 100 / 10) + value % 100
        % 10));
}

/// A fraction of six digits followed by the zone is read as the
/// microseconds its digits write.
pub proof fn lemma_six_digit_fraction_read_back(s: Seq<char>, micros: int)
    requires
        0 <= micros <= 999999,
        s.len() == 27,
        s[19] == '.',
        writes_two_digits(s, 20, micros / 10000),
        writes_two_digits(s, 22, micros / 100 % 100),
        writes_two_digits(s, 24, micros % 100),
        s[26] == 'Z',
    ensures
        digits_run(s, 20) == 6,
        fraction_micros(s) == micros,
{
    lemma_two_digits_read_back(s, 20, micros / 10000);
    lemma_two_digits_read_back(s, 22, micros / 100 % 100);
    lemma_two_digits_read_back(s, 24, micros % 100);
    assert(digit_of(s[26]) is None);
    assert(digits_run(s, 26) == 0);
    assert(digits_run(s, 25) == 1);
    assert(digits_run(s, 24) == 2);
    assert(digits_run(s, 23) == 3);
    assert(digits_run(s, 22) == 4);
    assert(digits_run(s, 21) == 5);
    assert(digits_run(s, 20) == 6);
    let a = micros / 10000;
    let b = micros / 100 % 100;
    let c = micros % 100;
    assert(fraction_digit(s, 0) == a / 10);
    assert(fraction_digit(s, 1) == a % 10);
    assert(fraction_digit(s, 2) == b / 10);
    assert(fraction_digit(s, 3) == b % 10);
    assert(fraction_digit(s, 4) == c / 10);
    assert(fraction_digit(s, 5) == c % 10);
    assert(micros == a * 10000 + b * 100 + c);
}

/// The canonical text of a date and time is read back as that date and
/// time.
pub proof fn lemma_canonical_text_is_read_back(
    year: int,
    month: int,
    day: int,
    hour: int,
    minute: int,
    second: int,
    micros: int,
)
    requires
        0 <= year <= 9999,
        1 <= month <= 12,
        1 <= day <= days_in_month(year, month),
        0 <= hour <= 23,
        0 <= minute <= 59,
        0 <= second <= 59,
        0 <= micros <= 999999,
    ensures
        is_canonical(canonical_text(year, month, day, hour, minute, second, micros)),
        instant_of(canonical_text(year, month, day, hour, minute, second, micros)) == Some(
            civil_seconds(year, month, day, hour, minute, second) * MICROS_PER_SECOND + micros,
        ),
{
    let s = canonical_text(year, month, day, hour, minute, second, micros);
    lemma_canonical_text_fields(year, month, day, hour, minute, second, micros);
    lemma_four_digits_read_back(s, 0, year);
    lemma_two_digits_read_back(s, 5, month);
    lemma_two_digits_read_back(s, 8, day);
    lemma_two_digits_read_back(s, 11, hour);
    lemma_two_digits_read_back(s, 14, minute);
    lemma_two_digits_read_back(s, 17, second);
    lemma_six_digit_fraction_read_back(s, micros);
    lemma_civil_seconds_in_calendar(year, month, day, hour, minute, second);
    assert(local_seconds(s) == Some(civil_seconds(year, month, day, hour, minute, second)));
    assert(fraction_width(s) == 7);
    assert(zone_offset_seconds(s, 26) == Some(0int));
}

/// Every second of every day of the years 0000 to 9999 lies in the
/// calendar.
pub proof fn lemma_civil_seconds_in_calendar(
    year: int,
    month: int,
    day: int,
    hour: int,
    minute: int,
    second: int,
)
    requires
        0 <= year <= 9999,
        1 <= month <= 12,
        1 <= day <= days_in_month(year, month),
        0 <= hour <= 23,
        0 <= minute <= 59,
        0 <= second <= 59,
    ensures
        in_calendar(civil_seconds(year, month, day, hour, minute, second) * MICROS_PER_SECOND),
        in_calendar(
            civil_seconds(year, month, day, hour, minute, second) * MICROS_PER_SECOND + 999999,
        ),
{
    lemma_year_start_bound(year);
    lemma_year_end_bound(year + 1);
    lemma_days_before_month(year);
    let days = days_before_year(year) + days_before_month(year, month) + day - 1;
    assert(days_before_month(year, month) + day <= days_in_year(year));
    assert(-719528 <= days <= 2932896);
}

/// Two digits that are read as a number are the two that write it.
pub proof fn lemma_two_digits_spelled(s: Seq<char>, at: int)
    requires
        number_at(s, at, 2) is Some,
    ensures
        0 <= number_at(s, at, 2)->0 <= 99,
        writes_two_digits(s, at, number_at(s, at, 2)->0),
{
    reveal_with_fuel(number_at, 3);
}

/// Four digits that are read as a number are the two pairs that write it.
pub proof fn lemma_four_digits_spelled(s: Seq<char>, at: int)
    requires
        number_at(s, at, 4) is Some,
    ensures
        0 <= number_at(s, at, 4)->0 <= 9999,
        writes_two_digits(s, at, number_at(s, at, 4)->0 / 100),
        writes_two_digits(s, at + 2, number_at(s, at, 4)->0 % 100),
{
    reveal_with_fuel(number_at, 5);
    let a = digit_of(s[at])->0;
    let b = digit_of(s[at + 1])->0;
    let c = digit_of(s[at + 2])->0;
    let d = digit_of(s[at + 3])->0;
    assert(number_at(s, at, 4)->0 == 10 * (10 * (10 * a + b) + c) + d);
}

/// A fraction of six digits is the three pairs that write its
/// microseconds.
pub proof fn lemma_six_digit_fraction_spelled(s: Seq<char>)
    requires
        has_char(s, 19, '.'),
        digits_run(s, 20) == 6,
    ensures
        0 <= fraction_micros(s) <= 999999,
        writes_two_digits(s, 20, fraction_micros(s) / 10000),
        writes_two_digits(s, 22, fraction_micros(s) / 100 % 100),
        writes_two_digits(s, 24, fraction_micros(s) % 100),
{
    lemma_digits_run_holds_digits(s, 20, 0);
    lemma_digits_run_holds_digits(s, 20, 1);
    lemma_digits_run_holds_digits(s, 20, 2);
    lemma_digits_run_holds_digits(s, 20, 3);
    lemma_digits_run_holds_digits(s, 20, 4);
    lemma_digits_run_holds_digits(s, 20, 5);
    let a = fraction_digit(s, 0);
    let b = fraction_digit(s, 1);
    let c = fraction_digit(s, 2);
    let d = fraction_digit(s, 3);
    let e = fraction_digit(s, 4);
    let f = fraction_digit(s, 5);
    lemma_pairs_of_six_digits(10 * a + b, 10 * c + d, 10 * e + f);
}

/// Three numbers below 100, written one after the other, are the three
/// pairs of digits of the number they write.
proof fn lemma_pairs_of_six_digits(high: int, middle: int, low: int)
    requires
        0 <= high <= 99,
        0 <= middle <= 99,
        0 <= low <= 99,
    ensures
        (high * 10000 + middle * 100 + low) / 10000 == high,
        (high * 10000 + middle * 100 + low) / 100 % 100 == middle,
        (high * 10000 + middle * 100 + low) % 100 == low,
{
    let value = high * 10000 + middle * 100 + low;
    vstd::arithmetic::div_mod::lemma_fundamental_div_mod_converse(
        value,
        10000,
        high,
        middle * 100 + low,
    );
    vstd::arithmetic::div_mod::lemma_fundamental_div_mod_converse(
        value,
        100,
        high * 100 + middle,
        low,
    );
    vstd::arithmetic::div_mod::lemma_fundamental_div_mod_converse(
        high * 100 + middle,
        100,
        high,
        middle,
    );
}

/// A canonical text that names an instant is the canonical text of one
/// date and time, whose seconds and microseconds make up the instant.
pub proof fn lemma_canonical_is_spelled(s: Seq<char>) -> (fields: (int, int, int, int, int, int, int))
    requires
        is_canonical(s),
        instant_of(s) is Some,
    ensures
        0 <= fields.0 <= 9999,
        1 <= fields.1 <= 12,
        1 <= fields.2 <= days_in_month(fields.0, fields.1),
        0 <= fields.3 <= 23,
        0 <= fields.4 <= 59,
        0 <= fields.5 <= 59,
        0 <= fields.6 <= 999999,
        s == canonical_text(
            fields.0,
            fields.1,
            fields.2,
            fields.3,
            fields.4,
            fields.5,
            fields.6,
        ),
        instant_of(s) == Some(
            civil_seconds(fields.0, fields.1, fields.2, fields.3, fields.4, fields.5)
                * MICROS_PER_SECOND + fields.6,
        ),
{
    let year = number_at(s, 0, 4)->0;
    let month = number_at(s, 5, 2)->0;
    let day = number_at(s, 8, 2)->0;
    let hour = number_at(s, 11, 2)->0;
    let minute = number_at(s, 14, 2)->0;
    let second = number_at(s, 17, 2)->0;
    let micros = fraction_micros(s);
    let run = digits_run(s, 20);
    assert(run == 6) by {
        if run != 6 {
            // The zone would be an offset, and the text would end in a digit.
            assert(digit_of(s[26]) is None);
            lemma_number_needs_digits(s, 25, 1, 2);
        }
    }
    assert(zone_offset_seconds(s, 26) == Some(0int));
    lemma_four_digits_spelled(s, 0);
    lemma_two_digits_spelled(s, 5);
    lemma_two_digits_spelled(s, 8);
    lemma_two_digits_spelled(s, 11);
    lemma_two_digits_spelled(s, 14);
    lemma_two_digits_spelled(s, 17);
    lemma_six_digit_fraction_spelled(s);
    lemma_canonical_text_fields(year, month, day, hour, minute, second, micros);
    assert(s =~= canonical_text(year, month, day, hour, minute, second, micros));
    (year, month, day, hour, minute, second, micros)
}

/// An instant has one canonical text: two canonical texts that name the
/// same instant are the same text.
pub proof fn lemma_canonical_text_is_unique(s: Seq<char>, other: Seq<char>)
    requires
        is_canonical(s),
        is_canonical(other),
        instant_of(s) is Some,
        instant_of(s) == instant_of(other),
    ensures
        s == other,
{
    let a = lemma_canonical_is_spelled(s);
    let b = lemma_canonical_is_spelled(other);
    let seconds_a = civil_seconds(a.0, a.1, a.2, a.3, a.4, a.5);
    let seconds_b = civil_seconds(b.0, b.1, b.2, b.3, b.4, b.5);
    assert(seconds_a == seconds_b && a.6 == b.6);
    let days_a = days_before_year(a.0) + days_before_month(a.0, a.1) + a.2;
    let days_b = days_before_year(b.0) + days_before_month(b.0, b.1) + b.2;
    let time_a = a.3 * 3600 + a.4 * 60 + a.5;
    let time_b = b.3 * 3600 + b.4 * 60 + b.5;
    assert(days_a == days_b && time_a == time_b);
    lemma_date_is_determined(a.0, a.1, a.2, b.0, b.1, b.2);
}

fn digit_text(digit: i64) -> (r: &'static str)
    requires
        0 <= digit <= 9,
    ensures
        r@ == seq![digit_char(digit as int)],
{
    proof {
        reveal_strlit("0");
        reveal_strlit("1");
        reveal_strlit("2");
        reveal_strlit("3");
        reveal_strlit("4");
        reveal_strlit("5");
        reveal_strlit("6");
        reveal_strlit("7");
        reveal_strlit("8");
        reveal_strlit("9");
    }
    let r = if digit == 0 {
        "0"
    } else if digit == 1 {
        "1"
    } else if digit == 2 {
        "2"
    } else if digit == 3 {
        "3"
    } else if digit == 4 {
        "4"
    } else if digit == 5 {
        "5"
    } else if digit == 6 {
        "6"
    } else if digit == 7 {
        "7"
    } else if digit == 8 {
        "8"
    } else {
        "9"
    };
    assert(r@ =~= seq![digit_char(digit as int)]);
    r
}

fn push_two_digits(text: &mut String, value: i64)
    requires
        0 <= value <= 99,
    ensures
        final(text)@ == old(text)@.push(digit_char(value as int / 10)).push(
            digit_char(value as int % 10),
        ),
{
    text.append(digit_text(value / 10));
    text.append(digit_text(value % 10));
    assert(text@ =~= old(text)@.push(digit_char(value as int / 10)).push(
        digit_char(value as int % 10),
    ));
}

fn push_mark(text: &mut String, mark: &str, c: char)
    requires
        mark@ == seq![c],
    ensures
        final(text)@ == old(text)@.push(c),
{
    text.append(mark);
    assert(text@ =~= old(text)@.push(c));
}

/// The date and the time of day of an instant within the calendar, in UTC.
fn civil_of_instant(instant: i64) -> (r: (i64, i64, i64, i64, i64, i64, i64))
    requires
        in_calendar(instant as int),
    ensures
        0 <= r.0 <= 9999,
        1 <= r.1 <= 12,
        1 <= r.2 <= days_in_month(r.0 as int, r.1 as int),
        0 <= r.3 <= 23,
        0 <= r.4 <= 59,
        0 <= r.5 <= 59,
        0 <= r.6 <= 999999,
        civil_seconds(r.0 as int, r.1 as int, r.2 as int, r.3 as int, r.4 as int, r.5 as int)
            * MICROS_PER_SECOND + r.6 == instant,
{
    let since_year_zero: i64 = instant - MIN_INSTANT;
    let micros: i64 = since_year_zero % MICROS_PER_SECOND;
    let seconds: i64 = since_year_zero / MICROS_PER_SECOND;
    let second_of_day: i64 = seconds % SECONDS_PER_DAY;
    let day: i64 = seconds / SECONDS_PER_DAY - 719528;
    let year: i64 = year_of_day(day);
    proof {
        lemma_year_start_bound(year as int);
    }
    let day_of_year: i64 = day - days_to_year(year);
    let month: i64 = month_of_day(year, day_of_year);
    let day_of_month: i64 = day_of_year - days_to_month(year, month) + 1;
    let hour: i64 = second_of_day / 3600;
    let minute: i64 = second_of_day % 3600 / 60;
    let second: i64 = second_of_day % 60;
    assert(second_of_day == hour * 3600 + minute * 60 + second);
    assert(days_before_year(year as int) + days_before_month(year as int, month as int)
        + day_of_month - 1 == day);
    assert(seconds == (day + 719528) * 86400 + second_of_day);
    assert(since_year_zero == seconds * 1000000 + micros);
    (year, month, day_of_month, hour, minute, second, micros)
}

/// Writes a date and a time of day out in the canonical form.
fn write_canonical(
    year: i64,
    month: i64,
    day: i64,
    hour: i64,
    minute: i64,
    second: i64,
    micros: i64,
) -> (r: String)
    requires
        0 <= year <= 9999,
        0 <= month <= 99,
        0 <= day <= 99,
        0 <= hour <= 99,
        0 <= minute <= 99,
        0 <= second <= 99,
        0 <= micros <= 999999,
    ensures
        r@ == canonical_text(
            year as int,
            month as int,
            day as int,
            hour as int,
            minute as int,
            second as int,
            micros as int,
        ),
{
    proof {
        reveal_strlit("-");
        reveal_strlit("T");
        reveal_strlit(":");
        reveal_strlit(".");
        reveal_strlit("Z");
        assert("-"@ =~= seq!['-']);
        assert("T"@ =~= seq!['T']);
        assert(":"@ =~= seq![':']);
        assert("."@ =~= seq!['.']);
        assert("Z"@ =~= seq!['Z']);
    }
    let mut text = String::new();
    push_two_digits(&mut text, year / 100);
    push_two_digits(&mut text, year % 100);
    push_mark(&mut text, "-", '-');
    push_two_digits(&mut text, month);
    push_mark(&mut text, "-", '-');
    push_two_digits(&mut text, day);
    push_mark(&mut text, "T", 'T');
    push_two_digits(&mut text, hour);
    push_mark(&mut text, ":", ':');
    push_two_digits(&mut text, minute);
    push_mark(&mut text, ":", ':');
    push_two_digits(&mut text, second);
    push_mark(&mut text, ".", '.');
    push_two_digits(&mut text, micros / 10000);
    push_two_digits(&mut text, micros / 100 % 100);
    push_two_digits(&mut text, micros % 100);
    push_mark(&mut text, "Z", 'Z');
    proof {
        let wanted = canonical_text(
            year as int,
            month as int,
            day as int,
            hour as int,
            minute as int,
            second as int,
            micros as int,
        );
        lemma_canonical_text_fields(
            year as int,
            month as int,
            day as int,
            hour as int,
            minute as int,
            second as int,
            micros as int,
        );
        assert(text@.len() == 27);
        assert(text@ =~= wanted);
    }
    text
}

/// Writes an instant out: in UTC, as `YYYY-MM-DDThh:mm:ss.ffffffZ`. What is
/// written reads back as the instant, and no other text of that form does.
/// `None` for an instant outside the calendar.
pub fn format_timestamp(instant: i64) -> (r: Option<String>)
    ensures
        r is Some <==> in_calendar(instant as int),
        r is Some ==> is_canonical(r->0@) && instant_of(r->0@) == Some(instant as int),
{
    if instant < MIN_INSTANT || instant > MAX_INSTANT {
        return None;
    }
    let (year, month, day, hour, minute, second, micros) = civil_of_instant(instant);
    proof {
        lemma_canonical_text_is_read_back(
            year as int,
            month as int,
            day as int,
            hour as int,
            minute as int,
            second as int,
            micros as int,
        );
    }
    Some(write_canonical(year, month, day, hour, minute, second, micros))
}

} // verus!
