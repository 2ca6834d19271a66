//! The datetime parser: a raw input string becomes an offset-bound instant.
//!
//! An input holding only a time of day is first expanded with today's local
//! calendar date. The expanded string is then matched against the date/time
//! patterns in a fixed priority order — `T`-separated first, then
//! space-separated — and a successful match splits it into a naive instant
//! and a trimmed trailing remainder. An empty remainder means UTC, the
//! literal token `local` (any case) means the host timezone, and any other
//! remainder goes to the timezone resolver. When a pattern matches but its
//! remainder cannot be resolved, the next pattern is tried; when no pattern
//! succeeds the parse fails.
//!
//! The fields are fixed width, as the pattern shapes `YYYY-MM-DD` and
//! `HH:MM:SS` write them: a four-digit year and two digits everywhere else.

use vstd::prelude::*;
use vstd::arithmetic::div_mod::{
    lemma_div_denominator, lemma_fundamental_div_mod, lemma_mod_breakdown,
};
use vstd::slice::slice_subrange;
use vstd::string::{StringSliceAdditionalSpecFns, StrSliceExecFns};
use crate::bytes::{
    digit2_at, digits2_ok, spec_lower, spec_trim, trim, two_digits,
};
use crate::calendar::{
    days_in_month, days_in_month_exec, lemma_day_number_in_range, Date, Time,
};
use crate::host::{is_zone_name, local_offset_at, today_local, zone_offset_of};
use crate::instant::{push2, push4, FixedOffsetInstant, NaiveInstant};
use crate::resolve::{parse_timezone, spec_numeric_offset, spec_resolved_name};
use crate::tzdb::TzDb;

verus! {

/// Failure of the whole parse: no pattern matched with a resolvable
/// remainder.
#[derive(Clone, Copy, Debug, PartialEq, Eq, Structural)]
pub enum ParseError {
    UnrecognizedFormat,
}

/// `HH:MM:SS` stands at position `i`, with fields in range.
pub open spec fn time_fields_ok(s: Seq<u8>, i: int) -> bool {
    digits2_ok(s, i) && s[i + 2] == 58 && digits2_ok(s, i + 3) && s[i + 5] == 58 && digits2_ok(
        s,
        i + 6,
    ) && two_digits(s, i) <= 23 && two_digits(s, i + 3) <= 59 && two_digits(s, i + 6) <= 59
}

/// The time of day written at position `i`.
pub open spec fn time_at(s: Seq<u8>, i: int) -> Time {
    Time {
        hour: two_digits(s, i) as u8,
        minute: two_digits(s, i + 3) as u8,
        second: two_digits(s, i + 6) as u8,
    }
}

/// The input starts with a time-only pattern.
pub open spec fn has_time_prefix(s: Seq<u8>) -> bool {
    s.len() >= 8 && time_fields_ok(s, 0)
}

/// The four-digit number at position `i`.
pub open spec fn four_digits(s: Seq<u8>, i: int) -> int {
    two_digits(s, i) * 100 + two_digits(s, i + 2)
}

/// `YYYY-MM-DD` stands at the start, denoting a real day.
pub open spec fn date_fields_ok(s: Seq<u8>) -> bool {
    digits2_ok(s, 0) && digits2_ok(s, 2) && s[4] == 45 && digits2_ok(s, 5) && s[7] == 45
        && digits2_ok(s, 8) && 1 <= two_digits(s, 5) <= 12 && 1 <= two_digits(s, 8)
        <= days_in_month(four_digits(s, 0), two_digits(s, 5))
}

/// The date written at the start.
pub open spec fn date_at(s: Seq<u8>) -> Date {
    Date {
        year: four_digits(s, 0) as u16,
        month: two_digits(s, 5) as u8,
        day: two_digits(s, 8) as u8,
    }
}

/// A full date/time pattern with separator byte `sep` matches the start of
/// the input.
pub open spec fn datetime_matches(s: Seq<u8>, sep: u8) -> bool {
    s.len() >= 19 && date_fields_ok(s) && s[10] == sep && time_fields_ok(s, 11)
}

/// The naive instant written by a matching date/time pattern.
pub open spec fn naive_at(s: Seq<u8>) -> NaiveInstant {
    NaiveInstant { date: date_at(s), time: time_at(s, 11) }
}

/// The naive instant of the first matching pattern: `T`-separated, then
/// space-separated.
pub open spec fn spec_split(s: Seq<u8>) -> Option<NaiveInstant> {
    if datetime_matches(s, 84) {
        Some(naive_at(s))
    } else if datetime_matches(s, 32) {
        Some(naive_at(s))
    } else {
        None
    }
}

/// The trimmed remainder after the nineteen matched bytes.
pub open spec fn spec_remainder(s: Seq<u8>) -> Seq<u8> {
    spec_trim(s.subrange(19, s.len() as int))
}

/// The token `local`, case-insensitively.
pub open spec fn is_local_token(t: Seq<u8>) -> bool {
    spec_lower(t) == seq![108u8, 111u8, 99u8, 97u8, 108u8]
}

/// The deterministic fragment of the parse: the result on inputs whose
/// remainder is empty or a numeric offset, `None` where the outcome also
/// depends on the host or the abbreviation index.
pub open spec fn spec_parse_fixed(s: Seq<u8>) -> Option<FixedOffsetInstant> {
    match spec_split(s) {
        Some(n) => {
            let rem = spec_remainder(s);
            if rem.len() == 0 {
                Some(FixedOffsetInstant { naive: n, offset_seconds: 0 })
            } else if is_local_token(rem) {
                None
            } else {
                match spec_numeric_offset(rem) {
                    Some(o) => Some(FixedOffsetInstant { naive: n, offset_seconds: o as i32 }),
                    None => None,
                }
            }
        },
        None => None,
    }
}

/// The expanded input: a time-only input gets today's date, anything else
/// is untouched.
pub open spec fn spec_expand(today: Date, s: Seq<u8>) -> Seq<u8> {
    if has_time_prefix(s) {
        crate::instant::render_date(today) + seq![32u8] + s
    } else {
        s
    }
}

/// Reads the time of day at position `at`.
fn match_time(s: &[u8], at: usize) -> (r: Option<Time>)
    requires
        at + 8 <= s@.len(),
        s@.len() <= usize::MAX,
    ensures
        match r {
            Some(t) => time_fields_ok(s@, at as int) && t == time_at(s@, at as int) && t.wf(),
            None => !time_fields_ok(s@, at as int),
        },
{
    let hour = match digit2_at(s, at) {
        Some(h) => h,
        None => {
            return None;
        },
    };
    if s[at + 2] != 58 {
        return None;
    }
    let minute = match digit2_at(s, at + 3) {
        Some(m) => m,
        None => {
            return None;
        },
    };
    if s[at + 5] != 58 {
        return None;
    }
    let second = match digit2_at(s, at + 6) {
        Some(x) => x,
        None => {
            return None;
        },
    };
    if hour <= 23 && minute <= 59 && second <= 59 {
        Some(Time { hour, minute, second })
    } else {
        None
    }
}

/// Reads the calendar date at the start.
fn match_date(s: &[u8]) -> (r: Option<Date>)
    requires
        10 <= s@.len(),
    ensures
        match r {
            Some(d) => date_fields_ok(s@) && d == date_at(s@) && d.wf(),
            None => !date_fields_ok(s@),
        },
{
    let hi = match digit2_at(s, 0) {
        Some(v) => v,
        None => {
            return None;
        },
    };
    let lo = match digit2_at(s, 2) {
        Some(v) => v,
        None => {
            return None;
        },
    };
    let year = (hi as u16) * 100 + (lo as u16);
    if s[4] != 45 {
        return None;
    }
    let month = match digit2_at(s, 5) {
        Some(v) => v,
        None => {
            return None;
        },
    };
    if !(1 <= month && month <= 12) {
        return None;
    }
    if s[7] != 45 {
        return None;
    }
    let day = match digit2_at(s, 8) {
        Some(v) => v,
        None => {
            return None;
        },
    };
    if !(1 <= day && day <= days_in_month_exec(year, month)) {
        return None;
    }
    Some(Date { year, month, day })
}

/// Matches one full date/time pattern at the start of the input.
fn match_datetime(s: &[u8], sep: u8) -> (r: Option<NaiveInstant>)
    ensures
        match r {
            Some(n) => datetime_matches(s@, sep) && n == naive_at(s@) && n.wf(),
            None => !datetime_matches(s@, sep),
        },
{
    if s.len() < 19 {
        return None;
    }
    let date = match match_date(s) {
        Some(d) => d,
        None => {
            return None;
        },
    };
    if s[10] != sep {
        return None;
    }
    let time = match match_time(s, 11) {
        Some(t) => t,
        None => {
            return None;
        },
    };
    Some(NaiveInstant { date, time })
}

/// Classifies and resolves the remainder of a matched pattern. `None` means
/// the remainder could not be resolved, so the caller may try another
/// pattern.
fn resolve_remainder(db: &TzDb, input: &[u8], naive: NaiveInstant) -> (r: Option<
    FixedOffsetInstant,
>)
    requires
        db.wf(),
        naive.wf(),
        19 <= input@.len(),
    ensures
        ({
            let rem = spec_remainder(input@);
            &&& (r matches Some(f) ==> f.wf() && f.naive == naive)
            &&& (rem.len() == 0 ==> r == Some(
                FixedOffsetInstant { naive, offset_seconds: 0 },
            ))
            &&& (is_local_token(rem) ==> r is Some)
            &&& (rem.len() > 0 && !is_local_token(rem) ==> (spec_numeric_offset(rem) matches Some(
                o,
            ) ==> r == Some(FixedOffsetInstant { naive, offset_seconds: o as i32 })))
            &&& (rem.len() > 0 && !is_local_token(rem) && spec_numeric_offset(rem) is None
                && db.contains_abbrev(spec_lower(rem)) && is_zone_name(
                spec_resolved_name(*db, rem),
            ) ==> (r matches Some(f) && f.naive == naive && f.offset_seconds == zone_offset_of(
                spec_resolved_name(*db, rem),
                naive.abs_seconds() - 62167219200,
            )))
            &&& (rem.len() > 0 && !is_local_token(rem) && spec_numeric_offset(rem) is None
                && db.contains_abbrev(spec_lower(rem)) && !is_zone_name(
                spec_resolved_name(*db, rem),
            ) ==> r is None)
            &&& (rem.len() > 0 && !is_local_token(rem) && spec_numeric_offset(rem) is None
                && !db.contains_abbrev(spec_lower(rem)) ==> r is None)
        }),
{
    let rem = trim(slice_subrange(input, 19, input.len()));
    if rem.len() == 0 {
        return Some(FixedOffsetInstant { naive, offset_seconds: 0 });
    }
    proof {
        lemma_day_number_in_range(naive.date);
    }
    let reference = FixedOffsetInstant { naive, offset_seconds: 0 }.to_epoch();
    let lower = crate::bytes::ascii_lower(rem.as_slice());
    if lower.len() == 5 && lower[0] == 108 && lower[1] == 111 && lower[2] == 99 && lower[3] == 97
        && lower[4] == 108 {
        proof {
            assert(lower@ =~= seq![108u8, 111u8, 99u8, 97u8, 108u8]);
        }
        match local_offset_at(reference) {
            Some(off) => {
                return Some(FixedOffsetInstant { naive, offset_seconds: off });
            },
            None => {
                return None;
            },
        }
    }
    proof {
        if is_local_token(rem@) {
            assert(lower@ == seq![108u8, 111u8, 99u8, 97u8, 108u8]);
            assert(lower@[0] == 108u8 && lower@[1] == 111u8 && lower@[2] == 99u8 && lower@[3]
                == 97u8 && lower@[4] == 108u8);
        }
    }
    match parse_timezone(db, reference, rem.as_slice()) {
        Ok(off) => Some(FixedOffsetInstant { naive, offset_seconds: off }),
        Err(_) => None,
    }
}

/// Parses an input that already carries a date: each pattern is tried in
/// order, and the first one that matches with a resolvable remainder wins.
pub fn parse_datetime(db: &TzDb, input: &[u8]) -> (r: Result<FixedOffsetInstant, ParseError>)
    requires
        db.wf(),
    ensures
        r matches Ok(f) ==> f.wf() && spec_split(input@) == Some(f.naive),
        spec_parse_fixed(input@) matches Some(f) ==> r == Ok::<FixedOffsetInstant, ParseError>(f),
        spec_split(input@) is None ==> r == Err::<FixedOffsetInstant, ParseError>(
            ParseError::UnrecognizedFormat,
        ),
        ({
            let rem = spec_remainder(input@);
            spec_split(input@) is Some && rem.len() > 0 && !is_local_token(rem)
                && spec_numeric_offset(rem) is None && db.contains_abbrev(spec_lower(rem))
                && is_zone_name(spec_resolved_name(*db, rem)) ==> (r matches Ok(f) && f.naive
                == spec_split(input@)->Some_0 && f.offset_seconds == zone_offset_of(
                spec_resolved_name(*db, rem),
                (spec_split(input@)->Some_0).abs_seconds() - 62167219200,
            ))
        }),
        ({
            let rem = spec_remainder(input@);
            spec_split(input@) is Some && (rem.len() == 0 || is_local_token(rem))
                ==> r is Ok
        }),
        ({
            let rem = spec_remainder(input@);
            spec_split(input@) is Some && rem.len() > 0 && !is_local_token(rem)
                && spec_numeric_offset(rem) is None && (!db.contains_abbrev(spec_lower(rem))
                || !is_zone_name(spec_resolved_name(*db, rem))) ==> r == Err::<
                FixedOffsetInstant,
                ParseError,
            >(ParseError::UnrecognizedFormat)
        }),
{
    match match_datetime(input, 84) {
        Some(naive) => match resolve_remainder(db, input, naive) {
            Some(f) => {
                return Ok(f);
            },
            None => {},
        },
        None => {},
    }
    match match_datetime(input, 32) {
        Some(naive) => match resolve_remainder(db, input, naive) {
            Some(f) => {
                return Ok(f);
            },
            None => {},
        },
        None => {},
    }
    Err(ParseError::UnrecognizedFormat)
}

/// Parses an input against a given value of today's date: a time-only input
/// is expanded with that date, so the synthesized calendar date of its
/// result is exactly `today`.
pub fn parse_with_today(db: &TzDb, today: Date, input: &[u8]) -> (r: Result<
    FixedOffsetInstant,
    ParseError,
>)
    requires
        db.wf(),
        today.wf(),
    ensures
        ({
            let e = spec_expand(today, input@);
            let rem = spec_remainder(e);
            &&& (r matches Ok(f) ==> f.wf() && spec_split(e) == Some(f.naive))
            &&& (spec_parse_fixed(e) matches Some(f) ==> r == Ok::<
                FixedOffsetInstant,
                ParseError,
            >(f))
            &&& (spec_split(e) is None ==> r == Err::<FixedOffsetInstant, ParseError>(
                ParseError::UnrecognizedFormat,
            ))
            &&& (spec_split(e) is Some && rem.len() > 0 && !is_local_token(rem)
                && spec_numeric_offset(rem) is None && db.contains_abbrev(spec_lower(rem))
                && is_zone_name(spec_resolved_name(*db, rem)) ==> (r matches Ok(f) && f.naive
                == spec_split(e)->Some_0 && f.offset_seconds == zone_offset_of(
                spec_resolved_name(*db, rem),
                (spec_split(e)->Some_0).abs_seconds() - 62167219200,
            )))
            &&& (spec_split(e) is Some && (rem.len() == 0 || is_local_token(rem)) ==> r is Ok)
            &&& (spec_split(e) is Some && rem.len() > 0 && !is_local_token(rem)
                && spec_numeric_offset(rem) is None && (!db.contains_abbrev(spec_lower(rem))
                || !is_zone_name(spec_resolved_name(*db, rem))) ==> r == Err::<
                FixedOffsetInstant,
                ParseError,
            >(ParseError::UnrecognizedFormat))
            &&& (has_time_prefix(input@) ==> (r matches Ok(f) ==> f.naive.date == today
                && f.naive.time == time_at(input@, 0)))
        }),
{
    if input.len() >= 8 && match_time(input, 0).is_some() {
        let mut expanded: Vec<u8> = Vec::new();
        push4(&mut expanded, today.year);
        expanded.push(45);
        push2(&mut expanded, today.month);
        expanded.push(45);
        push2(&mut expanded, today.day);
        expanded.push(32);
        expanded.extend_from_slice(input);
        proof {
            assert(expanded@ =~= spec_expand(today, input@));
        }
        let r = parse_datetime(db, expanded.as_slice());
        proof {
            if r is Ok {
                lemma_expanded_date(today, input@);
            }
        }
        r
    } else {
        parse_datetime(db, input)
    }
}

/// A rendered date reads back as the date it was rendered from.
pub proof fn lemma_render_date_reads_back(d: Date)
    requires
        d.wf(),
    ensures
        ({
            let rd = crate::instant::render_date(d);
            &&& rd.len() == 10
            &&& digits2_ok(rd, 0) && digits2_ok(rd, 2) && digits2_ok(rd, 5) && digits2_ok(rd, 8)
            &&& rd[4] == 45 && rd[7] == 45
            &&& four_digits(rd, 0) == d.year
            &&& two_digits(rd, 5) == d.month
            &&& two_digits(rd, 8) == d.day
        }),
{
    let y = d.year as int;
    let rd = crate::instant::render_date(d);
    lemma_fundamental_div_mod(y, 100);
    lemma_fundamental_div_mod(y / 100, 10);
    lemma_div_denominator(y, 100, 10);
    lemma_fundamental_div_mod(y, 1000);
    lemma_mod_breakdown(y, 10, 10);
    lemma_fundamental_div_mod(d.month as int, 10);
    lemma_fundamental_div_mod(d.day as int, 10);
    assert(rd[0] == crate::instant::digit(y / 1000));
    assert(rd[1] == crate::instant::digit((y / 100) % 10));
    assert(rd[2] == crate::instant::digit((y / 10) % 10));
    assert(rd[3] == crate::instant::digit(y % 10));
    assert(rd[4] == 45u8);
    assert(rd[5] == crate::instant::digit(d.month as int / 10));
    assert(rd[6] == crate::instant::digit(d.month as int % 10));
    assert(rd[7] == 45u8);
    assert(rd[8] == crate::instant::digit(d.day as int / 10));
    assert(rd[9] == crate::instant::digit(d.day as int % 10));
    assert(two_digits(rd, 0) == y / 100) by {
        assert(y / 1000 == (y / 100) / 10);
    }
    assert(two_digits(rd, 2) == y % 100);
}

/// In an expanded time-only input, the date the pattern reads back is the
/// date that was written, and the time is the original time prefix.
proof fn lemma_expanded_date(today: Date, s: Seq<u8>)
    requires
        today.wf(),
        has_time_prefix(s),
    ensures
        ({
            let e = spec_expand(today, s);
            spec_split(e) is Some ==> date_at(e) == today && time_at(e, 11) == time_at(s, 0)
        }),
{
    let e = spec_expand(today, s);
    lemma_render_date_reads_back(today);
    let rd = crate::instant::render_date(today);
    assert(e.subrange(0, 10) =~= rd);
    assert forall|i: int| 0 <= i < 10 implies e[i] == rd[i] by {
        assert(e.subrange(0, 10)[i] == e[i]);
    }
    assert(e[11] == s[0] && e[12] == s[1] && e[13] == s[2] && e[14] == s[3] && e[15] == s[4]
        && e[16] == s[5] && e[17] == s[6] && e[18] == s[7]);
}

/// Parses a raw input string. An input holding only a time of day is first
/// expanded with today's local calendar date.
pub fn parse(db: &TzDb, input: &str) -> (r: Result<FixedOffsetInstant, ParseError>)
    requires
        db.wf(),
    ensures
        ({
            let b = input.spec_bytes();
            &&& (r matches Ok(f) ==> f.wf())
            &&& (!has_time_prefix(b) ==> (spec_parse_fixed(b) matches Some(f) ==> r == Ok::<
                FixedOffsetInstant,
                ParseError,
            >(f)))
            &&& (!has_time_prefix(b) && spec_split(b) is None ==> r == Err::<
                FixedOffsetInstant,
                ParseError,
            >(ParseError::UnrecognizedFormat))
            &&& (!has_time_prefix(b) ==> (r matches Ok(f) ==> spec_split(b) == Some(f.naive)))
            &&& (!has_time_prefix(b) && spec_split(b) is Some && spec_remainder(b).len() > 0
                && !is_local_token(spec_remainder(b)) && spec_numeric_offset(spec_remainder(b))
                is None && (!db.contains_abbrev(spec_lower(spec_remainder(b))) || !is_zone_name(
                spec_resolved_name(*db, spec_remainder(b)),
            )) ==> r == Err::<FixedOffsetInstant, ParseError>(ParseError::UnrecognizedFormat))
            &&& (!has_time_prefix(b) && spec_split(b) is Some && (spec_remainder(b).len() == 0
                || is_local_token(spec_remainder(b)) || (spec_numeric_offset(spec_remainder(b))
                is None && db.contains_abbrev(spec_lower(spec_remainder(b))) && is_zone_name(
                spec_resolved_name(*db, spec_remainder(b)),
            ))) ==> r is Ok)
            &&& (!has_time_prefix(b) && spec_split(b) is Some && spec_remainder(b).len() > 0
                && !is_local_token(spec_remainder(b)) && spec_numeric_offset(spec_remainder(b))
                is None && db.contains_abbrev(spec_lower(spec_remainder(b))) && is_zone_name(
                spec_resolved_name(*db, spec_remainder(b)),
            ) ==> (r matches Ok(f) && f.offset_seconds == zone_offset_of(
                spec_resolved_name(*db, spec_remainder(b)),
                (spec_split(b)->Some_0).abs_seconds() - 62167219200,
            )))
            &&& (has_time_prefix(b) ==> (r matches Ok(f) ==> f.naive.time == time_at(b, 0)))
        }),
{
    let bytes = input.as_bytes_vec();
    let (y, m, d) = today_local();
    if 0 <= y && y <= 9999 {
        let today = Date { year: y as u16, month: m, day: d };
        parse_with_today(db, today, bytes.as_slice())
    } else {
        parse_datetime(db, bytes.as_slice())
    }
}

} // verus!
