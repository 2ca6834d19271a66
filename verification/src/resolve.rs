//! The timezone resolver: a trailing token of the input is turned into a
//! fixed UTC offset.
//!
//! Rigid numeric grammars are tried first, so that a well-formed offset is
//! never mistaken for an abbreviation; only when they all fail is the token
//! case-folded and looked up in the abbreviation index, and the offset of
//! the zone so named taken at the reference instant. The reference instant
//! supplies the calendar context that decides whether daylight saving
//! applies. Every outcome is pinned: numeric tokens by their digits alone,
//! index hits by [`zone_offset_of`] applied to the registered zone name.

use vstd::prelude::*;
use crate::bytes::{ascii_lower, digits2_ok, spec_lower, two_digits};
use crate::host::{is_zone_name, zone_offset_by_name, zone_offset_of, MAX_EPOCH, MIN_EPOCH};
use crate::tzdb::TzDb;

verus! {

/// Failure of the resolver: the token is neither a numeric offset nor a
/// registered abbreviation.
#[derive(Clone, Copy, Debug, PartialEq, Eq, Structural)]
pub enum ResolveError {
    UnknownTimezone,
}

/// An offset sign byte: `+` or `-`.
pub open spec fn is_sign(b: u8) -> bool {
    b == 43 || b == 45
}

/// Direction of an offset sign byte.
pub open spec fn sign_val(b: u8) -> int {
    if b == 43 {
        1
    } else {
        -1
    }
}

/// The numeric-offset grammar: `Z` (either case), `+HH`, `+HHMM` or
/// `+HH:MM`, each with `-` as well, hours up to 23 and minutes up to 59.
/// The result is the offset in seconds.
pub open spec fn spec_numeric_offset(t: Seq<u8>) -> Option<int> {
    if t.len() == 1 && (t[0] == 90 || t[0] == 122) {
        Some(0)
    } else if t.len() == 3 && is_sign(t[0]) && digits2_ok(t, 1) && two_digits(t, 1) <= 23 {
        Some(sign_val(t[0]) * (two_digits(t, 1) * 3600))
    } else if t.len() == 5 && is_sign(t[0]) && digits2_ok(t, 1) && digits2_ok(t, 3) && two_digits(
        t,
        1,
    ) <= 23 && two_digits(t, 3) <= 59 {
        Some(sign_val(t[0]) * (two_digits(t, 1) * 3600 + two_digits(t, 3) * 60))
    } else if t.len() == 6 && is_sign(t[0]) && digits2_ok(t, 1) && t[3] == 58 && digits2_ok(t, 4)
        && two_digits(t, 1) <= 23 && two_digits(t, 4) <= 59 {
        Some(sign_val(t[0]) * (two_digits(t, 1) * 3600 + two_digits(t, 4) * 60))
    } else {
        None
    }
}

/// A numeric offset is strictly below one day.
pub proof fn lemma_numeric_offset_bounded(t: Seq<u8>)
    ensures
        spec_numeric_offset(t) matches Some(o) ==> -86400 < o < 86400 && o % 60 == 0,
{
}

/// Reads a token of the numeric-offset grammar.
pub fn parse_numeric_offset(t: &[u8]) -> (r: Option<i32>)
    ensures
        match r {
            Some(o) => spec_numeric_offset(t@) == Some(o as int),
            None => spec_numeric_offset(t@) is None,
        },
{
    if t.len() == 1 && (t[0] == 90 || t[0] == 122) {
        return Some(0);
    }
    if (t.len() == 3 || t.len() == 5 || t.len() == 6) && (t[0] == 43 || t[0] == 45) {
        let negative = t[0] == 45;
        let hours = match crate::bytes::digit2_at(t, 1) {
            Some(h) => h,
            None => {
                return None;
            },
        };
        if hours > 23 {
            return None;
        }
        let minutes: u8 = if t.len() == 3 {
            0
        } else {
            let mi: usize = if t.len() == 5 {
                3
            } else {
                if t[3] != 58 {
                    return None;
                }
                4
            };
            match crate::bytes::digit2_at(t, mi) {
                Some(m) => {
                    if m > 59 {
                        return None;
                    }
                    m
                },
                None => {
                    return None;
                },
            }
        };
        let total = (hours as i32) * 3600 + (minutes as i32) * 60;
        if negative {
            return Some(-total);
        }
        return Some(total);
    }
    None
}

/// The zone name the index resolution of a token goes through: the name
/// registered under the case-folded token.
pub open spec fn spec_resolved_name(db: TzDb, token: Seq<u8>) -> Seq<u8> {
    db.spec_get(spec_lower(token))->Some_0
}

/// Resolves a timezone token against a reference instant: numeric-offset
/// grammars first, then the abbreviation index. A token of the numeric
/// grammar is resolved from its digits alone — the index is not consulted,
/// and the result is the same whatever the index holds. An index hit
/// resolves to the named zone's offset at the reference instant.
pub fn parse_timezone(db: &TzDb, reference_epoch: i64, token: &[u8]) -> (r: Result<
    i32,
    ResolveError,
>)
    requires
        db.wf(),
        MIN_EPOCH <= reference_epoch <= MAX_EPOCH,
    ensures
        spec_numeric_offset(token@) matches Some(o) ==> r matches Ok(v) && v == o,
        spec_numeric_offset(token@) is None && !db.contains_abbrev(spec_lower(token@)) ==> r
            == Err::<i32, ResolveError>(ResolveError::UnknownTimezone),
        spec_numeric_offset(token@) is None && db.contains_abbrev(spec_lower(token@))
            && is_zone_name(spec_resolved_name(*db, token@)) ==> (r matches Ok(v) && v
            == zone_offset_of(spec_resolved_name(*db, token@), reference_epoch as int)),
        spec_numeric_offset(token@) is None && db.contains_abbrev(spec_lower(token@))
            && !is_zone_name(spec_resolved_name(*db, token@)) ==> r == Err::<
            i32,
            ResolveError,
        >(ResolveError::UnknownTimezone),
        r matches Ok(v) ==> -86400 < v < 86400,
{
    proof {
        lemma_numeric_offset_bounded(token@);
    }
    match parse_numeric_offset(token) {
        Some(v) => Ok(v),
        None => {
            let lower = ascii_lower(token);
            match db.get(lower.as_slice()) {
                Some(name) => match zone_offset_by_name(name.as_slice(), reference_epoch) {
                    Some(off) => Ok(off),
                    None => Err(ResolveError::UnknownTimezone),
                },
                None => Err(ResolveError::UnknownTimezone),
            }
        },
    }
}

} // verus!
