//! Trusted bindings to the host clock, the host timezone, and the IANA zone
//! catalog of `chrono-tz`, together with one `String` construction helper.
//!
//! Everything in this module is `external_body`: its contracts state what the
//! outside functions are documented to return, and the rest of the crate is
//! verified against those contracts alone. Two named results stand beside
//! them: [`is_zone_name`] and [`zone_offset_of`]. Both depend on their
//! arguments alone — the zone table is compiled into `chrono-tz`, so the
//! same name and instant give the same answer in every process.

use vstd::prelude::*;
use chrono::{Datelike, Offset, TimeZone};
use chrono_tz::OffsetName;
use crate::calendar::days_in_month;

verus! {

/// Earliest instant this crate represents, as Unix seconds
/// (0000-01-01T00:00:00Z).
pub const MIN_EPOCH: i64 = -62167219200;

/// Latest instant this crate represents, as Unix seconds
/// (9999-12-31T23:59:59Z).
pub const MAX_EPOCH: i64 = 253402300799;

/// An IANA timezone of `chrono-tz`, opaque to the verifier: a value of it is
/// only carried between the catalog and the per-zone lookups below.
#[verifier::external_type_specification]
#[verifier::external_body]
pub struct ExTz(chrono_tz::Tz);

/// The bytes are the canonical IANA identifier of a catalog zone, as
/// `chrono_tz::Tz::from_str` accepts it.
pub uninterp spec fn is_zone_name(name: Seq<u8>) -> bool;

/// The UTC offset, in seconds, that the zone so named observes at the given
/// instant of Unix seconds.
pub uninterp spec fn zone_offset_of(name: Seq<u8>, epoch: int) -> int;

/// Relies on `String::from_utf8`: ASCII bytes decode to the characters with
/// the same code points.
#[verifier::external_body]
pub(crate) fn ascii_to_string(bytes: Vec<u8>) -> (r: String)
    requires
        forall|i: int| 0 <= i < bytes@.len() ==> bytes@[i] < 128,
    ensures
        r@ == bytes@.map_values(|b: u8| b as char),
{
    match String::from_utf8(bytes) {
        Ok(s) => s,
        Err(_) => String::new(),
    }
}

/// Relies on `chrono_tz::TZ_VARIANTS`: the array of every zone of the
/// compiled-in IANA catalog, 597 of them in the vendored release.
#[verifier::external_body]
pub(crate) fn zone_catalog() -> (r: Vec<chrono_tz::Tz>)
    ensures
        r@.len() == 597,
{
    chrono_tz::TZ_VARIANTS.to_vec()
}

/// Relies on `chrono::Utc::now`: the current instant as Unix seconds.
/// `chrono` panics when the host clock reads before 1970.
#[verifier::external_body]
pub(crate) fn now_epoch() -> i64 {
    chrono::Utc::now().timestamp()
}

/// Relies on `chrono::Local::now` and the `Datelike` accessors: the host's
/// current calendar date, with month between 1 and 12 and a day that the
/// month really has. `chrono` panics when the host clock reads before 1970.
#[verifier::external_body]
pub(crate) fn today_local() -> (r: (i32, u8, u8))
    ensures
        1 <= r.1 <= 12,
        1 <= r.2 <= days_in_month(r.0 as int, r.1 as int),
{
    let d = chrono::Local::now().date_naive();
    (d.year(), d.month() as u8, d.day() as u8)
}

/// Relies on `chrono_tz::Tz::name`: the canonical IANA identifier of a
/// catalog zone, which `Tz::from_str` maps back to the zone.
#[verifier::external_body]
pub(crate) fn zone_name(zone: chrono_tz::Tz) -> (r: Vec<u8>)
    ensures
        is_zone_name(r@),
{
    zone.name().as_bytes().to_vec()
}

/// Relies on `chrono_tz::Tz::from_str` (the name either denotes a catalog
/// zone or nothing), on the zone's offset lookup
/// (`offset_from_utc_datetime`, which places any instant in exactly one
/// timespan), and on `chrono::FixedOffset`, whose offsets are strictly
/// between -86400 and 86400 seconds. `chrono::DateTime::from_timestamp` is
/// documented to return `Some` for any second count within its supported
/// year range, which contains every instant between `MIN_EPOCH` and
/// `MAX_EPOCH`.
#[verifier::external_body]
pub(crate) fn zone_offset_by_name(name: &[u8], epoch: i64) -> (r: Option<i32>)
    ensures
        r matches Some(off) ==> off == zone_offset_of(name@, epoch as int) && -86400 < off
            < 86400,
        is_zone_name(name@) && MIN_EPOCH <= epoch <= MAX_EPOCH ==> r is Some,
        !is_zone_name(name@) ==> r is None,
{
    let s = match core::str::from_utf8(name) {
        Ok(s) => s,
        Err(_) => return None,
    };
    let zone: chrono_tz::Tz = match s.parse() {
        Ok(z) => z,
        Err(_) => return None,
    };
    match chrono::DateTime::from_timestamp(epoch, 0) {
        Some(dt) => Some(
            zone.offset_from_utc_datetime(&dt.naive_utc()).fix().local_minus_utc(),
        ),
        None => None,
    }
}

/// Relies on `chrono::Local`'s offset lookup, with the bounds of
/// `chrono::FixedOffset`: the host timezone's UTC offset at the given
/// instant. The offset depends on the host environment, so only its bounds
/// are stated.
#[verifier::external_body]
pub(crate) fn local_offset_at(epoch: i64) -> (r: Option<i32>)
    ensures
        r matches Some(off) ==> -86400 < off < 86400,
        MIN_EPOCH <= epoch <= MAX_EPOCH ==> r is Some,
{
    match chrono::DateTime::from_timestamp(epoch, 0) {
        Some(dt) => Some(
            chrono::Local.offset_from_utc_datetime(&dt.naive_utc()).local_minus_utc(),
        ),
        None => None,
    }
}

/// Relies on `chrono_tz`'s `OffsetName::abbreviation`: the short name (such
/// as "JST") that the zone uses at the given instant, or `None` when the
/// zone has only a numeric designation there or the instant is out of
/// `chrono`'s range.
#[verifier::external_body]
pub(crate) fn zone_abbrev_at(zone: chrono_tz::Tz, epoch: i64) -> Option<Vec<u8>> {
    match chrono::DateTime::from_timestamp(epoch, 0) {
        Some(dt) => zone
            .offset_from_utc_datetime(&dt.naive_utc())
            .abbreviation()
            .map(|s| s.as_bytes().to_vec()),
        None => None,
    }
}

} // verus!
