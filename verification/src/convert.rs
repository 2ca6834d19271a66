//! The converter: a resolved instant is projected into a target named
//! timezone for display.
//!
//! The target is given by its canonical IANA zone name, and projection
//! never moves the absolute instant: the result reads the same Unix second
//! under the offset the named zone observes there. Failure is characterized
//! exactly: an unknown name, or a wall-clock reading that would need a year
//! outside 0 through 9999 — possible only for instants within a day of the
//! supported range's edges.

use vstd::prelude::*;
use crate::host::{is_zone_name, zone_offset_by_name, zone_offset_of, MAX_EPOCH, MIN_EPOCH};
use crate::instant::{from_epoch, FixedOffsetInstant};

verus! {

/// Projects an instant into the named zone: the result reads the same
/// absolute instant in that zone's offset at that moment.
pub fn convert(instant: &FixedOffsetInstant, zone_name: &[u8]) -> (r: Option<FixedOffsetInstant>)
    requires
        instant.wf(),
    ensures
        r matches Some(c) ==> c.wf() && c.epoch_of() == instant.epoch_of() && c.offset_seconds
            == zone_offset_of(zone_name@, instant.epoch_of()),
        r is Some <==> is_zone_name(zone_name@) && MIN_EPOCH <= instant.epoch_of() <= MAX_EPOCH
            && MIN_EPOCH <= instant.epoch_of() + zone_offset_of(zone_name@, instant.epoch_of())
            <= MAX_EPOCH,
        is_zone_name(zone_name@) && MIN_EPOCH <= instant.epoch_of() <= MAX_EPOCH ==> -86400
            < zone_offset_of(zone_name@, instant.epoch_of()) < 86400,
{
    let e = instant.to_epoch();
    if e < MIN_EPOCH || e > MAX_EPOCH {
        return None;
    }
    match zone_offset_by_name(zone_name, e) {
        Some(off) => {
            if MIN_EPOCH <= e + (off as i64) && e + (off as i64) <= MAX_EPOCH {
                Some(from_epoch(e, off))
            } else {
                None
            }
        },
        None => None,
    }
}

} // verus!
