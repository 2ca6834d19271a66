//! The decision pipeline behind the command line: validate the destination
//! timezone, parse, convert, format.
//!
//! The destination token is validated against the abbreviation index before
//! the datetime argument is looked at: with an unknown destination the
//! pipeline reports that error whatever the datetime argument holds, so no
//! parse is ever attempted for it.

use vstd::prelude::*;
use vstd::string::{StringSliceAdditionalSpecFns, StrSliceExecFns};
use crate::bytes::{ascii_lower, spec_lower};
use crate::convert::convert;
use crate::host::{is_zone_name, MAX_EPOCH, MIN_EPOCH};
use crate::instant::{display_chars, FixedOffsetInstant};
use crate::parse::{has_time_prefix, parse, spec_parse_fixed};
use crate::tzdb::TzDb;

verus! {

/// What the pipeline can report instead of a converted instant.
#[derive(Clone, Copy, Debug, PartialEq, Eq, Structural)]
pub enum CliError {
    /// The destination token is not in the abbreviation index. Reported
    /// before any parsing.
    UnknownTimezone,
    /// No date/time pattern matched the datetime argument.
    UnrecognizedFormat,
    /// The converted reading would leave the supported years.
    UnsupportedInstant,
}

/// Runs the pipeline: returns the datetime argument converted into the
/// destination timezone, formatted for display.
pub fn run(db: &TzDb, datetime: &str, dest_tz: &str) -> (r: Result<String, CliError>)
    requires
        db.wf(),
    ensures
        !db.contains_abbrev(spec_lower(dest_tz.spec_bytes())) ==> r == Err::<String, CliError>(
            CliError::UnknownTimezone,
        ),
        r is Ok ==> db.contains_abbrev(spec_lower(dest_tz.spec_bytes())),
        r matches Ok(out) ==> exists|c: FixedOffsetInstant|
            c.wf() && out@ == #[trigger] display_chars(c),
        ({
            let b = datetime.spec_bytes();
            let f = spec_parse_fixed(b)->Some_0;
            spec_parse_fixed(b) is Some && db.contains_abbrev(spec_lower(dest_tz.spec_bytes()))
                && is_zone_name(db.spec_get(spec_lower(dest_tz.spec_bytes()))->Some_0)
                && !has_time_prefix(b) && MIN_EPOCH + 86400 <= f.epoch_of() <= MAX_EPOCH - 86400
                ==> (r matches Ok(out) && exists|c: FixedOffsetInstant|
            c.wf() && c.epoch_of() == f.epoch_of() && out@ == #[trigger] display_chars(c))
        }),
{
    let dest_bytes = dest_tz.as_bytes_vec();
    let lower = ascii_lower(dest_bytes.as_slice());
    let zone_name = match db.get(lower.as_slice()) {
        Some(n) => n,
        None => {
            return Err(CliError::UnknownTimezone);
        },
    };
    let parsed = match parse(db, datetime) {
        Ok(p) => p,
        Err(_) => {
            return Err(CliError::UnrecognizedFormat);
        },
    };
    match convert(&parsed, zone_name.as_slice()) {
        Some(c) => Ok(c.to_display()),
        None => Err(CliError::UnsupportedInstant),
    }
}

} // verus!
