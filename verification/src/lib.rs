//! A small library for flexible date/time parsing and timezone resolution.
//!
//! Given a human-supplied date/time string of ambiguous format, the library
//! determines the instant it denotes: it tries an ordered list of date/time
//! patterns, splits off a trailing timezone token, and resolves that token
//! through numeric-offset grammars and an abbreviation index built from the
//! IANA zone catalog. A resolved instant can then be projected into another
//! timezone for display.

pub mod bytes;
pub mod calendar;
pub mod cli;
pub mod convert;
pub mod host;
pub mod instant;
pub mod laws;
pub mod parse;
pub mod resolve;
pub mod tzdb;

pub use calendar::{Date, Time};
pub use cli::{run, CliError};
pub use convert::convert;
pub use instant::{FixedOffsetInstant, NaiveInstant};
pub use parse::{parse, parse_datetime, parse_with_today, ParseError};
pub use resolve::{parse_timezone, ResolveError};
pub use tzdb::{build_timezone_db, TzDb};
