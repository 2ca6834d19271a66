//! Instants: a naive date/time, and a date/time bound to a fixed UTC offset.
//!
//! A [`FixedOffsetInstant`] is the parser's successful output. Its naive part
//! is the local wall-clock reading; subtracting the offset gives the absolute
//! instant, counted in Unix seconds by [`FixedOffsetInstant::epoch_of`].

use vstd::prelude::*;
use vstd::arithmetic::div_mod::{lemma_fundamental_div_mod, lemma_mod_mod};
use crate::calendar::{civil_from_day_number, date_day_number, Date, Time, DAYS_IN_RANGE};
use crate::host::{ascii_to_string, MAX_EPOCH, MIN_EPOCH};

verus! {

/// A calendar date and a time of day, with no offset attached.
#[derive(Clone, Copy, Debug, PartialEq, Eq, Structural)]
pub struct NaiveInstant {
    pub date: Date,
    pub time: Time,
}

impl NaiveInstant {
    pub open spec fn wf(self) -> bool {
        self.date.wf() && self.time.wf()
    }

    /// Seconds since 0000-01-01T00:00:00 of the same (local) reading.
    pub open spec fn abs_seconds(self) -> int {
        self.date.spec_day_number() * 86400 + self.time.spec_seconds_of_day()
    }
}

/// A naive reading bound to a fixed UTC offset: a real, absolute instant.
#[derive(Clone, Copy, Debug, PartialEq, Eq, Structural)]
pub struct FixedOffsetInstant {
    pub naive: NaiveInstant,
    /// UTC offset in seconds, strictly between -86400 and 86400.
    pub offset_seconds: i32,
}

impl FixedOffsetInstant {
    pub open spec fn wf(self) -> bool {
        self.naive.wf() && -86400 < self.offset_seconds < 86400
    }

    /// The absolute instant in Unix seconds: the naive reading is local
    /// time, so the offset is subtracted.
    pub open spec fn epoch_of(self) -> int {
        self.naive.abs_seconds() - 62167219200 - self.offset_seconds
    }

    /// Unix seconds of this instant.
    pub fn to_epoch(&self) -> (e: i64)
        requires
            self.wf(),
        ensures
            e == self.epoch_of(),
            MIN_EPOCH - 86399 <= e <= MAX_EPOCH + 86399,
    {
        let days = date_day_number(&self.naive.date);
        let secs = (self.naive.time.hour as i64) * 3600 + (self.naive.time.minute as i64) * 60
            + (self.naive.time.second as i64);
        days * 86400 + secs - 62167219200 - (self.offset_seconds as i64)
    }

    /// The same absolute instant read as UTC, when it lies in the supported
    /// range of years.
    pub fn to_utc(&self) -> (r: Option<FixedOffsetInstant>)
        requires
            self.wf(),
        ensures
            r matches Some(u) ==> u.wf() && u.offset_seconds == 0 && u.epoch_of()
                == self.epoch_of(),
            r is Some <==> MIN_EPOCH <= self.epoch_of() <= MAX_EPOCH,
    {
        let e = self.to_epoch();
        if MIN_EPOCH <= e && e <= MAX_EPOCH {
            Some(from_epoch(e, 0))
        } else {
            None
        }
    }
}

/// Recovers the civil reading of an instant: the result's naive part is the
/// wall-clock reading of `epoch` under `offset_seconds`.
pub fn from_epoch(epoch: i64, offset_seconds: i32) -> (r: FixedOffsetInstant)
    requires
        -86400 < offset_seconds < 86400,
        MIN_EPOCH <= epoch + offset_seconds <= MAX_EPOCH,
    ensures
        r.wf(),
        r.offset_seconds == offset_seconds,
        r.epoch_of() == epoch,
{
    let local_abs = epoch + (offset_seconds as i64) + 62167219200;
    let days = local_abs / 86400;
    let sod = local_abs % 86400;
    proof {
        lemma_fundamental_div_mod(local_abs as int, 86400);
        assert(0 <= days < DAYS_IN_RANGE) by {
            assert(86400 * (local_abs as int / 86400) == local_abs - (local_abs as int % 86400));
        };
    }
    let date = civil_from_day_number(days);
    let hour = sod / 3600;
    let rem = sod % 3600;
    let minute = rem / 60;
    let second = sod % 60;
    proof {
        lemma_fundamental_div_mod(sod as int, 3600);
        lemma_fundamental_div_mod(rem as int, 60);
        lemma_mod_mod(sod as int, 60, 60);
    }
    let time = Time { hour: hour as u8, minute: minute as u8, second: second as u8 };
    FixedOffsetInstant { naive: NaiveInstant { date, time }, offset_seconds }
}

/// The byte of a decimal digit.
pub open spec fn digit(n: int) -> u8 {
    (48 + n) as u8
}

/// Two decimal digits, zero padded.
pub open spec fn render2(n: int) -> Seq<u8> {
    seq![digit(n / 10), digit(n % 10)]
}

/// Four decimal digits, zero padded.
pub open spec fn render4(n: int) -> Seq<u8> {
    seq![digit(n / 1000), digit((n / 100) % 10), digit((n / 10) % 10), digit(n % 10)]
}

/// `YYYY-MM-DD`.
pub open spec fn render_date(d: Date) -> Seq<u8> {
    render4(d.year as int) + seq![45u8] + render2(d.month as int) + seq![45u8] + render2(
        d.day as int,
    )
}

/// `HH:MM:SS`.
pub open spec fn render_time(t: Time) -> Seq<u8> {
    render2(t.hour as int) + seq![58u8] + render2(t.minute as int) + seq![58u8] + render2(
        t.second as int,
    )
}

/// `+HH:MM` or `-HH:MM`; seconds of the offset below one minute are not
/// representable and are dropped.
pub open spec fn render_offset(off: int) -> Seq<u8> {
    let sign: u8 = if off >= 0 {
        43
    } else {
        45
    };
    let a: int = if off >= 0 {
        off
    } else {
        -off
    };
    seq![sign] + render2(a / 3600) + seq![58u8] + render2((a % 3600) / 60)
}

/// The standard offset-qualified representation, `YYYY-MM-DDTHH:MM:SS+HH:MM`.
pub open spec fn render_rfc3339(i: FixedOffsetInstant) -> Seq<u8> {
    render_date(i.naive.date) + seq![84u8] + render_time(i.naive.time) + render_offset(
        i.offset_seconds as int,
    )
}

/// The human-readable representation, `YYYY-MM-DD HH:MM:SS +HH:MM`.
pub open spec fn render_display(i: FixedOffsetInstant) -> Seq<u8> {
    render_date(i.naive.date) + seq![32u8] + render_time(i.naive.time) + seq![32u8]
        + render_offset(i.offset_seconds as int)
}

/// The standard representation as characters.
pub open spec fn rfc3339_chars(i: FixedOffsetInstant) -> Seq<char> {
    render_rfc3339(i).map_values(|b: u8| b as char)
}

/// The human-readable representation as characters.
pub open spec fn display_chars(i: FixedOffsetInstant) -> Seq<char> {
    render_display(i).map_values(|b: u8| b as char)
}

/// All bytes are ASCII.
pub open spec fn is_ascii_bytes(s: Seq<u8>) -> bool {
    forall|i: int| 0 <= i < s.len() ==> s[i] < 128
}

/// Appends two decimal digits.
pub(crate) fn push2(v: &mut Vec<u8>, n: u8)
    requires
        n <= 99,
    ensures
        final(v)@ == old(v)@ + render2(n as int),
        final(v)@.len() == old(v)@.len() + 2,
        is_ascii_bytes(old(v)@) ==> is_ascii_bytes(final(v)@),
{
    v.push(48 + n / 10);
    v.push(48 + n % 10);
    assert(final(v)@ =~= old(v)@ + render2(n as int));
}

/// Appends four decimal digits.
pub(crate) fn push4(v: &mut Vec<u8>, n: u16)
    requires
        n <= 9999,
    ensures
        final(v)@ == old(v)@ + render4(n as int),
        final(v)@.len() == old(v)@.len() + 4,
        is_ascii_bytes(old(v)@) ==> is_ascii_bytes(final(v)@),
{
    v.push(48 + (n / 1000) as u8);
    v.push(48 + ((n / 100) % 10) as u8);
    v.push(48 + ((n / 10) % 10) as u8);
    v.push(48 + (n % 10) as u8);
    assert(final(v)@ =~= old(v)@ + render4(n as int));
}

/// Appends `YYYY-MM-DD HH:MM:SS` of the naive part with the given separator
/// byte, then the rendered offset.
fn push_rendered(v: &mut Vec<u8>, i: &FixedOffsetInstant, sep: u8)
    requires
        i.wf(),
        sep < 128,
    ensures
        final(v)@ == old(v)@ + render_date(i.naive.date) + seq![sep] + render_time(i.naive.time),
        is_ascii_bytes(old(v)@) ==> is_ascii_bytes(final(v)@),
{
    push4(v, i.naive.date.year);
    v.push(45);
    push2(v, i.naive.date.month);
    v.push(45);
    push2(v, i.naive.date.day);
    v.push(sep);
    push2(v, i.naive.time.hour);
    v.push(58);
    push2(v, i.naive.time.minute);
    v.push(58);
    push2(v, i.naive.time.second);
    assert(final(v)@ =~= old(v)@ + render_date(i.naive.date) + seq![sep] + render_time(
        i.naive.time,
    ));
}

/// Appends `+HH:MM` or `-HH:MM`.
fn push_offset(v: &mut Vec<u8>, off: i32)
    requires
        -86400 < off < 86400,
    ensures
        final(v)@ == old(v)@ + render_offset(off as int),
        is_ascii_bytes(old(v)@) ==> is_ascii_bytes(final(v)@),
{
    let a: i32 = if off >= 0 {
        v.push(43);
        off
    } else {
        v.push(45);
        -off
    };
    push2(v, (a / 3600) as u8);
    v.push(58);
    push2(v, ((a % 3600) / 60) as u8);
    assert(final(v)@ =~= old(v)@ + render_offset(off as int));
}

impl FixedOffsetInstant {
    /// The standard offset-qualified representation of this instant.
    pub fn to_rfc3339(&self) -> (r: String)
        requires
            self.wf(),
        ensures
            r@ == rfc3339_chars(*self),
    {
        let mut v: Vec<u8> = Vec::new();
        push_rendered(&mut v, self, 84);
        push_offset(&mut v, self.offset_seconds);
        proof {
            assert(v@ =~= render_rfc3339(*self));
        }
        ascii_to_string(v)
    }

    /// The human-readable representation of this instant, date and time
    /// separated from the offset by spaces.
    pub fn to_display(&self) -> (r: String)
        requires
            self.wf(),
        ensures
            r@ == display_chars(*self),
    {
        let mut v: Vec<u8> = Vec::new();
        push_rendered(&mut v, self, 32);
        v.push(32);
        push_offset(&mut v, self.offset_seconds);
        proof {
            assert(v@ =~= render_display(*self));
        }
        ascii_to_string(v)
    }
}

} // verus!
