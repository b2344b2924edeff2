//! A UTC timestamp at second granularity, and its civil (calendar) form.
//!
//! The library works on plain Unix seconds; only the calendar arithmetic
//! (year, month, day, hour, minute, second of a given second) comes from the
//! `chrono` crate, behind a trusted wrapper.

use vstd::prelude::*;
use chrono::{Datelike, Timelike};

verus! {

/// Greatest Unix second this library accepts: 9999-12-31T23:59:59Z, the last
/// second whose readable form still has a four-digit year.
pub const MAX_UNIX_SECS: u64 = 253402300799;

/// The UTC civil form of a Unix second, as
/// (year, month, day, hour, minute, second) in the proleptic Gregorian
/// calendar.
pub uninterp spec fn civil_of_unix(secs: int) -> (int, int, int, int, int, int);

/// A UTC timestamp, held as whole Unix seconds.
pub struct Timestamp {
    secs: u64,
}

impl Timestamp {
    /// Timestamps never lie beyond the supported range.
    #[verifier::type_invariant]
    pub closed spec fn wf(self) -> bool {
        self.secs <= MAX_UNIX_SECS
    }

    /// The Unix seconds this timestamp holds.
    pub closed spec fn unix(self) -> int {
        self.secs as int
    }

    /// A timestamp for `secs` seconds since the Unix epoch, if `secs` lies in
    /// the supported range.
    pub fn from_unix(secs: u64) -> (r: Option<Timestamp>)
        ensures
            r is Some <==> secs <= MAX_UNIX_SECS,
            match r {
                Some(t) => t.unix() == secs as int,
                None => true,
            },
    {
        if secs <= MAX_UNIX_SECS {
            Some(Timestamp { secs })
        } else {
            None
        }
    }

    pub fn unix_seconds(&self) -> (r: u64)
        ensures
            r as int == self.unix(),
            r <= MAX_UNIX_SECS,
    {
        proof {
            use_type_invariant(self);
        }
        self.secs
    }
}

/// Relies on chrono's `DateTime::<Utc>::from_timestamp` together with the
/// `Datelike` and `Timelike` accessors: the UTC civil date and time of a Unix
/// second, defined (`Some`) everywhere below `MAX_UNIX_SECS`, with the fields
/// in their calendar ranges.
#[verifier::external_body]
pub(crate) fn civil_from_unix(secs: u64) -> (r: (u16, u8, u8, u8, u8, u8))
    requires
        secs <= MAX_UNIX_SECS,
    ensures
        civil_of_unix(secs as int) == (
            r.0 as int,
            r.1 as int,
            r.2 as int,
            r.3 as int,
            r.4 as int,
            r.5 as int,
        ),
        1970 <= r.0 <= 9999,
        1 <= r.1 <= 12,
        1 <= r.2 <= 31,
        r.3 < 24,
        r.4 < 60,
        r.5 < 60,
{
    let dt = chrono::DateTime::<chrono::Utc>::from_timestamp(secs as i64, 0).unwrap();
    (
        dt.year() as u16,
        dt.month() as u8,
        dt.day() as u8,
        dt.hour() as u8,
        dt.minute() as u8,
        dt.second() as u8,
    )
}

} // verus!
