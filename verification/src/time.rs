//! Civil-calendar reading of the Unix timestamps the pipeline stores.
//!
//! A creation instant is kept as whole seconds since the Unix epoch; the
//! calendar year and month used for time-bucketed views are computed by
//! chrono behind one trusted wrapper.

use chrono::Datelike;
use vstd::prelude::*;

verus! {

/// Earliest timestamp the pipeline reads a calendar date from:
/// 0001-01-01T00:00:00Z.
pub const TIMESTAMP_MIN: i64 = -62_135_596_800;

/// Latest timestamp the pipeline reads a calendar date from:
/// 9999-12-31T23:59:59Z.
pub const TIMESTAMP_MAX: i64 = 253_402_300_799;

/// True when a timestamp lies in the span whose calendar date the pipeline
/// can compute.
pub open spec fn timestamp_in_range(secs: int) -> bool {
    TIMESTAMP_MIN <= secs <= TIMESTAMP_MAX
}

/// The civil (proleptic Gregorian, UTC) year and month of a Unix timestamp.
pub uninterp spec fn civil_of(secs: int) -> (int, int);

/// Relies on chrono's `DateTime::<Utc>::from_timestamp`, which builds the UTC
/// instant of a Unix timestamp and returns `Some` for every timestamp between
/// years 1 and 9999 (well inside `NaiveDate`'s range), and on
/// `Datelike::year` and `Datelike::month`, which read the calendar year and
/// the month; chrono documents the month as ranging over 1 to 12.
#[verifier::external_body]
pub fn civil_from_timestamp(secs: i64) -> (r: (i32, u32))
    requires
        timestamp_in_range(secs as int),
    ensures
        r.0 as int == civil_of(secs as int).0,
        r.1 as int == civil_of(secs as int).1,
        1 <= r.1 <= 12,
{
    let dt = chrono::DateTime::<chrono::Utc>::from_timestamp(secs, 0)
        .expect("timestamp lies in the supported span");
    (dt.year(), dt.month())
}

} // verus!
