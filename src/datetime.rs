//! A UTC point in time that is read and written as RFC 3339 text and
//! serialised as whole seconds since the Unix epoch.
use vstd::prelude::*;

verus! {

/// Whether chrono can represent the instant `secs` seconds and `nanos`
/// nanoseconds after the Unix epoch.
pub uninterp spec fn instant_in_range(secs: int, nanos: int) -> bool;

/// Relies on chrono's `DateTime::<Utc>::from_timestamp`: it gives the
/// instant, which reads back as the same seconds and nanoseconds, or `None`
/// when chrono cannot represent it.
#[verifier::external_body]
fn utc_from_timestamp(secs: i64, nanos: u32) -> (r: Option<(i64, u32)>)
    ensures
        r is Some <==> instant_in_range(secs as int, nanos as int),
        r matches Some(p) ==> p == (secs, nanos),
{
    chrono::DateTime::from_timestamp(secs, nanos).map(|t| (t.timestamp(), t.timestamp_subsec_nanos()))
}

/// Why seconds and nanoseconds could not be turned into a date and time.
#[derive(Debug, PartialEq, Eq, Structural)]
pub enum TimestampError {
    /// The instant lies outside the range of representable instants.
    OutOfRange,
}

/// A UTC date and time, as seconds and nanoseconds since the Unix epoch.
pub struct DateTimeRfc3339 {
    secs: i64,
    nanos: u32,
}

impl DateTimeRfc3339 {
    /// Seconds since the Unix epoch.
    pub closed spec fn secs_spec(&self) -> int {
        self.secs as int
    }

    /// Nanoseconds past `secs_spec`.
    pub closed spec fn nanos_spec(&self) -> int {
        self.nanos as int
    }

    /// Only instants that chrono can represent are held.
    pub open spec fn wf(&self) -> bool {
        instant_in_range(self.secs_spec(), self.nanos_spec())
    }

    /// The instant `secs` seconds and `nanos` nanoseconds after the Unix
    /// epoch; an error when it cannot be represented.
    pub fn new(secs: i64, nanos: u32) -> (r: Result<Self, TimestampError>)
        ensures
            r is Ok <==> instant_in_range(secs as int, nanos as int),
            r matches Ok(t) ==> t.wf() && t.secs_spec() == secs && t.nanos_spec() == nanos,
            r is Err ==> r == Err::<Self, TimestampError>(TimestampError::OutOfRange),
    {
        match utc_from_timestamp(secs, nanos) {
            Some(p) => Ok(DateTimeRfc3339 { secs: p.0, nanos: p.1 }),
            None => Err(TimestampError::OutOfRange),
        }
    }

    /// The instant `ts` whole seconds after the Unix epoch.
    pub fn from_timestamp(ts: i64) -> (r: Result<Self, TimestampError>)
        ensures
            r is Ok <==> instant_in_range(ts as int, 0),
            r matches Ok(t) ==> t.wf() && t.secs_spec() == ts && t.nanos_spec() == 0,
            r is Err ==> r == Err::<Self, TimestampError>(TimestampError::OutOfRange),
    {
        Self::new(ts, 0)
    }

    /// Whole seconds since the Unix epoch.
    pub fn timestamp(&self) -> (r: i64)
        ensures
            r == self.secs_spec(),
    {
        self.secs
    }

    /// Nanoseconds past the whole second.
    pub fn subsec_nanos(&self) -> (r: u32)
        ensures
            r == self.nanos_spec(),
    {
        self.nanos
    }
}

} // verus!
