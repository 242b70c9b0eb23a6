//! Points in time: the library's UTC date-time, the Protobuf timestamp that clients
//! exchange, and the conversions between them.

use vstd::prelude::*;
use crate::error::{Code, Status, status_is};

verus! {

/// Whether `chrono::DateTime::<Utc>::from_timestamp(secs, nanos)` yields a date-time.
/// chrono accepts the seconds whose day lies between its earliest date, January 1 of
/// the year -262143, and its latest, December 31 of the year 262142 (from
/// -8,334,601,228,800 to 8,210,266,876,799 seconds after the Unix epoch), and a
/// nanosecond part below 1,000,000,000, or below 2,000,000,000 in the last second of
/// a minute, where it stands for a leap second.
pub open spec fn chrono_accepts_timestamp(secs: i64, nanos: u32) -> bool {
    &&& -8_334_601_228_800 <= secs <= 8_210_266_876_799
    &&& (nanos < 1_000_000_000 || (nanos < 2_000_000_000 && secs % 60 == 59))
}

/// Calls `chrono::DateTime::<chrono::Utc>::from_timestamp` and reports whether it
/// returned a date-time. The contract claims that chrono accepts exactly the seconds
/// and nanoseconds that `chrono_accepts_timestamp` describes: its source splits the
/// seconds into a day, which must fall within its calendar, and a second of that day,
/// which takes a nanosecond part of one second or more only as a leap second. chrono
/// documents that an accepted date-time round-trips to the same seconds and
/// nanoseconds, which is why the library keeps only those two numbers.
#[verifier::external_body]
fn chrono_from_timestamp_succeeds(secs: i64, nanos: u32) -> (accepted: bool)
    ensures
        accepted == chrono_accepts_timestamp(secs, nanos),
{
    match chrono::DateTime::from_timestamp(secs, nanos) {
        Some(_) => true,
        None => false,
    }
}

/// The seconds and nanoseconds of a valid UTC date-time.
pub open spec fn datetime_valid(secs: i64, nanos: u32) -> bool {
    chrono_accepts_timestamp(secs, nanos)
}

/// A UTC date-time, held as the seconds since the Unix epoch and the nanoseconds
/// since the last whole second (above 999,999,999 only within a leap second).
#[derive(Clone, Copy, Debug, PartialEq, Eq, Structural)]
pub struct DateTimeUtc {
    secs: i64,
    nanos: u32,
}

impl View for DateTimeUtc {
    type V = (i64, u32);

    closed spec fn view(&self) -> (i64, u32) {
        (self.secs, self.nanos)
    }
}

impl DateTimeUtc {
    #[verifier::type_invariant]
    closed spec fn inv(self) -> bool {
        datetime_valid(self.secs, self.nanos)
    }

    /// The date-time `secs` seconds and `nanos` nanoseconds after the Unix epoch, or
    /// `None` where chrono refuses those numbers.
    pub fn from_timestamp(secs: i64, nanos: u32) -> (d: Option<DateTimeUtc>)
        ensures
            d is Some <==> chrono_accepts_timestamp(secs, nanos),
            d matches Some(d) ==> d@ == (secs, nanos) && datetime_valid(secs, nanos),
    {
        if chrono_from_timestamp_succeeds(secs, nanos) {
            Some(DateTimeUtc { secs, nanos })
        } else {
            None
        }
    }

    /// The seconds since the Unix epoch.
    pub fn timestamp(&self) -> (secs: i64)
        ensures
            secs == self@.0,
    {
        self.secs
    }

    /// The nanoseconds since the last whole second.
    pub fn timestamp_subsec_nanos(&self) -> (nanos: u32)
        ensures
            nanos == self@.1,
            datetime_valid(self@.0, nanos),
    {
        proof {
            use_type_invariant(self);
        }
        self.nanos
    }
}

/// A Protobuf timestamp: seconds since the Unix epoch and a nanosecond part.
#[derive(Clone, Copy, Debug, PartialEq, Eq, Structural)]
pub struct Timestamp {
    pub seconds: i64,
    pub nanos: i32,
}

/// The timestamp of the date-time with seconds `d.0` and nanoseconds `d.1`.
pub open spec fn timestamp_of(d: (i64, u32)) -> Timestamp {
    Timestamp { seconds: d.0, nanos: d.1 as i32 }
}

/// The date-time that a timestamp denotes, if chrono accepts it.
pub open spec fn datetime_of(t: Timestamp) -> Option<(i64, u32)> {
    if chrono_accepts_timestamp(t.seconds, t.nanos as u32) {
        Some((t.seconds, t.nanos as u32))
    } else {
        None
    }
}

/// The message of the refusal of a timestamp that chrono does not accept.
pub open spec fn timestamp_range_message() -> Seq<char> {
    "Timestamp is not within the allowable range. Exceeds system limits."@
}

/// Converts a date-time to a Protobuf timestamp, wrapped in `Some` because message
/// fields of Protobuf types are optional.
pub fn datetime_to_timestamp(datetime: DateTimeUtc) -> (t: Option<Timestamp>)
    ensures
        t == Some(timestamp_of(datetime@)),
        t->0.nanos as int == datetime@.1 as int,
{
    let nanos = datetime.timestamp_subsec_nanos();
    Some(Timestamp { seconds: datetime.timestamp(), nanos: nanos as i32 })
}

/// Converts a Protobuf timestamp to a date-time; a timestamp that chrono does not
/// accept is refused as an invalid argument.
pub fn timestamp_to_datetime(timestamp: Timestamp) -> (r: Result<DateTimeUtc, Status>)
    ensures
        r is Ok <==> datetime_of(timestamp) is Some,
        r matches Ok(d) ==> Some(d@) == datetime_of(timestamp),
        r matches Err(s) ==> status_is(s, Code::InvalidArgument, timestamp_range_message()),
{
    match DateTimeUtc::from_timestamp(timestamp.seconds, timestamp.nanos as u32) {
        Some(d) => Ok(d),
        None => Err(
            Status::invalid_argument(
                "Timestamp is not within the allowable range. Exceeds system limits.",
            ),
        ),
    }
}

/// A date-time converted to a timestamp converts back to the same date-time.
pub proof fn lemma_timestamp_round_trip(d: (i64, u32))
    requires
        datetime_valid(d.0, d.1),
    ensures
        datetime_of(timestamp_of(d)) == Some(d),
{
    assert((d.1 as i32) as u32 == d.1);
}

} // verus!
