//! Instants in time, and the parsing of timestamps into them.
//!
//! Parsing is left to `chrono`. What the library reads of a parsed value is
//! its position on the UTC time line, held here as whole seconds since the
//! Unix epoch and the nanoseconds within that second. Two instants are
//! ordered by the seconds first and the nanoseconds second, which is the
//! order `chrono` gives to the values they were taken from.

use crate::error::ReconcileError;
use vstd::prelude::*;

verus! {

/// An instant on the UTC time line.
#[derive(Clone, Copy, Debug, PartialEq, Eq, Structural)]
pub struct Timestamp {
    /// Whole non-leap seconds since 1970-01-01T00:00:00Z.
    pub seconds: i64,
    /// Nanoseconds since the last whole second; a leap second is counted
    /// past 999,999,999.
    pub nanos: u32,
}

impl Timestamp {
    /// `self` is not later than `other`.
    pub open spec fn at_or_before(self, other: Timestamp) -> bool {
        self.seconds < other.seconds || (self.seconds == other.seconds && self.nanos
            <= other.nanos)
    }

    /// The instant `nanos` nanoseconds after the whole second `seconds`.
    pub fn new(seconds: i64, nanos: u32) -> (t: Timestamp)
        ensures
            t.seconds == seconds,
            t.nanos == nanos,
    {
        Timestamp { seconds, nanos }
    }

    /// Tells whether `self` is not later than `other`.
    pub fn is_at_or_before(&self, other: &Timestamp) -> (b: bool)
        ensures
            b == self.at_or_before(*other),
    {
        self.seconds < other.seconds || (self.seconds == other.seconds && self.nanos
            <= other.nanos)
    }
}

/// Instants are in a total order: any two compare, and only equal instants
/// compare both ways.
pub proof fn theorem_instants_totally_ordered(a: Timestamp, b: Timestamp, c: Timestamp)
    ensures
        a.at_or_before(a),
        a.at_or_before(b) || b.at_or_before(a),
        a.at_or_before(b) && b.at_or_before(a) ==> a == b,
        a.at_or_before(b) && b.at_or_before(c) ==> a.at_or_before(c),
{
}

/// What `chrono::DateTime::parse_from_rfc3339` makes of `text`: `None` where
/// it rejects the text, else the seconds since the epoch and the nanoseconds
/// of the instant it denotes.
pub uninterp spec fn rfc3339_instant(text: Seq<char>) -> Option<(i64, u32)>;

/// What parsing `text` as a `chrono::DateTime<FixedOffset>` through `FromStr`
/// gives: `None` where the text is rejected, else the seconds since the epoch
/// and the nanoseconds of the instant it denotes.
pub uninterp spec fn datetime_instant(text: Seq<char>) -> Option<(i64, u32)>;

/// Calls `chrono::DateTime::parse_from_rfc3339` and reads the instant off the
/// parsed value with `timestamp` and `timestamp_subsec_nanos`. The contract
/// only gives the outcome its name, `rfc3339_instant`: nothing is claimed of
/// which texts parse or to what.
#[verifier::external_body]
fn parse_rfc3339(text: &str) -> (parsed: Option<(i64, u32)>)
    ensures
        parsed == rfc3339_instant(text@),
{
    match chrono::DateTime::parse_from_rfc3339(text) {
        Ok(moment) => Some((moment.timestamp(), moment.timestamp_subsec_nanos())),
        Err(_) => None,
    }
}

/// Calls `str::parse::<chrono::DateTime<chrono::FixedOffset>>`, the relaxed
/// RFC 3339 parser behind `FromStr`, and reads the instant off the parsed
/// value with `timestamp` and `timestamp_subsec_nanos`. The contract only
/// gives the outcome its name, `datetime_instant`.
#[verifier::external_body]
fn parse_datetime(text: &str) -> (parsed: Option<(i64, u32)>)
    ensures
        parsed == datetime_instant(text@),
{
    match text.parse::<chrono::DateTime<chrono::FixedOffset>>() {
        Ok(moment) => Some((moment.timestamp(), moment.timestamp_subsec_nanos())),
        Err(_) => None,
    }
}

/// The instant a parser's outcome stands for, if it stands for one.
pub open spec fn instant_of(parsed: Option<(i64, u32)>) -> Option<Timestamp> {
    match parsed {
        Some((seconds, nanos)) => Some(Timestamp { seconds, nanos }),
        None => None,
    }
}

/// The cutoff that `text` denotes.
pub open spec fn cutoff_of(text: Seq<char>) -> Option<Timestamp> {
    instant_of(rfc3339_instant(text))
}

/// The last-modified instant that `text` denotes.
pub open spec fn last_modified_of(text: Seq<char>) -> Option<Timestamp> {
    instant_of(datetime_instant(text))
}

/// Turns a parser's outcome into an instant, or into the error for a
/// timestamp that did not parse.
pub fn instant_or_malformed(parsed: Option<(i64, u32)>) -> (res: Result<
    Timestamp,
    ReconcileError,
>)
    ensures
        res == match instant_of(parsed) {
            Some(t) => Ok::<Timestamp, ReconcileError>(t),
            None => Err::<Timestamp, ReconcileError>(ReconcileError::MalformedTimestamp),
        },
{
    match parsed {
        Some((seconds, nanos)) => Ok(Timestamp { seconds, nanos }),
        None => Err(ReconcileError::MalformedTimestamp),
    }
}

/// Parses a cutoff, an RFC 3339 timestamp with offset.
pub fn parse_cutoff(text: &str) -> (res: Result<Timestamp, ReconcileError>)
    ensures
        res == match cutoff_of(text@) {
            Some(t) => Ok::<Timestamp, ReconcileError>(t),
            None => Err::<Timestamp, ReconcileError>(ReconcileError::MalformedTimestamp),
        },
{
    instant_or_malformed(parse_rfc3339(text))
}

/// Parses the last-modified field of a listed object.
pub fn parse_last_modified(text: &str) -> (res: Result<Timestamp, ReconcileError>)
    ensures
        res == match last_modified_of(text@) {
            Some(t) => Ok::<Timestamp, ReconcileError>(t),
            None => Err::<Timestamp, ReconcileError>(ReconcileError::MalformedTimestamp),
        },
{
    instant_or_malformed(parse_datetime(text))
}

/// Decides, from the outcome of parsing an object's last-modified field,
/// whether the object falls within the cutoff. The boundary is inclusive.
pub fn within_cutoff(last_modified: Option<Timestamp>, cutoff: &Timestamp) -> (res: Result<
    bool,
    ReconcileError,
>)
    ensures
        res == match last_modified {
            Some(t) => Ok::<bool, ReconcileError>(t.at_or_before(*cutoff)),
            None => Err::<bool, ReconcileError>(ReconcileError::MalformedTimestamp),
        },
{
    match last_modified {
        Some(t) => Ok(t.is_at_or_before(cutoff)),
        None => Err(ReconcileError::MalformedTimestamp),
    }
}

/// Tells whether `current_datetime` is not later than `maximum_datetime`.
/// Fails with `MalformedTimestamp` exactly when `current_datetime` does not
/// parse.
pub fn compare_dates(current_datetime: String, maximum_datetime: Timestamp) -> (res: Result<
    bool,
    ReconcileError,
>)
    ensures
        res == match last_modified_of(current_datetime@) {
            Some(t) => Ok::<bool, ReconcileError>(t.at_or_before(maximum_datetime)),
            None => Err::<bool, ReconcileError>(ReconcileError::MalformedTimestamp),
        },
{
    let parsed = parse_datetime(current_datetime.as_str());
    match parsed {
        Some((seconds, nanos)) => within_cutoff(
            Some(Timestamp { seconds, nanos }),
            &maximum_datetime,
        ),
        None => within_cutoff(None, &maximum_datetime),
    }
}

} // verus!
