use vstd::prelude::*;

verus! {

/// An instant with the offset of the zone it was written in.
///
/// Two timestamps are ordered by `seconds` alone: the offset only records how
/// the instant was written down.
#[derive(Clone, Copy, Debug, PartialEq, Eq, Structural)]
pub struct Timestamp {
    /// Seconds since 1970-01-01T00:00:00Z.
    pub seconds: i64,
    /// Seconds to add to UTC to obtain the local time.
    pub offset: i32,
}

impl Timestamp {
    /// Whether `self` is strictly later than `other`.
    pub fn is_after(&self, other: &Timestamp) -> (later: bool)
        ensures
            later == (self.seconds > other.seconds),
    {
        self.seconds > other.seconds
    }
}

/// What `chrono::DateTime::parse_from_rfc3339` makes of a text: the seconds
/// since the epoch and the offset in seconds, or `None` where it rejects the
/// text.
pub uninterp spec fn rfc3339_instant(text: Seq<char>) -> Option<(i64, i32)>;

/// `chrono::ParseError`, why chrono rejected a text. It is carried through
/// unopened.
#[verifier::external_type_specification]
#[verifier::external_body]
pub struct ExParseError(chrono::ParseError);

/// Calls `chrono::DateTime::parse_from_rfc3339` and hands out the parsed
/// instant as seconds since the epoch and offset seconds. The contract only
/// names the result: the same text always parses to the same instant.
#[verifier::external_body]
fn parse_from_rfc3339(text: &str) -> (parsed: Result<(i64, i32), chrono::ParseError>)
    ensures
        parsed is Ok <==> rfc3339_instant(text@) is Some,
        parsed matches Ok(instant) ==> rfc3339_instant(text@) == Some(instant),
{
    match chrono::DateTime::parse_from_rfc3339(text) {
        Ok(date) => Ok((date.timestamp(), date.offset().local_minus_utc())),
        Err(error) => Err(error),
    }
}

/// The instant that an RFC 3339 text denotes, as far as this library reads
/// one: `None` where the text is no RFC 3339 date and time.
pub open spec fn instant_of(text: Seq<char>) -> Option<Timestamp> {
    match rfc3339_instant(text) {
        Some(instant) => Some(Timestamp { seconds: instant.0, offset: instant.1 }),
        None => None,
    }
}

/// Reads an RFC 3339 date and time.
pub fn timestamp_from_rfc3339(text: &str) -> (stamp: Option<Timestamp>)
    ensures
        stamp == instant_of(text@),
{
    match parse_from_rfc3339(text) {
        Ok(instant) => Some(Timestamp { seconds: instant.0, offset: instant.1 }),
        Err(_) => None,
    }
}

} // verus!
