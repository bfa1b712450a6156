//! Instants in time and their RFC 3339 text.
//!
//! The gateway stamps peers and advertisements with the time at which they
//! were last seen or created. On the wire an instant travels as RFC 3339
//! text with whole seconds; an absent instant travels as null.

use vstd::prelude::*;

verus! {

/// An instant: whole seconds elapsed since 1970-01-01T00:00:00Z.
#[derive(Debug, Clone, Copy, PartialEq, Eq, Structural)]
pub struct Timestamp {
    pub unix_seconds: u64,
}

/// Why an instant could not be written as text, or text not read as an
/// instant.
#[derive(Debug, Clone, Copy, PartialEq, Eq, Structural)]
pub enum TimestampError {
    /// The instant lies outside what RFC 3339 text can express.
    OutOfRange,
    /// The text is not an RFC 3339 date and time.
    Malformed,
    /// The text names an instant before 1970-01-01T00:00:00Z.
    BeforeEpoch,
}

/// The RFC 3339 text that the `time` crate writes for the instant
/// `unix_seconds` in UTC, or `None` where it refuses the instant.
pub uninterp spec fn rfc3339_text(unix_seconds: int) -> Option<Seq<char>>;

/// The Unix timestamp of the instant that the `time` crate reads from
/// `text` as RFC 3339, or `None` where it refuses the text.
pub uninterp spec fn rfc3339_seconds(text: Seq<char>) -> Option<int>;

/// Calls `time::OffsetDateTime::from_unix_timestamp` and formats the
/// result with `time::format_description::well_known::Rfc3339`.
///
/// Trusted: the text is a function of the argument alone, and text written
/// here is read back by `parse_rfc3339` as the same instant (the formatter
/// writes `YYYY-MM-DDTHH:MM:SSZ`, the very shape the parser reads).
#[verifier::external_body]
fn format_rfc3339(unix_seconds: i64) -> (text: Option<String>)
    ensures
        text is Some <==> rfc3339_text(unix_seconds as int) is Some,
        text matches Some(t) ==> rfc3339_text(unix_seconds as int) == Some(t@),
        text matches Some(t) ==> rfc3339_seconds(t@) == Some(unix_seconds as int),
{
    match time::OffsetDateTime::from_unix_timestamp(unix_seconds) {
        Ok(instant) => instant.format(&time::format_description::well_known::Rfc3339).ok(),
        Err(_) => None,
    }
}

/// Calls `time::OffsetDateTime::parse` with
/// `time::format_description::well_known::Rfc3339` and takes the Unix
/// timestamp of the result.
///
/// Trusted: the outcome is a function of the text alone.
#[verifier::external_body]
fn parse_rfc3339(text: &str) -> (unix_seconds: Option<i64>)
    ensures
        unix_seconds is Some <==> rfc3339_seconds(text@) is Some,
        unix_seconds matches Some(s) ==> rfc3339_seconds(text@) == Some(s as int),
{
    match time::OffsetDateTime::parse(text, &time::format_description::well_known::Rfc3339) {
        Ok(instant) => Some(instant.unix_timestamp()),
        Err(_) => None,
    }
}

/// Calls `std::time::SystemTime::now` and counts the whole seconds since
/// `std::time::UNIX_EPOCH`; a clock set before the epoch reads as zero.
///
/// Trusted, and nothing is promised of the reading.
#[verifier::external_body]
fn read_clock() -> (now: Timestamp) {
    let elapsed = std::time::SystemTime::now().duration_since(std::time::UNIX_EPOCH);
    Timestamp { unix_seconds: elapsed.unwrap_or_default().as_secs() }
}

impl Timestamp {
    /// The current time of the system clock.
    pub fn now() -> (now: Timestamp) {
        read_clock()
    }

    /// The instant `unix_seconds` seconds after the epoch.
    pub fn from_unix_seconds(unix_seconds: u64) -> (at: Timestamp)
        ensures
            at.unix_seconds == unix_seconds,
    {
        Timestamp { unix_seconds }
    }

    /// Whole seconds from `earlier` to `self`; zero if `earlier` is in fact
    /// later.
    pub fn seconds_since(&self, earlier: Timestamp) -> (elapsed: u64)
        ensures
            elapsed == spec_seconds_between(earlier, *self),
    {
        if self.unix_seconds >= earlier.unix_seconds {
            self.unix_seconds - earlier.unix_seconds
        } else {
            0
        }
    }
}

/// Whole seconds from `earlier` to `later`, zero if they are out of order.
pub open spec fn spec_seconds_between(earlier: Timestamp, later: Timestamp) -> u64 {
    if later.unix_seconds >= earlier.unix_seconds {
        (later.unix_seconds - earlier.unix_seconds) as u64
    } else {
        0
    }
}

/// What `serialize` returns for `time`.
pub open spec fn spec_serialize(time: Option<Timestamp>) -> Result<
    Option<Seq<char>>,
    TimestampError,
> {
    match time {
        None => Ok(None),
        Some(at) => match rfc3339_text(at.unix_seconds as int) {
            Some(text) if at.unix_seconds <= i64::MAX => Ok(Some(text)),
            _ => Err(TimestampError::OutOfRange),
        },
    }
}

/// The instant that a parsed Unix timestamp stands for.
pub open spec fn spec_instant(parsed: Option<int>) -> Result<Timestamp, TimestampError> {
    match parsed {
        None => Err(TimestampError::Malformed),
        Some(seconds) => if seconds < 0 {
            Err(TimestampError::BeforeEpoch)
        } else {
            Ok(Timestamp { unix_seconds: seconds as u64 })
        },
    }
}

/// What `deserialize` returns for `text`.
pub open spec fn spec_deserialize(text: Option<Seq<char>>) -> Result<
    Option<Timestamp>,
    TimestampError,
> {
    match text {
        None => Ok(None),
        Some(t) => match spec_instant(rfc3339_seconds(t)) {
            Ok(at) => Ok(Some(at)),
            Err(e) => Err(e),
        },
    }
}

/// The model of an optional text.
pub open spec fn text_view(text: Option<String>) -> Option<Seq<char>> {
    match text {
        None => None,
        Some(t) => Some(t@),
    }
}

/// The model of what `serialize` returns.
pub open spec fn serialized_view(r: Result<Option<String>, TimestampError>) -> Result<
    Option<Seq<char>>,
    TimestampError,
> {
    match r {
        Ok(text) => Ok(text_view(text)),
        Err(e) => Err(e),
    }
}

/// Turns the outcome of writing an instant as RFC 3339 text into the wire
/// form of that instant: `None`, for an instant that has no such text, is
/// `OutOfRange`.
pub fn text_from_formatted(formatted: Option<String>) -> (wire: Result<
    Option<String>,
    TimestampError,
>)
    ensures
        serialized_view(wire) == match formatted {
            Some(text) => Ok::<Option<Seq<char>>, TimestampError>(Some(text@)),
            None => Err::<Option<Seq<char>>, TimestampError>(TimestampError::OutOfRange),
        },
{
    match formatted {
        Some(text) => Ok(Some(text)),
        None => Err(TimestampError::OutOfRange),
    }
}

/// Writes an optional instant in its wire form: RFC 3339 text, or nothing
/// for an absent instant.
///
/// Fails with `OutOfRange` exactly where the instant has no RFC 3339 text.
/// Text that this function returns is read back by `deserialize` as the
/// instant it was given.
pub fn serialize(time: &Option<Timestamp>) -> (wire: Result<Option<String>, TimestampError>)
    ensures
        serialized_view(wire) == spec_serialize(*time),
        wire matches Ok(text) ==> spec_deserialize(text_view(text)) == Ok::<
            Option<Timestamp>,
            TimestampError,
        >(*time),
{
    match time {
        None => Ok(None),
        Some(at) => {
            if at.unix_seconds > 0x7fff_ffff_ffff_ffffu64 {
                return Err(TimestampError::OutOfRange);
            }
            text_from_formatted(format_rfc3339(at.unix_seconds as i64))
        },
    }
}

/// Turns the outcome of reading RFC 3339 text into an instant.
///
/// `None` (text that is no date and time) is `Malformed`; a negative
/// timestamp is `BeforeEpoch`.
pub fn instant_from_parsed(parsed: Option<i64>) -> (at: Result<Timestamp, TimestampError>)
    ensures
        at == spec_instant(
            match parsed {
                Some(s) => Some(s as int),
                None => None,
            },
        ),
{
    match parsed {
        None => Err(TimestampError::Malformed),
        Some(seconds) => {
            if seconds < 0 {
                Err(TimestampError::BeforeEpoch)
            } else {
                Ok(Timestamp { unix_seconds: seconds as u64 })
            }
        },
    }
}

/// Reads an optional instant from its wire form; fractions of a second in
/// the text are dropped.
pub fn deserialize(text: Option<&str>) -> (time: Result<Option<Timestamp>, TimestampError>)
    ensures
        time == spec_deserialize(
            match text {
                Some(t) => Some(t@),
                None => None,
            },
        ),
{
    match text {
        None => Ok(None),
        Some(t) => match instant_from_parsed(parse_rfc3339(t)) {
            Ok(at) => Ok(Some(at)),
            Err(e) => Err(e),
        },
    }
}

} // verus!
