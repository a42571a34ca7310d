//! Instants in time, held as seconds and nanoseconds since the Unix epoch in
//! UTC, and their RFC 3339 text.

use vstd::prelude::*;

verus! {

/// Seconds since the Unix epoch of the first second of `chrono`'s calendar,
/// midnight before the first of January of the year -262143.
pub const MIN_SECS: i64 = -8_334_601_228_800;

/// Seconds since the Unix epoch of the last second of `chrono`'s calendar,
/// the last of the year 262142.
pub const MAX_SECS: i64 = 8_210_266_876_799;

/// The instants of `chrono`'s calendar: a second from `MIN_SECS` to
/// `MAX_SECS`, and a nanosecond part that reaches into a leap second only in
/// the last second of a minute.
pub open spec fn instant_in_range(secs: i64, nanos: u32) -> bool {
    &&& MIN_SECS <= secs <= MAX_SECS
    &&& nanos < 2_000_000_000
    &&& nanos >= 1_000_000_000 ==> secs % 60 == 59
}

/// What `chrono` makes of an RFC 3339 text: the instant, as seconds and
/// nanoseconds since the Unix epoch in UTC, or the reason, in its own words,
/// why the text is none.
pub uninterp spec fn rfc3339_reading(text: Seq<char>) -> Result<(i64, u32), Seq<char>>;

/// The RFC 3339 text that `chrono` writes for an instant in UTC.
pub uninterp spec fn rfc3339_text(secs: i64, nanos: u32) -> Seq<char>;

/// Calls `chrono::DateTime::parse_from_rfc3339`, and moves the instant to UTC
/// or writes the error out with its `to_string`.
///
/// Trusted: the outcome depends on the text alone, so it is the named
/// `rfc3339_reading` of the text. An instant that `chrono` reads lies in its
/// calendar: the text has a year of four digits and an offset of less than a
/// day, in whole minutes, so a second `60` stays the last of its minute in
/// UTC. Nothing is claimed of which texts are accepted, nor of the words of
/// the reason.
#[verifier::external_body]
fn read_rfc3339(text: &str) -> (r: Result<(i64, u32), String>)
    ensures
        match r {
            Ok(instant) => rfc3339_reading(text@) == Ok::<(i64, u32), Seq<char>>(instant)
                && instant_in_range(instant.0, instant.1),
            Err(reason) => rfc3339_reading(text@) == Err::<(i64, u32), Seq<char>>(reason@),
        },
{
    match chrono::DateTime::parse_from_rfc3339(text) {
        Ok(parsed) => {
            let utc = parsed.with_timezone(&chrono::Utc);
            Ok((utc.timestamp(), utc.timestamp_subsec_nanos()))
        },
        Err(fault) => Err(fault.to_string()),
    }
}

/// Calls `chrono::DateTime::to_rfc3339` on the instant that
/// `chrono::DateTime::from_timestamp` makes of the two numbers.
///
/// Trusted: the text depends on the two numbers alone, so it is the named
/// `rfc3339_text` of them. Within `instant_in_range` the day lies inside
/// `chrono`'s calendar and the nanoseconds pass its leap-second test, so
/// `from_timestamp` gives an instant.
#[verifier::external_body]
fn write_rfc3339(secs: i64, nanos: u32) -> (text: String)
    requires
        instant_in_range(secs, nanos),
    ensures
        text@ == rfc3339_text(secs, nanos),
{
    match chrono::DateTime::from_timestamp(secs, nanos) {
        Some(instant) => instant.to_rfc3339(),
        None => String::new(),
    }
}

/// An instant in UTC with nanosecond precision.
///
/// Every value lies within `instant_in_range`: a timestamp holds any instant
/// that `chrono` can, and each has an RFC 3339 text.
#[derive(Clone, Copy, Debug, PartialEq, Eq, Structural, Hash)]
pub struct Timestamp {
    secs: i64,
    nanos: u32,
}

impl Timestamp {
    #[verifier::type_invariant]
    spec fn in_range(self) -> bool {
        instant_in_range(self.secs, self.nanos)
    }

    /// Whole seconds since the Unix epoch.
    pub closed spec fn spec_secs(self) -> i64 {
        self.secs
    }

    /// Nanoseconds since the last whole second.
    pub closed spec fn spec_nanos(self) -> u32 {
        self.nanos
    }

    /// The instant as the pair of its two numbers.
    pub open spec fn instant(self) -> (i64, u32) {
        (self.spec_secs(), self.spec_nanos())
    }

    /// `self` is not later than `other`.
    pub open spec fn at_or_before(self, other: Timestamp) -> bool {
        self.spec_secs() < other.spec_secs() || (self.spec_secs() == other.spec_secs()
            && self.spec_nanos() <= other.spec_nanos())
    }

    /// The timestamp of the given numbers, or `None` where they lie outside
    /// `instant_in_range`.
    pub fn new(secs: i64, nanos: u32) -> (r: Option<Timestamp>)
        ensures
            r is Some <==> instant_in_range(secs, nanos),
            r matches Some(t) ==> t.instant() == (secs, nanos),
    {
        if secs < MIN_SECS || secs > MAX_SECS || nanos >= 2_000_000_000 {
            return None;
        }
        let since_first: i64 = secs - MIN_SECS;
        if nanos >= 1_000_000_000 && since_first % 60 != 59 {
            return None;
        }
        Some(Timestamp { secs, nanos })
    }

    pub fn secs(&self) -> (r: i64)
        ensures
            r == self.spec_secs(),
    {
        self.secs
    }

    pub fn nanos(&self) -> (r: u32)
        ensures
            r == self.spec_nanos(),
    {
        self.nanos
    }

    /// Every timestamp lies within `instant_in_range`.
    pub fn check_range(&self)
        ensures
            instant_in_range(self.spec_secs(), self.spec_nanos()),
    {
        proof {
            use_type_invariant(self);
        }
    }

    /// Reads an RFC 3339 date and time with offset, and moves it to UTC.
    /// Where the text is none, the error is the reason in `chrono`'s words.
    pub fn parse_from_rfc3339(text: &str) -> (r: Result<Timestamp, String>)
        ensures
            match r {
                Ok(t) => rfc3339_reading(text@) == Ok::<(i64, u32), Seq<char>>(t.instant()),
                Err(reason) => rfc3339_reading(text@) == Err::<(i64, u32), Seq<char>>(reason@),
            },
    {
        match read_rfc3339(text) {
            Ok((secs, nanos)) => Ok(Timestamp { secs, nanos }),
            Err(reason) => Err(reason),
        }
    }

    /// The RFC 3339 text of the timestamp, in UTC.
    pub fn to_rfc3339(&self) -> (text: String)
        ensures
            text@ == rfc3339_text(self.spec_secs(), self.spec_nanos()),
    {
        proof {
            use_type_invariant(self);
        }
        write_rfc3339(self.secs, self.nanos)
    }

    /// Tells whether `self` is not later than `other`.
    pub fn is_at_or_before(&self, other: &Timestamp) -> (r: bool)
        ensures
            r == self.at_or_before(*other),
    {
        self.secs < other.secs || (self.secs == other.secs && self.nanos <= other.nanos)
    }
}

} // verus!
