use vstd::prelude::*;

verus! {

/// A UTC instant: whole seconds since the Unix epoch and the nanoseconds
/// within that second (one billion and up during a leap second, as `chrono`
/// counts them).
#[derive(Debug, Clone, Copy, PartialEq, Eq, Structural)]
pub struct Timestamp {
    pub secs: i64,
    pub nanos: u32,
}

/// Bound on the magnitude of the seconds of any instant `chrono` represents.
pub const SECS_BOUND: i64 = 8796093022208;

pub const NANOS_PER_SEC: u32 = 1000000000;

/// The first second `chrono` represents: January 1 of the year -262143
/// (262144 BCE), 00:00:00 UTC.
pub const MIN_CHRONO_SECS: i64 = -8334601228800;

/// The last second `chrono` represents: December 31 of the year 262142,
/// 23:59:59 UTC.
pub const MAX_CHRONO_SECS: i64 = 8210266876799;

/// Whether `chrono::DateTime::from_timestamp` accepts the seconds and
/// nanoseconds: the second lies between its first and last dates, the
/// nanoseconds are under two billion, and one billion or more (a leap
/// second) only in the last second of a minute.
pub open spec fn chrono_representable(secs: i64, nanos: u32) -> bool {
    &&& MIN_CHRONO_SECS <= secs <= MAX_CHRONO_SECS
    &&& nanos < 2 * NANOS_PER_SEC
    &&& nanos >= NANOS_PER_SEC ==> secs % 60 == 59
}

/// The RFC 3339 text `chrono::DateTime::to_rfc3339` gives for an instant.
pub uninterp spec fn rfc3339_of(secs: i64, nanos: u32) -> Seq<char>;

impl Timestamp {
    /// An instant that `chrono` represents.
    pub open spec fn is_valid(self) -> bool {
        &&& self.nanos < 2 * NANOS_PER_SEC
        &&& -SECS_BOUND < self.secs < SECS_BOUND
        &&& chrono_representable(self.secs, self.nanos)
    }

    /// The instant with the given parts, when it is a valid one.
    pub fn from_parts(secs: i64, nanos: u32) -> (r: Option<Timestamp>)
        ensures
            r is Some <==> (Timestamp { secs, nanos }).is_valid(),
            r matches Some(t) ==> t.secs == secs && t.nanos == nanos,
    {
        if nanos < 2000000000 && chrono_accepts(secs, nanos) {
            Some(Timestamp { secs, nanos })
        } else {
            None
        }
    }
}

/// Calls `chrono::DateTime::from_timestamp` and reports whether it accepts
/// the parts: it splits the seconds into days and seconds of the day and
/// accepts exactly the days of its date range and the times of day whose
/// nanoseconds are under two billion, leap seconds only at second 59.
#[verifier::external_body]
fn chrono_accepts(secs: i64, nanos: u32) -> (b: bool)
    ensures
        b == chrono_representable(secs, nanos),
{
    chrono::DateTime::from_timestamp(secs, nanos).is_some()
}

/// The current instant, from `chrono::Utc::now`. Nothing is promised of
/// which instant it is, only that it is a valid one.
#[verifier::external_body]
pub(crate) fn utc_now() -> (t: Timestamp)
    ensures
        t.is_valid(),
{
    let now = chrono::Utc::now();
    Timestamp { secs: now.timestamp(), nanos: now.timestamp_subsec_nanos() }
}

/// Formats an instant with `chrono::DateTime::to_rfc3339`.
#[verifier::external_body]
pub(crate) fn rfc3339_text(t: Timestamp) -> (r: String)
    requires
        t.is_valid(),
    ensures
        r@ == rfc3339_of(t.secs, t.nanos),
{
    match chrono::DateTime::from_timestamp(t.secs, t.nanos) {
        Some(d) => d.to_rfc3339(),
        None => String::new(),
    }
}

/// The time from `earlier` to `later` in nanoseconds.
pub open spec fn nanos_between(later: Timestamp, earlier: Timestamp) -> int {
    (later.secs - earlier.secs) * 1000000000 + (later.nanos - earlier.nanos)
}

/// The time from `earlier` to `later` in whole seconds, truncated toward
/// zero (what `chrono::TimeDelta::num_seconds` gives for `later - earlier`).
pub open spec fn whole_seconds_between(later: Timestamp, earlier: Timestamp) -> int {
    let n = nanos_between(later, earlier);
    if n >= 0 {
        n / 1000000000
    } else {
        -((-n) / 1000000000)
    }
}

/// The time from `earlier` to `later` in whole seconds, truncated toward zero.
pub fn seconds_between(later: Timestamp, earlier: Timestamp) -> (r: i64)
    requires
        later.is_valid(),
        earlier.is_valid(),
    ensures
        r == whole_seconds_between(later, earlier),
{
    let n: i128 = (later.secs as i128 - earlier.secs as i128) * 1000000000 + (later.nanos as i128
        - earlier.nanos as i128);
    assert(n == nanos_between(later, earlier));
    if n >= 0 {
        (n / 1000000000) as i64
    } else {
        (0 - ((0 - n) / 1000000000)) as i64
    }
}

/// The instant `chrono::DateTime::parse_from_rfc3339` reads from a text,
/// as UTC seconds and nanoseconds.
pub uninterp spec fn rfc3339_instant(text: Seq<char>) -> Option<(i64, u32)>;

/// Reads an RFC 3339 date and time with `chrono::DateTime::parse_from_rfc3339`
/// and converts it to UTC. What it reads is an instant `chrono` represents.
#[verifier::external_body]
pub(crate) fn parse_rfc3339(text: &str) -> (r: Option<Timestamp>)
    ensures
        match r {
            Some(t) => rfc3339_instant(text@) == Some((t.secs, t.nanos)) && t.is_valid(),
            None => rfc3339_instant(text@) is None,
        },
{
    match chrono::DateTime::parse_from_rfc3339(text) {
        Ok(dt) => {
            let u = dt.with_timezone(&chrono::Utc);
            Some(Timestamp { secs: u.timestamp(), nanos: u.timestamp_subsec_nanos() })
        },
        Err(_) => None,
    }
}

/// The instant `chrono::NaiveDateTime::parse_from_str` reads from a text
/// with a format, taken as UTC.
pub uninterp spec fn naive_utc_instant(text: Seq<char>, format: Seq<char>) -> Option<(i64, u32)>;

/// Reads a date and time without offset with
/// `chrono::NaiveDateTime::parse_from_str` and takes it as UTC. What it reads
/// is an instant `chrono` represents.
#[verifier::external_body]
pub(crate) fn parse_naive_utc(text: &str, format: &str) -> (r: Option<Timestamp>)
    ensures
        match r {
            Some(t) => naive_utc_instant(text@, format@) == Some((t.secs, t.nanos)) && t.is_valid(),
            None => naive_utc_instant(text@, format@) is None,
        },
{
    match chrono::NaiveDateTime::parse_from_str(text, format) {
        Ok(dt) => {
            let u = dt.and_utc();
            Some(Timestamp { secs: u.timestamp(), nanos: u.timestamp_subsec_nanos() })
        },
        Err(_) => None,
    }
}

} // verus!
