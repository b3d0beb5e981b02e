//! Points in time, read from the system clock through `chrono`.
use vstd::prelude::*;

verus! {

/// The earliest second (since the Unix epoch) that `chrono` can represent:
/// the start of -262143-01-01 (`NaiveDate::MIN`); `DateTime::from_timestamp`
/// gives `None` one second earlier.
pub const MIN_SECS: i64 = -8334601228800i64;

/// The latest second (since the Unix epoch) that `chrono` can represent:
/// the last second of year 262142.
pub const MAX_SECS: i64 = 8210266876799i64;

pub const NANOS_PER_SEC: u32 = 1_000_000_000u32;

/// A point in time, as a count of seconds and nanoseconds since the Unix
/// epoch, within the range that `chrono::DateTime` can represent.
#[derive(Clone, Copy)]
pub struct Timestamp {
    secs: i64,
    nanos: u32,
}

impl Timestamp {
    #[verifier::type_invariant]
    spec fn in_range(self) -> bool {
        &&& MIN_SECS <= self.secs <= MAX_SECS
        &&& self.nanos < NANOS_PER_SEC
    }

    /// Whole seconds since the Unix epoch.
    pub closed spec fn spec_secs(self) -> int {
        self.secs as int
    }

    /// Nanoseconds past the whole second.
    pub closed spec fn spec_nanos(self) -> int {
        self.nanos as int
    }

    /// Builds a timestamp from seconds and nanoseconds since the Unix epoch;
    /// `None` when they lie outside the range that `chrono` represents.
    pub fn from_parts(secs: i64, nanos: u32) -> (r: Option<Timestamp>)
        ensures
            r is Some <==> (MIN_SECS <= secs <= MAX_SECS && nanos < NANOS_PER_SEC),
            r matches Some(t) ==> t.spec_secs() == secs && t.spec_nanos() == nanos,
    {
        if MIN_SECS <= secs && secs <= MAX_SECS && nanos < NANOS_PER_SEC {
            Some(Timestamp { secs, nanos })
        } else {
            None
        }
    }

    /// Whole seconds since the Unix epoch.
    pub fn secs(&self) -> (r: i64)
        ensures
            r == self.spec_secs(),
            MIN_SECS <= r <= MAX_SECS,
    {
        proof {
            use_type_invariant(self);
        }
        self.secs
    }

    /// Nanoseconds past the whole second.
    pub fn nanos(&self) -> (r: u32)
        ensures
            r == self.spec_nanos(),
            r < NANOS_PER_SEC,
    {
        proof {
            use_type_invariant(self);
        }
        self.nanos
    }

    /// Whether `self` is at or after `other`.
    pub fn at_or_after(&self, other: &Timestamp) -> (r: bool)
        ensures
            r == (self@ >= other@),
    {
        proof {
            use_type_invariant(self);
            use_type_invariant(other);
        }
        self.secs > other.secs || (self.secs == other.secs && self.nanos >= other.nanos)
    }

    /// The point `seconds` whole seconds before `self`, as `DateTime -
    /// TimeDelta::seconds(seconds)` computes it.
    pub fn minus_seconds(&self, seconds: i64) -> (r: Timestamp)
        requires
            MIN_SECS <= self.spec_secs() - seconds <= MAX_SECS,
        ensures
            r.spec_secs() == self.spec_secs() - seconds,
            r.spec_nanos() == self.spec_nanos(),
            r@ == self@ - seconds * 1_000_000_000,
    {
        proof {
            use_type_invariant(self);
        }
        Timestamp { secs: self.secs - seconds, nanos: self.nanos }
    }
}

impl View for Timestamp {
    type V = int;

    /// Nanoseconds since the Unix epoch.
    open spec fn view(&self) -> int {
        self.spec_secs() * 1_000_000_000 + self.spec_nanos()
    }
}

/// Reads the system clock (`chrono::Local::now`) as seconds and nanoseconds
/// since the Unix epoch. `chrono` panics on a clock set before 1970, so a
/// reading that returns is at or after the epoch; the nanoseconds come from a
/// `Duration` and stay below one second. Nothing else is known of the value.
#[verifier::external_body]
fn read_clock() -> (r: (i64, u32))
    ensures
        0 <= r.0 <= MAX_SECS,
        r.1 < NANOS_PER_SEC,
{
    let t = chrono::Local::now();
    (t.timestamp(), t.timestamp_subsec_nanos())
}

/// The current time.
pub fn now() -> (r: Timestamp)
    ensures
        0 <= r.spec_secs() <= MAX_SECS,
        r@ >= 0,
{
    let (secs, nanos) = read_clock();
    let r = Timestamp { secs, nanos };
    assert(r@ >= 0) by (nonlinear_arith)
        requires
            r@ == secs * 1_000_000_000 + nanos,
            secs >= 0,
            nanos >= 0,
    ;
    r
}

/// The first second of year 0 (UTC) plus a day, and the last second of year
/// 9999 (UTC) less a day: between them the local year has four digits
/// whatever the time zone (a local offset is less than a day).
pub const FOUR_DIGIT_YEAR_FIRST: i64 = -62167132800i64;

pub const FOUR_DIGIT_YEAR_LAST: i64 = 253402214399i64;

/// Whether a character is a decimal digit.
pub open spec fn is_digit(c: char) -> bool {
    '0' <= c <= '9'
}

/// The number that two digits of `s` at `i` write.
pub open spec fn two_digits(s: Seq<char>, i: int) -> int {
    (s[i] as int - 48) * 10 + (s[i + 1] as int - 48)
}

/// Whether `s` is a time of day `HH:MM:SS`: two-digit hour (under 24),
/// minute and second (under 60), separated by colons.
pub open spec fn clock_text(s: Seq<char>) -> bool {
    &&& s.len() == 8
    &&& s[2] == ':' && s[5] == ':'
    &&& forall|i: int| 0 <= i < 8 && i != 2 && i != 5 ==> is_digit(#[trigger] s[i])
    &&& two_digits(s, 0) < 24 && two_digits(s, 3) < 60 && two_digits(s, 6) < 60
}

/// Whether `s` is a date and time `YYYY-MM-DD HH:MM:SS`: a four-digit year,
/// a month from 1 to 12 and a day from 1 to 31, then a time of day.
pub open spec fn date_clock_text(s: Seq<char>) -> bool {
    &&& s.len() == 19
    &&& s[4] == '-' && s[7] == '-' && s[10] == ' '
    &&& forall|i: int| 0 <= i < 10 && i != 4 && i != 7 ==> is_digit(#[trigger] s[i])
    &&& 1 <= two_digits(s, 5) <= 12 && 1 <= two_digits(s, 8) <= 31
    &&& clock_text(s.subrange(11, 19))
}

/// The timestamp written in the machine's local time zone with a `strftime`
/// pattern (`DateTime::<Local>::format`). Which date and time it shows depends
/// on the time zone of the machine; what is stated is the shape that the
/// pattern gives every outcome: `%H`, `%M`, `%S`, `%m` and `%d` write two
/// zero-padded digits, and `%Y` four for the years 0 to 9999. The two patterns
/// admitted are the ones this library uses, which `chrono` formats without
/// error.
#[verifier::external_body]
pub(crate) fn local_time_text(t: &Timestamp, pattern: &str) -> (r: String)
    requires
        pattern@ == "%Y-%m-%d %H:%M:%S"@ || pattern@ == "%H:%M:%S"@,
    ensures
        pattern@ == "%H:%M:%S"@ ==> clock_text(r@),
        (pattern@ == "%Y-%m-%d %H:%M:%S"@ && FOUR_DIGIT_YEAR_FIRST * 1_000_000_000 <= t@ < (
        FOUR_DIGIT_YEAR_LAST + 1) * 1_000_000_000) ==> date_clock_text(r@),
{
    chrono::DateTime::from_timestamp(t.secs, t.nanos).unwrap().with_timezone(&chrono::Local).format(
        pattern,
    ).to_string()
}

} // verus!
