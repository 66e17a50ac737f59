//! Moments in time, as seconds and nanoseconds since 1970 in UTC. A leap second shares its
//! number with the second before it, and its nanoseconds go on from where those end.

use vstd::prelude::*;

use crate::calendar;
use crate::calendar::in_four_digits;

verus! {

/// The first and the last second that a calendar date can be given for.
pub const MIN_SECS: i64 = -8_334_601_228_800;

pub const MAX_SECS: i64 = 8_210_266_876_799;

/// A moment in time.
#[derive(Clone, Copy, Debug, PartialEq, Eq, Structural)]
pub struct Timestamp {
    secs: i64,
    nanos: u32,
}

/// Whether seconds and nanoseconds name a moment: a leap second can only end a minute.
pub open spec fn valid_parts(secs: int, nanos: int) -> bool {
    &&& MIN_SECS <= secs <= MAX_SECS
    &&& 0 <= nanos < 1_000_000_000 || (1_000_000_000 <= nanos < 2_000_000_000 && secs % 60 == 59)
}

/// A number that orders moments: by their seconds, then by their nanoseconds.
pub open spec fn rank_of(secs: int, nanos: int) -> int {
    secs * 2_000_000_000 + nanos
}

/// The leap second to be counted besides the seconds of the clock: one that began at the
/// earlier time of the day.
pub open spec fn leap_between(secs: int, nanos: int, earlier_secs: int, earlier_nanos: int) -> int {
    if secs % 86_400 > earlier_secs % 86_400 && earlier_nanos >= 1_000_000_000 {
        1
    } else if secs % 86_400 < earlier_secs % 86_400 && nanos >= 1_000_000_000 {
        -1
    } else {
        0
    }
}

/// The number rounded toward zero.
pub open spec fn div_toward_zero(n: int, d: int) -> int {
    if n < 0 {
        -((-n) / d)
    } else {
        n / d
    }
}

impl DeepView for Timestamp {
    type V = Timestamp;

    open spec fn deep_view(&self) -> Timestamp {
        *self
    }
}

impl Timestamp {
    /// The whole seconds since the start of 1970.
    pub closed spec fn secs(self) -> int {
        self.secs as int
    }

    /// The nanoseconds past the whole second.
    pub closed spec fn nanos(self) -> int {
        self.nanos as int
    }

    #[verifier::type_invariant]
    spec fn inv(self) -> bool {
        valid_parts(self.secs as int, self.nanos as int)
    }

    /// A number that orders moments.
    pub open spec fn rank(self) -> int {
        rank_of(self.secs(), self.nanos())
    }

    /// The nanoseconds from `earlier` to `self`.
    pub open spec fn nanos_since_spec(self, earlier: Timestamp) -> int {
        (self.secs() - earlier.secs() + leap_between(
            self.secs(),
            self.nanos(),
            earlier.secs(),
            earlier.nanos(),
        )) * 1_000_000_000 + self.nanos() - earlier.nanos()
    }

    /// The seconds from `earlier` to `self`, a fraction rounded toward zero.
    pub open spec fn seconds_since_spec(self, earlier: Timestamp) -> int {
        div_toward_zero(self.nanos_since_spec(earlier), 1_000_000_000)
    }

    /// The moment with the given parts.
    pub fn new(secs: i64, nanos: u32) -> (r: Option<Timestamp>)
        ensures
            r is Some <==> valid_parts(secs as int, nanos as int),
            r matches Some(t) ==> t.secs() == secs && t.nanos() == nanos,
    {
        if MIN_SECS <= secs && secs <= MAX_SECS && (nanos < 1_000_000_000 || (nanos
            < 2_000_000_000 && day_second(secs) % 60 == 59)) {
            Some(Timestamp { secs, nanos })
        } else {
            None
        }
    }

    /// The whole seconds since the start of 1970.
    pub fn seconds(&self) -> (r: i64)
        ensures
            r == self.secs(),
            valid_parts(self.secs(), self.nanos()),
    {
        proof {
            use_type_invariant(&*self);
        }
        self.secs
    }

    /// The nanoseconds past the whole second.
    pub fn subsec_nanos(&self) -> (r: u32)
        ensures
            r == self.nanos(),
            valid_parts(self.secs(), self.nanos()),
    {
        proof {
            use_type_invariant(&*self);
        }
        self.nanos
    }

    /// Whether `self` is no later than `other`.
    pub fn le(&self, other: &Timestamp) -> (r: bool)
        ensures
            r == (self.rank() <= other.rank()),
    {
        proof {
            use_type_invariant(&*self);
            use_type_invariant(&*other);
        }
        self.secs < other.secs || (self.secs == other.secs && self.nanos <= other.nanos)
    }

    /// The nanoseconds from `earlier` to `self`.
    pub fn nanos_since(&self, earlier: &Timestamp) -> (r: i128)
        ensures
            r == self.nanos_since_spec(*earlier),
            -20_000_000_000_000_000_000_000 <= r <= 20_000_000_000_000_000_000_000,
    {
        proof {
            use_type_invariant(&*self);
            use_type_invariant(&*earlier);
        }
        let here: i64 = day_second(self.secs);
        let there: i64 = day_second(earlier.secs);
        let leap: i64 = if here > there && earlier.nanos >= 1_000_000_000 {
            1
        } else if here < there && self.nanos >= 1_000_000_000 {
            -1
        } else {
            0
        };
        (self.secs as i128 - earlier.secs as i128 + leap as i128) * 1_000_000_000 + (self.nanos
            as i128 - earlier.nanos as i128)
    }

    /// The seconds from `earlier` to `self`, a fraction rounded toward zero.
    pub fn seconds_since(&self, earlier: &Timestamp) -> (r: i64)
        ensures
            r == self.seconds_since_spec(*earlier),
    {
        let n: i128 = self.nanos_since(earlier);
        if n < 0 {
            let m: i128 = (-n) / 1_000_000_000;
            (-m) as i64
        } else {
            (n / 1_000_000_000) as i64
        }
    }
}

/// The seconds since midnight.
fn day_second(secs: i64) -> (r: i64)
    requires
        MIN_SECS <= secs <= MAX_SECS,
    ensures
        r == secs as int % 86_400,
        r % 60 == secs as int % 60,
{
    // The calendar begins at a midnight, so the count from there on is not negative.
    let since_start: i64 = secs - MIN_SECS;
    assert(MIN_SECS as int == 86_400 * -96_465_292int);
    assert((secs - MIN_SECS) % 86_400 == secs as int % 86_400);
    assert((secs as int % 86_400) % 60 == secs as int % 60);
    since_start % 86_400
}

/// The seconds between two moments fit 64 bits by far.
pub proof fn lemma_seconds_between(a: Timestamp, b: Timestamp)
    requires
        valid_parts(a.secs(), a.nanos()),
        valid_parts(b.secs(), b.nanos()),
    ensures
        -20_000_000_000_000 <= a.seconds_since_spec(b) <= 20_000_000_000_000,
{
}

/// The text that `chrono::DateTime::<Utc>::to_rfc3339` gives for a moment.
pub uninterp spec fn rfc3339_spec(secs: int, nanos: int) -> Seq<char>;

/// `chrono::DateTime::from_timestamp` makes a date and time of every pair of
/// parts that names a moment, and `to_rfc3339` writes it; the text depends on
/// the moment alone.
#[verifier::external_body]
fn chrono_rfc3339(secs: i64, nanos: u32) -> (r: String)
    requires
        valid_parts(secs as int, nanos as int),
    ensures
        r@ == rfc3339_spec(secs as int, nanos as int),
{
    chrono::DateTime::from_timestamp(secs, nanos).map(|d| d.to_rfc3339()).unwrap_or_default()
}

/// The moment in the form of RFC 3339.
pub fn to_rfc3339(t: &Timestamp) -> (r: String)
    ensures
        r@ == rfc3339_spec(t.secs(), t.nanos()),
{
    chrono_rfc3339(t.seconds(), t.subsec_nanos())
}

/// The text that `chrono::DateTime::<Utc>::format` gives for a moment and a format.
/// It is named for the years that are not written in four digits.
pub uninterp spec fn format_spec(secs: int, nanos: int, format: Seq<char>) -> Seq<char>;

/// A format made of `%Y`, `%m`, `%d`, `%H`, `%M` and `%S` and plain characters.
pub open spec fn is_known_format(format: Seq<char>) -> bool {
    format == "%Y-%m-%d %H:%M:%S"@ || format == "%Y%m%d-%H%M%S"@
}

/// `chrono::DateTime::format` with one of the two formats in use: every
/// specifier in them is known, so the text can always be written, and it
/// depends on the moment and the format alone. The years 0 to 9999 are written in four
/// digits, the other fields in two, each with zeros in front; in a leap second `%S` is 60.
#[verifier::external_body]
fn chrono_format(secs: i64, nanos: u32, format: &str) -> (r: String)
    requires
        valid_parts(secs as int, nanos as int),
        is_known_format(format@),
    ensures
        r@ == format_spec(secs as int, nanos as int, format@),
        in_four_digits(secs as int) && format@ == "%Y%m%d-%H%M%S"@ ==> r@ == calendar::stamp_spec(
            secs as int,
            nanos as int,
        ),
        in_four_digits(secs as int) && format@ == "%Y-%m-%d %H:%M:%S"@ ==> r@
            == calendar::date_time_text(secs as int, nanos as int),
{
    chrono::DateTime::from_timestamp(secs, nanos).map(|d| d.format(format).to_string())
        .unwrap_or_default()
}

/// The moment as date and time with a space between, to the second.
pub open spec fn date_time_spec(t: Timestamp) -> Seq<char> {
    if in_four_digits(t.secs()) {
        calendar::date_time_text(t.secs(), t.nanos())
    } else {
        format_spec(t.secs(), t.nanos(), "%Y-%m-%d %H:%M:%S"@)
    }
}

/// The moment as date and time with a space between, to the second.
pub fn to_date_time(t: &Timestamp) -> (r: String)
    ensures
        r@ == date_time_spec(*t),
{
    chrono_format(t.seconds(), t.subsec_nanos(), "%Y-%m-%d %H:%M:%S")
}

/// The moment in the form that job names end in.
pub open spec fn name_suffix_spec(t: Timestamp) -> Seq<char> {
    if in_four_digits(t.secs()) {
        calendar::stamp_spec(t.secs(), t.nanos())
    } else {
        format_spec(t.secs(), t.nanos(), "%Y%m%d-%H%M%S"@)
    }
}

/// The moment in the form that job names end in.
pub fn to_name_suffix(t: &Timestamp) -> (r: String)
    ensures
        r@ == name_suffix_spec(*t),
{
    chrono_format(t.seconds(), t.subsec_nanos(), "%Y%m%d-%H%M%S")
}

/// The seconds and nanoseconds of the date and time that parsing a text as
/// `chrono::DateTime<Utc>` gives, where it can be parsed.
pub uninterp spec fn parsed_utc_spec(s: Seq<char>) -> Option<(int, int)>;

/// Parsing a text as `chrono::DateTime<Utc>`, whose result depends on the text alone.
#[verifier::external_body]
fn chrono_parse_utc(s: &str) -> (r: Option<(i64, u32)>)
    ensures
        parsed_utc_spec(s@) == (match r {
            Some((secs, nanos)) => Some((secs as int, nanos as int)),
            None => None,
        }),
{
    s.parse::<chrono::DateTime<chrono::Utc>>().ok().map(|d| (d.timestamp(), d.timestamp_subsec_nanos()))
}

/// What the parts of a parsed time stand for: nothing where nothing was parsed.
pub closed spec fn moment_spec(parts: Option<(int, int)>) -> Option<Timestamp> {
    match parts {
        Some((secs, nanos)) => if valid_parts(secs, nanos) {
            Some(Timestamp { secs: secs as i64, nanos: nanos as u32 })
        } else {
            None
        },
        None => None,
    }
}

/// A moment has the parts that it was made of.
pub proof fn lemma_moment(parts: Option<(int, int)>)
    ensures
        moment_spec(parts) is Some <==> (parts matches Some((secs, nanos)) && valid_parts(
            secs,
            nanos,
        )),
        moment_spec(parts) matches Some(t) ==> t.secs() == (parts->0).0 && t.nanos() == (parts->0).1,
{
}

/// The moment with the given parts, where there are some.
pub fn of_parts(parts: Option<(i64, u32)>) -> (r: Option<Timestamp>)
    ensures
        r == moment_spec(
            match parts {
                Some((secs, nanos)) => Some((secs as int, nanos as int)),
                None => None,
            },
        ),
{
    match parts {
        Some((secs, nanos)) => Timestamp::new(secs, nanos),
        None => None,
    }
}

/// Reads a moment from its text.
pub fn parse_utc(s: &str) -> (r: Option<Timestamp>)
    ensures
        r == moment_spec(parsed_utc_spec(s@)),
{
    of_parts(chrono_parse_utc(s))
}

/// The later of two moments, the first where they are the same.
pub open spec fn later_spec(a: Option<Timestamp>, b: Option<Timestamp>) -> Option<Timestamp> {
    match (a, b) {
        (Some(x), Some(y)) => if x.rank() <= y.rank() {
            b
        } else {
            a
        },
        (Some(_), None) => a,
        (None, _) => b,
    }
}

/// The later of two moments of which either may be missing.
pub fn later(a: Option<Timestamp>, b: Option<Timestamp>) -> (r: Option<Timestamp>)
    ensures
        r == later_spec(a, b),
{
    match (a, b) {
        (Some(x), Some(y)) => if x.le(&y) {
            Some(y)
        } else {
            Some(x)
        },
        (Some(x), None) => Some(x),
        (None, y) => y,
    }
}

/// Moments are ordered by their seconds, and within a second by their nanoseconds.
pub proof fn law_rank_orders(a: Timestamp, b: Timestamp)
    requires
        valid_parts(a.secs(), a.nanos()),
        valid_parts(b.secs(), b.nanos()),
    ensures
        a.rank() < b.rank() <==> a.secs() < b.secs() || (a.secs() == b.secs() && a.nanos()
            < b.nanos()),
        a.rank() == b.rank() <==> a.secs() == b.secs() && a.nanos() == b.nanos(),
{
}

/// The time between two moments outside of leap seconds is the difference of the nanoseconds
/// since 1970; in whole seconds it is rounded toward zero.
pub proof fn law_time_between(a: Timestamp, b: Timestamp)
    requires
        0 <= a.nanos() < 1_000_000_000,
        0 <= b.nanos() < 1_000_000_000,
    ensures
        ({
            let n = (a.secs() * 1_000_000_000 + a.nanos()) - (b.secs() * 1_000_000_000 + b.nanos());
            let s = a.seconds_since_spec(b);
            &&& a.nanos_since_spec(b) == n
            &&& n >= 0 ==> s * 1_000_000_000 <= n < (s + 1) * 1_000_000_000
            &&& n <= 0 ==> (s - 1) * 1_000_000_000 < n <= s * 1_000_000_000
        }),
        b.seconds_since_spec(a) == -a.seconds_since_spec(b),
{
}

/// The later of two moments is one of them, and neither comes after it; where only one is
/// there, it is that.
pub proof fn law_later(a: Option<Timestamp>, b: Option<Timestamp>)
    ensures
        later_spec(a, b) == a || later_spec(a, b) == b,
        a matches Some(x) ==> later_spec(a, b) matches Some(t) && x.rank() <= t.rank(),
        b matches Some(x) ==> later_spec(a, b) matches Some(t) && x.rank() <= t.rank(),
{
}

/// A parsed date and time stands for the moment with its own seconds and nanoseconds, wherever
/// there is such a moment.
pub proof fn law_moment_of_parts(secs: int, nanos: int)
    ensures
        moment_spec(None) is None,
        valid_parts(secs, nanos) ==> (moment_spec(Some((secs, nanos))) matches Some(t) && t.secs()
            == secs && t.nanos() == nanos),
        !valid_parts(secs, nanos) ==> moment_spec(Some((secs, nanos))) is None,
{
}

/// The time from one moment to another is the time back with the sign turned, and there is none
/// from a moment to itself. A leap second that began earlier in the day counts as a second more.
pub proof fn law_time_back(a: Timestamp, b: Timestamp)
    ensures
        a.nanos_since_spec(b) == -b.nanos_since_spec(a),
        a.seconds_since_spec(b) == -b.seconds_since_spec(a),
        a.nanos_since_spec(a) == 0,
        a.secs() / 86_400 == b.secs() / 86_400 && a.secs() > b.secs() && b.nanos() >= 1_000_000_000
            ==> a.nanos_since_spec(b) == (a.secs() + 1 - b.secs()) * 1_000_000_000 + a.nanos()
            - b.nanos(),
{
}

} // verus!
