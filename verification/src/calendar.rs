//! The calendar of the years 0 to 9999, and texts of fixed width for its moments.

use vstd::prelude::*;

use crate::decimal;
use crate::order::{self, text_le, text_lt};

verus! {

/// Whether a year has a day more.
pub open spec fn is_leap_year(y: int) -> bool {
    y % 4 == 0 && (y % 100 != 0 || y % 400 == 0)
}

/// How many days a month has.
pub open spec fn month_len(y: int, m: int) -> int {
    if m == 2 {
        if is_leap_year(y) {
            29
        } else {
            28
        }
    } else if m == 4 || m == 6 || m == 9 || m == 11 {
        30
    } else {
        31
    }
}

/// How many days the years from 0 on have before the given one.
pub open spec fn days_before_year(y: int) -> int {
    365 * y + (y + 3) / 4 - (y + 99) / 100 + (y + 399) / 400
}

/// How many days the year has before the given month.
pub open spec fn days_before_month(y: int, m: int) -> int
    decreases m,
{
    if m <= 1 {
        0
    } else {
        days_before_month(y, m - 1) + month_len(y, m - 1)
    }
}

/// A day of the calendar.
pub struct Date {
    pub year: int,
    pub month: int,
    pub day: int,
}

impl Date {
    /// Whether there is such a day.
    pub open spec fn in_calendar(self) -> bool {
        &&& 0 <= self.year <= 9999
        &&& 1 <= self.month <= 12
        &&& 1 <= self.day <= month_len(self.year, self.month)
    }

    /// How many days come before it, from the start of the year 0 on.
    pub open spec fn number(self) -> int {
        days_before_year(self.year) + days_before_month(self.year, self.month) + self.day - 1
    }

    /// Whether it is the day with the given number.
    pub open spec fn is_number(self, n: int) -> bool {
        self.in_calendar() && self.number() == n
    }

    /// Whether it comes before another day.
    pub open spec fn is_before(self, other: Date) -> bool {
        self.year < other.year || (self.year == other.year && (self.month < other.month || (
        self.month == other.month && self.day < other.day)))
    }
}

/// The first second of the year 0, and the last one of the year 9999.
pub const FIRST_SECOND: i64 = -62_167_219_200;

pub const LAST_SECOND: i64 = 253_402_300_799;

/// Whether a moment lies in a year of at most four digits.
pub open spec fn in_four_digits(secs: int) -> bool {
    FIRST_SECOND <= secs <= LAST_SECOND
}

/// The number of the day in which a second lies.
pub open spec fn day_of(secs: int) -> int {
    (secs - FIRST_SECOND) / 86_400
}

/// The day in which a second lies.
pub open spec fn date_of(secs: int) -> Date {
    choose|c: Date| #[trigger] c.is_number(day_of(secs))
}

proof fn lemma_year(y: int)
    requires
        0 <= y,
    ensures
        days_before_year(y + 1) == days_before_year(y) + days_before_month(y, 13),
{
    assert((y + 4) / 4 - (y + 3) / 4 == if y % 4 == 0 {
        1int
    } else {
        0int
    });
    assert((y + 100) / 100 - (y + 99) / 100 == if y % 100 == 0 {
        1int
    } else {
        0int
    });
    assert((y + 400) / 400 - (y + 399) / 400 == if y % 400 == 0 {
        1int
    } else {
        0int
    });
    assert(y % 400 == 0 ==> y % 100 == 0);
    assert(y % 100 == 0 ==> y % 4 == 0);
    lemma_months(y);
}

proof fn lemma_months(y: int)
    ensures
        days_before_month(y, 13) == 337 + month_len(y, 2),
{
    let feb = month_len(y, 2);
    assert(days_before_month(y, 1) == 0);
    assert(days_before_month(y, 2) == 31);
    assert(days_before_month(y, 3) == 31 + feb);
    assert(days_before_month(y, 4) == 62 + feb);
    assert(days_before_month(y, 5) == 92 + feb);
    assert(days_before_month(y, 6) == 123 + feb);
    assert(days_before_month(y, 7) == 153 + feb);
    assert(days_before_month(y, 8) == 184 + feb);
    assert(days_before_month(y, 9) == 215 + feb);
    assert(days_before_month(y, 10) == 245 + feb);
    assert(days_before_month(y, 11) == 276 + feb);
    assert(days_before_month(y, 12) == 306 + feb);
}

proof fn lemma_years_ascend(y: int, z: int)
    requires
        0 <= y <= z,
    ensures
        days_before_year(y) <= days_before_year(z),
    decreases z - y,
{
    if y < z {
        lemma_year(y);
        lemma_years_ascend(y + 1, z);
    }
}

proof fn lemma_months_ascend(y: int, m: int, n: int)
    requires
        1 <= m <= n,
    ensures
        days_before_month(y, m) <= days_before_month(y, n),
    decreases n,
{
    if m < n {
        lemma_months_ascend(y, m, n - 1);
    }
}

proof fn lemma_dates_ascend(a: Date, b: Date)
    requires
        a.in_calendar(),
        b.in_calendar(),
        a.is_before(b),
    ensures
        a.number() < b.number(),
{
    if a.year < b.year {
        lemma_months_ascend(a.year, a.month + 1, 13);
        lemma_year(a.year);
        lemma_years_ascend(a.year + 1, b.year);
        lemma_months_ascend(b.year, 1, b.month);
    } else if a.month < b.month {
        lemma_months_ascend(a.year, a.month + 1, b.month);
    }
}

proof fn lemma_day_exists(n: int)
    requires
        0 <= n <= 3_652_424,
    ensures
        exists|c: Date| #[trigger] c.is_number(n),
    decreases n,
{
    if n == 0 {
        assert((Date { year: 0, month: 1, day: 1 }).is_number(0));
    } else {
        lemma_day_exists(n - 1);
        let c = choose|c: Date| #[trigger] c.is_number(n - 1);
        if c.day < month_len(c.year, c.month) {
            assert((Date { day: c.day + 1, ..c }).is_number(n));
        } else if c.month < 12 {
            assert((Date { year: c.year, month: c.month + 1, day: 1 }).is_number(n));
        } else {
            lemma_year(c.year);
            if c.year == 9999 {
                assert(days_before_year(10_000) == 3_652_425);
                assert(false);
            }
            assert((Date { year: c.year + 1, month: 1, day: 1 }).is_number(n));
        }
    }
}

proof fn lemma_date_of(secs: int)
    requires
        in_four_digits(secs),
    ensures
        date_of(secs).is_number(day_of(secs)),
{
    lemma_day_exists(day_of(secs));
}

/// A number in the given number of digits, with zeros in front.
pub open spec fn padded(n: int, width: nat) -> Seq<char>
    decreases width,
{
    if width == 0 {
        Seq::empty()
    } else {
        padded(n / 10, (width - 1) as nat).push(decimal::digit_spec((n % 10) as nat))
    }
}

/// The nanoseconds of a leap second show as a second more.
pub open spec fn leap_of(nanos: int) -> int {
    if nanos >= 1_000_000_000 {
        1
    } else {
        0
    }
}

/// The time of the day in digits, with the separator between the fields. In a leap second
/// the clock shows 60.
pub open spec fn clock_text(secs: int, nanos: int, separator: Seq<char>) -> Seq<char> {
    padded((secs % 86_400) / 3600, 2) + (separator + (padded((secs % 3600) / 60, 2) + (separator
        + padded(secs % 60 + leap_of(nanos), 2))))
}

/// The day in digits, with the separator between the fields, followed by `rest`.
pub open spec fn date_text(date: Date, separator: Seq<char>, rest: Seq<char>) -> Seq<char> {
    padded(date.year, 4) + (separator + (padded(date.month, 2) + (separator + (padded(date.day, 2)
        + rest))))
}

/// The text of a moment by which job names end: year, month and day, a dash, and the time of
/// the day.
pub open spec fn stamp_spec(secs: int, nanos: int) -> Seq<char> {
    date_text(date_of(secs), Seq::empty(), seq!['-'] + clock_text(secs, nanos, Seq::empty()))
}

/// The text of a moment to be read: the day with dashes, a space, and the time with colons.
pub open spec fn date_time_text(secs: int, nanos: int) -> Seq<char> {
    date_text(date_of(secs), seq!['-'], seq![' '] + clock_text(secs, nanos, seq![':']))
}

/// Whether a text is eight digits, a dash and six digits.
pub open spec fn is_stamp(s: Seq<char>) -> bool {
    &&& s.len() == 15
    &&& s[8] == '-'
    &&& forall|i: int| 0 <= i < 15 && i != 8 ==> decimal::is_digit_spec(#[trigger] s[i])
}

/// Whether a text is eight digits, a dash and six digits, from the given place to its end.
pub fn is_stamp_from(s: &Vec<char>, from: usize) -> (r: bool)
    requires
        from <= s@.len(),
    ensures
        r == is_stamp(s@.skip(from as int)),
{
    let ghost rest = s@.skip(from as int);
    if s.len() - from != 15 || s[from + 8] != '-' {
        return false;
    }
    let len: usize = s.len();
    for i in 0..15usize
        invariant
            len == s@.len(),
            from + 15 == len,
            rest == s@.skip(from as int),
            forall|j: int| 0 <= j < i && j != 8 ==> decimal::is_digit_spec(#[trigger] rest[j]),
    {
        assert(rest[i as int] == s@[from + i]);
        if i != 8 && !decimal::is_digit(s[from + i]) {
            return false;
        }
    }
    true
}

proof fn lemma_padded_digits(n: int, width: nat)
    requires
        0 <= n,
    ensures
        padded(n, width).len() == width,
        decimal::all_digits(padded(n, width)),
    decreases width,
{
    if width > 0 {
        lemma_padded_digits(n / 10, (width - 1) as nat);
        let d = (n % 10) as nat;
        vstd::utf8::char_u32_cast(decimal::digit_spec(d), ('0' as u32 + d) as u32);
    }
}

proof fn lemma_padded_ascend(a: int, b: int, width: nat, bound: int)
    requires
        0 <= a < b,
        b < bound,
        bound == pow10(width),
    ensures
        text_lt(padded(a, width), padded(b, width)),
    decreases width,
{
    if width > 0 {
        let w = (width - 1) as nat;
        lemma_padded_digits(a / 10, w);
        lemma_padded_digits(b / 10, w);
        let x = decimal::digit_spec((a % 10) as nat);
        let y = decimal::digit_spec((b % 10) as nat);
        assert(padded(a, width) =~= padded(a / 10, w) + seq![x]);
        assert(padded(b, width) =~= padded(b / 10, w) + seq![y]);
        if a / 10 < b / 10 {
            lemma_padded_ascend(a / 10, b / 10, w, pow10(w));
            order::lemma_lt_decided(padded(a / 10, w), padded(b / 10, w), seq![x], seq![y]);
        } else {
            vstd::utf8::char_u32_cast(x, ('0' as u32 + a % 10) as u32);
            vstd::utf8::char_u32_cast(y, ('0' as u32 + b % 10) as u32);
            assert(text_lt(seq![x], seq![y])) by {
                reveal_with_fuel(text_le, 2);
            }
            order::lemma_lt_after_prefix(padded(a / 10, w), seq![x], seq![y]);
        }
    }
}

spec fn pow10(width: nat) -> int
    decreases width,
{
    if width == 0 {
        1
    } else {
        10 * pow10((width - 1) as nat)
    }
}

/// One field after another: texts of numbers in equal width sort as the numbers do, and
/// where those are equal as what follows does.
proof fn lemma_field(a: int, b: int, width: nat, x: Seq<char>, y: Seq<char>)
    requires
        width == 2 || width == 4,
        0 <= a <= b < if width == 2 {
            100int
        } else {
            10_000int
        },
        a == b ==> text_lt(x, y),
    ensures
        text_lt(padded(a, width) + x, padded(b, width) + y),
{
    reveal_with_fuel(pow10, 5);
    if a < b {
        lemma_padded_digits(a, width);
        lemma_padded_digits(b, width);
        lemma_padded_ascend(a, b, width, pow10(width));
        order::lemma_lt_decided(padded(a, width), padded(b, width), x, y);
    } else {
        order::lemma_lt_after_prefix(padded(a, width), x, y);
    }
}

/// Of two times of the day the earlier is told by the first of the hour, the minute and the
/// second that differs.
proof fn lemma_clock_fields(secs: int, later_secs: int)
    requires
        secs % 86_400 < later_secs % 86_400,
    ensures
        ({
            let (h, k) = ((secs % 86_400) / 3600, (later_secs % 86_400) / 3600);
            let (m, n) = ((secs % 3600) / 60, (later_secs % 3600) / 60);
            &&& 0 <= h <= k < 24
            &&& 0 <= m < 60 && 0 <= n < 60
            &&& h == k ==> m <= n
            &&& h == k && m == n ==> secs % 60 < later_secs % 60
        }),
{
    lemma_clock_parts(secs);
    lemma_clock_parts(later_secs);
}

proof fn lemma_clock_parts(secs: int)
    ensures
        ({
            let (h, m, s) = ((secs % 86_400) / 3600, (secs % 3600) / 60, secs % 60);
            &&& secs % 86_400 == h * 3600 + m * 60 + s
            &&& 0 <= h < 24 && 0 <= m < 60 && 0 <= s < 60
        }),
{
    let t = secs % 86_400;
    let d = secs / 86_400;
    assert(secs == d * 86_400 + t);
    let r = t % 3600;
    let h = t / 3600;
    assert(secs == (d * 24 + h) * 3600 + r);
    assert(secs % 3600 == r) by (nonlinear_arith)
        requires
            secs == (d * 24 + h) * 3600 + r,
            0 <= r < 3600,
    ;
    let s = r % 60;
    let m = r / 60;
    assert(secs == (d * 1440 + h * 60 + m) * 60 + s);
    assert(secs % 60 == s) by (nonlinear_arith)
        requires
            secs == (d * 1440 + h * 60 + m) * 60 + s,
            0 <= s < 60,
    ;
}

proof fn lemma_clocks_ascend(secs: int, nanos: int, later_secs: int, later_nanos: int)
    requires
        secs % 86_400 < later_secs % 86_400,
        nanos >= 1_000_000_000 ==> secs % 60 == 59,
    ensures
        text_lt(
            clock_text(secs, nanos, Seq::empty()),
            clock_text(later_secs, later_nanos, Seq::empty()),
        ),
{
    let none = Seq::<char>::empty();
    let (t, u) = (secs % 86_400, later_secs % 86_400);
    let (h, k) = (t / 3600, u / 3600);
    let (m, n) = ((secs % 3600) / 60, (later_secs % 3600) / 60);
    lemma_clock_fields(secs, later_secs);
    let (s, r) = (secs % 60 + leap_of(nanos), later_secs % 60 + leap_of(later_nanos));
    let (sec_a, sec_b) = (padded(s, 2), padded(r, 2));
    let (min_a, min_b) = (padded(m, 2) + (none + sec_a), padded(n, 2) + (none + sec_b));
    assert(none + sec_a =~= sec_a && none + sec_b =~= sec_b);
    assert(sec_a + none =~= sec_a && sec_b + none =~= sec_b);
    assert(none + min_a =~= min_a && none + min_b =~= min_b);
    if h == k {
        if m == n {
            lemma_field(s, r, 2, none, none);
        }
        lemma_field(m, n, 2, none + sec_a, none + sec_b);
    }
    lemma_field(h, k, 2, none + min_a, none + min_b);
}

proof fn lemma_date_texts_ascend(a: Date, b: Date, x: Seq<char>, y: Seq<char>)
    requires
        a.in_calendar(),
        b.in_calendar(),
        a.is_before(b) || (a == b && text_lt(x, y)),
    ensures
        text_lt(date_text(a, Seq::empty(), x), date_text(b, Seq::empty(), y)),
{
    let none = Seq::<char>::empty();
    let (day_a, day_b) = (padded(a.day, 2) + x, padded(b.day, 2) + y);
    let (month_a, month_b) = (
        padded(a.month, 2) + (none + day_a),
        padded(b.month, 2) + (none + day_b),
    );
    assert(none + day_a =~= day_a && none + day_b =~= day_b);
    assert(none + month_a =~= month_a && none + month_b =~= month_b);
    if a.year == b.year {
        if a.month == b.month {
            lemma_field(a.day, b.day, 2, x, y);
        }
        lemma_field(a.month, b.month, 2, none + day_a, none + day_b);
    }
    lemma_field(a.year, b.year, 4, none + month_a, none + month_b);
}

proof fn lemma_days_ascend(secs: int, later_secs: int)
    requires
        in_four_digits(secs),
        in_four_digits(later_secs),
        secs < later_secs,
    ensures
        date_of(secs).in_calendar(),
        date_of(later_secs).in_calendar(),
        date_of(secs).is_before(date_of(later_secs)) || (date_of(secs) == date_of(later_secs)
            && secs % 86_400 < later_secs % 86_400),
{
    let a = date_of(secs);
    let b = date_of(later_secs);
    lemma_date_of(secs);
    lemma_date_of(later_secs);
    if b.is_before(a) {
        lemma_dates_ascend(b, a);
    }
    if !a.is_before(b) {
        assert(a == b);
        assert(day_of(secs) == day_of(later_secs));
        assert((secs - FIRST_SECOND) % 86_400 == secs % 86_400);
        assert((later_secs - FIRST_SECOND) % 86_400 == later_secs % 86_400);
    }
}

/// The texts by which job names end sort as the seconds do.
pub proof fn law_stamps_sort_by_time(secs: int, nanos: int, later_secs: int, later_nanos: int)
    requires
        in_four_digits(secs),
        in_four_digits(later_secs),
        secs < later_secs,
        nanos >= 1_000_000_000 ==> secs % 60 == 59,
    ensures
        text_lt(stamp_spec(secs, nanos), stamp_spec(later_secs, later_nanos)),
{
    let (a, b) = (date_of(secs), date_of(later_secs));
    lemma_days_ascend(secs, later_secs);
    let clock_a = clock_text(secs, nanos, Seq::empty());
    let clock_b = clock_text(later_secs, later_nanos, Seq::empty());
    if a == b {
        lemma_clocks_ascend(secs, nanos, later_secs, later_nanos);
        order::lemma_lt_after_prefix(seq!['-'], clock_a, clock_b);
    }
    lemma_date_texts_ascend(a, b, seq!['-'] + clock_a, seq!['-'] + clock_b);
}

/// The text by which a job name ends is eight digits, a dash and six digits.
pub proof fn law_stamp_has_fixed_width(secs: int, nanos: int)
    requires
        in_four_digits(secs),
    ensures
        is_stamp(stamp_spec(secs, nanos)),
{
    let a = date_of(secs);
    lemma_date_of(secs);
    let leap = leap_of(nanos);
    lemma_padded_digits(a.year, 4);
    lemma_padded_digits(a.month, 2);
    lemma_padded_digits(a.day, 2);
    lemma_padded_digits((secs % 86_400) / 3600, 2);
    lemma_padded_digits((secs % 3600) / 60, 2);
    lemma_padded_digits(secs % 60 + leap, 2);
    let s = stamp_spec(secs, nanos);
    let (y, m, d) = (padded(a.year, 4), padded(a.month, 2), padded(a.day, 2));
    let (h, n, k) = (
        padded((secs % 86_400) / 3600, 2),
        padded((secs % 3600) / 60, 2),
        padded(secs % 60 + leap, 2),
    );
    assert(s =~= y + m + d + seq!['-'] + h + n + k);
    assert forall|i: int| 0 <= i < 15 && i != 8 implies decimal::is_digit_spec(#[trigger] s[i]) by {
        if i < 4 {
            assert(s[i] == y[i]);
        } else if i < 6 {
            assert(s[i] == m[i - 4]);
        } else if i < 8 {
            assert(s[i] == d[i - 6]);
        } else if i < 11 {
            assert(s[i] == h[i - 9]);
        } else if i < 13 {
            assert(s[i] == n[i - 11]);
        } else {
            assert(s[i] == k[i - 13]);
        }
    }
}

/// A year has a day more where it is divisible by four, but not where it is by a hundred and not
/// by four hundred; that day is in February. The other months have their own lengths.
pub proof fn law_months(y: int, m: int)
    requires
        1 <= m <= 12,
    ensures
        y % 400 == 0 ==> month_len(y, 2) == 29,
        y % 100 == 0 && y % 400 != 0 ==> month_len(y, 2) == 28,
        y % 4 == 0 && y % 100 != 0 ==> month_len(y, 2) == 29,
        y % 4 != 0 ==> month_len(y, 2) == 28,
        m == 4 || m == 6 || m == 9 || m == 11 ==> month_len(y, m) == 30,
        m == 1 || m == 3 || m == 5 || m == 7 || m == 8 || m == 10 || m == 12 ==> month_len(y, m)
            == 31,
{
    assert(y % 400 == 0 ==> y % 100 == 0);
    assert(y % 100 == 0 ==> y % 4 == 0);
}

/// The day of the start of 1970 is its first of January, and every day is followed by the next
/// day of its month, or else by the first of the next month, or else by the first of January of
/// the next year.
pub proof fn law_days_follow(secs: int)
    requires
        in_four_digits(secs),
        in_four_digits(secs + 86_400),
    ensures
        date_of(0) == (Date { year: 1970, month: 1, day: 1 }),
        ({
            let d = date_of(secs);
            let next = date_of(secs + 86_400);
            &&& 1 <= d.month <= 12 && 1 <= d.day <= month_len(d.year, d.month)
            &&& d.day < month_len(d.year, d.month) ==> next == (Date { day: d.day + 1, ..d })
            &&& d.day == month_len(d.year, d.month) && d.month < 12 ==> next == (Date {
                year: d.year,
                month: d.month + 1,
                day: 1,
            })
            &&& d.day == month_len(d.year, d.month) && d.month == 12 ==> next == (Date {
                year: d.year + 1,
                month: 1,
                day: 1,
            })
        }),
{
    lemma_date_of(0);
    lemma_date_of(secs);
    lemma_date_of(secs + 86_400);
    let start = Date { year: 1970, month: 1, day: 1 };
    assert(start.is_number(day_of(0)));
    lemma_one_day(start, date_of(0));
    let d = date_of(secs);
    let next = date_of(secs + 86_400);
    assert(day_of(secs + 86_400) == day_of(secs) + 1);
    if d.day < month_len(d.year, d.month) {
        lemma_one_day(Date { day: d.day + 1, ..d }, next);
    } else if d.month < 12 {
        lemma_one_day(Date { year: d.year, month: d.month + 1, day: 1 }, next);
    } else {
        lemma_year(d.year);
        if d.year == 9999 {
            assert(days_before_year(10_000) == 3_652_425);
            assert(false);
        }
        lemma_one_day(Date { year: d.year + 1, month: 1, day: 1 }, next);
    }
}

proof fn lemma_one_day(a: Date, b: Date)
    requires
        a.in_calendar(),
        b.in_calendar(),
        a.number() == b.number(),
    ensures
        a == b,
{
    if a.is_before(b) {
        lemma_dates_ascend(a, b);
    } else if b.is_before(a) {
        lemma_dates_ascend(b, a);
    }
}

/// All seconds of a day are of the same date.
pub proof fn law_one_date_a_day(secs: int, rest: int)
    requires
        secs % 86_400 == 0,
        0 <= rest < 86_400,
    ensures
        date_of(secs + rest) == date_of(secs),
{
    assert(day_of(secs + rest) == day_of(secs));
}

/// A moment is written with the date and the time of its day in fields of fixed width, each a
/// number with zeros in front: with dashes, a space and colons to be read, and packed with one
/// dash where a name ends in it.
pub proof fn law_written_moment(day: int, h: int, m: int, s: int, nanos: int)
    requires
        0 <= h < 24,
        0 <= m < 60,
        0 <= s < 60,
        0 <= nanos < 1_000_000_000,
        in_four_digits(day * 86_400 + h * 3600 + m * 60 + s),
    ensures
        ({
            let secs = day * 86_400 + h * 3600 + m * 60 + s;
            let d = date_of(secs);
            &&& date_time_text(secs, nanos) == padded(d.year, 4) + seq!['-'] + padded(d.month, 2)
                + seq!['-'] + padded(d.day, 2) + seq![' '] + padded(h, 2) + seq![':'] + padded(m, 2)
                + seq![':'] + padded(s, 2)
            &&& stamp_spec(secs, nanos) == padded(d.year, 4) + padded(d.month, 2) + padded(d.day, 2)
                + seq!['-'] + padded(h, 2) + padded(m, 2) + padded(s, 2)
            &&& 0 <= d.year <= 9999 && 1 <= d.month <= 12 && 1 <= d.day <= 31
        }),
        padded(h, 2).len() == 2 && decimal::value_spec(padded(h, 2)) == h,
        padded(m, 2).len() == 2 && decimal::value_spec(padded(m, 2)) == m,
        padded(s, 2).len() == 2 && decimal::value_spec(padded(s, 2)) == s,
{
    let secs = day * 86_400 + h * 3600 + m * 60 + s;
    let d = date_of(secs);
    lemma_date_of(secs);
    assert((secs % 86_400) / 3600 == h && (secs % 3600) / 60 == m && secs % 60 == s) by (nonlinear_arith)
        requires
            secs == day * 86_400 + h * 3600 + m * 60 + s,
            0 <= h < 24,
            0 <= m < 60,
            0 <= s < 60,
    ;
    assert(date_time_text(secs, nanos) =~= padded(d.year, 4) + seq!['-'] + padded(d.month, 2)
        + seq!['-'] + padded(d.day, 2) + seq![' '] + padded(h, 2) + seq![':'] + padded(m, 2)
        + seq![':'] + padded(s, 2));
    assert(stamp_spec(secs, nanos) =~= padded(d.year, 4) + padded(d.month, 2) + padded(d.day, 2)
        + seq!['-'] + padded(h, 2) + padded(m, 2) + padded(s, 2));
    lemma_two_digits(h);
    lemma_two_digits(m);
    lemma_two_digits(s);
}

proof fn lemma_two_digits(n: int)
    requires
        0 <= n < 100,
    ensures
        padded(n, 2).len() == 2,
        decimal::value_spec(padded(n, 2)) == n,
{
    reveal_with_fuel(padded, 3);
    reveal_with_fuel(decimal::value_spec, 3);
    lemma_padded_digits(n, 2);
    let t = (n / 10 % 10) as nat;
    let o = (n % 10) as nat;
    vstd::utf8::char_u32_cast(decimal::digit_spec(t), ('0' as u32 + t) as u32);
    vstd::utf8::char_u32_cast(decimal::digit_spec(o), ('0' as u32 + o) as u32);
    let p = padded(n, 2);
    assert(p =~= seq![decimal::digit_spec(t), decimal::digit_spec(o)]);
    assert(p.drop_last() =~= seq![decimal::digit_spec(t)]);
    assert(p.drop_last().drop_last() =~= Seq::empty());
}

/// In a leap second the clock shows the second past its last.
pub proof fn law_leap_second_shows(secs: int, nanos: int)
    requires
        nanos >= 1_000_000_000,
        secs % 60 == 59,
    ensures
        clock_text(secs, nanos, seq![':']).len() == 8,
        clock_text(secs, nanos, seq![':']).skip(6) == padded(60, 2),
{
    lemma_padded_digits((secs % 86_400) / 3600, 2);
    lemma_padded_digits((secs % 3600) / 60, 2);
    lemma_padded_digits(60, 2);
    assert(clock_text(secs, nanos, seq![':']).skip(6) =~= padded(60, 2));
}

} // verus!
