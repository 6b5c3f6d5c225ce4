//! Points in time, and how they are dated and written.

use vstd::prelude::*;
use vstd::string::*;

use crate::number::padded_text;

verus! {

/// The first second of the year -9999, counted from the start of 1970.
pub const MIN_LOCAL_SECONDS: i64 = -377705116800;

/// The last second of the year 9999, counted from the start of 1970.
pub const MAX_LOCAL_SECONDS: i64 = 253402300799;

/// The widest offset from UTC, in seconds: 25 hours, 59 minutes and 59 seconds.
pub const MAX_OFFSET_SECONDS: i32 = 93599;

// -- calendar ---------------------------------------------------------------

/// Whether a year of the proleptic Gregorian calendar has a leap day.
pub open spec fn is_leap(year: int) -> bool {
    year % 4 == 0 && (year % 100 != 0 || year % 400 == 0)
}

/// The days of a month.
pub open spec fn month_len(year: int, month: int) -> int {
    if month == 2 {
        if is_leap(year) {
            29
        } else {
            28
        }
    } else if month == 4 || month == 6 || month == 9 || month == 11 {
        30
    } else {
        31
    }
}

/// The days from the start of the year 1 to the start of `year`.
pub open spec fn days_before_year(year: int) -> int {
    365 * (year - 1) + (year - 1) / 4 - (year - 1) / 100 + (year - 1) / 400
}

/// The days from the start of the year to the start of `month`.
pub open spec fn days_before_month(year: int, month: int) -> int
    decreases month,
{
    if month <= 1 {
        0
    } else {
        days_before_month(year, month - 1) + month_len(year, month - 1)
    }
}

/// Whether `date`, a year, a month and a day, is the date of the day that comes `day` days after
/// the first of 1970.
pub open spec fn is_date_of(date: (int, int, int), day: int) -> bool {
    &&& 1 <= date.1 <= 12
    &&& 1 <= date.2 <= month_len(date.0, date.1)
    &&& day == days_before_year(date.0) + days_before_month(date.0, date.1) + date.2 - 1 - 719162
}

/// The date of the day that comes `day` days after the first of 1970.
pub open spec fn date_of(day: int) -> (int, int, int) {
    choose|date: (int, int, int)| is_date_of(date, day)
}

proof fn lemma_month_order(year: int, a: int, b: int)
    requires
        1 <= a < b <= 13,
    ensures
        days_before_month(year, a) + month_len(year, a) <= days_before_month(year, b),
    decreases b - a,
{
    if a + 1 < b {
        lemma_month_order(year, a, b - 1);
    }
}

proof fn lemma_months_of_a_year(year: int)
    ensures
        days_before_month(year, 13) == 337 + month_len(year, 2),
{
    assert(days_before_month(year, 1) == 0);
    assert(days_before_month(year, 2) == 31);
    assert(days_before_month(year, 3) == 31 + month_len(year, 2));
    assert(days_before_month(year, 4) == 62 + month_len(year, 2));
    assert(days_before_month(year, 5) == 92 + month_len(year, 2));
    assert(days_before_month(year, 6) == 123 + month_len(year, 2));
    assert(days_before_month(year, 7) == 153 + month_len(year, 2));
    assert(days_before_month(year, 8) == 184 + month_len(year, 2));
    assert(days_before_month(year, 9) == 215 + month_len(year, 2));
    assert(days_before_month(year, 10) == 245 + month_len(year, 2));
    assert(days_before_month(year, 11) == 276 + month_len(year, 2));
    assert(days_before_month(year, 12) == 306 + month_len(year, 2));
}

proof fn lemma_step(n: int, d: int)
    requires
        d > 1,
    ensures
        n / d - (n - 1) / d == if n % d == 0 {
            1int
        } else {
            0int
        },
{
    let q = n / d;
    let r = n % d;
    vstd::arithmetic::div_mod::lemma_fundamental_div_mod(n, d);
    vstd::arithmetic::div_mod::lemma_mod_bound(n, d);
    if r == 0 {
        assert(n - 1 == (q - 1) * d + (d - 1)) by (nonlinear_arith)
            requires
                n == d * q + r,
                r == 0,
        ;
        vstd::arithmetic::div_mod::lemma_fundamental_div_mod_converse(n - 1, d, q - 1, d - 1);
    } else {
        assert(n - 1 == q * d + (r - 1)) by (nonlinear_arith)
            requires
                n == d * q + r,
        ;
        vstd::arithmetic::div_mod::lemma_fundamental_div_mod_converse(n - 1, d, q, r - 1);
    }
}

proof fn lemma_year_len(year: int)
    ensures
        days_before_year(year + 1) - days_before_year(year) == if is_leap(year) {
            366int
        } else {
            365int
        },
        days_before_month(year, 13) == days_before_year(year + 1) - days_before_year(year),
{
    lemma_months_of_a_year(year);
    lemma_step(year, 4);
    lemma_step(year, 100);
    lemma_step(year, 400);
    assert(year % 400 == 0 ==> year % 100 == 0);
    assert(year % 100 == 0 ==> year % 4 == 0);
}

proof fn lemma_year_order(a: int, b: int)
    requires
        a < b,
    ensures
        days_before_year(a + 1) <= days_before_year(b),
    decreases b - a,
{
    if a + 1 < b {
        lemma_year_order(a, b - 1);
        lemma_year_len(b - 1);
    }
}

proof fn lemma_dates_in_order(a: (int, int, int), b: (int, int, int), day: int)
    requires
        is_date_of(a, day),
        is_date_of(b, day),
    ensures
        a.0 >= b.0,
        a.0 == b.0 ==> a.1 >= b.1,
{
    if a.0 < b.0 {
        lemma_year_order(a.0, b.0);
        lemma_year_len(a.0);
        lemma_month_order(a.0, a.1, 13);
        if b.1 > 1 {
            lemma_month_order(b.0, 1, b.1);
        }
    } else if a.0 == b.0 && a.1 < b.1 {
        lemma_month_order(a.0, a.1, b.1);
    }
}

/// A day has one date.
pub proof fn date_is_unique(a: (int, int, int), b: (int, int, int), day: int)
    requires
        is_date_of(a, day),
        is_date_of(b, day),
    ensures
        a == b,
{
    lemma_dates_in_order(a, b, day);
    lemma_dates_in_order(b, a, day);
}

// -- RFC 3339 ---------------------------------------------------------------

/// `s` without the zeros at its end.
pub open spec fn without_trailing_zeros(s: Seq<char>) -> Seq<char>
    decreases s.len(),
{
    if s.len() > 0 && s.last() == '0' {
        without_trailing_zeros(s.drop_last())
    } else {
        s
    }
}

/// The part of a second, with a leading point, where there is one.
pub open spec fn fraction_text(nanosecond: int) -> Seq<char> {
    if nanosecond == 0 {
        Seq::empty()
    } else {
        "."@ + without_trailing_zeros(crate::number::padded(nanosecond, 9))
    }
}

/// The offset from UTC.
pub open spec fn zone_text(offset: int) -> Seq<char> {
    let size = if offset < 0 {
        -offset
    } else {
        offset
    };
    if offset == 0 {
        "Z"@
    } else {
        (if offset < 0 {
            "-"@
        } else {
            "+"@
        }) + crate::number::padded(size / 3600, 2) + ":"@ + crate::number::padded(
            size / 60 % 60,
            2,
        )
    }
}

/// A local time in the form of RFC 3339, which has no years outside of 0 to 9999, no offsets of a
/// day or more and none that are not whole minutes.
pub open spec fn rfc3339_text(local_seconds: int, nanosecond: int, offset: int) -> Option<Seq<char>> {
    let (year, month, day) = date_of(local_seconds / 86400);
    let second = local_seconds % 86400;
    if !(0 <= year <= 9999) || !(-86400 < offset < 86400) || offset % 60 != 0 {
        None
    } else {
        Some(
            crate::number::padded(year, 4) + "-"@ + crate::number::padded(month, 2) + "-"@
                + crate::number::padded(day, 2) + "T"@ + crate::number::padded(second / 3600, 2)
                + ":"@ + crate::number::padded(second / 60 % 60, 2) + ":"@ + crate::number::padded(
                second % 60,
                2,
            ) + fraction_text(nanosecond) + zone_text(offset),
        )
    }
}

// -- the plain form ---------------------------------------------------------

/// The digits of a part of a second: without the zeros at their end, but at least one.
pub open spec fn subsecond_text(nanosecond: int) -> Seq<char> {
    if nanosecond == 0 {
        "0"@
    } else {
        without_trailing_zeros(crate::number::padded(nanosecond, 9))
    }
}

/// A local time in a form that there always is, such as `-0001-12-31 9:05:00.25 -00:00:01`.
pub open spec fn date_time_text(local_seconds: int, nanosecond: int, offset: int) -> Seq<char> {
    let (year, month, day) = date_of(local_seconds / 86400);
    let second = local_seconds % 86400;
    let size = if offset < 0 {
        -offset
    } else {
        offset
    };
    (if year < 0 {
        "-"@ + crate::number::padded(-year, 4)
    } else {
        crate::number::padded(year, 4)
    }) + "-"@ + crate::number::padded(month, 2) + "-"@ + crate::number::padded(day, 2) + " "@
        + crate::number::decimal(second / 3600) + ":"@ + crate::number::padded(second / 60 % 60, 2)
        + ":"@ + crate::number::padded(second % 60, 2) + "."@ + subsecond_text(nanosecond) + " "@ + (
    if offset < 0 {
        "-"@
    } else {
        "+"@
    }) + crate::number::padded(size / 3600, 2) + ":"@ + crate::number::padded(size / 60 % 60, 2)
        + ":"@ + crate::number::padded(size % 60, 2)
}

// -- the time crate ---------------------------------------------------------

/// The error of `time::OffsetDateTime::format`.
#[verifier::external_type_specification]
#[verifier::external_body]
pub struct ExFormat(time::error::Format);

/// `time::OffsetDateTime::to_calendar_date` gives the Gregorian date of a time.
#[verifier::external_body]
fn calendar_date_of(local_seconds: i64) -> (r: (i32, u8, u8))
    requires
        MIN_LOCAL_SECONDS <= local_seconds <= MAX_LOCAL_SECONDS,
    ensures
        is_date_of((r.0 as int, r.1 as int, r.2 as int), local_seconds as int / 86400),
{
    let at = time::OffsetDateTime::from_unix_timestamp(local_seconds).unwrap();
    let (year, month, day) = at.to_calendar_date();
    (year, u8::from(month), day)
}

/// `time::OffsetDateTime::format` with `Rfc3339` writes the RFC 3339 form, and fails where there
/// is none.
#[verifier::external_body]
fn rfc3339_of(local_seconds: i64, nanosecond: u32, offset: i32) -> (r: Result<
    String,
    time::error::Format,
>)
    requires
        MIN_LOCAL_SECONDS <= local_seconds <= MAX_LOCAL_SECONDS,
        nanosecond < 1_000_000_000,
        -MAX_OFFSET_SECONDS <= offset <= MAX_OFFSET_SECONDS,
    ensures
        match rfc3339_text(local_seconds as int, nanosecond as int, offset as int) {
            Some(text) => r is Ok && r->Ok_0@ == text,
            None => r is Err,
        },
{
    let at = time::OffsetDateTime::from_unix_timestamp(local_seconds).unwrap();
    let offset = time::UtcOffset::from_whole_seconds(offset).unwrap();
    let at = at.replace_nanosecond(nanosecond).unwrap().replace_offset(offset);
    at.format(&time::format_description::well_known::Rfc3339)
}

/// The `Display` form of `time::OffsetDateTime`: the local date, the local time with its hour not
/// filled up and its part of a second in at least one digit, and the offset to the second.
#[verifier::external_body]
fn date_time_text_of(local_seconds: i64, nanosecond: u32, offset: i32) -> (r: String)
    requires
        MIN_LOCAL_SECONDS <= local_seconds <= MAX_LOCAL_SECONDS,
        nanosecond < 1_000_000_000,
        -MAX_OFFSET_SECONDS <= offset <= MAX_OFFSET_SECONDS,
    ensures
        r@ == date_time_text(local_seconds as int, nanosecond as int, offset as int),
{
    let at = time::OffsetDateTime::from_unix_timestamp(local_seconds).unwrap();
    let offset = time::UtcOffset::from_whole_seconds(offset).unwrap();
    at.replace_nanosecond(nanosecond).unwrap().replace_offset(offset).to_string()
}

// -- timestamps -------------------------------------------------------------

/// A point in time with the offset from UTC that it was taken at. Its local year is within -9999
/// to 9999.
#[derive(Debug, Clone, Copy, PartialEq, Eq)]
pub struct Timestamp {
    seconds: i64,
    nanosecond: u32,
    offset: i32,
}

/// Whether there is such a point in time.
pub open spec fn valid_timestamp(seconds: int, nanosecond: int, offset: int) -> bool {
    &&& -MAX_OFFSET_SECONDS <= offset <= MAX_OFFSET_SECONDS
    &&& MIN_LOCAL_SECONDS <= seconds + offset <= MAX_LOCAL_SECONDS
    &&& 0 <= nanosecond < 1_000_000_000
}

impl Timestamp {
    #[verifier::type_invariant]
    spec fn inv(self) -> bool {
        valid_timestamp(self.seconds as int, self.nanosecond as int, self.offset as int)
    }

    /// The whole seconds since the start of 1970, UTC.
    pub closed spec fn unix_seconds(self) -> int {
        self.seconds as int
    }

    /// The nanoseconds past the whole second.
    pub closed spec fn subsecond(self) -> int {
        self.nanosecond as int
    }

    /// The offset from UTC, in seconds.
    pub closed spec fn offset_seconds(self) -> int {
        self.offset as int
    }

    /// The nanoseconds since the start of 1970, UTC: what points in time are ordered by.
    pub open spec fn instant(self) -> int {
        self.unix_seconds() * 1_000_000_000 + self.subsecond()
    }

    /// The whole seconds that the local clock has counted since its start of 1970.
    pub open spec fn local_seconds(self) -> int {
        self.unix_seconds() + self.offset_seconds()
    }

    /// The local date: year, month and day.
    pub open spec fn local_date(self) -> (int, int, int) {
        date_of(self.local_seconds() / 86400)
    }

    /// The point in time so many seconds and nanoseconds after the start of 1970, UTC, on a clock
    /// that is `offset` seconds ahead.
    pub fn new(seconds: i64, nanosecond: u32, offset: i32) -> (r: Option<Timestamp>)
        ensures
            r is Some <==> valid_timestamp(seconds as int, nanosecond as int, offset as int),
            r matches Some(t) ==> t.unix_seconds() == seconds && t.subsecond() == nanosecond
                && t.offset_seconds() == offset,
    {
        if offset < -MAX_OFFSET_SECONDS || offset > MAX_OFFSET_SECONDS || nanosecond
            >= 1_000_000_000 {
            return None;
        }
        let local: i128 = seconds as i128 + offset as i128;
        if local < MIN_LOCAL_SECONDS as i128 || local > MAX_LOCAL_SECONDS as i128 {
            return None;
        }
        Some(Timestamp { seconds, nanosecond, offset })
    }

    /// The whole seconds since the start of 1970, UTC.
    pub fn unix_timestamp(&self) -> (r: i64)
        ensures
            r == self.unix_seconds(),
    {
        self.seconds
    }

    /// The nanoseconds since the start of 1970, UTC.
    pub fn unix_nanos(&self) -> (r: i128)
        ensures
            r == self.instant(),
            -1_000_000_000_000_000_000_000 < r < 1_000_000_000_000_000_000_000,
    {
        proof {
            use_type_invariant(self);
        }
        self.seconds as i128 * 1_000_000_000 + self.nanosecond as i128
    }

    fn local(&self) -> (r: i64)
        ensures
            r == self.local_seconds(),
            MIN_LOCAL_SECONDS <= r <= MAX_LOCAL_SECONDS,
    {
        proof {
            use_type_invariant(self);
        }
        (self.seconds as i128 + self.offset as i128) as i64
    }

    /// The local date, as `2024-05-31`.
    pub fn date_text(&self) -> (r: String)
        ensures
            r@ == local_date_text(*self),
    {
        let local: i64 = self.local();
        let (year, month, day) = calendar_date_of(local);
        proof {
            let date = (year as int, month as int, day as int);
            assert(is_date_of(date_of(local as int / 86400), local as int / 86400));
            date_is_unique(date, date_of(local as int / 86400), local as int / 86400);
        }
        let mut out = padded_text(year as i64, 4);
        crate::text::out_push(&mut out, "-");
        crate::text::out_push(&mut out, padded_text(month as i64, 2).as_str());
        crate::text::out_push(&mut out, "-");
        crate::text::out_push(&mut out, padded_text(day as i64, 2).as_str());
        out
    }

    /// The local hour and minute, as `23:59`.
    pub fn clock_text(&self) -> (r: String)
        ensures
            r@ == local_clock_text(*self),
    {
        let local: i64 = self.local();
        let second: i128 = (local as i128 - MIN_LOCAL_SECONDS as i128) % 86400;
        assert(second == self.local_seconds() % 86400);
        let mut out = padded_text((second / 3600) as i64, 2);
        crate::text::out_push(&mut out, ":");
        crate::text::out_push(&mut out, padded_text((second / 60 % 60) as i64, 2).as_str());
        out
    }

    /// The RFC 3339 form, or the plain one where there is none.
    pub fn text(&self) -> (r: String)
        ensures
            r@ == timestamp_text(*self),
    {
        proof {
            use_type_invariant(self);
        }
        let local: i64 = self.local();
        match rfc3339_of(local, self.nanosecond, self.offset) {
            Ok(text) => text,
            Err(_) => date_time_text_of(local, self.nanosecond, self.offset),
        }
    }
}

/// A length of time; one that is below zero runs backwards.
#[derive(Debug, Clone, Copy, PartialEq, Eq)]
pub struct Duration {
    pub nanoseconds: i128,
}

impl Duration {
    /// So many seconds.
    pub fn seconds(n: i64) -> (r: Duration)
        ensures
            r.nanoseconds == n * 1_000_000_000,
    {
        Duration { nanoseconds: n as i128 * 1_000_000_000 }
    }

    /// So many days.
    pub fn days(n: i64) -> (r: Duration)
        ensures
            r.nanoseconds == n * 86_400_000_000_000,
    {
        Duration { nanoseconds: n as i128 * 86_400_000_000_000 }
    }

    /// The time from one point to another.
    pub fn between(from: Timestamp, to: Timestamp) -> (r: Duration)
        ensures
            r.nanoseconds == to.instant() - from.instant(),
    {
        Duration { nanoseconds: to.unix_nanos() - from.unix_nanos() }
    }
}

/// A local date, as `2024-05-31`.
pub open spec fn local_date_text(t: Timestamp) -> Seq<char> {
    crate::number::padded(t.local_date().0, 4) + "-"@ + crate::number::padded(t.local_date().1, 2)
        + "-"@ + crate::number::padded(t.local_date().2, 2)
}

/// A local hour and minute, as `23:59`.
pub open spec fn local_clock_text(t: Timestamp) -> Seq<char> {
    crate::number::padded(t.local_seconds() % 86400 / 3600, 2) + ":"@ + crate::number::padded(
        t.local_seconds() % 86400 / 60 % 60,
        2,
    )
}

/// The RFC 3339 form, or the plain one where there is none.
pub open spec fn timestamp_text(t: Timestamp) -> Seq<char> {
    match rfc3339_text(t.local_seconds(), t.subsecond(), t.offset_seconds()) {
        Some(text) => text,
        None => date_time_text(t.local_seconds(), t.subsecond(), t.offset_seconds()),
    }
}

// -- laws -------------------------------------------------------------------

/// The clock shows the hour and the minute of the local day, each with two digits.
pub proof fn the_clock_shows_hours_and_minutes(time: &Timestamp, r: String) -> (found: (
    int,
    int,
    int,
    int,
))
    requires
        call_ensures(Timestamp::clock_text, (time,), r),
    ensures
        ({
            let (day, hour, minute, second) = found;
            &&& 0 <= hour < 24
            &&& 0 <= minute < 60
            &&& 0 <= second < 60
            &&& time.unix_seconds() + time.offset_seconds() == 86400 * day + 3600 * hour + 60
                * minute + second
            &&& r@ == crate::number::padded(hour, 2) + ":"@ + crate::number::padded(minute, 2)
        }),
{
    let local = time.local_seconds();
    let s = local % 86400;
    (local / 86400, s / 3600, s / 60 % 60, s % 60)
}

/// The date shows the year, the month and the day of the local day, in this order.
pub proof fn the_date_shows_year_month_and_day(time: &Timestamp, r: String)
    requires
        call_ensures(Timestamp::date_text, (time,), r),
    ensures
        ({
            let (year, month, day) = date_of((time.unix_seconds() + time.offset_seconds()) / 86400);
            r@ == crate::number::padded(year, 4) + "-"@ + crate::number::padded(month, 2) + "-"@
                + crate::number::padded(day, 2)
        }),
{
}

/// A time is what it was made of, and a time is later than another by the seconds and the parts of a
/// second between them, wherever the two were taken.
pub proof fn times_are_what_they_are_made_of(
    seconds: i64,
    nanosecond: u32,
    offset: i32,
    r: Option<Timestamp>,
    shown: i64,
    nanos: i128,
)
    requires
        call_ensures(Timestamp::new, (seconds, nanosecond, offset), r),
        r matches Some(time) && call_ensures(Timestamp::unix_timestamp, (&time,), shown)
            && call_ensures(Timestamp::unix_nanos, (&time,), nanos),
    ensures
        shown == seconds,
        nanos == seconds * 1_000_000_000 + nanosecond,
{
}

/// The time between two points is what has to be added to the first to come to the second; it is the
/// opposite of that between the second and the first. A day has 86,400 seconds.
pub proof fn time_passes_from_one_point_to_the_other(
    from: Timestamp,
    to: Timestamp,
    r: Duration,
    back: Duration,
    a: i128,
    b: i128,
    days: i64,
    long: Duration,
    seconds: i64,
    short: Duration,
)
    requires
        call_ensures(Duration::between, (from, to), r),
        call_ensures(Duration::between, (to, from), back),
        call_ensures(Timestamp::unix_nanos, (&from,), a),
        call_ensures(Timestamp::unix_nanos, (&to,), b),
        call_ensures(Duration::days, (days,), long),
        call_ensures(Duration::seconds, (seconds,), short),
        seconds == days * 86400,
    ensures
        a + r.nanoseconds == b,
        back.nanoseconds == -r.nanoseconds,
        long.nanoseconds == short.nanoseconds,
        short.nanoseconds == seconds * 1_000_000_000,
{
}

/// A time is told in the form of RFC 3339 wherever it has one, and in the plain form elsewhere.
pub proof fn times_are_told_in_the_common_form(time: &Timestamp, r: String)
    requires
        call_ensures(Timestamp::text, (time,), r),
    ensures
        ({
            let local = time.unix_seconds() + time.offset_seconds();
            match rfc3339_text(local, time.subsecond(), time.offset_seconds()) {
                Some(text) => r@ == text,
                None => r@ == date_time_text(local, time.subsecond(), time.offset_seconds()),
            }
        }),
{
}

/// The calendar starts with the first of January 1970 and goes day by day: from one day to the next
/// of the month, from its last day to the first of the next month, and from the last of December to
/// the first of January of the next year.
pub proof fn the_calendar_goes_day_by_day(date: (int, int, int), day: int)
    requires
        is_date_of(date, day),
    ensures
        is_date_of((1970, 1, 1), 0),
        ({
            let (year, month, number) = date;
            let last = if month == 2 {
                if year % 4 == 0 && (year % 100 != 0 || year % 400 == 0) {
                    29int
                } else {
                    28
                }
            } else if month == 4 || month == 6 || month == 9 || month == 11 {
                30
            } else {
                31
            };
            is_date_of(
                if number < last {
                    (year, month, number + 1)
                } else if month < 12 {
                    (year, month + 1, 1)
                } else {
                    (year + 1, 1, 1)
                },
                day + 1,
            )
        }),
{
    lemma_year_len(date.0);
    assert(days_before_month(1970, 1) == 0);
    assert(days_before_month(date.0, date.1 + 1) == days_before_month(date.0, date.1) + month_len(
        date.0,
        date.1,
    ));
    assert(days_before_month(date.0 + 1, 1) == 0);
}

} // verus!
