//! The start epoch of a trajectory search, from the calendar date that the
//! search configuration gives. An epoch is held as the count of TAI
//! microseconds since 1970-01-01 00:00:00 TAI, the representation of the
//! ephemeris library's instants.
use vstd::prelude::*;

verus! {

/// Why a calendar date gives no epoch.
#[derive(Clone, Copy, Debug, PartialEq, Eq, Structural)]
pub enum DateError {
    /// The month is not in 1..=12; it carries the month.
    InvalidMonth(i32),
    /// The day is not a day of the month; it carries the day.
    InvalidDay(i32),
    /// The date is too far from 1970 for a 64-bit microsecond count; it
    /// carries the year.
    YearOutOfRange(i32),
    /// Any other refusal of the ephemeris library (which, for a date at
    /// midnight, it does not give).
    Other,
}

/// Proleptic Gregorian leap year.
pub open spec fn is_leap_year(year: int) -> bool {
    (year % 4 == 0 && year % 100 != 0) || year % 400 == 0
}

/// The number of days of a month (1..=12) of a year.
pub open spec fn days_in_month(year: int, month: int) -> int {
    if month == 2 {
        if is_leap_year(year) { 29 } else { 28 }
    } else if month == 4 || month == 6 || month == 9 || month == 11 {
        30
    } else {
        31
    }
}

/// The month lies in 1..=12.
pub open spec fn valid_month(month: int) -> bool {
    1 <= month <= 12
}

/// The date names a day of the proleptic Gregorian calendar.
pub open spec fn valid_date(year: int, month: int, day: int) -> bool {
    valid_month(month) && 1 <= day <= days_in_month(year, month)
}

/// Years this far from year 0 or nearer are always representable.
pub open spec fn year_in_safe_range(year: int) -> bool {
    -200_000 <= year <= 200_000
}

/// The integer fits in a signed 64-bit count.
pub open spec fn fits_i64(x: int) -> bool {
    i64::MIN <= x <= i64::MAX
}

/// The midnight of a valid date is representable: both its UTC-basis
/// microsecond count and that count with TAI - UTC added fit in 64 bits.
pub open spec fn representable(year: i32, month: i32, day: i32) -> bool {
    let utc = unix_day(year as int, month as int, day as int) * day_us();
    fits_i64(utc) && fits_i64(utc + tai_minus_utc_at_midnight_us(year, month, day))
}

/// A refusal, as a result.
pub open spec fn refused(e: DateError) -> Result<i64, DateError> {
    Err(e)
}

/// Microseconds in a day of 86,400 seconds.
pub open spec fn day_us() -> int {
    86_400_000_000
}

/// Days from 0000-01-01 to 01-01 of `year` in the proleptic Gregorian
/// calendar (year 0 is 1 BC and a leap year); negative before year 0.
pub open spec fn days_before_year(year: int) -> int {
    365 * year + (year + 3) / 4 - (year + 99) / 100 + (year + 399) / 400
}

/// Days from 01-01 to the first of `month` (1..=12) in `year`.
pub open spec fn days_before_month(year: int, month: int) -> int {
    let common: int = if month == 1 {
        0
    } else if month == 2 {
        31
    } else if month == 3 {
        59
    } else if month == 4 {
        90
    } else if month == 5 {
        120
    } else if month == 6 {
        151
    } else if month == 7 {
        181
    } else if month == 8 {
        212
    } else if month == 9 {
        243
    } else if month == 10 {
        273
    } else if month == 11 {
        304
    } else {
        334
    };
    if month > 2 && is_leap_year(year) { common + 1 } else { common }
}

/// The number of the day of a calendar date counted from 1970-01-01 (day 0),
/// negative before it.
pub open spec fn unix_day(year: int, month: int, day: int) -> int {
    days_before_year(year) + days_before_month(year, month) + day - 1 - days_before_year(1970)
}

/// Day number of 1961-01-01: before it, TAI - UTC is taken as zero.
pub open spec fn first_utc_offset_day() -> int {
    unix_day(1961, 1, 1)
}

/// Day number of 2017-01-01, the last leap second so far: from it on,
/// TAI - UTC is 37 s.
pub open spec fn last_leap_second_day() -> int {
    unix_day(2017, 1, 1)
}

/// TAI - UTC, in microseconds, at 00:00:00 UTC of the given date, as the
/// ephemeris library counts it (leap seconds, and the drifting pre-1972
/// offsets).
pub uninterp spec fn tai_minus_utc_at_midnight_us(year: i32, month: i32, day: i32) -> i64;

/// Calls `satkit::Instant::from_date` and hands back the instant's raw count
/// (`Instant::raw`, TAI microseconds since 1970-01-01 00:00:00 TAI). Claimed
/// of it, as its source shows: a month outside 1..=12 is refused with the
/// month; then a day outside the month with the day; a valid date gives the
/// midnight's day number times a day of microseconds plus TAI - UTC at that
/// midnight, unless that overflows 64 bits, which is refused with the year
/// and does not happen within 200,000 years of year 0; no other error
/// arises. The refusal with the year comes exactly when the midnight's
/// UTC-basis count, or that count plus TAI - UTC, leaves 64 bits (checked
/// arithmetic). TAI - UTC is 37 s from 2017-01-01 on and zero before 1961-01-01;
/// between them it is not stated beyond its name.
#[verifier::external_body]
fn instant_from_date(year: i32, month: i32, day: i32) -> (res: Result<i64, DateError>)
    ensures
        !valid_month(month as int) ==> res == refused(DateError::InvalidMonth(month)),
        valid_month(month as int) && !valid_date(year as int, month as int, day as int) ==> res == refused(DateError::InvalidDay(day)),
        valid_date(year as int, month as int, day as int) ==> res is Ok || res == refused(DateError::YearOutOfRange(year)),
        valid_date(year as int, month as int, day as int) && year_in_safe_range(year as int) ==> res is Ok,
        valid_date(year as int, month as int, day as int) && representable(year, month, day) ==> res is Ok,
        res == refused(DateError::YearOutOfRange(year)) ==> valid_date(year as int, month as int, day as int) && !representable(year, month, day),
        res matches Ok(e) ==> e == unix_day(year as int, month as int, day as int) * day_us() + tai_minus_utc_at_midnight_us(year, month, day),
        res is Ok && unix_day(year as int, month as int, day as int) >= last_leap_second_day() ==> tai_minus_utc_at_midnight_us(year, month, day) == 37_000_000,
        res is Ok && unix_day(year as int, month as int, day as int) < first_utc_offset_day() ==> tai_minus_utc_at_midnight_us(year, month, day) == 0,
{
    match satkit::Instant::from_date(year, month, day) {
        Ok(t) => Ok(t.raw),
        Err(satkit::InstantError::InvalidMonth(m)) => Err(DateError::InvalidMonth(m)),
        Err(satkit::InstantError::InvalidDay(d)) => Err(DateError::InvalidDay(d)),
        Err(satkit::InstantError::InvalidYear(y)) => Err(DateError::YearOutOfRange(y)),
        Err(_) => Err(DateError::Other),
    }
}

/// `epoch` is the TAI microsecond count of 00:00:00 UTC on the valid date
/// `date`, and TAI - UTC there is as the ephemeris library's tables give it:
/// 37 s from 2017 on, zero before 1961.
pub open spec fn is_start_epoch(date: (i32, i32, i32), epoch: int) -> bool {
    let (y, m, d) = date;
    let offset = tai_minus_utc_at_midnight_us(y, m, d);
    let n = unix_day(y as int, m as int, d as int);
    &&& valid_date(y as int, m as int, d as int)
    &&& epoch == n * day_us() + offset
    &&& n >= last_leap_second_day() ==> offset == 37_000_000
    &&& n < first_utc_offset_day() ==> offset == 0
}

/// The epoch at which a search starts: 00:00:00 UTC of the configured
/// `(year, month, day)`, as a TAI microsecond count. The month is checked
/// first, then the day; a valid date gives its epoch exactly when its
/// midnight is representable in 64 bits (always within 200,000 years of year
/// 0), and is refused with its year otherwise.
pub fn search_start_epoch(date: (i32, i32, i32)) -> (res: Result<i64, DateError>)
    ensures
        !valid_month(date.1 as int) ==> res == refused(DateError::InvalidMonth(date.1)),
        valid_month(date.1 as int) && !valid_date(date.0 as int, date.1 as int, date.2 as int) ==> res == refused(DateError::InvalidDay(date.2)),
        valid_date(date.0 as int, date.1 as int, date.2 as int) ==> res is Ok || res == refused(DateError::YearOutOfRange(date.0)),
        valid_date(date.0 as int, date.1 as int, date.2 as int) && year_in_safe_range(date.0 as int) ==> res is Ok,
        valid_date(date.0 as int, date.1 as int, date.2 as int) && representable(date.0, date.1, date.2) ==> res is Ok,
        res == refused(DateError::YearOutOfRange(date.0)) ==> valid_date(date.0 as int, date.1 as int, date.2 as int) && !representable(date.0, date.1, date.2),
        res matches Ok(e) ==> is_start_epoch(date, e as int),
{
    let (year, month, day) = date;
    instant_from_date(year, month, day)
}

/// The day after a valid date: the next day of the month, else the first
/// of the next month, else 01-01 of the next year.
pub open spec fn next_date(year: int, month: int, day: int) -> (int, int, int) {
    if day < days_in_month(year, month) {
        (year, month, day + 1)
    } else if month < 12 {
        (year, month + 1, 1)
    } else {
        (year + 1, 1, 1)
    }
}

/// `(y1, m1, d1)` comes before `(y2, m2, d2)` in the calendar.
pub open spec fn date_before(y1: int, m1: int, d1: int, y2: int, m2: int, d2: int) -> bool {
    y1 < y2 || (y1 == y2 && m1 < m2) || (y1 == y2 && m1 == m2 && d1 < d2)
}

/// `(q + 1) / k - q / k` is 1 when `k` divides `q + 1`, else 0.
proof fn lemma_floor_step(q: int, k: int)
    requires
        k > 0,
    ensures
        (q + 1) / k - q / k == if (q + 1) % k == 0 { 1int } else { 0int },
{
    assert(q == k * (q / k) + q % k && 0 <= q % k < k) by (nonlinear_arith)
        requires k > 0;
    assert(q + 1 == k * ((q + 1) / k) + (q + 1) % k && 0 <= (q + 1) % k < k) by (nonlinear_arith)
        requires k > 0;
    if (q + 1) % k == 0 {
        assert((q + 1) / k - q / k == 1) by (nonlinear_arith)
            requires
                k > 0,
                q == k * (q / k) + q % k,
                0 <= q % k < k,
                q + 1 == k * ((q + 1) / k),
        ;
    } else {
        assert((q + 1) / k - q / k == 0) by (nonlinear_arith)
            requires
                k > 0,
                q == k * (q / k) + q % k,
                0 <= q % k < k,
                q + 1 == k * ((q + 1) / k) + (q + 1) % k,
                0 < (q + 1) % k < k,
        ;
    }
}

/// A year has 366 days if it is a leap year and 365 otherwise: the day
/// number of 01-01 advances by that much from one year to the next.
pub proof fn lemma_year_length(year: int)
    ensures
        unix_day(year + 1, 1, 1) - unix_day(year, 1, 1) == if is_leap_year(year) { 366int } else { 365int },
{
    lemma_floor_step(year + 3, 4);
    lemma_floor_step(year + 99, 100);
    lemma_floor_step(year + 399, 400);
    assert((year + 4) % 4 == year % 4) by (nonlinear_arith);
    assert((year + 100) % 100 == year % 100) by (nonlinear_arith);
    assert((year + 400) % 400 == year % 400) by (nonlinear_arith);
    assert(year % 100 == 0 ==> year % 4 == 0) by (nonlinear_arith);
    assert(year % 400 == 0 ==> year % 100 == 0) by (nonlinear_arith);
}

/// The day after a valid date is a valid date, one day number later.
pub proof fn lemma_next_date_is_one_day_later(year: int, month: int, day: int)
    requires
        valid_date(year, month, day),
    ensures
        ({
            let (y, m, d) = next_date(year, month, day);
            valid_date(y, m, d) && unix_day(y, m, d) == unix_day(year, month, day) + 1
        }),
{
    if day == days_in_month(year, month) && month == 12 {
        lemma_year_length(year);
    }
}

/// 01-01 of a later year has a later day number: at least 365 more per year.
proof fn lemma_new_years_increase(y1: int, y2: int)
    requires
        y1 <= y2,
    ensures
        unix_day(y2, 1, 1) - unix_day(y1, 1, 1) >= 365 * (y2 - y1),
    decreases y2 - y1,
{
    if y1 < y2 {
        lemma_new_years_increase(y1, y2 - 1);
        lemma_year_length(y2 - 1);
    }
}

/// Day numbers follow the calendar: of two valid dates, the earlier one has
/// the smaller day number.
pub proof fn lemma_day_numbers_follow_dates(y1: int, m1: int, d1: int, y2: int, m2: int, d2: int)
    requires
        valid_date(y1, m1, d1),
        valid_date(y2, m2, d2),
        date_before(y1, m1, d1, y2, m2, d2),
    ensures
        unix_day(y1, m1, d1) < unix_day(y2, m2, d2),
{
    if y1 < y2 {
        lemma_year_length(y1);
        lemma_new_years_increase(y1 + 1, y2);
        assert(unix_day(y1, m1, d1) <= unix_day(y1, 12, 31));
        assert(unix_day(y1, 12, 31) < unix_day(y1 + 1, 1, 1));
        assert(unix_day(y2, 1, 1) <= unix_day(y2, m2, d2));
    }
}

/// From 2017-01-01 on, and before 1961-01-01, start epochs are whole days
/// apart: their difference is the number of days between the dates times
/// 86,400 s.
pub proof fn lemma_epochs_whole_days_apart(a: (i32, i32, i32), ea: int, b: (i32, i32, i32), eb: int)
    requires
        is_start_epoch(a, ea),
        is_start_epoch(b, eb),
        (unix_day(a.0 as int, a.1 as int, a.2 as int) >= last_leap_second_day()
            && unix_day(b.0 as int, b.1 as int, b.2 as int) >= last_leap_second_day())
        || (unix_day(a.0 as int, a.1 as int, a.2 as int) < first_utc_offset_day()
            && unix_day(b.0 as int, b.1 as int, b.2 as int) < first_utc_offset_day()),
    ensures
        eb - ea == (unix_day(b.0 as int, b.1 as int, b.2 as int) - unix_day(a.0 as int, a.1 as int, a.2 as int)) * day_us(),
{
    let na = unix_day(a.0 as int, a.1 as int, a.2 as int);
    let nb = unix_day(b.0 as int, b.1 as int, b.2 as int);
    assert(nb * day_us() - na * day_us() == (nb - na) * day_us()) by (nonlinear_arith);
}

/// From 2017-01-01 on, the start epoch of the next day is exactly one day
/// (86,400 s) after that of a date; and a later date always has a later
/// start epoch there.
pub proof fn lemma_epochs_follow_dates_since_2017(a: (i32, i32, i32), ea: int, b: (i32, i32, i32), eb: int)
    requires
        is_start_epoch(a, ea),
        is_start_epoch(b, eb),
        unix_day(a.0 as int, a.1 as int, a.2 as int) >= last_leap_second_day(),
    ensures
        next_date(a.0 as int, a.1 as int, a.2 as int) == (b.0 as int, b.1 as int, b.2 as int) ==> eb - ea == day_us(),
        date_before(a.0 as int, a.1 as int, a.2 as int, b.0 as int, b.1 as int, b.2 as int) ==> ea < eb,
{
    let (ya, ma, da) = (a.0 as int, a.1 as int, a.2 as int);
    let (yb, mb, db) = (b.0 as int, b.1 as int, b.2 as int);
    if next_date(ya, ma, da) == (yb, mb, db) {
        lemma_next_date_is_one_day_later(ya, ma, da);
        lemma_epochs_whole_days_apart(a, ea, b, eb);
    }
    if date_before(ya, ma, da, yb, mb, db) {
        lemma_day_numbers_follow_dates(ya, ma, da, yb, mb, db);
        lemma_epochs_whole_days_apart(a, ea, b, eb);
        let (na, nb) = (unix_day(ya, ma, da), unix_day(yb, mb, db));
        assert((nb - na) * day_us() > 0) by (nonlinear_arith)
            requires nb - na > 0, day_us() > 0;
    }
}

} // verus!
