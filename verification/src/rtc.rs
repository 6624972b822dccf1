//! The guest's real-time clock: calendar arithmetic, and the offset from the
//! host's time at which the clock starts.
//!
//! A date is a year, a month from 1 to 12 and a day from 1, in the proleptic
//! Gregorian calendar. Days are numbered from 1970-01-01, which is day 0.
use vstd::prelude::*;
use crate::text::push_decimal;
use crate::text::push_padded;

verus! {

/// Earliest time that the DS1386 can hold: 1970-01-01 00:00:00 UTC. The
/// emulated chip counts centiseconds since the Unix epoch, so it cannot go below
/// this.
pub const RTC_MIN_UNIX: i64 = 0;

/// Latest time that the DS1386 can hold: 2039-12-31 23:59:59 UTC. The year
/// register is two BCD digits read as 1940 + n, and years before 1970 are
/// unusable, so 2039 is the last year that round-trips.
pub const RTC_MAX_UNIX: i64 = 2_208_988_799;

/// Seconds in a day.
pub const DAY_SECS: i64 = 86_400;

// ---------------------------------------------------------------------------
// The calendar
// ---------------------------------------------------------------------------

/// A year of 366 days.
pub open spec fn leap_year(y: int) -> bool {
    (y % 4 == 0 && y % 100 != 0) || y % 400 == 0
}

/// The days in a month.
pub open spec fn month_length(y: int, m: int) -> int {
    if m == 2 {
        if leap_year(y) { 29 } else { 28 }
    } else if m == 4 || m == 6 || m == 9 || m == 11 {
        30
    } else {
        31
    }
}

/// A date that the calendar has.
pub open spec fn valid_date(y: int, m: int, d: int) -> bool {
    1 <= m <= 12 && 1 <= d <= month_length(y, m)
}

/// The days from 0001-01-01 to the first day of year `y`.
pub open spec fn days_before_year(y: int) -> int {
    365 * (y - 1) + (y - 1) / 4 - (y - 1) / 100 + (y - 1) / 400
}

/// The days from the first day of year `y` to the first day of month `m`.
pub open spec fn days_before_month(y: int, m: int) -> int
    decreases m,
{
    if m <= 1 {
        0
    } else {
        days_before_month(y, m - 1) + month_length(y, m - 1)
    }
}

/// The number of a date: the days from 1970-01-01 to it.
pub open spec fn day_number(y: int, m: int, d: int) -> int {
    days_before_year(y) + days_before_month(y, m) + (d - 1) - 719_162
}

/// The date whose number is `z`.
pub open spec fn date_of(z: int) -> (int, int, int) {
    choose|date: (int, int, int)| #[trigger] is_date_of(date, z)
}

/// `date` is a date of the calendar, and its number is `z`.
pub open spec fn is_date_of(date: (int, int, int), z: int) -> bool {
    valid_date(date.0, date.1, date.2) && day_number(date.0, date.1, date.2) == z
}

/// The days before each month, as a table.
proof fn lemma_month_table(y: int)
    ensures
        ({
            let l: int = if leap_year(y) { 1 } else { 0 };
            &&& days_before_month(y, 1) == 0
            &&& days_before_month(y, 2) == 31
            &&& days_before_month(y, 3) == 59 + l
            &&& days_before_month(y, 4) == 90 + l
            &&& days_before_month(y, 5) == 120 + l
            &&& days_before_month(y, 6) == 151 + l
            &&& days_before_month(y, 7) == 181 + l
            &&& days_before_month(y, 8) == 212 + l
            &&& days_before_month(y, 9) == 243 + l
            &&& days_before_month(y, 10) == 273 + l
            &&& days_before_month(y, 11) == 304 + l
            &&& days_before_month(y, 12) == 334 + l
        }),
{
    reveal_with_fuel(days_before_month, 13);
}

/// A year is as long as its months together.
#[verifier::spinoff_prover]
proof fn lemma_year_length(y: int)
    ensures
        days_before_year(y + 1) - days_before_year(y) == if leap_year(y) { 366int } else { 365int },
{
    assert(y / 4 - (y - 1) / 4 == if y % 4 == 0 { 1int } else { 0int });
    assert(y / 100 - (y - 1) / 100 == if y % 100 == 0 { 1int } else { 0int });
    assert(y / 400 - (y - 1) / 400 == if y % 400 == 0 { 1int } else { 0int });
}

/// Later years start later, by at least 365 days for each year between.
proof fn lemma_years_ascend(a: int, b: int)
    requires
        a <= b,
    ensures
        days_before_year(b) - days_before_year(a) >= 365 * (b - a),
    decreases b - a,
{
    if a < b {
        lemma_years_ascend(a, b - 1);
        lemma_year_length(b - 1);
    }
}

/// A date stands inside its year.
proof fn lemma_within_year(y: int, m: int, d: int)
    requires
        valid_date(y, m, d),
    ensures
        days_before_year(y) <= day_number(y, m, d) + 719_162 < days_before_year(y + 1),
{
    lemma_month_table(y);
    lemma_year_length(y);
}

/// No two dates have the same number.
pub proof fn law_day_numbers_are_unique(y1: int, m1: int, d1: int, y2: int, m2: int, d2: int)
    requires
        valid_date(y1, m1, d1),
        valid_date(y2, m2, d2),
        day_number(y1, m1, d1) == day_number(y2, m2, d2),
    ensures
        y1 == y2 && m1 == m2 && d1 == d2,
{
    lemma_within_year(y1, m1, d1);
    lemma_within_year(y2, m2, d2);
    if y1 < y2 {
        lemma_years_ascend(y1 + 1, y2);
    }
    if y2 < y1 {
        lemma_years_ascend(y2 + 1, y1);
    }
    lemma_month_table(y1);
}

/// The date of a day number is the date that has it.
proof fn lemma_date_of(y: int, m: int, d: int, z: int)
    requires
        is_date_of((y, m, d), z),
    ensures
        date_of(z) == (y, m, d),
{
    let c = date_of(z);
    assert(is_date_of(c, z));
    law_day_numbers_are_unique(y, m, d, c.0, c.1, c.2);
}

/// The day after the last day of a month is the first of the next; after the
/// last day of December, the first of January of the next year. Every other day
/// is followed by the next day of its month.
pub proof fn law_days_follow_each_other(y: int, m: int, d: int)
    requires
        valid_date(y, m, d),
    ensures
        d < month_length(y, m) ==> day_number(y, m, d + 1) == day_number(y, m, d) + 1,
        d == month_length(y, m) && m < 12 ==> day_number(y, m + 1, 1) == day_number(y, m, d) + 1,
        d == month_length(y, m) && m == 12 ==> day_number(y + 1, 1, 1) == day_number(y, m, d) + 1,
        day_number(1970, 1, 1) == 0,
{
    lemma_month_table(y);
    lemma_month_table(y + 1);
    lemma_month_table(1970);
    lemma_year_length(y);
}

fn floor_div(a: i64, b: i64) -> (r: i64)
    requires
        b > 1,
    ensures
        r == a as int / b as int,
{
    proof {
        assert(-0x8000_0000_0000_0000 <= a as int / b as int <= 0x7FFF_FFFF_FFFF_FFFF)
            by (nonlinear_arith)
            requires
                -0x8000_0000_0000_0000 <= a <= 0x7FFF_FFFF_FFFF_FFFF,
                b > 1,
        ;
    }
    a.checked_div_euclid(b).unwrap()
}

fn floor_mod(a: i64, b: i64) -> (r: i64)
    requires
        b > 1,
    ensures
        r == a as int % b as int,
        0 <= r < b,
{
    a.checked_rem_euclid(b).unwrap()
}

/// Whether the year has a 29th of February.
pub fn is_leap_year(y: i64) -> (r: bool)
    ensures
        r == leap_year(y as int),
{
    (floor_mod(y, 4) == 0 && floor_mod(y, 100) != 0) || floor_mod(y, 400) == 0
}

/// The days in a month.
pub fn days_in_month(y: i64, m: i64) -> (r: i64)
    ensures
        r == month_length(y as int, m as int),
{
    if m == 2 {
        if is_leap_year(y) {
            29
        } else {
            28
        }
    } else if m == 4 || m == 6 || m == 9 || m == 11 {
        30
    } else {
        31
    }
}

/// The number of a date. Counts in eras of 400 years and in years that start in
/// March, so that the leap day is the last day of a year. The date must lie
/// where its number fits in an `i64`.
pub fn days_from_civil(y: i64, m: i64, d: i64) -> (r: i64)
    requires
        1 <= m <= 12,
        1 <= d <= 31,
        i64::MIN <= day_number(y as int, m as int, d as int) <= i64::MAX - 719_468,
        i64::MIN < y,
    ensures
        r == day_number(y as int, m as int, d as int),
{
    let ghost y0: int = y as int;
    proof {
        lemma_month_table(y0);
        assert(-26_000_000_000_000_000 <= y0 <= 26_000_000_000_000_000);
    }
    let y: i64 = if m <= 2 {
        y - 1
    } else {
        y
    };
    let era: i64 = floor_div(y, 400);
    proof {
        assert(era * 400 <= y < era * 400 + 400);
    }
    let yoe: i64 = y - era * 400;
    let mp: i64 = (m + 9) % 12;
    let doy: i64 = (153 * mp + 2) / 5 + d - 1;
    let doe: i64 = yoe * 365 + yoe / 4 - yoe / 100 + doy;
    proof {
        lemma_march_years(y as int, era as int, yoe as int);
        if m <= 2 {
            assert(mp == m + 9);
        } else {
            assert(mp == m - 3);
        }
        assert(day_number(y0, m as int, d as int) == era * 146_097 + doe - 719_468);
    }
    era * 146_097 + doe - 719_468
}

/// Year starts in terms of eras of 400 years: the year that follows year `y`
/// starts 306 days after the first of March of `y`.
proof fn lemma_march_years(y: int, era: int, yoe: int)
    requires
        y == era * 400 + yoe,
        0 <= yoe < 400,
    ensures
        days_before_year(y + 1) == era * 146_097 + yoe * 365 + yoe / 4 - yoe / 100,
        days_before_year(y) + (if leap_year(y) { 1int } else { 0int }) == era * 146_097 + yoe * 365
            + yoe / 4 - yoe / 100 - 365,
{
    assert(y / 4 == era * 100 + yoe / 4);
    assert(y / 100 == era * 4 + yoe / 100);
    assert(y / 400 == era);
    lemma_year_length(y);
}

/// The year of an era from the day of the era: the estimate that counts 365 days
/// to a year, once the leap days before it are taken out, is exact.
proof fn lemma_year_of_era(doe: int) -> (r: (int, int, int))
    requires
        0 <= doe < 146_097,
    ensures
        ({
            let (c, q, a) = r;
            let yoe = 100 * c + 4 * q + a;
            let doy = doe - (365 * yoe + yoe / 4 - yoe / 100);
            &&& 0 <= c <= 3 && 0 <= q <= 24 && 0 <= a <= 3
            &&& (doe - doe / 1460 + doe / 36_524 - doe / 146_096) / 365 == yoe
            &&& 0 <= yoe < 400
            &&& 0 <= doy <= 365
            &&& doy == 365 ==> leap_year(yoe + 1)
        }),
{
    let c: int = if doe / 36_524 > 3 { 3 } else { doe / 36_524 };
    let r = doe - 36_524 * c;
    assert(0 <= r <= 36_524);
    assert(r == 36_524 ==> c == 3);
    let q = r / 1461;
    let r2 = r - 1461 * q;
    assert(0 <= q <= 24 && 0 <= r2 <= 1460);
    let a: int = if r2 / 365 > 3 { 3 } else { r2 / 365 };
    let yoe = 100 * c + 4 * q + a;
    assert(0 <= a <= 3);
    let e: int = if 24 * c + q + r2 >= 1460 { 1 } else { 0 };
    assert(doe == 36_524 * c + 1461 * q + r2);
    assert(doe / 1460 == 25 * c + q + e);
    assert(doe / 36_524 - doe / 146_096 == c);
    assert((r2 - e) / 365 == a);
    assert((36_500 * c + 1460 * q + (r2 - e)) / 365 == 100 * c + 4 * q + (r2 - e) / 365);
    assert(yoe / 4 == 25 * c + q);
    assert(yoe / 100 == c);
    let doy = r2 - 365 * a;
    assert(doe - (365 * yoe + yoe / 4 - yoe / 100) == doy);
    if doy == 365 {
        assert(r2 == 1460 && a == 3);
        assert(q == 24 ==> c == 3);
        assert(yoe + 1 == 100 * c + 4 * (q + 1));
        if q < 24 {
            assert((yoe + 1) % 4 == 0);
            assert((yoe + 1) % 100 == 4 * (q + 1));
        } else {
            assert(yoe + 1 == 400);
        }
    }
    (c, q, a)
}

/// The month and the day from the day of a year that starts in March.
proof fn lemma_month_of_march_year(doy: int, next_is_leap: bool) -> (r: (int, int))
    requires
        0 <= doy <= 365,
        doy == 365 ==> next_is_leap,
    ensures
        ({
            let mp = (5 * doy + 2) / 153;
            let d = doy - (153 * mp + 2) / 5 + 1;
            &&& r == (mp, d)
            &&& 0 <= mp <= 11
            &&& 1 <= d <= 31
            &&& (mp == 1 || mp == 3 || mp == 6 || mp == 8) ==> d <= 30
            &&& mp == 11 ==> d <= if next_is_leap { 29int } else { 28int }
        }),
{
    let mp = (5 * doy + 2) / 153;
    let d = doy - (153 * mp + 2) / 5 + 1;
    assert(0 <= mp <= 11);
    (mp, d)
}

/// A day of a year that starts in March, as a date: the months from March to
/// December lie in the year that the era counts, January and February in the
/// next.
proof fn lemma_date_from_march_year(era: int, yoe: int, mp: int, d: int)
    requires
        0 <= yoe < 400,
        0 <= mp <= 11,
        1 <= d <= 31,
        (mp == 1 || mp == 3 || mp == 6 || mp == 8) ==> d <= 30,
        mp == 11 ==> d <= if leap_year(era * 400 + yoe + 1) { 29int } else { 28int },
    ensures
        ({
            let m = if mp < 10 { mp + 3 } else { mp - 9 };
            let y = if m <= 2 { yoe + era * 400 + 1 } else { yoe + era * 400 };
            &&& valid_date(y, m, d)
            &&& day_number(y, m, d) == era * 146_097 + (yoe * 365 + yoe / 4 - yoe / 100) + (153 * mp
                + 2) / 5 + d - 1 - 719_468
        }),
{
    lemma_march_years(era * 400 + yoe, era, yoe);
    if mp < 10 {
        lemma_month_table(yoe + era * 400);
    } else {
        lemma_month_table(yoe + era * 400 + 1);
    }
}

/// Adding whole eras does not change whether a year is a leap year.
#[verifier::spinoff_prover]
proof fn lemma_eras_keep_leap_years(era: int, n: int)
    ensures
        leap_year(era * 400 + n) == leap_year(n),
{
    assert((era * 400 + n) % 4 == n % 4);
    assert((era * 400 + n) % 100 == n % 100);
    assert((era * 400 + n) % 400 == n % 400);
}

/// The date of a day number. The day number must lie where the days since
/// 0000-03-01 fit in an `i64`.
pub fn civil_from_days(z: i64) -> (r: (i64, i64, i64))
    requires
        z <= i64::MAX - 719_468,
    ensures
        valid_date(r.0 as int, r.1 as int, r.2 as int),
        day_number(r.0 as int, r.1 as int, r.2 as int) == z,
        date_of(z as int) == (r.0 as int, r.1 as int, r.2 as int),
{
    let ghost z0 = z as int;
    let z: i64 = z + 719_468;
    let era: i64 = floor_div(z, 146_097);
    let doe: i64 = floor_mod(z, 146_097);
    let ghost (c, q, a) = lemma_year_of_era(doe as int);
    proof {
        assert(z == era * 146_097 + doe);
        lemma_eras_keep_leap_years(era as int, 100 * c + 4 * q + a + 1);
    }
    let yoe: i64 = (doe - doe / 1460 + doe / 36_524 - doe / 146_096) / 365;
    let doy: i64 = doe - (365 * yoe + yoe / 4 - yoe / 100);
    let mp: i64 = (5 * doy + 2) / 153;
    let ghost (mp0, d0) = lemma_month_of_march_year(
        doy as int,
        leap_year(era * 400 + yoe + 1),
    );
    proof {
        lemma_date_from_march_year(era as int, yoe as int, mp0, d0);
    }
    let d: i64 = doy - (153 * mp + 2) / 5 + 1;
    let m: i64 = if mp < 10 {
        mp + 3
    } else {
        mp - 9
    };
    let y: i64 = if m <= 2 {
        yoe + era * 400 + 1
    } else {
        yoe + era * 400
    };
    proof {
        lemma_date_of(y as int, m as int, d as int, z0);
    }
    (y, m, d)
}

/// Every day number is the number of the date that it gives, and every date
/// comes back from its number.
pub proof fn law_civil_round_trip(y: int, m: int, d: int)
    requires
        valid_date(y, m, d),
    ensures
        date_of(day_number(y, m, d)) == (y, m, d),
{
    lemma_date_of(y, m, d, day_number(y, m, d));
}

// ---------------------------------------------------------------------------
// The offset
// ---------------------------------------------------------------------------

/// `x`, or the bound of `lo..=hi` that it passes.
pub open spec fn clamped(x: int, lo: int, hi: int) -> int {
    if x < lo {
        lo
    } else if x > hi {
        hi
    } else {
        x
    }
}

/// `x`, held to what an `i64` can represent.
pub open spec fn saturated(x: int) -> int {
    clamped(x, i64::MIN as int, i64::MAX as int)
}

fn saturating_sum(a: i64, b: i64) -> (r: i64)
    ensures
        r == saturated(a + b),
{
    let sum: i128 = a as i128 + b as i128;
    if sum < i64::MIN as i128 {
        i64::MIN
    } else if sum > i64::MAX as i128 {
        i64::MAX
    } else {
        sum as i64
    }
}

fn saturating_product(a: i64, k: i64) -> (r: i64)
    requires
        0 <= k <= 1_000_000,
    ensures
        r == saturated(a * k),
{
    proof {
        assert(-0x8000_0000_0000_0000 * 1_000_000 <= a * k <= 0x7FFF_FFFF_FFFF_FFFF * 1_000_000)
            by (nonlinear_arith)
            requires
                -0x8000_0000_0000_0000 <= a <= 0x7FFF_FFFF_FFFF_FFFF,
                0 <= k <= 1_000_000,
        ;
    }
    let product: i128 = a as i128 * k as i128;
    if product < i64::MIN as i128 {
        i64::MIN
    } else if product > i64::MAX as i128 {
        i64::MAX
    } else {
        product as i64
    }
}

/// Where the guest's real-time clock starts, relative to the host's current
/// time. Every field is a signed amount, so `years = -18` alone sets the clock
/// back 18 years to the day.
///
/// Years and months are calendar steps, taken first; the day is clamped to the
/// target month, so one month before the 31st of March is the last of February.
/// Days, hours, minutes and seconds are then added as a plain duration.
#[derive(Debug, Clone, Copy, PartialEq, Eq, Structural)]
pub struct RtcOffset {
    pub years: i64,
    pub months: i64,
    pub days: i64,
    pub hours: i64,
    pub minutes: i64,
    pub seconds: i64,
}

impl Default for RtcOffset {
    fn default() -> (r: Self)
        ensures
            r.zero(),
    {
        RtcOffset { years: 0, months: 0, days: 0, hours: 0, minutes: 0, seconds: 0 }
    }
}

/// `+5` or `-5`.
pub open spec fn signed_decimal(v: int) -> Seq<char> {
    if v < 0 {
        seq!['-'] + crate::text::decimal((-v) as nat)
    } else {
        seq!['+'] + crate::text::decimal(v as nat)
    }
}

/// `text`, with the amount and its unit behind it unless the amount is zero, and
/// with a blank between the two unless `text` is empty.
pub open spec fn with_amount(text: Seq<char>, v: int, unit: Seq<char>) -> Seq<char> {
    if v == 0 {
        text
    } else if text.len() == 0 {
        signed_decimal(v) + unit
    } else {
        text + seq![' '] + signed_decimal(v) + unit
    }
}

impl RtcOffset {
    /// Every amount is zero.
    pub open spec fn zero(self) -> bool {
        &&& self.years == 0
        &&& self.months == 0
        &&& self.days == 0
        &&& self.hours == 0
        &&& self.minutes == 0
        &&& self.seconds == 0
    }

    /// The month in which the calendar step ends, counted from January of year 0
    /// and held to the years from 0 to 10000.
    pub open spec fn target_month(self, y: int, m: int) -> int {
        clamped(
            saturated(saturated(y * 12 + (m - 1) + saturated(self.years * 12)) + self.months),
            0,
            120_000,
        )
    }

    /// The time after the calendar step: the target month, on the same day or on
    /// the last day of that month, at the same time of day.
    pub open spec fn after_calendar_step(self, t: int) -> int {
        let (y, m, d) = date_of(t / 86_400);
        let target = self.target_month(y, m);
        let y2 = target / 12;
        let m2 = target % 12 + 1;
        let d2 = if d <= month_length(y2, m2) { d } else { month_length(y2, m2) };
        day_number(y2, m2, d2) * 86_400 + t % 86_400
    }

    /// The time `t`, shifted by this offset.
    pub open spec fn shifted(self, t: int) -> int {
        let t1 = self.after_calendar_step(t);
        let t2 = saturated(t1 + saturated(self.days * 86_400));
        let t3 = saturated(t2 + saturated(self.hours * 3_600));
        let t4 = saturated(t3 + saturated(self.minutes * 60));
        saturated(t4 + self.seconds)
    }

    /// The offset in words, as [`RtcOffset::describe`] gives it.
    pub open spec fn described(self) -> Seq<char> {
        let s1 = with_amount(seq![], self.years as int, "y"@);
        let s2 = with_amount(s1, self.months as int, "mo"@);
        let s3 = with_amount(s2, self.days as int, "d"@);
        let s4 = with_amount(s3, self.hours as int, "h"@);
        let s5 = with_amount(s4, self.minutes as int, "m"@);
        let s6 = with_amount(s5, self.seconds as int, "s"@);
        if self.zero() {
            "+0"@
        } else {
            s6
        }
    }

    /// Whether the offset changes nothing.
    pub fn is_zero(&self) -> (r: bool)
        ensures
            r == self.zero(),
    {
        self.years == 0 && self.months == 0 && self.days == 0 && self.hours == 0 && self.minutes
            == 0 && self.seconds == 0
    }

    /// Shifts a host Unix time (seconds, UTC) by this offset. Not clamped to what
    /// the clock can hold; see [`RtcOffset::apply_clamped`].
    pub fn apply(&self, unix_secs: i64) -> (r: i64)
        ensures
            r == self.shifted(unix_secs as int),
    {
        let days: i64 = floor_div(unix_secs, DAY_SECS);
        let secs_of_day: i64 = floor_mod(unix_secs, DAY_SECS);
        let (y, m, d) = civil_from_days(days);
        proof {
            lemma_year_bound(y as int, m as int, d as int);
        }

        let from_years: i64 = saturating_product(self.years, 12);
        let total: i64 = saturating_sum(saturating_sum(y * 12 + (m - 1), from_years), self.months);
        let target: i64 = if total < 0 {
            0
        } else if total > 120_000 {
            120_000
        } else {
            total
        };
        let y2: i64 = target / 12;
        let m2: i64 = target % 12 + 1;
        let last: i64 = days_in_month(y2, m2);
        let d2: i64 = if d <= last {
            d
        } else {
            last
        };
        proof {
            lemma_month_table(y2 as int);
            assert(0 <= y2 <= 10_000);
            assert(-1_000_000 <= day_number(y2 as int, m2 as int, d2 as int) <= 4_000_000);
        }

        let t1: i64 = days_from_civil(y2, m2, d2) * DAY_SECS + secs_of_day;
        let t2: i64 = saturating_sum(t1, saturating_product(self.days, 86_400));
        let t3: i64 = saturating_sum(t2, saturating_product(self.hours, 3_600));
        let t4: i64 = saturating_sum(t3, saturating_product(self.minutes, 60));
        saturating_sum(t4, self.seconds)
    }

    /// [`RtcOffset::apply`], held to what the DS1386 can represent. The bool is
    /// true when that changed the result.
    pub fn apply_clamped(&self, unix_secs: i64) -> (r: (i64, bool))
        ensures
            r.0 == clamped(
                self.shifted(unix_secs as int),
                RTC_MIN_UNIX as int,
                RTC_MAX_UNIX as int,
            ),
            RTC_MIN_UNIX <= r.0 <= RTC_MAX_UNIX,
            r.1 == !(RTC_MIN_UNIX <= self.shifted(unix_secs as int) <= RTC_MAX_UNIX),
            !r.1 ==> r.0 == self.shifted(unix_secs as int),
            r.1 ==> r.0 == 0 || r.0 == 2_208_988_799,
    {
        let t: i64 = self.apply(unix_secs);
        if t < RTC_MIN_UNIX {
            (RTC_MIN_UNIX, true)
        } else if t > RTC_MAX_UNIX {
            (RTC_MAX_UNIX, true)
        } else {
            (t, false)
        }
    }

    /// Compact form for logs, such as `-3y -4mo -2d -13h -4m -27s`; `+0` if zero.
    pub fn describe(&self) -> (r: String)
        ensures
            r@ == self.described(),
    {
        if self.is_zero() {
            return crate::text::owned("+0");
        }
        let mut out = String::new();
        proof {
            assert(out@ =~= seq![]);
        }
        push_amount(&mut out, self.years, "y");
        push_amount(&mut out, self.months, "mo");
        push_amount(&mut out, self.days, "d");
        push_amount(&mut out, self.hours, "h");
        push_amount(&mut out, self.minutes, "m");
        push_amount(&mut out, self.seconds, "s");
        out
    }
}

/// Where the number of a date fits in an `i64`, its year is far from the bounds
/// of one.
proof fn lemma_year_bound(y: int, m: int, d: int)
    requires
        valid_date(y, m, d),
        i64::MIN <= day_number(y, m, d) <= i64::MAX,
    ensures
        -26_000_000_000_000_000 <= y <= 26_000_000_000_000_000,
{
    lemma_month_table(y);
}

fn magnitude(v: i64) -> (r: u64)
    ensures
        r == if v < 0 { -v } else { v as int },
{
    if v < 0 {
        (-(v as i128)) as u64
    } else {
        v as u64
    }
}

fn push_amount(out: &mut String, v: i64, unit: &str)
    ensures
        final(out)@ == with_amount(old(out)@, v as int, unit@),
{
    if v == 0 {
        return ;
    }
    let ghost before = out@;
    let was_empty = out.as_str().is_empty();
    if !was_empty {
        out.push(' ');
    }
    if v < 0 {
        out.push('-');
    } else {
        out.push('+');
    }
    push_decimal(out, magnitude(v));
    out.append(unit);
    proof {
        assert(out@ =~= with_amount(before, v as int, unit@));
    }
}

/// A year with at least four characters, the sign counted.
pub open spec fn year_text(y: int) -> Seq<char> {
    if y < 0 {
        seq!['-'] + crate::text::padded((-y) as nat, 3, '0')
    } else {
        crate::text::padded(y as nat, 4, '0')
    }
}

/// Two digits.
pub open spec fn two_digits(v: int) -> Seq<char> {
    crate::text::padded(v as nat, 2, '0')
}

/// `YYYY-MM-DD HH:MM:SS` for a Unix time in seconds (UTC).
pub open spec fn utc_text(t: int) -> Seq<char> {
    let (y, m, d) = date_of(t / 86_400);
    let s = t % 86_400;
    year_text(y) + seq!['-'] + two_digits(m) + seq!['-'] + two_digits(d) + seq![' '] + two_digits(
        s / 3600,
    ) + seq![':'] + two_digits(s / 60 % 60) + seq![':'] + two_digits(s % 60)
}

/// `YYYY-MM-DD HH:MM:SS` for a Unix time in seconds (UTC).
pub fn format_unix_utc(unix_secs: i64) -> (r: String)
    ensures
        r@ == utc_text(unix_secs as int),
{
    let (y, m, d) = civil_from_days(floor_div(unix_secs, DAY_SECS));
    let s: i64 = floor_mod(unix_secs, DAY_SECS);
    let mut out = String::new();
    if y < 0 {
        out.push('-');
        push_padded(&mut out, magnitude(y), 3, '0');
    } else {
        push_padded(&mut out, magnitude(y), 4, '0');
    }
    proof {
        assert(out@ =~= year_text(y as int));
    }
    out.push('-');
    push_padded(&mut out, m as u64, 2, '0');
    out.push('-');
    push_padded(&mut out, d as u64, 2, '0');
    out.push(' ');
    push_padded(&mut out, (s / 3600) as u64, 2, '0');
    out.push(':');
    push_padded(&mut out, (s / 60 % 60) as u64, 2, '0');
    out.push(':');
    push_padded(&mut out, (s % 60) as u64, 2, '0');
    proof {
        assert(out@ =~= utc_text(unix_secs as int));
    }
    out
}

// ---------------------------------------------------------------------------
// Laws of the offset
// ---------------------------------------------------------------------------

/// An offset of nothing leaves the time alone, wherever its date lies in the
/// years that a calendar step can reach.
pub proof fn law_zero_offset_is_identity(off: RtcOffset, t: i64)
    requires
        off.zero(),
        ({
            let (y, m, d) = date_of(t as int / 86_400);
            0 <= y * 12 + (m - 1) <= 120_000
        }),
    ensures
        off.shifted(t as int) == t,
{
    let z = t as int / 86_400;
    lemma_every_day_has_a_date(z);
    let (y, m, d) = date_of(z);
    assert((y * 12 + (m - 1)) / 12 == y);
    assert((y * 12 + (m - 1)) % 12 == m - 1);
}

/// Every day number is the number of a date.
proof fn lemma_every_day_has_a_date(z: int)
    ensures
        is_date_of(date_of(z), z),
{
    let shifted = z + 719_468;
    let era = shifted / 146_097;
    let doe = shifted % 146_097;
    let (c, q, a) = lemma_year_of_era(doe);
    let yoe = 100 * c + 4 * q + a;
    let doy = doe - (365 * yoe + yoe / 4 - yoe / 100);
    lemma_eras_keep_leap_years(era, yoe + 1);
    let (mp, d) = lemma_month_of_march_year(doy, leap_year(era * 400 + yoe + 1));
    lemma_date_from_march_year(era, yoe, mp, d);
    let m = if mp < 10 { mp + 3 } else { mp - 9 };
    let y = if m <= 2 { yoe + era * 400 + 1 } else { yoe + era * 400 };
    assert(is_date_of((y, m, d), z));
}

/// A year is twelve months: an offset in years is the offset in twelve times as
/// many months, as long as the count of months fits in 64 bits on the way.
pub proof fn law_a_year_is_twelve_months(off: RtcOffset, months: i64, t: i64)
    requires
        i64::MIN <= off.years * 12 <= i64::MAX,
        ({
            let (y, m, d) = date_of(t as int / 86_400);
            i64::MIN <= y * 12 + (m - 1) + off.years * 12 <= i64::MAX
        }),
        months == off.years * 12 + off.months,
    ensures
        off.shifted(t as int) == (RtcOffset { years: 0, months, ..off }).shifted(t as int),
{
    let z = t as int / 86_400;
    lemma_every_day_has_a_date(z);
    let (y, m, d) = date_of(z);
    lemma_year_bound(y, m, d);
    let plain = RtcOffset { years: 0, months, ..off };
    assert(off.target_month(y, m) == plain.target_month(y, m));
}

/// A step of whole years, on a date that both years have, keeps the month, the
/// day and the time of day.
pub proof fn law_years_keep_date_and_time(off: RtcOffset, y: int, m: int, d: int, secs: int)
    requires
        valid_date(y, m, d),
        valid_date(y + off.years, m, d),
        0 <= y <= 9_999,
        0 <= y + off.years <= 9_999,
        0 <= secs < 86_400,
        off == (RtcOffset {
            years: off.years,
            months: 0,
            days: 0,
            hours: 0,
            minutes: 0,
            seconds: 0,
        }),
    ensures
        off.shifted(day_number(y, m, d) * 86_400 + secs) == day_number(y + off.years, m, d) * 86_400
            + secs,
{
    let t = day_number(y, m, d) * 86_400 + secs;
    assert(t / 86_400 == day_number(y, m, d));
    assert(t % 86_400 == secs);
    law_civil_round_trip(y, m, d);
    let y2 = y + off.years;
    let target = off.target_month(y, m);
    assert(target == y2 * 12 + (m - 1));
    assert(target / 12 == y2 && target % 12 == m - 1);
    lemma_month_table(y2);
    assert(-1_000_000 <= day_number(y2, m, d) <= 4_000_000);
}

/// The calendar, in numbers: the months have the lengths that everyone knows, February 29
/// days in the years that four divides, of the hundreds only in those that 400 divides; a year
/// is its months together, and 400 years are 146097 days whenever they start.
pub proof fn law_the_calendar(y: int, m: int, d: int)
    ensures
        month_length(y, 1) == 31 && month_length(y, 3) == 31 && month_length(y, 5) == 31,
        month_length(y, 7) == 31 && month_length(y, 8) == 31 && month_length(y, 10) == 31,
        month_length(y, 12) == 31,
        month_length(y, 4) == 30 && month_length(y, 6) == 30 && month_length(y, 9) == 30,
        month_length(y, 11) == 30,
        month_length(y, 2) == 28 || month_length(y, 2) == 29,
        month_length(y, 2) == 29 <==> y % 4 == 0 && (y % 100 == 0 ==> y % 400 == 0),
        day_number(y + 1, 1, 1) - day_number(y, 1, 1) == month_length(y, 2) + 337,
        day_number(y + 400, m, d) == day_number(y, m, d) + 146_097,
{
    lemma_month_table(y);
    lemma_month_table(y + 1);
    lemma_year_length(y);
    lemma_eras_keep_leap_years(1, y);
    lemma_same_months(y + 400, y, m);
    assert((y + 399) / 4 == (y - 1) / 4 + 100);
    assert((y + 399) / 100 == (y - 1) / 100 + 4);
    assert((y + 399) / 400 == (y - 1) / 400 + 1);
}

proof fn lemma_same_months(a: int, b: int, m: int)
    requires
        leap_year(a) == leap_year(b),
    ensures
        days_before_month(a, m) == days_before_month(b, m),
    decreases m,
{
    if m > 1 {
        lemma_same_months(a, b, m - 1);
    }
}

/// A calendar step ends in a month of the years from 0 to 10000, so that the time stays far
/// from what 64 bits cannot hold.
proof fn lemma_step_bound(off: RtcOffset, t: int)
    ensures
        -1_000_000 * 86_400 <= off.after_calendar_step(t) <= 4_000_000 * 86_400,
{
    lemma_every_day_has_a_date(t / 86_400);
    let (y, m, d) = date_of(t / 86_400);
    let target = off.target_month(y, m);
    let y2 = target / 12;
    let m2 = target % 12 + 1;
    let d2 = if d <= month_length(y2, m2) { d } else { month_length(y2, m2) };
    lemma_month_table(y2);
    assert(0 <= y2 <= 10_000);
    assert(-1_000_000 <= day_number(y2, m2, d2) < 4_000_000);
}

/// Days, hours, minutes and seconds are a plain duration behind the calendar step: an offset
/// gives the time that its years and months alone give, and 86400 seconds for each day, 3600
/// for each hour, 60 for each minute and one for each second more, negative amounts backwards,
/// as long as no sum on the way leaves 64 bits.
pub proof fn law_durations_add_up(off: RtcOffset, t: i64)
    requires
        ({
            let calendar = RtcOffset { days: 0, hours: 0, minutes: 0, seconds: 0, ..off };
            let c = calendar.shifted(t as int);
            &&& i64::MIN <= 86_400 * off.days <= i64::MAX
            &&& i64::MIN <= 3_600 * off.hours <= i64::MAX
            &&& i64::MIN <= 60 * off.minutes <= i64::MAX
            &&& i64::MIN <= c + 86_400 * off.days <= i64::MAX
            &&& i64::MIN <= c + 86_400 * off.days + 3_600 * off.hours <= i64::MAX
            &&& i64::MIN <= c + 86_400 * off.days + 3_600 * off.hours + 60 * off.minutes
                <= i64::MAX
            &&& i64::MIN <= c + 86_400 * off.days + 3_600 * off.hours + 60 * off.minutes
                + off.seconds <= i64::MAX
        }),
    ensures
        ({
            let calendar = RtcOffset { days: 0, hours: 0, minutes: 0, seconds: 0, ..off };
            off.shifted(t as int) == calendar.shifted(t as int) + 86_400 * off.days + 3_600
                * off.hours + 60 * off.minutes + off.seconds
        }),
{
    let calendar = RtcOffset { days: 0, hours: 0, minutes: 0, seconds: 0, ..off };
    let z = t as int / 86_400;
    assert(calendar.after_calendar_step(t as int) == off.after_calendar_step(t as int)) by {
        let (y, m, d) = date_of(z);
        assert(calendar.target_month(y, m) == off.target_month(y, m));
    }
    lemma_step_bound(off, t as int);
}

/// Without years and months an offset is its duration, from any time of the years from 0 to
/// 9999.
pub proof fn law_durations_alone(off: RtcOffset, t: i64)
    requires
        off.years == 0,
        off.months == 0,
        -62_167_219_200 <= t < 253_402_300_800,
        i64::MIN <= 86_400 * off.days <= i64::MAX,
        i64::MIN <= 3_600 * off.hours <= i64::MAX,
        i64::MIN <= 60 * off.minutes <= i64::MAX,
        i64::MIN <= t + 86_400 * off.days <= i64::MAX,
        i64::MIN <= t + 86_400 * off.days + 3_600 * off.hours <= i64::MAX,
        i64::MIN <= t + 86_400 * off.days + 3_600 * off.hours + 60 * off.minutes <= i64::MAX,
        i64::MIN <= t + 86_400 * off.days + 3_600 * off.hours + 60 * off.minutes + off.seconds
            <= i64::MAX,
    ensures
        off.shifted(t as int) == t + 86_400 * off.days + 3_600 * off.hours + 60 * off.minutes
            + off.seconds,
{
    let calendar = RtcOffset { days: 0, hours: 0, minutes: 0, seconds: 0, ..off };
    lemma_years_of_time(t as int);
    law_zero_offset_is_identity(calendar, t);
    law_durations_add_up(off, t);
}

/// The times of the years from 0 to 9999.
proof fn lemma_years_of_time(t: int)
    requires
        -62_167_219_200 <= t < 253_402_300_800,
    ensures
        is_date_of(date_of(t / 86_400), t / 86_400),
        0 <= date_of(t / 86_400).0 <= 9_999,
{
    let z = t / 86_400;
    assert(-719_528 <= z < 2_932_897);
    lemma_every_day_has_a_date(z);
    let (y, m, d) = date_of(z);
    lemma_within_year(y, m, d);
    if y < 0 {
        lemma_years_ascend(y + 1, 0);
    }
    if y > 9_999 {
        lemma_years_ascend(10_000, y);
    }
}

/// One day, hour, minute or second more makes the clock start that much later, whatever else
/// the offset says, as long as every amount is one that a clock could be set by.
pub proof fn law_each_amount_counts(off: RtcOffset, t: i64, days: i64, hours: i64, minutes: i64, seconds: i64)
    requires
        -1_000_000_000 <= off.days <= 1_000_000_000,
        -1_000_000_000 <= off.hours <= 1_000_000_000,
        -1_000_000_000 <= off.minutes <= 1_000_000_000,
        -1_000_000_000 <= off.seconds <= 1_000_000_000,
        -1_000_000_000 <= days <= 1_000_000_000,
        -1_000_000_000 <= hours <= 1_000_000_000,
        -1_000_000_000 <= minutes <= 1_000_000_000,
        -1_000_000_000 <= seconds <= 1_000_000_000,
    ensures
        (RtcOffset { days, ..off }).shifted(t as int) - off.shifted(t as int) == 86_400 * (days
            - off.days),
        (RtcOffset { hours, ..off }).shifted(t as int) - off.shifted(t as int) == 3_600 * (hours
            - off.hours),
        (RtcOffset { minutes, ..off }).shifted(t as int) - off.shifted(t as int) == 60 * (minutes
            - off.minutes),
        (RtcOffset { seconds, ..off }).shifted(t as int) - off.shifted(t as int) == seconds
            - off.seconds,
{
    let calendar = RtcOffset { days: 0, hours: 0, minutes: 0, seconds: 0, ..off };
    lemma_step_bound(calendar, t as int);
    law_durations_add_up(off, t);
    law_durations_add_up(RtcOffset { days, ..off }, t);
    law_durations_add_up(RtcOffset { hours, ..off }, t);
    law_durations_add_up(RtcOffset { minutes, ..off }, t);
    law_durations_add_up(RtcOffset { seconds, ..off }, t);
}

/// Years and months lead to the month that lies that many months away, never before January
/// of year 0 nor behind January of year 10000, as long as the count of months fits in 64 bits on
/// the way. The day stays, or becomes the last of that month where the month has no such day; the
/// time of day stays.
pub proof fn law_months_keep_day_and_time(
    off: RtcOffset,
    y: int,
    m: int,
    d: int,
    secs: int,
    y2: int,
    m2: int,
)
    requires
        valid_date(y, m, d),
        0 <= secs < 86_400,
        i64::MIN <= 12 * off.years <= i64::MAX,
        i64::MIN <= 12 * (y + off.years) + (m - 1) <= i64::MAX,
        i64::MIN <= 12 * (y + off.years) + (m - 1) + off.months <= i64::MAX,
        off.days == 0 && off.hours == 0 && off.minutes == 0 && off.seconds == 0,
        1 <= m2 <= 12,
        ({
            let away = 12 * (y + off.years) + (m - 1) + off.months;
            &&& 0 <= away <= 120_000 ==> 12 * y2 + (m2 - 1) == away
            &&& away < 0 ==> y2 == 0 && m2 == 1
            &&& away > 120_000 ==> y2 == 10_000 && m2 == 1
        }),
    ensures
        ({
            let r = off.shifted(day_number(y, m, d) * 86_400 + secs);
            &&& r % 86_400 == secs
            &&& date_of(r / 86_400) == (
                y2,
                m2,
                if d <= month_length(y2, m2) {
                    d
                } else {
                    month_length(y2, m2)
                },
            )
        }),
{
    let t = day_number(y, m, d) * 86_400 + secs;
    assert(t / 86_400 == day_number(y, m, d));
    assert(t % 86_400 == secs);
    law_civil_round_trip(y, m, d);
    let target = off.target_month(y, m);
    assert(target == 12 * y2 + (m2 - 1));
    assert(target / 12 == y2 && target % 12 == m2 - 1);
    let d2 = if d <= month_length(y2, m2) { d } else { month_length(y2, m2) };
    lemma_step_bound(off, t);
    law_civil_round_trip(y2, m2, d2);
    let r = off.shifted(t);
    assert(r == day_number(y2, m2, d2) * 86_400 + secs);
    assert(r / 86_400 == day_number(y2, m2, d2));
}

/// What the clock can hold: from the first second of 1970 to the last of 2039. A time inside
/// stays, and one outside becomes the nearer end.
pub proof fn law_what_the_clock_holds(x: int)
    ensures
        RTC_MIN_UNIX == 86_400 * day_number(1970, 1, 1),
        RTC_MAX_UNIX == 86_400 * day_number(2040, 1, 1) - 1,
        ({
            let c = clamped(x, RTC_MIN_UNIX as int, RTC_MAX_UNIX as int);
            &&& 0 <= c <= 2_208_988_799
            &&& 0 <= x <= 2_208_988_799 ==> c == x
            &&& x < 0 ==> c == 0
            &&& x > 2_208_988_799 ==> c == 2_208_988_799
        }),
{
    lemma_month_table(1970);
    lemma_month_table(2040);
}

/// An amount is written with its sign, its value and its unit; an offset of one amount is
/// that amount, one of more lists them from years to seconds with blanks between them, and
/// amounts of zero are left out.
pub proof fn law_how_offsets_are_written(off: RtcOffset, v: i64)
    requires
        v != 0,
    ensures
        ({
            let sign = if v < 0 {
                '-'
            } else {
                '+'
            };
            let size = (if v < 0 {
                -v
            } else {
                v as int
            }) as nat;
            let amount = seq![sign] + crate::text::decimal(size);
            let none = RtcOffset { years: 0, months: 0, days: 0, hours: 0, minutes: 0, seconds: 0 };
            &&& none.described() == "+0"@
            &&& (RtcOffset { years: v, ..none }).described() == amount + "y"@
            &&& (RtcOffset { months: v, ..none }).described() == amount + "mo"@
            &&& (RtcOffset { days: v, ..none }).described() == amount + "d"@
            &&& (RtcOffset { hours: v, ..none }).described() == amount + "h"@
            &&& (RtcOffset { minutes: v, ..none }).described() == amount + "m"@
            &&& (RtcOffset { seconds: v, ..none }).described() == amount + "s"@
            &&& ({
                let rest = RtcOffset { seconds: 0, ..off };
                !rest.zero() ==> (RtcOffset { seconds: v, ..off }).described() == rest.described()
                    + seq![' '] + amount + "s"@
            })
            &&& ({
                let rest = RtcOffset { minutes: 0, seconds: 0, ..off };
                !rest.zero() ==> (RtcOffset { minutes: v, seconds: 0, ..off }).described()
                    == rest.described() + seq![' '] + amount + "m"@
            })
            &&& ({
                let rest = RtcOffset { hours: 0, minutes: 0, seconds: 0, ..off };
                !rest.zero() ==> (RtcOffset { hours: v, minutes: 0, seconds: 0, ..off }).described()
                    == rest.described() + seq![' '] + amount + "h"@
            })
            &&& ({
                let years = RtcOffset { years: off.years, ..none };
                let months = RtcOffset { years: off.years, months: v, ..none };
                off.years != 0 ==> months.described() == years.described() + seq![' '] + amount
                    + "mo"@
            })
            &&& ({
                let rest = RtcOffset { years: off.years, months: off.months, ..none };
                !rest.zero() ==> (RtcOffset { days: v, ..rest }).described() == rest.described()
                    + seq![' '] + amount + "d"@
            })
        }),
{
    reveal_strlit("y");
    reveal_strlit("mo");
    reveal_strlit("d");
    reveal_strlit("h");
    reveal_strlit("m");
}

/// How a time is written: four digits of the year, two each of the month, the day, the hour,
/// the minute and the second, with `-`, a blank and `:` between them.
pub proof fn law_how_times_are_written(
    y: int,
    m: int,
    d: int,
    hour: int,
    minute: int,
    second: int,
)
    requires
        valid_date(y, m, d),
        0 <= y <= 9_999,
        0 <= hour < 24,
        0 <= minute < 60,
        0 <= second < 60,
    ensures
        ({
            let text = utc_text(
                86_400 * day_number(y, m, d) + 3_600 * hour + 60 * minute + second,
            );
            &&& text.len() == 19
            &&& text.subrange(0, 4) == crate::text::padded(y as nat, 4, '0')
            &&& text[4] == '-'
            &&& text.subrange(5, 7) == crate::text::padded(m as nat, 2, '0')
            &&& text[7] == '-'
            &&& text.subrange(8, 10) == crate::text::padded(d as nat, 2, '0')
            &&& text[10] == ' '
            &&& text.subrange(11, 13) == crate::text::padded(hour as nat, 2, '0')
            &&& text[13] == ':'
            &&& text.subrange(14, 16) == crate::text::padded(minute as nat, 2, '0')
            &&& text[16] == ':'
            &&& text.subrange(17, 19) == crate::text::padded(second as nat, 2, '0')
        }),
{
    let s = 3_600 * hour + 60 * minute + second;
    let t = 86_400 * day_number(y, m, d) + s;
    assert(0 <= s < 86_400);
    assert(t / 86_400 == day_number(y, m, d));
    assert(t % 86_400 == s);
    assert(s / 3600 == hour);
    assert(s / 60 == 60 * hour + minute);
    assert(s / 60 % 60 == minute);
    assert(s % 60 == second);
    law_civil_round_trip(y, m, d);
    lemma_digits_of(y as nat, 4);
    lemma_digits_of(m as nat, 2);
    lemma_digits_of(d as nat, 2);
    lemma_digits_of(hour as nat, 2);
    lemma_digits_of(minute as nat, 2);
    lemma_digits_of(second as nat, 2);
    let text = utc_text(t);
    assert(text.subrange(0, 4) =~= crate::text::padded(y as nat, 4, '0'));
    assert(text.subrange(5, 7) =~= crate::text::padded(m as nat, 2, '0'));
    assert(text.subrange(8, 10) =~= crate::text::padded(d as nat, 2, '0'));
    assert(text.subrange(11, 13) =~= crate::text::padded(hour as nat, 2, '0'));
    assert(text.subrange(14, 16) =~= crate::text::padded(minute as nat, 2, '0'));
    assert(text.subrange(17, 19) =~= crate::text::padded(second as nat, 2, '0'));
}

/// A number of two digits, or of four, fits its width.
proof fn lemma_digits_of(n: nat, width: nat)
    requires
        (width == 2 && n < 100) || (width == 4 && n < 10_000),
    ensures
        crate::text::padded(n, width, '0').len() == width,
{
    reveal_with_fuel(crate::text::decimal, 5);
}

/// A year is a leap year exactly if four divides it and a hundred does not, or 400 does.
pub proof fn law_leap_years(y: int)
    ensures
        y % 4 != 0 ==> !leap_year(y),
        y % 4 == 0 && y % 100 != 0 ==> leap_year(y),
        y % 100 == 0 && y % 400 != 0 ==> !leap_year(y),
        y % 400 == 0 ==> leap_year(y),
{
}

/// Amounts that no clock could be set by do not wrap round: what 64 bits cannot hold becomes
/// the nearer bound, on the way and at the end.
pub proof fn law_huge_offsets_do_not_wrap(x: int, off: RtcOffset, t: i64)
    ensures
        i64::MIN <= x <= i64::MAX ==> saturated(x) == x,
        x < i64::MIN ==> saturated(x) == i64::MIN,
        x > i64::MAX ==> saturated(x) == i64::MAX,
        i64::MIN <= off.shifted(t as int) <= i64::MAX,
        off.days > 200_000_000_000_000 && off.hours >= 0 && off.minutes >= 0 && off.seconds >= 0
            && (RtcOffset { days: 0, hours: 0, minutes: 0, seconds: 0, ..off }).shifted(t as int)
            >= 0 ==> off.shifted(t as int) == i64::MAX,
        off.days < -200_000_000_000_000 && off.hours <= 0 && off.minutes <= 0 && off.seconds <= 0
            && (RtcOffset { days: 0, hours: 0, minutes: 0, seconds: 0, ..off }).shifted(t as int)
            <= 0 ==> off.shifted(t as int) == i64::MIN,
{
    let calendar = RtcOffset { days: 0, hours: 0, minutes: 0, seconds: 0, ..off };
    let (y, m, d) = date_of(t as int / 86_400);
    assert(calendar.target_month(y, m) == off.target_month(y, m));
    assert(calendar.after_calendar_step(t as int) == off.after_calendar_step(t as int));
    lemma_step_bound(off, t as int);
}

/// A year before year 0 is written with its sign and at least three digits.
pub proof fn law_how_early_years_are_written(y: int)
    ensures
        y < 0 ==> year_text(y) == seq!['-'] + crate::text::padded((-y) as nat, 3, '0'),
        y >= 0 ==> year_text(y) == crate::text::padded(y as nat, 4, '0'),
{
}

} // verus!
