//! Dates, times and date-times without a time zone.

use vstd::arithmetic::div_mod::{
    lemma_fundamental_div_mod, lemma_fundamental_div_mod_converse, lemma_mod_bound,
};
use vstd::prelude::*;

use crate::calendar::{
    civil_before, civil_cmp, civil_from_days, cycles_of, day_bound, day_of_year, days_since_1970,
    days_since_anchor, is_leap, lemma_civil_from_days, lemma_days_bound, lemma_days_to_civil,
    lemma_leap_decomposed, lemma_leap_shift, march_days_before, march_month_of, month_length,
    valid_ymd, weekday_of, DAYS_IN_100Y, DAYS_IN_400Y, DAYS_IN_4Y, EPOCH_DIFFERENCE, SECONDS_IN_DAY,
};
use crate::cycles::split_cycles;
use crate::instant::{Duration, Instant};
use crate::units::{Month, Weekday, Year, YEAR_LIMIT};

verus! {

/// The largest distance from year zero that the validated date constructors
/// accept.
pub const MAX_YEAR: i64 = 100_000_000_000_000;

/// The largest distance from **1st March, 2000**, in days, that a date can be
/// computed from.
pub const MAX_DAYS: i64 = 100_000_000_000_000_000;

/// The one way in which a field can be wrong.
#[derive(Clone, Copy, Debug, PartialEq, Eq, Structural)]
pub enum Error {
    /// A field's value lies outside the range its unit allows.
    OutOfRange,
}

/// The outcome of a validated constructor.
pub type Result<T> = core::result::Result<T, Error>;

/// A year, month and day that nothing has checked: the 74th of March can be
/// written down as one.
#[derive(Clone, Copy, Debug, PartialEq, Eq, Structural, PartialOrd, Ord)]
struct YMD {
    year: i64,
    month: Month,
    day: i8,
}

impl YMD {
    spec fn view(&self) -> (int, int, int) {
        (self.year as int, self.month.number(), self.day as int)
    }

    /// Calculates the number of days from **1st January, 1970** to this
    /// day, or fails if the day does not exist.
    fn to_days_since_epoch(&self) -> (r: Result<i64>)
        requires
            -YEAR_LIMIT <= self.year <= YEAR_LIMIT,
        ensures
            r is Ok <==> valid_ymd(self.view().0, self.view().1, self.view().2),
            r is Ok ==> r->Ok_0 == days_since_1970(self.view().0, self.view().1, self.view().2),
            r is Ok ==> -day_bound(self.year as int) <= r->Ok_0 <= day_bound(self.year as int),
            r is Err ==> r->Err_0 == Error::OutOfRange,
    {
        let years: i64 = self.year - 2000;
        let (leap_days_elapsed, is_leap_year) = Year(self.year).leap_year_calculations();
        if !self.is_valid(is_leap_year) {
            return Err(Error::OutOfRange);
        }
        let leap_day: i64 = if is_leap_year && self.month.number_from_one() >= 3 {
            1
        } else {
            0
        };
        let days: i64 = years * 365 + 10958 + leap_days_elapsed
            + self.month.days_before_start() as i64 + leap_day + (self.day - 1) as i64;
        proof {
            lemma_days_bound(self.view().0, self.view().1, self.view().2);
        }
        Ok(days)
    }

    /// Whether the day lies within the month, in a leap year or not.
    fn is_valid(&self, is_leap_year: bool) -> (r: bool)
        ensures
            r == (1 <= self.day <= month_length(self.month.number(), is_leap_year)),
    {
        self.day >= 1 && self.day <= self.month.days_in_month(is_leap_year)
    }
}

/// A **local date** is a day-long span on the timeline, *without a time
/// zone*.
#[derive(Clone, Copy, Ord)]
pub struct Date {
    ymd: YMD,
    yearday: i16,
    weekday: Weekday,
}

impl Date {
    /// The year, month (January being 1) and day of this date.
    pub closed spec fn view(&self) -> (int, int, int) {
        self.ymd.view()
    }

    /// A date is a real day of the calendar, and its day of the year and
    /// weekday are those of that day. Every constructor establishes this.
    pub closed spec fn wf(&self) -> bool {
        &&& valid_ymd(self@.0, self@.1, self@.2)
        &&& -YEAR_LIMIT <= self@.0 <= YEAR_LIMIT
        &&& self.yearday == day_of_year(self@.0, self@.1, self@.2)
        &&& self.weekday.index() == weekday_of(days_since_anchor(self@.0, self@.1, self@.2))
    }

    /// The number of days from **1st March, 2000** to this date.
    pub open spec fn days_spec(&self) -> int {
        days_since_anchor(self@.0, self@.1, self@.2)
    }

    /// A well-formed date names a real day, within the years the leap-year
    /// arithmetic takes.
    pub proof fn lemma_valid(&self)
        requires
            self.wf(),
        ensures
            valid_ymd(self@.0, self@.1, self@.2),
            -YEAR_LIMIT <= self@.0 <= YEAR_LIMIT,
    {
    }
}

impl Date {
    /// Creates a date from its year, month and day, or fails with
    /// `OutOfRange` if the month has no such day in that year.
    pub fn ymd(year: i64, month: Month, day: i8) -> (r: Result<Date>)
        requires
            -MAX_YEAR <= year <= MAX_YEAR,
        ensures
            r is Ok <==> valid_ymd(year as int, month.number(), day as int),
            r is Ok ==> r->Ok_0.wf() && r->Ok_0@ == (year as int, month.number(), day as int),
            r is Err ==> r->Err_0 == Error::OutOfRange,
    {
        let ymd = YMD { year: year, month: month, day: day };
        match ymd.to_days_since_epoch() {
            Ok(days) => {
                proof {
                    lemma_days_to_civil(year as int, month.number(), day as int);
                }
                Ok(Date::from_days_since_epoch(days - EPOCH_DIFFERENCE))
            },
            Err(e) => Err(e),
        }
    }

    /// Creates a date from its year and the day of that year, the 1st of
    /// January being day 1. Day 0 is accepted too, and is the last day of the
    /// year before; days from 367 on, and below 0, fail with `OutOfRange`.
    pub fn yd(year: i64, yearday: i64) -> (r: Result<Date>)
        requires
            -MAX_YEAR <= year <= MAX_YEAR,
        ensures
            r is Ok <==> 0 <= yearday < 367,
            r is Ok ==> r->Ok_0.wf() && r->Ok_0@ == civil_from_days(
                days_since_anchor(year as int, 1, 1) + yearday - 1,
            ),
            r is Err ==> r->Err_0 == Error::OutOfRange,
    {
        if 0 <= yearday && yearday < 367 {
            let jan_1 = YMD { year: year, month: Month::January, day: 1 };
            match jan_1.to_days_since_epoch() {
                Ok(days) => Ok(Date::from_days_since_epoch(days + yearday - 1 - EPOCH_DIFFERENCE)),
                Err(e) => Err(e),
            }
        } else {
            Err(Error::OutOfRange)
        }
    }

    /// Creates a date from an ISO-8601 week date: the year, the week of that
    /// year (week 1 being the one that holds the 4th of January), and the
    /// weekday. Early in week 1 and late in week 52 or 53 the date may fall in
    /// the year before or after.
    #[verifier::rlimit(50)]
    pub fn ywd(year: i64, week: i64, weekday: Weekday) -> (r: Result<Date>)
        requires
            -MAX_YEAR < year < MAX_YEAR,
            -MAX_WEEK <= week <= MAX_WEEK,
        ensures
            r is Ok <==> 0 <= iso_week_target(year as int, week as int, weekday).1 < 367,
            r is Ok ==> r->Ok_0.wf() && r->Ok_0@ == civil_from_days(
                days_since_anchor(iso_week_target(year as int, week as int, weekday).0, 1, 1)
                    + iso_week_target(year as int, week as int, weekday).1 - 1,
            ),
            r is Ok ==> weekday_of(r->Ok_0.days_spec()) == weekday.index(),
            r is Err ==> r->Err_0 == Error::OutOfRange,
    {
        let jan_4 = YMD { year: year, month: Month::January, day: 4 };
        let jan_4_days: i64 = match jan_4.to_days_since_epoch() {
            Ok(days) => days,
            Err(_) => {
                proof {
                    assert(false);
                }
                0
            },
        };
        // ISO week 1 is the week that holds the 4th of January.
        let correction: i64 = days_to_weekday(jan_4_days - EPOCH_DIFFERENCE).days_from_monday_as_one()
            as i64 + 3;
        let yearday: i64 = 7 * week + weekday.days_from_monday_as_one() as i64 - correction;
        proof {
            lemma_iso_weekday(year as int, week as int, weekday);
        }
        let r = if yearday <= 0 {
            let days_in_year: i64 = if Year(year - 1).is_leap_year() {
                366
            } else {
                365
            };
            Date::yd(year - 1, days_in_year + yearday)
        } else {
            let days_in_year: i64 = if Year(year).is_leap_year() {
                366
            } else {
                365
            };
            if yearday >= days_in_year {
                Date::yd(year + 1, yearday - days_in_year)
            } else {
                Date::yd(year, yearday)
            }
        };
        proof {
            lemma_iso_target_days(year as int, week as int, weekday);
            let t = iso_week_target(year as int, week as int, weekday);
            lemma_civil_from_days(days_since_anchor(t.0, 1, 1) + t.1 - 1);
        }
        r
    }

    /// Computes the date that lies `days` after **1st March, 2000**.
    ///
    /// The Gregorian calendar repeats every 400 years. The count is split
    /// into 400-year cycles, then 100-year cycles, 4-year cycles and years;
    /// each of these ends with its only possible leap day, so the last day
    /// of a cycle is the one that does not fit in the smaller cycles.
    pub fn from_days_since_epoch(days: i64) -> (r: Date)
        requires
            -MAX_DAYS <= days <= MAX_DAYS,
        ensures
            r.wf(),
            r@ == civil_from_days(days as int),
            r.days_spec() == days,
    {
        let (num_400y_cycles, num_100y_cycles, num_4y_cycles, mut years, remainder) =
            split_into_cycles(days);
        proof {
            lemma_civil_from_days(days as int);
            let my = 400 * num_400y_cycles as int + 100 * num_100y_cycles as int + 4
                * num_4y_cycles as int + years as int;
            lemma_leap_decomposed(
                my,
                num_400y_cycles as int,
                num_100y_cycles as int,
                num_4y_cycles as int,
                years as int,
            );
            lemma_leap_shift(my);
        }
        // Whether the year whose March this cycle year starts in is a leap
        // year: a multiple of 4, but not of 100 unless of 400.
        let days_this_year: i64 = if years == 0 && !(num_4y_cycles == 0 && num_100y_cycles != 0) {
            366
        } else {
            365
        };
        // The 306 days from March to December come first; January and
        // February belong to the next calendar year.
        let mut day_of_year: i64 = remainder + days_this_year - 306;
        if day_of_year >= days_this_year {
            day_of_year -= days_this_year;
        }
        years += 4 * num_4y_cycles + 100 * num_100y_cycles + 400 * num_400y_cycles;
        let (march_month, month_days) = month_of_march_year(remainder);
        // Months are counted from March; count them from January instead.
        let mut month: i64 = march_month + 2;
        if month >= 12 {
            years += 1;
            month -= 12;
        }
        let month_variant = Month::from_zero(month as i8).unwrap();
        Date {
            yearday: (day_of_year + 1) as i16,
            weekday: days_to_weekday(days),
            ymd: YMD { year: years + 2000, month: month_variant, day: (month_days + 1) as i8 },
        }
    }
}

impl Date {
    /// Creates a date from fields that the caller has already checked: the
    /// day exists, and the weekday and day of the year are its own.
    pub fn _new_with_prefilled_values(
        year: i64,
        month: Month,
        day: i8,
        weekday: Weekday,
        yearday: i16,
    ) -> (r: Date)
        requires
            valid_ymd(year as int, month.number(), day as int),
            -YEAR_LIMIT <= year <= YEAR_LIMIT,
            yearday == day_of_year(year as int, month.number(), day as int),
            weekday.index() == weekday_of(days_since_anchor(year as int, month.number(), day as int)),
        ensures
            r.wf(),
            r@ == (year as int, month.number(), day as int),
    {
        Date { ymd: YMD { year: year, month: month, day: day }, weekday: weekday, yearday: yearday }
    }

    /// The year of this date.
    pub fn year(&self) -> (r: i64)
        ensures
            r == self@.0,
    {
        self.ymd.year
    }

    /// The month of this date.
    pub fn month(&self) -> (r: Month)
        ensures
            r.number() == self@.1,
    {
        self.ymd.month
    }

    /// The day of the month of this date, the first being 1.
    pub fn day(&self) -> (r: i8)
        ensures
            r == self@.2,
    {
        self.ymd.day
    }

    /// The day of the year of this date, the 1st of January being 1.
    pub fn yearday(&self) -> (r: i16)
        requires
            self.wf(),
        ensures
            r == day_of_year(self@.0, self@.1, self@.2),
    {
        self.yearday
    }

    /// The weekday of this date.
    pub fn weekday(&self) -> (r: Weekday)
        requires
            self.wf(),
        ensures
            r.index() == weekday_of(self.days_spec()),
    {
        self.weekday
    }

    /// The number of days from **1st January, 1970** to this date.
    pub fn to_days_since_epoch(&self) -> (r: i64)
        requires
            self.wf(),
        ensures
            r == days_since_1970(self@.0, self@.1, self@.2),
            r == self.days_spec() + EPOCH_DIFFERENCE,
    {
        match self.ymd.to_days_since_epoch() {
            Ok(days) => days,
            Err(_) => {
                proof {
                    assert(false);
                }
                0
            },
        }
    }
}

impl PartialEq for Date {
    /// Two dates are equal when they are the same day.
    fn eq(&self, other: &Date) -> (r: bool)
        ensures
            r == (self@ == other@),
    {
        self.ymd.year == other.ymd.year && self.ymd.month == other.ymd.month && self.ymd.day
            == other.ymd.day
    }
}

impl vstd::std_specs::cmp::PartialEqSpecImpl for Date {
    open spec fn obeys_eq_spec() -> bool {
        true
    }

    open spec fn eq_spec(&self, other: &Date) -> bool {
        self@ == other@
    }
}

impl Eq for Date {
}

impl PartialOrd for Date {
    /// Dates are ordered by year, then month, then day.
    fn partial_cmp(&self, other: &Date) -> (r: Option<core::cmp::Ordering>)
        ensures
            r == Some(civil_cmp(self@, other@)),
    {
        let a = self.ymd;
        let b = other.ymd;
        let am = a.month.number_from_one();
        let bm = b.month.number_from_one();
        if a.year < b.year || (a.year == b.year && (am < bm || (am == bm && a.day < b.day))) {
            Some(core::cmp::Ordering::Less)
        } else if a.year == b.year && am == bm && a.day == b.day {
            Some(core::cmp::Ordering::Equal)
        } else {
            Some(core::cmp::Ordering::Greater)
        }
    }
}

impl vstd::std_specs::cmp::PartialOrdSpecImpl for Date {
    open spec fn obeys_partial_cmp_spec() -> bool {
        true
    }

    open spec fn partial_cmp_spec(&self, other: &Date) -> Option<core::cmp::Ordering> {
        Some(civil_cmp(self@, other@))
    }
}

/// A **local time** is a time on the timeline that recurs once a day,
/// *without a time zone*.
#[derive(Clone, Copy, PartialEq, Eq, Structural, PartialOrd, Ord, Hash)]
pub struct Time {
    hour: i8,
    minute: i8,
    second: i8,
    millisecond: i16,
}

/// Whether the fields make a time of day: the hour, minute, second and
/// millisecond each within their unit.
pub open spec fn valid_time(t: (int, int, int, int)) -> bool {
    0 <= t.0 < 24 && 0 <= t.1 < 60 && 0 <= t.2 < 60 && 0 <= t.3 < 1000
}

/// The hour, minute and second `seconds` after midnight, with `millisecond`.
pub open spec fn time_of_seconds(seconds: int, millisecond: int) -> (int, int, int, int) {
    (seconds / 3600, (seconds / 60) % 60, seconds % 60, millisecond)
}

/// The seconds since midnight of a time's fields, without its milliseconds.
pub open spec fn seconds_of_time(t: (int, int, int, int)) -> int {
    t.0 * 3600 + t.1 * 60 + t.2
}

impl Time {
    /// The hour, minute, second and millisecond of this time.
    pub closed spec fn view(&self) -> (int, int, int, int) {
        (self.hour as int, self.minute as int, self.second as int, self.millisecond as int)
    }

    /// Computes the hour, minute and second from the number of seconds
    /// since midnight, which the caller has kept within a day.
    pub fn from_seconds_since_midnight(seconds: i64) -> (r: Time)
        requires
            0 <= seconds < 86400,
        ensures
            r@ == time_of_seconds(seconds as int, 0),
    {
        Time::from_seconds_and_milliseconds_since_midnight(seconds, 0)
    }

    /// Computes the hour, minute and second from the number of seconds
    /// since midnight, which the caller has kept within a day, and sets the
    /// milliseconds as given.
    pub fn from_seconds_and_milliseconds_since_midnight(
        seconds: i64,
        millisecond_of_second: i16,
    ) -> (r: Time)
        requires
            0 <= seconds < 86400,
        ensures
            r@ == time_of_seconds(seconds as int, millisecond_of_second as int),
    {
        Time {
            hour: (seconds / 60 / 60) as i8,
            minute: (seconds / 60 % 60) as i8,
            second: (seconds % 60) as i8,
            millisecond: millisecond_of_second,
        }
    }

    /// The time at midnight, with every field 0.
    pub fn midnight() -> (r: Time)
        ensures
            r@ == (0int, 0int, 0int, 0int),
    {
        Time { hour: 0, minute: 0, second: 0, millisecond: 0 }
    }

    /// Creates a time from its hour and minute, with second and millisecond
    /// 0. `24:00` is accepted as the midnight that ends a day; any other
    /// value out of range fails with `OutOfRange`.
    pub fn hm(hour: i8, minute: i8) -> (r: Result<Time>)
        ensures
            r is Ok <==> (0 <= hour < 24 && 0 <= minute < 60) || (hour == 24 && minute == 0),
            r is Ok ==> r->Ok_0@ == (hour as int, minute as int, 0int, 0int),
            r is Err ==> r->Err_0 == Error::OutOfRange,
    {
        if (0 <= hour && hour < 24 && 0 <= minute && minute < 60) || (hour == 24 && minute == 0) {
            Ok(Time { hour: hour, minute: minute, second: 0, millisecond: 0 })
        } else {
            Err(Error::OutOfRange)
        }
    }

    /// Creates a time from its hour, minute and second, with millisecond 0.
    /// `24:00:00` is accepted as the midnight that ends a day; any other
    /// value out of range fails with `OutOfRange`.
    pub fn hms(hour: i8, minute: i8, second: i8) -> (r: Result<Time>)
        ensures
            r is Ok <==> (0 <= hour < 24 && 0 <= minute < 60 && 0 <= second < 60) || (hour == 24
                && minute == 0 && second == 0),
            r is Ok ==> r->Ok_0@ == (hour as int, minute as int, second as int, 0int),
            r is Err ==> r->Err_0 == Error::OutOfRange,
    {
        if (0 <= hour && hour < 24 && 0 <= minute && minute < 60 && 0 <= second && second < 60)
            || (hour == 24 && minute == 0 && second == 0) {
            Ok(Time { hour: hour, minute: minute, second: second, millisecond: 0 })
        } else {
            Err(Error::OutOfRange)
        }
    }

    /// Creates a time from its hour, minute, second and millisecond. Unlike
    /// `hm` and `hms`, this accepts no hour 24: any value out of range fails
    /// with `OutOfRange`.
    pub fn hms_ms(hour: i8, minute: i8, second: i8, millisecond: i16) -> (r: Result<Time>)
        ensures
            r is Ok <==> valid_time((hour as int, minute as int, second as int, millisecond as int)),
            r is Ok ==> r->Ok_0@ == (hour as int, minute as int, second as int, millisecond as int),
            r is Err ==> r->Err_0 == Error::OutOfRange,
    {
        if 0 <= hour && hour < 24 && 0 <= minute && minute < 60 && 0 <= second && second < 60
            && 0 <= millisecond && millisecond < 1000 {
            Ok(Time { hour: hour, minute: minute, second: second, millisecond: millisecond })
        } else {
            Err(Error::OutOfRange)
        }
    }

    /// The number of seconds since midnight of this time, leaving out the
    /// milliseconds.
    pub fn to_seconds(&self) -> (r: i64)
        ensures
            r == seconds_of_time(self@),
    {
        self.hour as i64 * 3600 + self.minute as i64 * 60 + self.second as i64
    }

    /// The hour of this time.
    pub fn hour(&self) -> (r: i8)
        ensures
            r == self@.0,
    {
        self.hour
    }

    /// The minute of this time.
    pub fn minute(&self) -> (r: i8)
        ensures
            r == self@.1,
    {
        self.minute
    }

    /// The second of this time.
    pub fn second(&self) -> (r: i8)
        ensures
            r == self@.2,
    {
        self.second
    }

    /// The millisecond of this time.
    pub fn millisecond(&self) -> (r: i16)
        ensures
            r == self@.3,
    {
        self.millisecond
    }
}

/// The number of seconds from **midnight, 1st January, 1970** to
/// **midnight, 1st March, 2000**.
pub open spec fn anchor_seconds() -> int {
    EPOCH_DIFFERENCE * SECONDS_IN_DAY
}

/// A **local date-time** is an exact instant on the timeline, *without a
/// time zone*.
#[derive(Clone, Copy, PartialEq, Eq, PartialOrd, Ord)]
pub struct DateTime {
    date: Date,
    time: Time,
}

impl DateTime {
    /// The date and the time of this date-time.
    pub closed spec fn view(&self) -> (Date, Time) {
        (self.date, self.time)
    }

    /// Its date is a real day of the calendar.
    pub open spec fn wf(&self) -> bool {
        self@.0.wf()
    }

    /// The number of whole seconds from **midnight, 1st January, 1970** to
    /// this date-time.
    pub open spec fn seconds_spec(&self) -> int {
        (self@.0.days_spec() + EPOCH_DIFFERENCE) * SECONDS_IN_DAY + seconds_of_time(self@.1@)
    }

    /// Whether the seconds since 1970 of this date-time, and those of its
    /// date alone, can be counted in an `i64`.
    pub open spec fn fits_i64(&self) -> bool {
        &&& i64::MIN <= self.seconds_spec() <= i64::MAX
        &&& i64::MIN <= (self@.0.days_spec() + EPOCH_DIFFERENCE) * SECONDS_IN_DAY <= i64::MAX
    }

    /// Computes the date-time `seconds_since_1970_epoch` seconds after
    /// **midnight, 1st January, 1970**, on a whole second.
    pub fn at(seconds_since_1970_epoch: i64) -> (r: DateTime)
        requires
            seconds_since_1970_epoch >= i64::MIN + anchor_seconds(),
        ensures
            r.wf(),
            r.seconds_spec() == seconds_since_1970_epoch,
            valid_time(r@.1@),
            r@.1@.3 == 0,
            r@.0@ == civil_from_days((seconds_since_1970_epoch - anchor_seconds()) / SECONDS_IN_DAY as int),
    {
        DateTime::at_ms(seconds_since_1970_epoch, 0)
    }

    /// Computes the date-time `seconds_since_1970_epoch` seconds and
    /// `millisecond_of_second` milliseconds after **midnight, 1st January,
    /// 1970**.
    pub fn at_ms(seconds_since_1970_epoch: i64, millisecond_of_second: i16) -> (r: DateTime)
        requires
            seconds_since_1970_epoch >= i64::MIN + anchor_seconds(),
        ensures
            r.wf(),
            r.seconds_spec() == seconds_since_1970_epoch,
            r@.1@ == time_of_seconds(
                (seconds_since_1970_epoch - anchor_seconds()) % SECONDS_IN_DAY as int,
                millisecond_of_second as int,
            ),
            0 <= millisecond_of_second < 1000 ==> valid_time(r@.1@),
            r@.0@ == civil_from_days((seconds_since_1970_epoch - anchor_seconds()) / SECONDS_IN_DAY as int),
    {
        let seconds: i64 = seconds_since_1970_epoch - EPOCH_DIFFERENCE * SECONDS_IN_DAY;
        // Split the count into days and seconds, and let Date and Time do
        // the rest.
        let (days, secs) = split_cycles(seconds, SECONDS_IN_DAY);
        proof {
            assert(-MAX_DAYS <= days <= MAX_DAYS) by (nonlinear_arith)
                requires
                    seconds == days * 86400 + secs,
                    0 <= secs < 86400,
                    i64::MIN <= seconds <= i64::MAX,
                    MAX_DAYS == 100_000_000_000_000_000i64,
            ;
            lemma_time_of_seconds(secs as int);
        }
        DateTime {
            date: Date::from_days_since_epoch(days),
            time: Time::from_seconds_and_milliseconds_since_midnight(secs, millisecond_of_second),
        }
    }

    /// Computes the date-time of the instant.
    pub fn from_instant(instant: Instant) -> (r: DateTime)
        requires
            instant@.0 >= i64::MIN + anchor_seconds(),
        ensures
            r.wf(),
            r.seconds_spec() == instant@.0,
            r@.1@.3 == instant@.1,
            0 <= instant@.1 < 1000 ==> valid_time(r@.1@),
            r@.0@ == civil_from_days((instant@.0 - anchor_seconds()) / SECONDS_IN_DAY as int),
    {
        DateTime::at_ms(instant.seconds(), instant.milliseconds())
    }

    /// Creates a date-time from a date and a time.
    pub fn new(date: Date, time: Time) -> (r: DateTime)
        ensures
            r@ == (date, time),
    {
        DateTime { date: date, time: time }
    }

    /// The date of this date-time.
    pub fn date(&self) -> (r: Date)
        ensures
            r == self@.0,
    {
        self.date
    }

    /// The time of this date-time.
    pub fn time(&self) -> (r: Time)
        ensures
            r == self@.1,
    {
        self.time
    }

    /// The instant of this date-time.
    pub fn to_instant(&self) -> (r: Instant)
        requires
            self.wf(),
            self.fits_i64(),
        ensures
            r@ == (self.seconds_spec(), self@.1@.3),
    {
        let seconds: i64 = self.date.to_days_since_epoch() * SECONDS_IN_DAY + self.time.to_seconds();
        Instant::at_ms(seconds, self.time.millisecond)
    }

    /// The date-time `seconds` later (earlier, for a negative count).
    pub fn add_seconds(&self, seconds: i64) -> (r: DateTime)
        requires
            self.wf(),
            self.fits_i64(),
            i64::MIN + anchor_seconds() <= self.seconds_spec() + seconds <= i64::MAX,
        ensures
            r.wf(),
            r.seconds_spec() == self.seconds_spec() + seconds,
            r@.1@.3 == self@.1@.3,
    {
        DateTime::from_instant(self.to_instant().plus(Duration::of(seconds)))
    }

    /// The date-time that lies `duration` later.
    pub fn plus(&self, duration: Duration) -> (r: DateTime)
        requires
            self.wf(),
            self.fits_i64(),
            i64::MIN + anchor_seconds() <= self.seconds_spec() + duration@ <= i64::MAX,
        ensures
            r.wf(),
            r.seconds_spec() == self.seconds_spec() + duration@,
            r@.1@.3 == self@.1@.3,
    {
        DateTime::from_instant(self.to_instant().plus(duration))
    }

    /// The date-time that lies `duration` earlier.
    pub fn minus(&self, duration: Duration) -> (r: DateTime)
        requires
            self.wf(),
            self.fits_i64(),
            i64::MIN + anchor_seconds() <= self.seconds_spec() - duration@ <= i64::MAX,
        ensures
            r.wf(),
            r.seconds_spec() == self.seconds_spec() - duration@,
            r@.1@.3 == self@.1@.3,
    {
        DateTime::from_instant(self.to_instant().minus(duration))
    }
}

/// Seconds within a day make a time whose fields are in range, and which
/// counts back to the same seconds.
pub proof fn lemma_time_of_seconds(secs: int)
    requires
        0 <= secs < 86400,
    ensures
        0 <= time_of_seconds(secs, 0).0 < 24,
        0 <= time_of_seconds(secs, 0).1 < 60,
        0 <= time_of_seconds(secs, 0).2 < 60,
        seconds_of_time(time_of_seconds(secs, 0)) == secs,
{
    lemma_fundamental_div_mod(secs, 60);
    lemma_mod_bound(secs, 60);
    let mins = secs / 60;
    lemma_fundamental_div_mod(mins, 60);
    lemma_mod_bound(mins, 60);
    lemma_fundamental_div_mod(secs, 3600);
    lemma_mod_bound(secs, 3600);
    lemma_fundamental_div_mod_converse(secs, 3600, mins / 60, (mins % 60) * 60 + secs % 60);
}

/// Two dates with the same year, month and day are the same date: the day
/// of the year and the weekday each carries follow from those three.
pub proof fn lemma_date_determined(a: Date, b: Date)
    requires
        a.wf(),
        b.wf(),
        a@ == b@,
    ensures
        a == b,
{
    a.ymd.month.lemma_number_round_trip();
    b.ymd.month.lemma_number_round_trip();
    a.weekday.lemma_index_determines(b.weekday);
    assert(a.ymd == b.ymd);
}

/// Decoding the day count of a date gives back that very date.
pub proof fn lemma_round_trip(a: Date, decoded: Date)
    requires
        a.wf(),
        decoded.wf(),
        decoded@ == civil_from_days(a.days_spec()),
    ensures
        decoded == a,
        decoded.days_spec() == a.days_spec(),
{
    lemma_days_to_civil(a@.0, a@.1, a@.2);
    lemma_date_determined(a, decoded);
}

/// The first of January of a later year comes at least a whole year after
/// that of an earlier one.
proof fn lemma_years_ordered(y1: int, y2: int)
    requires
        y1 < y2,
    ensures
        days_since_anchor(y1, 1, 1) + year_length(y1) <= days_since_anchor(y2, 1, 1),
    decreases y2 - y1,
{
    lemma_year_length(y1);
    if y1 + 1 < y2 {
        lemma_years_ordered(y1 + 1, y2);
        lemma_year_length(y1 + 1);
    }
}

/// A valid day lies its day of the year, less one, after the 1st of January.
proof fn lemma_within_year(y: int, m: int, d: int)
    requires
        valid_ymd(y, m, d),
    ensures
        days_since_anchor(y, m, d) == days_since_anchor(y, 1, 1) + day_of_year(y, m, d) - 1,
        1 <= day_of_year(y, m, d) <= year_length(y),
{
}

/// One date comes before another, comparing years, then months, then
/// days, exactly when it lies fewer days after the anchor.
pub proof fn lemma_order_is_chronological(a: Date, b: Date)
    requires
        a.wf(),
        b.wf(),
    ensures
        civil_before(a@, b@) <==> a.days_spec() < b.days_spec(),
        a@ == b@ <==> a.days_spec() == b.days_spec(),
{
    lemma_within_year(a@.0, a@.1, a@.2);
    lemma_within_year(b@.0, b@.1, b@.2);
    if a@.0 < b@.0 {
        lemma_years_ordered(a@.0, b@.0);
    } else if b@.0 < a@.0 {
        lemma_years_ordered(b@.0, a@.0);
    }
    if a.days_spec() == b.days_spec() {
        lemma_days_to_civil(a@.0, a@.1, a@.2);
        lemma_days_to_civil(b@.0, b@.1, b@.2);
    }
}

/// The largest distance from week zero that `Date::ywd` accepts.
pub const MAX_WEEK: i64 = 1_000_000_000_000_000;

/// The number of days in year `y`.
pub open spec fn year_length(y: int) -> int {
    if is_leap(y) {
        366
    } else {
        365
    }
}

/// The first of January of the year after `y` lies a year's length after
/// that of `y`.
pub proof fn lemma_year_length(y: int)
    ensures
        days_since_anchor(y + 1, 1, 1) == days_since_anchor(y, 1, 1) + year_length(y),
{
    lemma_leap_shift(y + 1 - 2000);
}

/// The year and day of year that `Date::ywd` hands on name the same day
/// as the day of year it computed, counted in `year`.
proof fn lemma_iso_target_days(year: int, week: int, weekday: Weekday)
    ensures
        ({
            let yd = 7 * week + monday_based(weekday.index()) - (monday_based(
                weekday_of(days_since_anchor(year, 1, 4)),
            ) + 3);
            let t = iso_week_target(year, week, weekday);
            days_since_anchor(t.0, 1, 1) + t.1 - 1 == days_since_anchor(year, 1, 1) + yd - 1
        }),
{
    lemma_year_length(year - 1);
    lemma_year_length(year);
}

/// Counting `yearday` days from the day before the 1st of January, with the
/// `yearday` of `Date::ywd`, lands on the requested weekday.
proof fn lemma_iso_weekday(year: int, week: int, weekday: Weekday)
    ensures
        ({
            let yd = 7 * week + monday_based(weekday.index()) - (monday_based(
                weekday_of(days_since_anchor(year, 1, 4)),
            ) + 3);
            weekday_of(days_since_anchor(year, 1, 1) + yd - 1) == weekday.index()
        }),
{
    let a4 = days_since_anchor(year, 1, 4);
    let w4 = weekday_of(a4);
    let yd = 7 * week + monday_based(weekday.index()) - (monday_based(w4) + 3);
    let x = days_since_anchor(year, 1, 1) + yd - 1;
    lemma_fundamental_div_mod(a4 + 3, 7);
    lemma_mod_bound(a4 + 3, 7);
    let qq = (a4 + 3) / 7 + week - 1 + (if w4 == 0 {
        -1int
    } else {
        0int
    }) + (if weekday.index() == 0 {
        1int
    } else {
        0int
    });
    assert(x + 3 == 7 * qq + weekday.index());
    lemma_fundamental_div_mod_converse(x + 3, 7, qq, weekday.index());
}

/// The position in the week, Monday being 1 and Sunday 7, of the weekday
/// `index` days after a Sunday.
pub open spec fn monday_based(index: int) -> int {
    if index == 0 {
        7
    } else {
        index
    }
}

/// The year and day of year that `Date::ywd` hands on: the day of
/// `year` when it lies within it, else the equivalent day of the year
/// before or after.
pub open spec fn iso_week_target(year: int, week: int, weekday: Weekday) -> (int, int) {
    let yd = 7 * week + monday_based(weekday.index()) - (monday_based(
        weekday_of(days_since_anchor(year, 1, 4)),
    ) + 3);
    if yd <= 0 {
        (year - 1, year_length(year - 1) + yd)
    } else if yd >= year_length(year) {
        (year + 1, yd - year_length(year))
    } else {
        (year, yd)
    }
}

/// Splits the day count from **1st March, 2000** into 400-year cycles,
/// 100-year cycles, 4-year cycles, years, and the day of the year (counted
/// from March).
fn split_into_cycles(days: i64) -> (r: (i64, i64, i64, i64, i64))
    requires
        -MAX_DAYS <= days <= MAX_DAYS,
    ensures
        (r.0 as int, r.1 as int, r.2 as int, r.3 as int, r.4 as int) == cycles_of(days as int),
        -MAX_DAYS / 146097 - 1 <= r.0 <= MAX_DAYS / 146097,
        0 <= r.1 <= 3,
        0 <= r.2 <= 24,
        0 <= r.3 <= 3,
        0 <= r.4 <= 365,
{
    let (num_400y_cycles, r0) = split_cycles(days, DAYS_IN_400Y);
    proof {
        lemma_civil_from_days(days as int);
        lemma_fundamental_div_mod(r0 as int, 36524);
        lemma_mod_bound(r0 as int, 36524);
    }
    let mut remainder: i64 = r0;
    let mut num_100y_cycles: i64 = remainder / DAYS_IN_100Y;
    if num_100y_cycles > 3 {
        // The leap day that ends a 400-year cycle.
        num_100y_cycles = 3;
    }
    remainder -= num_100y_cycles * DAYS_IN_100Y;
    proof {
        lemma_fundamental_div_mod(remainder as int, 1461);
        lemma_mod_bound(remainder as int, 1461);
    }
    let num_4y_cycles: i64 = remainder / DAYS_IN_4Y;
    remainder -= num_4y_cycles * DAYS_IN_4Y;
    proof {
        lemma_fundamental_div_mod(remainder as int, 365);
        lemma_mod_bound(remainder as int, 365);
    }
    let mut years: i64 = remainder / 365;
    if years > 3 {
        // The leap day that ends a 4-year cycle.
        years = 3;
    }
    remainder -= years * 365;
    (num_400y_cycles, num_100y_cycles, num_4y_cycles, years, remainder)
}

/// The month of a year that starts in March (March being 0) that holds its
/// day `remainder`, and how many days into that month the day lies.
fn month_of_march_year(remainder: i64) -> (r: (i64, i64))
    requires
        0 <= remainder <= 365,
    ensures
        r.0 == march_month_of(remainder as int),
        r.1 == remainder - march_days_before(r.0 as int),
{
    let march_month: i64 = if remainder >= 337 {
        11
    } else if remainder >= 306 {
        10
    } else if remainder >= 275 {
        9
    } else if remainder >= 245 {
        8
    } else if remainder >= 214 {
        7
    } else if remainder >= 184 {
        6
    } else if remainder >= 153 {
        5
    } else if remainder >= 122 {
        4
    } else if remainder >= 92 {
        3
    } else if remainder >= 61 {
        2
    } else if remainder >= 31 {
        1
    } else {
        0
    };
    (march_month, remainder - days_before_march_month(march_month))
}

/// Days before the start of month `mi` of a year that starts in March.
fn days_before_march_month(mi: i64) -> (r: i64)
    requires
        0 <= mi <= 11,
    ensures
        r == march_days_before(mi as int),
{
    match mi {
        0 => 0,
        1 => 31,
        2 => 61,
        3 => 92,
        4 => 122,
        5 => 153,
        6 => 184,
        7 => 214,
        8 => 245,
        9 => 275,
        10 => 306,
        _ => 337,
    }
}

/// Computes the weekday of the day `days` after **1st March, 2000**, which
/// was a Wednesday.
fn days_to_weekday(days: i64) -> (r: Weekday)
    requires
        -MAX_DAYS <= days <= MAX_DAYS,
    ensures
        r.index() == weekday_of(days as int),
{
    let (_, weekday) = split_cycles(days + 3, 7);
    Weekday::from_zero(weekday as i8).unwrap()
}

} // verus!
