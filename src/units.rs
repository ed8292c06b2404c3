//! The fixed enumerations of the calendar: months, weekdays and years.

use vstd::prelude::*;

use crate::calendar::{
    days_before_month, is_leap, leap_days_elapsed, lemma_leap_decomposed, lemma_leap_shift,
};
use crate::cycles::split_cycles;

verus! {

/// One of the twelve months of the Gregorian calendar.
#[derive(Clone, Copy, Debug, PartialEq, Eq, Structural, PartialOrd, Ord, Hash)]
pub enum Month {
    January,
    February,
    March,
    April,
    May,
    June,
    July,
    August,
    September,
    October,
    November,
    December,
}

/// One of the seven days of the week, starting from Monday.
#[derive(Clone, Copy, Debug, PartialEq, Eq, Structural, PartialOrd, Ord, Hash)]
pub enum Weekday {
    Monday,
    Tuesday,
    Wednesday,
    Thursday,
    Friday,
    Saturday,
    Sunday,
}

/// A calendar year, counted as the proleptic Gregorian calendar counts it.
#[derive(Clone, Copy, Debug, PartialEq, Eq, Structural)]
pub struct Year(pub i64);

/// The largest distance from year zero that the leap-year arithmetic takes.
pub const YEAR_LIMIT: i64 = 1_000_000_000_000_000;

impl Month {
    /// The month's position in the year, January being 1.
    pub open spec fn number(self) -> int {
        match self {
            Month::January => 1,
            Month::February => 2,
            Month::March => 3,
            Month::April => 4,
            Month::May => 5,
            Month::June => 6,
            Month::July => 7,
            Month::August => 8,
            Month::September => 9,
            Month::October => 10,
            Month::November => 11,
            Month::December => 12,
        }
    }

    /// The month whose number is `n`, January being 1.
    pub open spec fn of_number(n: int) -> Month {
        if n <= 1 {
            Month::January
        } else if n == 2 {
            Month::February
        } else if n == 3 {
            Month::March
        } else if n == 4 {
            Month::April
        } else if n == 5 {
            Month::May
        } else if n == 6 {
            Month::June
        } else if n == 7 {
            Month::July
        } else if n == 8 {
            Month::August
        } else if n == 9 {
            Month::September
        } else if n == 10 {
            Month::October
        } else if n == 11 {
            Month::November
        } else {
            Month::December
        }
    }

    /// A month's number lies in `1..=12` and names that month again.
    pub proof fn lemma_number_round_trip(self)
        ensures
            1 <= self.number() <= 12,
            Month::of_number(self.number()) == self,
    {
    }

    /// The number of days in this month, in a leap year or not.
    pub fn days_in_month(&self, is_leap_year: bool) -> (r: i8)
        ensures
            r == crate::calendar::month_length(self.number(), is_leap_year),
    {
        match self {
            Month::January => 31,
            Month::February => if is_leap_year { 29 } else { 28 },
            Month::March => 31,
            Month::April => 30,
            Month::May => 31,
            Month::June => 30,
            Month::July => 31,
            Month::August => 31,
            Month::September => 30,
            Month::October => 31,
            Month::November => 30,
            Month::December => 31,
        }
    }

    /// The number of days in all the months before this one, in a year that
    /// is not a leap year.
    pub fn days_before_start(&self) -> (r: i16)
        ensures
            r == days_before_month(self.number()),
    {
        match self {
            Month::January => 0,
            Month::February => 31,
            Month::March => 59,
            Month::April => 90,
            Month::May => 120,
            Month::June => 151,
            Month::July => 181,
            Month::August => 212,
            Month::September => 243,
            Month::October => 273,
            Month::November => 304,
            Month::December => 334,
        }
    }

    /// The month's position in the year, January being 1.
    pub fn number_from_one(&self) -> (r: i8)
        ensures
            r == self.number(),
    {
        match self {
            Month::January => 1,
            Month::February => 2,
            Month::March => 3,
            Month::April => 4,
            Month::May => 5,
            Month::June => 6,
            Month::July => 7,
            Month::August => 8,
            Month::September => 9,
            Month::October => 10,
            Month::November => 11,
            Month::December => 12,
        }
    }

    /// The month at zero-based position `n`, if there is one.
    pub fn from_zero(n: i8) -> (r: Option<Month>)
        ensures
            r.is_some() <==> 0 <= n < 12,
            r.is_some() ==> r.unwrap().number() == n + 1,
    {
        match n {
            0 => Some(Month::January),
            1 => Some(Month::February),
            2 => Some(Month::March),
            3 => Some(Month::April),
            4 => Some(Month::May),
            5 => Some(Month::June),
            6 => Some(Month::July),
            7 => Some(Month::August),
            8 => Some(Month::September),
            9 => Some(Month::October),
            10 => Some(Month::November),
            11 => Some(Month::December),
            _ => None,
        }
    }
}

impl Weekday {
    /// The number of days since the last Sunday, Sunday itself being 0.
    pub open spec fn index(self) -> int {
        match self {
            Weekday::Sunday => 0,
            Weekday::Monday => 1,
            Weekday::Tuesday => 2,
            Weekday::Wednesday => 3,
            Weekday::Thursday => 4,
            Weekday::Friday => 5,
            Weekday::Saturday => 6,
        }
    }

    /// A weekday's index lies in `0..7`, and no two weekdays share one.
    pub proof fn lemma_index_determines(self, other: Weekday)
        ensures
            0 <= self.index() < 7,
            self.index() == other.index() ==> self == other,
    {
    }

    /// The position of this day in the week, Monday being 1 and Sunday 7.
    pub fn days_from_monday_as_one(&self) -> (r: i8)
        ensures
            r == if self.index() == 0 {
                7
            } else {
                self.index()
            },
    {
        match self {
            Weekday::Monday => 1,
            Weekday::Tuesday => 2,
            Weekday::Wednesday => 3,
            Weekday::Thursday => 4,
            Weekday::Friday => 5,
            Weekday::Saturday => 6,
            Weekday::Sunday => 7,
        }
    }

    /// The weekday `n` days after a Sunday, for `n` in `0..7`.
    pub fn from_zero(n: i8) -> (r: Option<Weekday>)
        ensures
            r.is_some() <==> 0 <= n < 7,
            r.is_some() ==> r.unwrap().index() == n,
    {
        match n {
            0 => Some(Weekday::Sunday),
            1 => Some(Weekday::Monday),
            2 => Some(Weekday::Tuesday),
            3 => Some(Weekday::Wednesday),
            4 => Some(Weekday::Thursday),
            5 => Some(Weekday::Friday),
            6 => Some(Weekday::Saturday),
            _ => None,
        }
    }
}

impl Year {
    /// Returns the number of leap days between the start of the year 2000
    /// and the start of this year, counting the one of 2000 as the first,
    /// together with whether this year is a leap year.
    pub fn leap_year_calculations(&self) -> (r: (i64, bool))
        requires
            -YEAR_LIMIT <= self.0 <= YEAR_LIMIT,
        ensures
            r.0 == leap_days_elapsed(self.0 as int),
            r.1 == is_leap(self.0 as int),
    {
        let year: i64 = self.0 - 2000;
        let (num_400y_cycles, remainder) = split_cycles(year, 400);
        let currently_leap_year: bool = remainder == 0 || (remainder % 100 != 0 && remainder
            % 4 == 0);
        let num_100y_cycles: i64 = remainder / 100;
        let rest: i64 = remainder - num_100y_cycles * 100;
        let leap_years_elapsed: i64 = rest / 4 + 97 * num_400y_cycles + 24 * num_100y_cycles - if currently_leap_year {
            1i64
        } else {
            0i64
        };
        proof {
            let k = rest / 4;
            let j = rest % 4;
            lemma_leap_decomposed(
                year as int,
                num_400y_cycles as int,
                num_100y_cycles as int,
                k as int,
                j as int,
            );
            lemma_leap_shift(year as int);
        }
        (leap_years_elapsed, currently_leap_year)
    }

    /// Whether this year has a 29th of February.
    pub fn is_leap_year(&self) -> (r: bool)
        requires
            -YEAR_LIMIT <= self.0 <= YEAR_LIMIT,
        ensures
            r == is_leap(self.0 as int),
    {
        self.leap_year_calculations().1
    }
}

} // verus!
