use datetime::local::{Date, DateTime, Error, Time};
use datetime::units::{Month, Weekday};

#[test]
fn some_leap_years() {
    for year in [2004, 2008, 2012, 2016].iter() {
        assert!(Date::ymd(*year, Month::February, 29).is_ok());
        assert!(Date::ymd(*year + 1, Month::February, 29).is_err());
    }
    assert!(Date::ymd(1600, Month::February, 29).is_ok());
    assert!(Date::ymd(1601, Month::February, 29).is_err());
    assert!(Date::ymd(1602, Month::February, 29).is_err());
}

#[test]
fn new() {
    for year in 1..3000 {
        assert!(Date::ymd(year, Month::January, 32).is_err());
        assert!(Date::ymd(year, Month::February, 30).is_err());
        assert!(Date::ymd(year, Month::March, 32).is_err());
        assert!(Date::ymd(year, Month::April, 31).is_err());
        assert!(Date::ymd(year, Month::May, 32).is_err());
        assert!(Date::ymd(year, Month::June, 31).is_err());
        assert!(Date::ymd(year, Month::July, 32).is_err());
        assert!(Date::ymd(year, Month::August, 32).is_err());
        assert!(Date::ymd(year, Month::September, 31).is_err());
        assert!(Date::ymd(year, Month::October, 32).is_err());
        assert!(Date::ymd(year, Month::November, 31).is_err());
        assert!(Date::ymd(year, Month::December, 32).is_err());
    }
}

#[test]
fn to_from_days_since_epoch() {
    let epoch_difference: i64 = 30 * 365 + 7 + 31 + 29;
    for date in vec![
        Date::ymd(1970, Month::January, 1).unwrap(),
        Date::ymd(01, Month::January, 1).unwrap(),
        Date::ymd(1971, Month::January, 1).unwrap(),
        Date::ymd(1973, Month::January, 1).unwrap(),
        Date::ymd(1977, Month::January, 1).unwrap(),
        Date::ymd(1989, Month::November, 10).unwrap(),
        Date::ymd(1990, Month::July, 8).unwrap(),
        Date::ymd(2014, Month::July, 13).unwrap(),
        Date::ymd(2001, Month::February, 3).unwrap(),
    ] {
        assert!(date == Date::from_days_since_epoch(date.to_days_since_epoch() - epoch_difference));
    }
}

#[test]
fn recently() {
    let date = Date::ymd(1600, Month::February, 28).unwrap();
    let debugged = date.debug_string();

    assert_eq!(debugged, "Date(1600-02-28)");
}

#[test]
fn just_then() {
    let date = Date::ymd(-753, Month::December, 1).unwrap();
    let debugged = date.debug_string();

    assert_eq!(debugged, "Date(-0753-12-01)");
}

#[test]
fn far_far_future() {
    let date = Date::ymd(10601, Month::January, 31).unwrap();
    let debugged = date.debug_string();

    assert_eq!(debugged, "Date(+10601-01-31)");
}

#[test]
fn midday() {
    let time = Time::hms(12, 0, 0).unwrap();
    let debugged = time.debug_string();

    assert_eq!(debugged, "Time(12:00:00.000)");
}

#[test]
fn ascending() {
    let then = DateTime::new(
        Date::ymd(2009, Month::February, 13).unwrap(),
        Time::hms(23, 31, 30).unwrap(),
    );
    let debugged = then.debug_string();

    assert_eq!(debugged, "DateTime(2009-02-13T23:31:30.000)");
}

fn check_ymd(date: Date, year: i64, month: Month, day: i8) {
    assert_eq!(date.year(), year);
    assert_eq!(date.month(), month);
    assert_eq!(date.day(), day);
}

#[test]
fn ymd_fields() {
    let date = Date::ymd(1969, Month::July, 20).unwrap();
    check_ymd(date, 1969, Month::July, 20);
    assert_eq!(date.weekday(), Weekday::Sunday);
    assert_eq!(date.yearday(), 201);
    assert!(Date::ymd(2100, Month::February, 29).is_err());
    assert_eq!(Date::ymd(2100, Month::February, 29).err(), Some(Error::OutOfRange));
    assert!(Date::ymd(2000, Month::February, 29).is_ok());
    assert!(Date::ymd(2015, Month::March, 0).is_err());
}

#[test]
fn leap_days_at_cycle_ends() {
    // The last day of a 4-year cycle and of a 400-year cycle.
    let d = Date::ymd(2004, Month::February, 29).unwrap();
    check_ymd(d, 2004, Month::February, 29);
    assert_eq!(d.yearday(), 60);
    let d = Date::ymd(2400, Month::February, 29).unwrap();
    check_ymd(d, 2400, Month::February, 29);
    assert_eq!(d.yearday(), 60);
    let d = Date::ymd(2000, Month::February, 29).unwrap();
    check_ymd(d, 2000, Month::February, 29);
    let d = Date::ymd(1996, Month::December, 31).unwrap();
    assert_eq!(d.yearday(), 366);
    let d = Date::ymd(1900, Month::December, 31).unwrap();
    assert_eq!(d.yearday(), 365);
}

#[test]
fn epoch_days() {
    let d = Date::ymd(1970, Month::January, 1).unwrap();
    assert_eq!(d.to_days_since_epoch(), 0);
    assert_eq!(d.weekday(), Weekday::Thursday);
    let d = Date::ymd(2000, Month::March, 1).unwrap();
    assert_eq!(d.to_days_since_epoch(), 11017);
    assert_eq!(d.weekday(), Weekday::Wednesday);
    let d = Date::from_days_since_epoch(0);
    check_ymd(d, 2000, Month::March, 1);
    let d = Date::from_days_since_epoch(-1);
    check_ymd(d, 2000, Month::February, 29);
    let d = Date::from_days_since_epoch(146096);
    check_ymd(d, 2400, Month::February, 29);
    let d = Date::from_days_since_epoch(1460);
    check_ymd(d, 2004, Month::February, 29);
    let d = Date::from_days_since_epoch(-146097);
    check_ymd(d, 1600, Month::March, 1);
}

#[test]
fn days_round_trip_everywhere() {
    let mut days: i64 = -800_000;
    while days < 800_000 {
        let d = Date::from_days_since_epoch(days);
        assert_eq!(d.to_days_since_epoch() - 11017, days);
        let again = Date::ymd(d.year(), d.month(), d.day()).unwrap();
        assert!(again == d);
        assert_eq!(again.yearday(), d.yearday());
        assert_eq!(again.weekday(), d.weekday());
        days += 37;
    }
}

#[test]
fn yd_days() {
    let date = Date::yd(2015, 0x100).unwrap();
    check_ymd(date, 2015, Month::September, 13);
    let date = Date::yd(2015, 268).unwrap();
    check_ymd(date, 2015, Month::September, 25);
    let date = Date::yd(2016, 268).unwrap();
    check_ymd(date, 2016, Month::September, 24);
    let date = Date::yd(2016, 0).unwrap();
    check_ymd(date, 2015, Month::December, 31);
    assert_eq!(Date::yd(2016, 367).err(), Some(Error::OutOfRange));
    assert_eq!(Date::yd(2016, -1).err(), Some(Error::OutOfRange));
}

#[test]
fn iso_week_dates() {
    let date = Date::ywd(2015, 37, Weekday::Friday).unwrap();
    check_ymd(date, 2015, Month::September, 11);
    assert_eq!(date.weekday(), Weekday::Friday);

    let date = Date::ywd(2009, 1, Weekday::Monday).unwrap();
    check_ymd(date, 2008, Month::December, 29);
    assert_eq!(date.weekday(), Weekday::Monday);

    let date = Date::ywd(2009, 53, Weekday::Sunday).unwrap();
    check_ymd(date, 2010, Month::January, 3);
    assert_eq!(date.weekday(), Weekday::Sunday);
}

#[test]
fn ordering_follows_the_calendar() {
    let a = Date::ymd(1999, Month::December, 31).unwrap();
    let b = Date::ymd(2000, Month::January, 1).unwrap();
    let c = Date::ymd(2000, Month::February, 1).unwrap();
    assert!(a < b);
    assert!(b < c);
    assert!(!(c < a));
    assert!(a.to_days_since_epoch() < b.to_days_since_epoch());
    let same = Date::yd(2000, 1).unwrap();
    assert!(same == b);
    assert!(same <= b && same >= b);
}

#[test]
fn equal_dates_from_other_paths() {
    let by_ymd = Date::ymd(2015, Month::September, 11).unwrap();
    let by_ywd = Date::ywd(2015, 37, Weekday::Friday).unwrap();
    let by_yd = Date::yd(2015, 254).unwrap();
    let prefilled = Date::_new_with_prefilled_values(2015, Month::September, 11, Weekday::Friday, 254);
    assert!(by_ymd == by_ywd);
    assert!(by_ymd == by_yd);
    assert!(by_ymd == prefilled);
    assert_eq!(by_ywd.yearday(), 254);
}

#[test]
fn iso_rendering() {
    assert_eq!(Date::ymd(7, Month::March, 9).unwrap().iso(), "0007-03-09");
    assert_eq!(Date::ymd(9999, Month::December, 31).unwrap().iso(), "9999-12-31");
    assert_eq!(Date::ymd(10000, Month::January, 1).unwrap().iso(), "+10000-01-01");
    assert_eq!(Date::ymd(-1, Month::January, 1).unwrap().iso(), "-0001-01-01");
    assert_eq!(Time::hms_ms(1, 2, 3, 45).unwrap().iso(), "01:02:03.045");
    let dt = DateTime::new(Date::ymd(2000, Month::May, 6).unwrap(), Time::hm(7, 8).unwrap());
    assert_eq!(dt.iso(), "2000-05-06T07:08:00.000");
}
