use datetime::cycles::split_cycles;
use datetime::instant::{Duration, Instant};
use datetime::local::{Date, DateTime, Error, Time};
use datetime::units::{Month, Weekday, Year};

fn check_time(t: Time, h: i8, m: i8, s: i8, ms: i16) {
    assert_eq!(t.hour(), h);
    assert_eq!(t.minute(), m);
    assert_eq!(t.second(), s);
    assert_eq!(t.millisecond(), ms);
}

#[test]
fn split_cycles_wraps_negatives() {
    assert_eq!(split_cycles(7, 3), (2, 1));
    assert_eq!(split_cycles(-7, 3), (-3, 2));
    assert_eq!(split_cycles(-1, 86400), (-1, 86399));
    assert_eq!(split_cycles(-86400, 86400), (-1, 0));
    assert_eq!(split_cycles(0, 5), (0, 0));
    for n in -50..50 {
        let (c, r) = split_cycles(n, 7);
        assert!(0 <= r && r < 7);
        assert_eq!(c * 7 + r, n);
    }
}

#[test]
fn time_constructors() {
    check_time(Time::midnight(), 0, 0, 0, 0);
    check_time(Time::hm(24, 0).unwrap(), 24, 0, 0, 0);
    check_time(Time::hms(24, 0, 0).unwrap(), 24, 0, 0, 0);
    assert_eq!(Time::hms_ms(24, 0, 0, 0).err(), Some(Error::OutOfRange));
    assert_eq!(Time::hm(24, 1).err(), Some(Error::OutOfRange));
    assert_eq!(Time::hms(24, 0, 1).err(), Some(Error::OutOfRange));
    assert_eq!(Time::hm(23, 60).err(), Some(Error::OutOfRange));
    assert_eq!(Time::hms(-1, 0, 0).err(), Some(Error::OutOfRange));
    assert_eq!(Time::hms_ms(1, 2, 3, 1000).err(), Some(Error::OutOfRange));
    check_time(Time::hms_ms(23, 59, 59, 999).unwrap(), 23, 59, 59, 999);
}

#[test]
fn time_from_seconds() {
    check_time(Time::from_seconds_since_midnight(3661), 1, 1, 1, 0);
    check_time(Time::from_seconds_and_milliseconds_since_midnight(86399, 250), 23, 59, 59, 250);
    assert_eq!(Time::hms(1, 1, 1).unwrap().to_seconds(), 3661);
    assert_eq!(Time::hms(24, 0, 0).unwrap().to_seconds(), 86400);
}

#[test]
fn date_times_from_seconds() {
    let dt = DateTime::at(1234567890);
    assert_eq!(dt.date().year(), 2009);
    assert_eq!(dt.date().month(), Month::February);
    assert_eq!(dt.date().day(), 13);
    check_time(dt.time(), 23, 31, 30, 0);
    assert_eq!(dt.to_instant(), Instant::at(1234567890));

    let dt = DateTime::at_ms(-1, 500);
    assert_eq!(dt.date().year(), 1969);
    assert_eq!(dt.date().month(), Month::December);
    assert_eq!(dt.date().day(), 31);
    check_time(dt.time(), 23, 59, 59, 500);
    assert_eq!(dt.to_instant(), Instant::at_ms(-1, 500));

    let dt = DateTime::from_instant(Instant::at_ms(0, 7));
    assert_eq!(dt.date().weekday(), Weekday::Thursday);
    assert_eq!(dt.to_instant().milliseconds(), 7);
}

#[test]
fn date_time_arithmetic() {
    let start = DateTime::new(
        Date::ymd(2016, Month::February, 28).unwrap(),
        Time::hms(23, 0, 0).unwrap(),
    );
    let later = start.add_seconds(3600 * 25);
    assert_eq!(later.date().month(), Month::March);
    assert_eq!(later.date().day(), 1);
    check_time(later.time(), 0, 0, 0, 0);

    let next = start.plus(Duration::of(3600));
    assert_eq!(next.date().day(), 29);
    check_time(next.time(), 0, 0, 0, 0);

    let before = start.minus(Duration::of(86400 * 59));
    assert_eq!(before.date().year(), 2015);
    assert_eq!(before.date().month(), Month::December);
    assert_eq!(before.date().day(), 31);
    assert_eq!(Instant::at(10).plus(Duration::of(-15)).seconds(), -5);
    assert_eq!(Instant::at(10).minus(Duration::of(15)).seconds(), -5);
    assert_eq!(Duration::of(9).seconds(), 9);
}

#[test]
fn years_and_units() {
    assert!(Year(2000).is_leap_year());
    assert!(!Year(1900).is_leap_year());
    assert!(Year(-4).is_leap_year());
    assert_eq!(Year(2000).leap_year_calculations(), (-1, true));
    assert_eq!(Year(2001).leap_year_calculations(), (0, false));
    assert_eq!(Year(1970).leap_year_calculations(), (-8, false));
    assert_eq!(Month::February.days_in_month(true), 29);
    assert_eq!(Month::February.days_in_month(false), 28);
    assert_eq!(Month::March.days_before_start(), 59);
    assert_eq!(Month::from_zero(11), Some(Month::December));
    assert_eq!(Month::from_zero(12), None);
    assert_eq!(Weekday::from_zero(0), Some(Weekday::Sunday));
    assert_eq!(Weekday::from_zero(6), Some(Weekday::Saturday));
    assert_eq!(Weekday::from_zero(-1), None);
    assert_eq!(Weekday::Sunday.days_from_monday_as_one(), 7);
}
