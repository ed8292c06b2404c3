//! Civil dates, times and date-times without time zones, converted to and
//! from a linear count of days and seconds.

pub mod calendar;
pub mod cycles;
pub mod instant;
pub mod local;
pub mod render;
pub mod units;
