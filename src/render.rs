//! Human-readable text for dates and times, in the style of ISO 8601:
//! `YYYY-MM-DD`, `HH:MM:SS.mmm`, and the two joined by a `T`.

use vstd::prelude::*;

use crate::local::{valid_time, Date, DateTime, Time};

verus! {

/// The decimal digit `n`.
pub open spec fn digit(n: int) -> char {
    if n <= 0 {
        '0'
    } else if n == 1 {
        '1'
    } else if n == 2 {
        '2'
    } else if n == 3 {
        '3'
    } else if n == 4 {
        '4'
    } else if n == 5 {
        '5'
    } else if n == 6 {
        '6'
    } else if n == 7 {
        '7'
    } else if n == 8 {
        '8'
    } else {
        '9'
    }
}

/// The decimal digits of `n`, with zeros in front to make at least `width`
/// of them.
pub open spec fn padded(n: nat, width: nat) -> Seq<char>
    decreases n + width,
{
    if n < 10 && width <= 1 {
        seq![digit(n as int)]
    } else {
        padded(
            n / 10,
            if width > 0 {
                (width - 1) as nat
            } else {
                0
            },
        ).push(digit((n % 10) as int))
    }
}

/// A year as four digits, or, outside `0..10000`, as a sign and at least
/// four digits.
pub open spec fn year_text(y: int) -> Seq<char> {
    if 0 <= y < 10000 {
        padded(y as nat, 4)
    } else if y < 0 {
        seq!['-'] + padded((-y) as nat, 4)
    } else {
        seq!['+'] + padded(y as nat, 4)
    }
}

/// `YYYY-MM-DD`.
pub open spec fn date_text(d: (int, int, int)) -> Seq<char> {
    year_text(d.0) + seq!['-'] + padded(d.1 as nat, 2) + seq!['-'] + padded(d.2 as nat, 2)
}

/// `HH:MM:SS.mmm`.
pub open spec fn time_text(t: (int, int, int, int)) -> Seq<char> {
    padded(t.0 as nat, 2) + seq![':'] + padded(t.1 as nat, 2) + seq![':'] + padded(t.2 as nat, 2)
        + seq!['.'] + padded(t.3 as nat, 3)
}

/// Whether every field of the time can be written as digits.
pub open spec fn printable_time(t: (int, int, int, int)) -> bool {
    t.0 >= 0 && t.1 >= 0 && t.2 >= 0 && t.3 >= 0
}

/// Relies on `String::push`: appends the character to the end.
#[verifier::external_body]
fn push_char(s: &mut String, c: char)
    ensures
        final(s)@ == old(s)@.push(c),
{
    s.push(c);
}

fn digit_char(n: u64) -> (r: char)
    requires
        n < 10,
    ensures
        r == digit(n as int),
{
    match n {
        0 => '0',
        1 => '1',
        2 => '2',
        3 => '3',
        4 => '4',
        5 => '5',
        6 => '6',
        7 => '7',
        8 => '8',
        _ => '9',
    }
}

/// Appends the digits of `n`, padded with zeros to `width`.
fn push_padded(s: &mut String, n: u64, width: u64)
    ensures
        final(s)@ == old(s)@ + padded(n as nat, width as nat),
    decreases n + width,
{
    if n < 10 && width <= 1 {
        push_char(s, digit_char(n));
    } else {
        let narrower: u64 = if width > 0 {
            width - 1
        } else {
            0
        };
        let ghost before = s@;
        push_padded(s, n / 10, narrower);
        push_char(s, digit_char(n % 10));
        proof {
            assert(s@ =~= before + padded(n as nat, width as nat));
        }
    }
}

/// Appends the year as `year_text` writes it.
fn push_year(s: &mut String, y: i64)
    requires
        y > i64::MIN,
    ensures
        final(s)@ == old(s)@ + year_text(y as int),
{
    let ghost before = s@;
    if 0 <= y && y < 10000 {
        push_padded(s, y as u64, 4);
    } else if y < 0 {
        push_char(s, '-');
        push_padded(s, (-y) as u64, 4);
        proof {
            assert(s@ =~= before + year_text(y as int));
        }
    } else {
        push_char(s, '+');
        push_padded(s, y as u64, 4);
        proof {
            assert(s@ =~= before + year_text(y as int));
        }
    }
}

/// Appends `YYYY-MM-DD`.
fn push_date(s: &mut String, date: &Date)
    requires
        date.wf(),
    ensures
        final(s)@ == old(s)@ + date_text(date@),
{
    proof {
        date.lemma_valid();
    }
    let ghost before = s@;
    push_year(s, date.year());
    push_char(s, '-');
    push_padded(s, date.month().number_from_one() as u64, 2);
    push_char(s, '-');
    push_padded(s, date.day() as u64, 2);
    proof {
        assert(s@ =~= before + date_text(date@));
    }
}

/// Appends `HH:MM:SS.mmm`.
fn push_time(s: &mut String, time: &Time)
    requires
        printable_time(time@),
    ensures
        final(s)@ == old(s)@ + time_text(time@),
{
    let ghost before = s@;
    push_padded(s, time.hour() as u64, 2);
    push_char(s, ':');
    push_padded(s, time.minute() as u64, 2);
    push_char(s, ':');
    push_padded(s, time.second() as u64, 2);
    push_char(s, '.');
    push_padded(s, time.millisecond() as u64, 3);
    proof {
        assert(s@ =~= before + time_text(time@));
    }
}

/// Appends the characters of `text` one by one.
fn push_all(s: &mut String, text: &Vec<char>)
    ensures
        final(s)@ == old(s)@ + text@,
{
    let ghost before = s@;
    let mut i: usize = 0;
    while i < text.len()
        invariant
            0 <= i <= text@.len(),
            s@ == before + text@.subrange(0, i as int),
        decreases text@.len() - i,
    {
        push_char(s, text[i]);
        i += 1;
        proof {
            assert(s@ =~= before + text@.subrange(0, i as int));
        }
    }
    proof {
        assert(text@.subrange(0, text@.len() as int) =~= text@);
    }
}

impl Date {
    /// The date as `YYYY-MM-DD`; a year outside `0..10000` carries its sign
    /// and at least four digits.
    pub fn iso(&self) -> (r: String)
        requires
            self.wf(),
        ensures
            r@ == date_text(self@),
    {
        let mut s = String::new();
        push_date(&mut s, self);
        proof {
            assert(s@ =~= date_text(self@));
        }
        s
    }

    /// The date as `Date(YYYY-MM-DD)`.
    pub fn debug_string(&self) -> (r: String)
        requires
            self.wf(),
        ensures
            r@ == seq!['D', 'a', 't', 'e', '('] + date_text(self@) + seq![')'],
    {
        let mut s = String::new();
        push_all(&mut s, &vec!['D', 'a', 't', 'e', '(']);
        push_date(&mut s, self);
        push_char(&mut s, ')');
        proof {
            assert(s@ =~= seq!['D', 'a', 't', 'e', '('] + date_text(self@) + seq![')']);
        }
        s
    }
}

impl Time {
    /// The time as `HH:MM:SS.mmm`.
    pub fn iso(&self) -> (r: String)
        requires
            printable_time(self@),
        ensures
            r@ == time_text(self@),
    {
        let mut s = String::new();
        push_time(&mut s, self);
        proof {
            assert(s@ =~= time_text(self@));
        }
        s
    }

    /// The time as `Time(HH:MM:SS.mmm)`.
    pub fn debug_string(&self) -> (r: String)
        requires
            printable_time(self@),
        ensures
            r@ == seq!['T', 'i', 'm', 'e', '('] + time_text(self@) + seq![')'],
    {
        let mut s = String::new();
        push_all(&mut s, &vec!['T', 'i', 'm', 'e', '(']);
        push_time(&mut s, self);
        push_char(&mut s, ')');
        proof {
            assert(s@ =~= seq!['T', 'i', 'm', 'e', '('] + time_text(self@) + seq![')']);
        }
        s
    }
}

impl DateTime {
    /// The date-time as `YYYY-MM-DDTHH:MM:SS.mmm`.
    pub fn iso(&self) -> (r: String)
        requires
            self.wf(),
            printable_time(self@.1@),
        ensures
            r@ == date_text(self@.0@) + seq!['T'] + time_text(self@.1@),
    {
        let mut s = String::new();
        let date = self.date();
        let time = self.time();
        push_date(&mut s, &date);
        push_char(&mut s, 'T');
        push_time(&mut s, &time);
        proof {
            assert(s@ =~= date_text(self@.0@) + seq!['T'] + time_text(self@.1@));
        }
        s
    }

    /// The date-time as `DateTime(YYYY-MM-DDTHH:MM:SS.mmm)`.
    pub fn debug_string(&self) -> (r: String)
        requires
            self.wf(),
            printable_time(self@.1@),
        ensures
            r@ == seq!['D', 'a', 't', 'e', 'T', 'i', 'm', 'e', '('] + date_text(self@.0@) + seq![
                'T',
            ] + time_text(self@.1@) + seq![')'],
    {
        let mut s = String::new();
        push_all(&mut s, &vec!['D', 'a', 't', 'e', 'T', 'i', 'm', 'e', '(']);
        let date = self.date();
        let time = self.time();
        push_date(&mut s, &date);
        push_char(&mut s, 'T');
        push_time(&mut s, &time);
        push_char(&mut s, ')');
        proof {
            assert(s@ =~= seq!['D', 'a', 't', 'e', 'T', 'i', 'm', 'e', '('] + date_text(
                self@.0@,
            ) + seq!['T'] + time_text(self@.1@) + seq![')']);
        }
        s
    }
}

} // verus!
