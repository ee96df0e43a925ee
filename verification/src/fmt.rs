//! Text pieces of the rendered message: digits, zero- and space-padded
//! numbers, month and weekday names, and the two date header styles.
use vstd::prelude::*;
use vstd::string::*;

use crate::dates::{Date, weekday};

verus! {

pub open spec fn digit_char(n: int) -> char {
    if n == 0 {
        '0'
    } else if n == 1 {
        '1'
    } else if n == 2 {
        '2'
    } else if n == 3 {
        '3'
    } else if n == 4 {
        '4'
    } else if n == 5 {
        '5'
    } else if n == 6 {
        '6'
    } else if n == 7 {
        '7'
    } else if n == 8 {
        '8'
    } else {
        '9'
    }
}

pub open spec fn two_digits(n: int) -> Seq<char> {
    seq![digit_char(n / 10), digit_char(n % 10)]
}

/// Decimal digits of `n`, with no padding.
pub open spec fn dec_digits(n: int) -> Seq<char>
    decreases n,
{
    if n < 10 {
        seq![digit_char(n)]
    } else {
        dec_digits(n / 10).push(digit_char(n % 10))
    }
}

/// A year, zero-padded to at least four digits.
pub open spec fn year_digits(y: int) -> Seq<char> {
    if y < 10 {
        seq!['0', '0', '0'] + dec_digits(y)
    } else if y < 100 {
        seq!['0', '0'] + dec_digits(y)
    } else if y < 1000 {
        seq!['0'] + dec_digits(y)
    } else {
        dec_digits(y)
    }
}

/// A day of month, space-padded to two characters.
pub open spec fn day_space_padded(n: int) -> Seq<char> {
    if n < 10 {
        seq![' ', digit_char(n)]
    } else {
        two_digits(n)
    }
}

pub open spec fn month_name(m: int) -> Seq<char> {
    if m == 1 {
        "January"@
    } else if m == 2 {
        "February"@
    } else if m == 3 {
        "March"@
    } else if m == 4 {
        "April"@
    } else if m == 5 {
        "May"@
    } else if m == 6 {
        "June"@
    } else if m == 7 {
        "July"@
    } else if m == 8 {
        "August"@
    } else if m == 9 {
        "September"@
    } else if m == 10 {
        "October"@
    } else if m == 11 {
        "November"@
    } else {
        "December"@
    }
}

/// Weekday names, indexed from 0 for Monday as [`weekday`] counts them.
pub open spec fn weekday_name(w: int) -> Seq<char> {
    if w == 0 {
        "Monday"@
    } else if w == 1 {
        "Tuesday"@
    } else if w == 2 {
        "Wednesday"@
    } else if w == 3 {
        "Thursday"@
    } else if w == 4 {
        "Friday"@
    } else if w == 5 {
        "Saturday"@
    } else {
        "Sunday"@
    }
}

/// The ISO form of a date: `YYYY-MM-DD`.
pub open spec fn iso_date(d: Date) -> Seq<char> {
    year_digits(d.year as int) + seq!['-'] + two_digits(d.month as int) + seq!['-'] + two_digits(
        d.day as int,
    )
}

/// The long header form of a date: bold weekday name, space-padded day of
/// month, and month name.
pub open spec fn long_date(d: Date) -> Seq<char> {
    "**"@ + weekday_name(weekday(d)) + "** - "@ + day_space_padded(d.day as int) + seq![' ']
        + month_name(d.month as int)
}

/// A wall-clock time: `HH:MM`, zero-padded.
pub open spec fn time_hm(hour: int, minute: int) -> Seq<char> {
    two_digits(hour) + seq![':'] + two_digits(minute)
}

pub exec fn digit_str(n: u8) -> (s: &'static str)
    requires
        n < 10,
    ensures
        s@ == seq![digit_char(n as int)],
{
    if n == 0 {
        proof { reveal_strlit("0"); }
        "0"
    } else if n == 1 {
        proof { reveal_strlit("1"); }
        "1"
    } else if n == 2 {
        proof { reveal_strlit("2"); }
        "2"
    } else if n == 3 {
        proof { reveal_strlit("3"); }
        "3"
    } else if n == 4 {
        proof { reveal_strlit("4"); }
        "4"
    } else if n == 5 {
        proof { reveal_strlit("5"); }
        "5"
    } else if n == 6 {
        proof { reveal_strlit("6"); }
        "6"
    } else if n == 7 {
        proof { reveal_strlit("7"); }
        "7"
    } else if n == 8 {
        proof { reveal_strlit("8"); }
        "8"
    } else {
        proof { reveal_strlit("9"); }
        "9"
    }
}

pub exec fn push_two_digits(s: &mut String, n: u8)
    requires
        n < 100,
    ensures
        final(s)@ == old(s)@ + two_digits(n as int),
{
    s.append(digit_str(n / 10));
    s.append(digit_str(n % 10));
    proof {
        assert(two_digits(n as int) =~= seq![digit_char(n as int / 10)] + seq![
            digit_char(n as int % 10),
        ]);
    }
}

pub exec fn push_dec_digits(s: &mut String, n: u64)
    ensures
        final(s)@ == old(s)@ + dec_digits(n as int),
    decreases n,
{
    if n < 10 {
        s.append(digit_str(n as u8));
    } else {
        push_dec_digits(s, n / 10);
        s.append(digit_str((n % 10) as u8));
        proof {
            assert(dec_digits(n as int) =~= dec_digits(n as int / 10) + seq![
                digit_char(n as int % 10),
            ]);
        }
    }
}

pub exec fn push_year(s: &mut String, y: i32)
    requires
        y >= 1,
    ensures
        final(s)@ == old(s)@ + year_digits(y as int),
{
    if y < 10 {
        proof { reveal_strlit("000"); }
        s.append("000");
    } else if y < 100 {
        proof { reveal_strlit("00"); }
        s.append("00");
    } else if y < 1000 {
        proof { reveal_strlit("0"); }
        s.append("0");
    }
    push_dec_digits(s, y as u64);
    proof {
        reveal_strlit("000");
        reveal_strlit("00");
        reveal_strlit("0");
        if y < 10 {
            assert(year_digits(y as int) =~= "000"@ + dec_digits(y as int));
        } else if y < 100 {
            assert(year_digits(y as int) =~= "00"@ + dec_digits(y as int));
        } else if y < 1000 {
            assert(year_digits(y as int) =~= "0"@ + dec_digits(y as int));
        }
    }
}

pub exec fn exec_month_name(m: u8) -> (s: &'static str)
    ensures
        s@ == month_name(m as int),
{
    if m == 1 {
        "January"
    } else if m == 2 {
        "February"
    } else if m == 3 {
        "March"
    } else if m == 4 {
        "April"
    } else if m == 5 {
        "May"
    } else if m == 6 {
        "June"
    } else if m == 7 {
        "July"
    } else if m == 8 {
        "August"
    } else if m == 9 {
        "September"
    } else if m == 10 {
        "October"
    } else if m == 11 {
        "November"
    } else {
        "December"
    }
}

pub exec fn exec_weekday_name(w: u8) -> (s: &'static str)
    ensures
        s@ == weekday_name(w as int),
{
    if w == 0 {
        "Monday"
    } else if w == 1 {
        "Tuesday"
    } else if w == 2 {
        "Wednesday"
    } else if w == 3 {
        "Thursday"
    } else if w == 4 {
        "Friday"
    } else if w == 5 {
        "Saturday"
    } else {
        "Sunday"
    }
}

pub exec fn push_iso_date(s: &mut String, d: &Date)
    requires
        d.wf(),
    ensures
        final(s)@ == old(s)@ + iso_date(*d),
{
    push_year(s, d.year);
    proof { reveal_strlit("-"); }
    s.append("-");
    push_two_digits(s, d.month);
    s.append("-");
    push_two_digits(s, d.day);
    proof {
        assert("-"@ =~= seq!['-']);
        assert(old(s)@ + iso_date(*d) =~= old(s)@ + year_digits(d.year as int) + seq!['-']
            + two_digits(d.month as int) + seq!['-'] + two_digits(d.day as int));
    }
}

pub exec fn push_long_date(s: &mut String, d: &Date)
    requires
        d.wf(),
    ensures
        final(s)@ == old(s)@ + long_date(*d),
{
    let w: u8 = crate::dates::exec_weekday(d);
    proof {
        reveal_strlit("**");
        reveal_strlit("** - ");
        reveal_strlit(" ");
    }
    s.append("**");
    s.append(exec_weekday_name(w));
    s.append("** - ");
    if d.day < 10 {
        s.append(" ");
        s.append(digit_str(d.day));
        proof {
            assert(" "@ =~= seq![' ']);
            assert(day_space_padded(d.day as int) =~= seq![' '] + seq![
                digit_char(d.day as int),
            ]);
        }
    } else {
        push_two_digits(s, d.day);
    }
    s.append(" ");
    s.append(exec_month_name(d.month));
    proof {
        assert(" "@ =~= seq![' ']);
        assert(old(s)@ + long_date(*d) =~= old(s)@ + "**"@ + weekday_name(weekday(*d)) + "** - "@
            + day_space_padded(d.day as int) + seq![' '] + month_name(d.month as int));
    }
}

pub exec fn push_time_hm(s: &mut String, hour: u8, minute: u8)
    requires
        hour < 24,
        minute < 60,
    ensures
        final(s)@ == old(s)@ + time_hm(hour as int, minute as int),
{
    push_two_digits(s, hour);
    proof { reveal_strlit(":"); }
    s.append(":");
    push_two_digits(s, minute);
    proof {
        assert(":"@ =~= seq![':']);
        assert(old(s)@ + time_hm(hour as int, minute as int) =~= old(s)@ + two_digits(
            hour as int,
        ) + seq![':'] + two_digits(minute as int));
    }
}

} // verus!
