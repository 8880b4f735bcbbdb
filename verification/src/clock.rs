use vstd::prelude::*;
use vstd::string::StringExecFns;
use chrono::{Datelike, Local, Timelike};

verus! {

pub open spec fn digit_char(d: int) -> char {
    if d == 0 {
        '0'
    } else if d == 1 {
        '1'
    } else if d == 2 {
        '2'
    } else if d == 3 {
        '3'
    } else if d == 4 {
        '4'
    } else if d == 5 {
        '5'
    } else if d == 6 {
        '6'
    } else if d == 7 {
        '7'
    } else if d == 8 {
        '8'
    } else {
        '9'
    }
}

/// `n` rendered as exactly two decimal digits.
pub open spec fn two_digit_chars(n: int) -> Seq<char> {
    seq![digit_char(n / 10 % 10), digit_char(n % 10)]
}

/// `n` rendered as exactly four decimal digits.
pub open spec fn four_digit_chars(n: int) -> Seq<char> {
    seq![
        digit_char(n / 1000 % 10),
        digit_char(n / 100 % 10),
        digit_char(n / 10 % 10),
        digit_char(n % 10),
    ]
}

/// Years outside the four-digit range are pinned to its nearest end.
pub open spec fn clamp_year(y: int) -> int {
    if y < 0 {
        0
    } else if y > 9999 {
        9999
    } else {
        y
    }
}

/// The fixed-width local-time text, year first, date and time separated by a
/// single space, fields two digits each.
pub open spec fn timestamp_chars(y: int, mo: int, d: int, h: int, mi: int, s: int) -> Seq<char> {
    four_digit_chars(clamp_year(y)) + seq!['-'] + two_digit_chars(mo) + seq!['-']
        + two_digit_chars(d) + seq![' '] + two_digit_chars(h) + seq![':'] + two_digit_chars(mi)
        + seq![':'] + two_digit_chars(s)
}

/// Relies on chrono's Local::now and its Datelike and Timelike accessors:
/// month runs from 1 to 12, day of month from 1 to 31, hour from 0 to 23,
/// minute and second from 0 to 59. The year is not constrained; nothing more
/// can be promised of a clock reading.
#[verifier::external_body]
fn local_now_parts() -> (r: (i32, u32, u32, u32, u32, u32))
    ensures
        1 <= r.1 <= 12,
        1 <= r.2 <= 31,
        r.3 <= 23,
        r.4 <= 59,
        r.5 <= 59,
{
    let now = Local::now();
    (now.year(), now.month(), now.day(), now.hour(), now.minute(), now.second())
}

fn digit_str(d: u32) -> (r: &'static str)
    requires
        d <= 9,
    ensures
        r@ == seq![digit_char(d as int)],
{
    proof {
        reveal_strlit("0");
        reveal_strlit("1");
        reveal_strlit("2");
        reveal_strlit("3");
        reveal_strlit("4");
        reveal_strlit("5");
        reveal_strlit("6");
        reveal_strlit("7");
        reveal_strlit("8");
        reveal_strlit("9");
    }
    let r = match d {
        0 => "0",
        1 => "1",
        2 => "2",
        3 => "3",
        4 => "4",
        5 => "5",
        6 => "6",
        7 => "7",
        8 => "8",
        _ => "9",
    };
    proof {
        assert(r@ =~= seq![digit_char(d as int)]);
    }
    r
}

fn append_two_digits(out: &mut String, n: u32)
    requires
        n <= 99,
    ensures
        final(out)@ == old(out)@ + two_digit_chars(n as int),
{
    out.append(digit_str(n / 10));
    out.append(digit_str(n % 10));
    proof {
        assert(out@ =~= old(out)@ + two_digit_chars(n as int));
    }
}

/// Renders the given local-time fields as fixed-width text, the year pinned
/// into the four-digit range.
pub fn format_timestamp(y: i32, mo: u32, d: u32, h: u32, mi: u32, s: u32) -> (r: String)
    requires
        mo <= 99,
        d <= 99,
        h <= 99,
        mi <= 99,
        s <= 99,
    ensures
        r@ == timestamp_chars(y as int, mo as int, d as int, h as int, mi as int, s as int),
{
    let yc: u32 = if y < 0 {
        0
    } else if y > 9999 {
        9999
    } else {
        y as u32
    };
    let mut out = String::new();
    out.append(digit_str(yc / 1000));
    out.append(digit_str(yc / 100 % 10));
    out.append(digit_str(yc / 10 % 10));
    out.append(digit_str(yc % 10));
    proof {
        assert(out@ =~= four_digit_chars(clamp_year(y as int)));
    }
    out.append("-");
    append_two_digits(&mut out, mo);
    out.append("-");
    append_two_digits(&mut out, d);
    out.append(" ");
    append_two_digits(&mut out, h);
    out.append(":");
    append_two_digits(&mut out, mi);
    out.append(":");
    append_two_digits(&mut out, s);
    proof {
        reveal_strlit("-");
        reveal_strlit(" ");
        reveal_strlit(":");
        assert(out@ =~= timestamp_chars(
            y as int,
            mo as int,
            d as int,
            h as int,
            mi as int,
            s as int,
        ));
    }
    out
}

/// A fresh local-time reading, already rendered. The field ranges are those
/// the clock accessors promise; the values themselves depend on the clock.
pub fn current_timestamp() -> (r: String)
    ensures
        exists|y: int, mo: int, d: int, h: int, mi: int, s: int|
            1 <= mo <= 12 && 1 <= d <= 31 && 0 <= h <= 23 && 0 <= mi <= 59 && 0 <= s <= 59 && r@
                == timestamp_chars(y, mo, d, h, mi, s),
{
    let (y, mo, d, h, mi, s) = local_now_parts();
    let r = format_timestamp(y, mo, d, h, mi, s);
    proof {
        assert(1 <= mo as int <= 12 && 1 <= d as int <= 31 && 0 <= h as int <= 23 && 0 <= mi as int
            <= 59 && 0 <= s as int <= 59 && r@ == timestamp_chars(
            y as int,
            mo as int,
            d as int,
            h as int,
            mi as int,
            s as int,
        ));
    }
    r
}

} // verus!
