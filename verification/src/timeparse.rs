//! The fixed `YYYY-MM-DDThh:mm:ss` timestamp format.
//!
//! A timestamp is exactly 19 characters, all fields decimal with the
//! separators in fixed positions, a valid proleptic-Gregorian calendar
//! date, and is converted to seconds since 1970-01-01T00:00:00.
use vstd::prelude::*;
use vstd::string::StrSliceExecFns;
use vstd::arithmetic::div_mod::lemma_fundamental_div_mod;

verus! {

pub open spec fn is_digit_char(c: char) -> bool {
    48 <= c as u32 <= 57
}

pub open spec fn digit_val(c: char) -> int
    recommends
        is_digit_char(c),
{
    c as u32 - 48
}

pub open spec fn is_leap_year(y: int) -> bool {
    y % 4 == 0 && (y % 100 != 0 || y % 400 == 0)
}

pub open spec fn days_in_month(y: int, m: int) -> int
    recommends
        1 <= m <= 12,
{
    if m == 2 {
        if is_leap_year(y) {
            29
        } else {
            28
        }
    } else if m == 4 || m == 6 || m == 9 || m == 11 {
        30
    } else {
        31
    }
}

/// Seconds since 1970-01-01T00:00:00 of a civil date and time, by the
/// era-based day count of the proleptic Gregorian calendar.
pub open spec fn epoch_of(y: int, mo: int, d: int, h: int, mi: int, s: int) -> int
    recommends
        0 <= y <= 9999,
        1 <= mo <= 12,
        1 <= d <= 31,
{
    let yy = if mo <= 2 {
        y - 1
    } else {
        y
    };
    let era = (yy + 400) / 400 - 1;
    let yoe = yy - era * 400;
    let mp = if mo > 2 {
        mo - 3
    } else {
        mo + 9
    };
    let doy = (153 * mp + 2) / 5 + d - 1;
    let doe = yoe * 365 + yoe / 4 - yoe / 100 + doy;
    let days = era * 146097 + doe - 719468;
    days * 86400 + h * 3600 + mi * 60 + s
}

/// Parses the fixed format; `None` on any malformed or out-of-range field.
pub open spec fn parse_ts(s: Seq<char>) -> Option<int> {
    if s.len() != 19 {
        None
    } else if !(is_digit_char(s[0]) && is_digit_char(s[1]) && is_digit_char(s[2]) && is_digit_char(
        s[3],
    ) && s[4] == '-' && is_digit_char(s[5]) && is_digit_char(s[6]) && s[7] == '-' && is_digit_char(
        s[8],
    ) && is_digit_char(s[9]) && s[10] == 'T' && is_digit_char(s[11]) && is_digit_char(s[12]) && s[13]
        == ':' && is_digit_char(s[14]) && is_digit_char(s[15]) && s[16] == ':' && is_digit_char(
        s[17],
    ) && is_digit_char(s[18])) {
        None
    } else {
        let y = digit_val(s[0]) * 1000 + digit_val(s[1]) * 100 + digit_val(s[2]) * 10 + digit_val(
            s[3],
        );
        let mo = digit_val(s[5]) * 10 + digit_val(s[6]);
        let d = digit_val(s[8]) * 10 + digit_val(s[9]);
        let h = digit_val(s[11]) * 10 + digit_val(s[12]);
        let mi = digit_val(s[14]) * 10 + digit_val(s[15]);
        let sec = digit_val(s[17]) * 10 + digit_val(s[18]);
        if mo < 1 || mo > 12 || d < 1 || d > days_in_month(y, mo) || h > 23 || mi > 59 || sec > 59 {
            None
        } else {
            Some(epoch_of(y, mo, d, h, mi, sec))
        }
    }
}

/// The digit value of a character, or 99 if it is not a decimal digit.
fn digit_of(c: char) -> (r: u64)
    ensures
        is_digit_char(c) ==> r == digit_val(c),
        !is_digit_char(c) ==> r == 99,
{
    let u = c as u32;
    if 48 <= u && u <= 57 {
        (u - 48) as u64
    } else {
        99
    }
}

/// Parses a timestamp in the fixed format, returning seconds since
/// 1970-01-01T00:00:00; `None` exactly on the strings the format rejects.
pub fn parse_timestamp(s: &str) -> (r: Option<i64>)
    ensures
        match r {
            Some(e) => parse_ts(s@) == Some(e as int),
            None => parse_ts(s@) is None,
        },
{
    if s.unicode_len() != 19 {
        return None;
    }
    let c4 = s.get_char(4);
    let c7 = s.get_char(7);
    let c10 = s.get_char(10);
    let c13 = s.get_char(13);
    let c16 = s.get_char(16);
    let d0 = digit_of(s.get_char(0));
    let d1 = digit_of(s.get_char(1));
    let d2 = digit_of(s.get_char(2));
    let d3 = digit_of(s.get_char(3));
    let d5 = digit_of(s.get_char(5));
    let d6 = digit_of(s.get_char(6));
    let d8 = digit_of(s.get_char(8));
    let d9 = digit_of(s.get_char(9));
    let d11 = digit_of(s.get_char(11));
    let d12 = digit_of(s.get_char(12));
    let d14 = digit_of(s.get_char(14));
    let d15 = digit_of(s.get_char(15));
    let d17 = digit_of(s.get_char(17));
    let d18 = digit_of(s.get_char(18));
    if c4 != '-' || c7 != '-' || c10 != 'T' || c13 != ':' || c16 != ':' {
        return None;
    }
    if d0 > 9 || d1 > 9 || d2 > 9 || d3 > 9 || d5 > 9 || d6 > 9 || d8 > 9 || d9 > 9 || d11 > 9
        || d12 > 9 || d14 > 9 || d15 > 9 || d17 > 9 || d18 > 9 {
        return None;
    }
    let y: u64 = d0 * 1000 + d1 * 100 + d2 * 10 + d3;
    let mo: u64 = d5 * 10 + d6;
    let d: u64 = d8 * 10 + d9;
    let h: u64 = d11 * 10 + d12;
    let mi: u64 = d14 * 10 + d15;
    let sec: u64 = d17 * 10 + d18;
    let dim: u64 = if mo == 2 {
        if (y % 4 == 0) && (y % 100 != 0 || y % 400 == 0) {
            29
        } else {
            28
        }
    } else if mo == 4 || mo == 6 || mo == 9 || mo == 11 {
        30
    } else {
        31
    };
    if mo < 1 || mo > 12 || d < 1 || d > dim || h > 23 || mi > 59 || sec > 59 {
        return None;
    }
    // era-based civil day count
    let yy_off: u64 = if mo <= 2 {
        y + 399
    } else {
        y + 400
    };
    let q: u64 = yy_off / 400;
    let yoe: u64 = yy_off % 400;
    proof {
        lemma_fundamental_div_mod(yy_off as int, 400);
        assert(yy_off == 400 * q + yoe);
        assert(yoe < 400);
        assert(q <= 25);
    }
    let mp: u64 = if mo > 2 {
        mo - 3
    } else {
        mo + 9
    };
    let doy: u64 = (153 * mp + 2) / 5 + d - 1;
    let doe: u64 = yoe * 365 + yoe / 4 + doy - yoe / 100;
    let days: i64 = (q as i64 - 1) * 146097 + doe as i64 - 719468;
    let epoch: i64 = days * 86400 + (h * 3600 + mi * 60 + sec) as i64;
    proof {
        let yi = y as int;
        let yy: int = if mo <= 2 {
            yi - 1
        } else {
            yi
        };
        assert(yy_off == yy + 400);
        lemma_fundamental_div_mod(yy + 400, 400);
        let era = (yy + 400) / 400 - 1;
        assert(q == era + 1);
        assert(yoe == yy - era * 400);
        assert(doe == yoe * 365 + yoe as int / 4 - yoe as int / 100 + doy);
        assert(days == era * 146097 + doe - 719468);
        assert(epoch == epoch_of(yi, mo as int, d as int, h as int, mi as int, sec as int));
    }
    Some(epoch)
}

} // verus!
