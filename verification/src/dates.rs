//! Rendering a creation date as `Mon DD YYYY` (short month name, zero-padded
//! day, zero-padded year).

use vstd::prelude::*;
use crate::domain::Created;
use crate::text::{dec_str, to_dec};

verus! {

/// The short English name of a month, 1 through 12; out-of-range values fall
/// back to the first month.
pub open spec fn month_abbr(m: u8) -> Seq<char> {
    if m == 2 {
        "Feb"@
    } else if m == 3 {
        "Mar"@
    } else if m == 4 {
        "Apr"@
    } else if m == 5 {
        "May"@
    } else if m == 6 {
        "Jun"@
    } else if m == 7 {
        "Jul"@
    } else if m == 8 {
        "Aug"@
    } else if m == 9 {
        "Sep"@
    } else if m == 10 {
        "Oct"@
    } else if m == 11 {
        "Nov"@
    } else if m == 12 {
        "Dec"@
    } else {
        "Jan"@
    }
}

/// `s` padded with zeros to at least two characters.
pub open spec fn pad2(s: Seq<char>) -> Seq<char> {
    if s.len() >= 2 {
        s
    } else {
        "0"@ + s
    }
}

/// `s` padded with zeros to at least four characters.
pub open spec fn pad4(s: Seq<char>) -> Seq<char> {
    if s.len() >= 4 {
        s
    } else if s.len() == 3 {
        "0"@ + s
    } else if s.len() == 2 {
        "00"@ + s
    } else if s.len() == 1 {
        "000"@ + s
    } else {
        "0000"@ + s
    }
}

/// The rendering of a year, zero-padded to four digits, with a sign when
/// negative.
pub open spec fn year_str(y: int) -> Seq<char> {
    if y < 0 {
        "-"@ + pad4(dec_str((-y) as nat))
    } else {
        pad4(dec_str(y as nat))
    }
}

/// The full date rendering: short month, space, two-digit day, space,
/// four-digit year.
pub open spec fn date_str(c: Created) -> Seq<char> {
    month_abbr(c.month) + " "@ + pad2(dec_str(c.day as nat)) + " "@ + year_str(c.year as int)
}

fn month_str(m: u8) -> (r: &'static str)
    ensures
        r@ == month_abbr(m),
{
    if m == 2 {
        "Feb"
    } else if m == 3 {
        "Mar"
    } else if m == 4 {
        "Apr"
    } else if m == 5 {
        "May"
    } else if m == 6 {
        "Jun"
    } else if m == 7 {
        "Jul"
    } else if m == 8 {
        "Aug"
    } else if m == 9 {
        "Sep"
    } else if m == 10 {
        "Oct"
    } else if m == 11 {
        "Nov"
    } else if m == 12 {
        "Dec"
    } else {
        "Jan"
    }
}

fn pad2_str(s: String) -> (r: String)
    ensures
        r@ == pad2(s@),
{
    let n: usize = s.as_str().unicode_len();
    if n >= 2 {
        s
    } else {
        let p: String = "0".to_owned();
        p.concat(s.as_str())
    }
}

fn pad4_str(s: String) -> (r: String)
    ensures
        r@ == pad4(s@),
{
    let n: usize = s.as_str().unicode_len();
    if n >= 4 {
        s
    } else if n == 3 {
        let p: String = "0".to_owned();
        p.concat(s.as_str())
    } else if n == 2 {
        let p: String = "00".to_owned();
        p.concat(s.as_str())
    } else if n == 1 {
        let p: String = "000".to_owned();
        p.concat(s.as_str())
    } else {
        let p: String = "0000".to_owned();
        p.concat(s.as_str())
    }
}

fn year_string(y: i32) -> (r: String)
    ensures
        r@ == year_str(y as int),
{
    let yw: i64 = y as i64;
    if yw < 0 {
        let mag: usize = (-yw) as usize;
        proof {
            assert(mag == -(y as int));
        }
        let d = pad4_str(to_dec(mag));
        let p: String = "-".to_owned();
        p.concat(d.as_str())
    } else {
        pad4_str(to_dec(yw as usize))
    }
}

/// Renders a creation date for display and feeds.
pub fn format_date(c: &Created) -> (r: String)
    ensures
        r@ == date_str(*c),
{
    let mut s: String = month_str(c.month).to_owned();
    s.append(" ");
    let d = pad2_str(to_dec(c.day as usize));
    s.append(d.as_str());
    s.append(" ");
    let y = year_string(c.year);
    s.append(y.as_str());
    s
}

} // verus!
