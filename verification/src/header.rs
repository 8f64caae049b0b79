//! The header that begins every devlog entry file: the date it was
//! created, and — when asked for — the help text shown to first-time
//! users.

use crate::path::seq_digits;
use crate::path::seq_num_string;
use vstd::prelude::*;

verus! {

/// The help text a header can include for first-time users.
pub const HEADER_HELP: &'static str = "\nWelcome to your devlog!\n\nYou can add tasks below using this format:\n* Use an asterisk (*) for each task you want to complete today.\n^ Use a caret symbol (^) for each task that's in progress.\n+ Use a plus sign (+) for tasks you completed\n- Use a minus sign (-) for tasks that are blocked.\n\nAs you work, you can write your questions, thoughts, and discoveries alongside your tasks.\nThese will be stored in your devlog so you can refer to them later.\n\nTo edit this devlog:\n   devlog edit\n\nTo quickly view tasks:\n   devlog status\n\nTo rollover incomplete tasks to a fresh devlog:\n   devlog rollover\n\nTo view recent devlogs:\n    devlog tail\n\nPlease visit https://devlog-cli.org/ for the full user guide.";

/// The number of characters rendering a year magnitude: at least four,
/// zero-padded, and the magnitude's full digit count beyond ten thousand.
pub open spec fn mag_width(n: int) -> nat {
    if n < 10000 {
        4
    } else if n < 100000 {
        5
    } else if n < 1000000 {
        6
    } else if n < 10000000 {
        7
    } else if n < 100000000 {
        8
    } else if n < 1000000000 {
        9
    } else {
        10
    }
}

/// A date rendered as year, month and day, zero-padded to four, two and
/// two digits and separated by dashes ("2026-10-11").  A negative year
/// carries a leading minus sign.
pub open spec fn date_spec(y: int, m: int, d: int) -> Seq<char> {
    (if y < 0 {
        "-"@ + seq_digits(-y, mag_width(-y))
    } else {
        seq_digits(y, mag_width(y))
    }) + "-"@ + seq_digits(m, 2) + "-"@ + seq_digits(d, 2)
}

/// The header that begins a devlog entry: the date on a line of its own,
/// the first-time help text when asked for, and a closing blank line.
pub open spec fn header_spec(y: int, m: int, d: int, include_help: bool) -> Seq<char> {
    date_spec(y, m, d) + "\n"@ + (if include_help {
        HEADER_HELP@ + "\n"@
    } else {
        Seq::<char>::empty()
    }) + "\n"@
}

/// The number of characters rendering a year magnitude.
fn mag_width_exec(n: u64) -> (k: usize)
    ensures
        k == mag_width(n as int),
{
    if n < 10000 {
        4
    } else if n < 100000 {
        5
    } else if n < 1000000 {
        6
    } else if n < 10000000 {
        7
    } else if n < 100000000 {
        8
    } else if n < 1000000000 {
        9
    } else {
        10
    }
}

/// Render a date as "year-month-day", zero-padded.
pub fn date_string(y: i32, m: u32, d: u32) -> (r: String)
    ensures
        r@ == date_spec(y as int, m as int, d as int),
{
    let mut s: String;
    if y < 0 {
        let mag: u64 = (-(y as i64)) as u64;
        assert(mag <= 0x8000_0000);
        s = "-".to_owned();
        let w = mag_width_exec(mag);
        let digits = seq_num_string(mag as usize, w);
        s.append(digits.as_str());
    } else {
        let mag: u64 = y as u64;
        assert(mag <= 0x8000_0000);
        let w = mag_width_exec(mag);
        s = seq_num_string(mag as usize, w);
    }
    s.append("-");
    let months = seq_num_string(m as usize, 2);
    s.append(months.as_str());
    s.append("-");
    let days = seq_num_string(d as usize, 2);
    s.append(days.as_str());
    assert(s@ =~= date_spec(y as int, m as int, d as int));
    s
}

/// Relies on chrono::Local::now and the chrono::Datelike accessors year,
/// month and day for today's date in the local time zone: chrono documents
/// that month is in 1..=12 and day in 1..=31.  The result depends on the
/// clock, so nothing more is promised.
#[verifier::external_body]
fn today_ymd() -> (r: (i32, u32, u32))
    ensures
        1 <= r.1 <= 12,
        1 <= r.2 <= 31,
{
    let now = chrono::Local::now();
    (
        chrono::Datelike::year(&now),
        chrono::Datelike::month(&now),
        chrono::Datelike::day(&now),
    )
}

/// The header with the given date: the date line, the help text when
/// asked for, and a closing blank line.
pub fn header_text(y: i32, m: u32, d: u32, include_help: bool) -> (r: String)
    ensures
        r@ == header_spec(y as int, m as int, d as int, include_help),
{
    let mut s = date_string(y, m, d);
    s.append("\n");
    if include_help {
        s.append(HEADER_HELP);
        s.append("\n");
    }
    s.append("\n");
    assert(s@ =~= header_spec(y as int, m as int, d as int, include_help));
    s
}

/// The header beginning a new devlog entry, dated today by the system
/// clock: some date with a month and day in calendar range.
pub fn write_header(include_help: bool) -> (r: String)
    ensures
        exists|y: int, m: int, d: int|
            1 <= m <= 12 && 1 <= d <= 31 && r@ == #[trigger] header_spec(y, m, d, include_help),
{
    let (y, m, d) = today_ymd();
    let r = header_text(y, m, d, include_help);
    proof {
        assert(1 <= m as int <= 12 && 1 <= d as int <= 31 && r@ == header_spec(
            y as int,
            m as int,
            d as int,
            include_help,
        ));
    }
    r
}

} // verus!
