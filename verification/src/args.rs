//! Interpreting what the user typed: numeric command-line arguments and
//! confirmation-prompt answers.
//!
//! An argument that fails validation here is rejected before any operation
//! touches the repository.

use crate::error::Error;
use crate::path::all_digits;
use crate::path::char_digit_value;
use crate::path::digits_val;
use crate::path::is_digit_char;
use crate::path::lemma_digits_val_prefix;
use crate::task::trim;
use crate::task::trim_spec;
use vstd::prelude::*;

verus! {

/// The digits of a count argument: the text after an optional single
/// leading plus sign.
pub open spec fn count_digits_of(s: Seq<char>) -> Seq<char> {
    if s.len() > 0 && s[0] == '+' {
        s.drop_first()
    } else {
        s
    }
}

/// Whether `s` denotes a count: an optional plus sign, then at least one
/// decimal digit, and small enough to represent.
pub open spec fn is_count_arg(s: Seq<char>) -> bool {
    &&& count_digits_of(s).len() > 0
    &&& all_digits(count_digits_of(s))
    &&& digits_val(count_digits_of(s)) <= usize::MAX
}

/// Parse a non-negative count from its decimal representation, with an
/// optional leading plus sign.  Returns `None` when `s` has no digits,
/// holds any other character, or denotes a value too large to represent.
pub fn parse_count(s: &str) -> (r: Option<usize>)
    ensures
        match r {
            Some(v) => is_count_arg(s@) && v == digits_val(count_digits_of(s@)),
            None => !is_count_arg(s@),
        },
{
    let ghost sv = s@;
    let n = s.unicode_len();
    if n == 0 {
        return None;
    }
    let start: usize = if s.get_char(0) == '+' {
        1
    } else {
        0
    };
    let ghost ds = count_digits_of(sv);
    proof {
        assert(ds =~= sv.subrange(start as int, n as int));
    }
    if start == n {
        // a bare plus sign has no digits
        return None;
    }
    let mut value: usize = 0;
    let mut i: usize = start;
    while i < n
        invariant
            start <= i <= n,
            sv == s@,
            n == sv.len(),
            ds == count_digits_of(sv),
            ds == sv.subrange(start as int, n as int),
            forall|j: int| 0 <= j < i - start ==> is_digit_char(#[trigger] ds[j]),
            value == digits_val(ds.take(i - start)),
        decreases n - i,
    {
        let c = s.get_char(i);
        assert(c == ds[i - start]);
        if c < '0' || c > '9' {
            assert(!all_digits(ds));
            return None;
        }
        let d = char_digit_value(c);
        proof {
            assert(ds.take(i - start + 1).drop_last() =~= ds.take(i - start));
            assert(ds.take(i - start + 1).last() == ds[i - start]);
        }
        if value > usize::MAX / 10 || (value == usize::MAX / 10 && d > usize::MAX % 10) {
            proof {
                assert(digits_val(ds.take(i - start + 1)) == value * 10 + d);
                assert(value * 10 + d > usize::MAX);
                if all_digits(ds) {
                    lemma_digits_val_prefix(ds, i - start + 1);
                }
            }
            return None;
        }
        value = value * 10 + d;
        i = i + 1;
    }
    assert(ds.take(ds.len() as int) =~= ds);
    Some(value)
}

/// Parse the limit argument of a tail query: the maximum number of
/// entries to show.  The limit must be a decimal number of at least one;
/// anything else is an invalid argument, reported before the repository
/// is touched.
pub fn parse_limit(s: &str) -> (r: Result<usize, Error>)
    ensures
        match r {
            Ok(v) => is_count_arg(s@) && v == digits_val(count_digits_of(s@)) && v >= 1,
            Err(e) => {
                &&& !(is_count_arg(s@) && digits_val(count_digits_of(s@)) >= 1)
                &&& (e matches Error::InvalidArg(m) && m@ == (if is_count_arg(s@) {
                    "limit must be >= 1"@
                } else {
                    "limit must be an integer"@
                }))
            },
        },
{
    match parse_count(s) {
        Some(v) => {
            if v == 0 {
                Err(Error::InvalidArg("limit must be >= 1"))
            } else {
                Ok(v)
            }
        },
        None => Err(Error::InvalidArg("limit must be an integer")),
    }
}

/// Whether a prompt answer means yes: its trimmed text reads "y" or
/// "yes", in any mix of letter cases.
pub open spec fn affirmative_spec(s: Seq<char>) -> bool {
    let t = trim_spec(s);
    ||| (t.len() == 1 && (t[0] == 'y' || t[0] == 'Y'))
    ||| (t.len() == 3 && (t[0] == 'y' || t[0] == 'Y') && (t[1] == 'e' || t[1] == 'E') && (t[2]
        == 's' || t[2] == 'S'))
}

/// Whether the answer the user typed at a confirmation prompt means yes.
pub fn is_affirmative(s: &str) -> (r: bool)
    ensures
        r == affirmative_spec(s@),
{
    let t = trim(s);
    let n = t.as_str().unicode_len();
    if n == 1 {
        let c = t.as_str().get_char(0);
        c == 'y' || c == 'Y'
    } else if n == 3 {
        let c0 = t.as_str().get_char(0);
        let c1 = t.as_str().get_char(1);
        let c2 = t.as_str().get_char(2);
        (c0 == 'y' || c0 == 'Y') && (c1 == 'e' || c1 == 'E') && (c2 == 's' || c2 == 'S')
    } else {
        false
    }
}

} // verus!
