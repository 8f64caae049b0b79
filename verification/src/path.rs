//! Path to a devlog entry file.
//!
//! Devlog entry files are numbered sequentially, starting from one.
//! Each filename is nine digits with the extension ".devlog"; for example,
//! "000000123.devlog".  This ensures that the devlog files appear in
//! sequential order when sorted alphabetically, though all ordering in this
//! library goes by the parsed sequence number, never by the path string.

use crate::error::Error;
use vstd::prelude::*;

verus! {

/// The maximum possible sequence number of a devlog entry file.
pub const MAX_SEQ_NUM: usize = 999_999_999;

/// The number of digits in a devlog entry filename.
pub const NUM_DIGITS: usize = 9;

/// The number of characters in a devlog entry filename: nine digits
/// followed by ".devlog".
pub const NAME_LEN: usize = 16;

/// Whether `c` is a decimal digit.
pub open spec fn is_digit_char(c: char) -> bool {
    '0' <= c && c <= '9'
}

/// The numeric value of a decimal digit character.
pub open spec fn digit_val(c: char) -> int {
    c as int - '0' as int
}

/// The decimal digit character with value `d`.
pub open spec fn digit_char(d: int) -> char {
    if d == 0 {
        '0'
    } else if d == 1 {
        '1'
    } else if d == 2 {
        '2'
    } else if d == 3 {
        '3'
    } else if d == 4 {
        '4'
    } else if d == 5 {
        '5'
    } else if d == 6 {
        '6'
    } else if d == 7 {
        '7'
    } else if d == 8 {
        '8'
    } else {
        '9'
    }
}

/// Ten to the power `k`.
pub open spec fn pow10(k: nat) -> int
    decreases k,
{
    if k == 0 {
        1
    } else {
        10 * pow10((k - 1) as nat)
    }
}

/// The last `k` decimal digits of `n`, most significant first,
/// zero-padded to exactly `k` characters.
pub open spec fn seq_digits(n: int, k: nat) -> Seq<char>
    decreases k,
{
    if k == 0 {
        Seq::empty()
    } else {
        seq_digits(n / 10, (k - 1) as nat).push(digit_char(n % 10))
    }
}

/// The numeric value of a string of decimal digits, most significant first.
pub open spec fn digits_val(s: Seq<char>) -> int
    decreases s.len(),
{
    if s.len() == 0 {
        0
    } else {
        digits_val(s.drop_last()) * 10 + digit_val(s.last())
    }
}

/// Whether every character of `s` is a decimal digit.
pub open spec fn all_digits(s: Seq<char>) -> bool {
    forall|i: int| 0 <= i < s.len() ==> is_digit_char(#[trigger] s[i])
}

/// The filename of the entry with sequence number `n`.
pub open spec fn entry_name(n: int) -> Seq<char> {
    seq_digits(n, NUM_DIGITS as nat) + ".devlog"@
}

/// `name` appended to the directory `dir`, with a separating slash
/// unless `dir` is empty or already ends with one.
pub open spec fn join_path(dir: Seq<char>, name: Seq<char>) -> Seq<char> {
    if dir.len() == 0 {
        name
    } else if dir.last() == '/' {
        dir + name
    } else {
        dir + "/"@ + name
    }
}

/// The full path of the entry with sequence number `n` in directory `dir`.
pub open spec fn entry_path(dir: Seq<char>, n: int) -> Seq<char> {
    join_path(dir, entry_name(n))
}

/// Whether `s` names a devlog entry file: its final component is exactly
/// nine decimal digits followed by ".devlog", and the digits denote a
/// sequence number of at least one.
pub open spec fn is_entry_path(s: Seq<char>) -> bool {
    &&& s.len() >= NAME_LEN
    &&& (s.len() == NAME_LEN || s[s.len() - (NAME_LEN + 1)] == '/')
    &&& all_digits(s.subrange(s.len() - NAME_LEN, s.len() - 7))
    &&& s.subrange(s.len() - 7, s.len() as int) == ".devlog"@
    &&& digits_val(s.subrange(s.len() - NAME_LEN, s.len() - 7)) >= 1
}

/// The sequence number denoted by the digits of an entry path.
pub open spec fn path_seq_num(s: Seq<char>) -> int {
    digits_val(s.subrange(s.len() - NAME_LEN, s.len() - 7))
}

/// The path of the entry with sequence number `n` whose filename replaces
/// the one at the end of `s`.
pub open spec fn replace_entry_name(s: Seq<char>, n: int) -> Seq<char> {
    s.take(s.len() - NAME_LEN) + entry_name(n)
}

/// The mathematical value of a `LogPath`: the path characters and the
/// sequence number they encode.
pub struct LogPathView {
    pub path: Seq<char>,
    pub seq_num: int,
}

/// Whether a `LogPath` value is well formed: the sequence number is in
/// range and the path ends with the filename that encodes it.
pub open spec fn log_path_wf(v: LogPathView) -> bool {
    &&& 1 <= v.seq_num <= MAX_SEQ_NUM
    &&& is_entry_path(v.path)
    &&& path_seq_num(v.path) == v.seq_num
}

/// The path to one devlog entry file, together with the sequence number
/// parsed from its filename.
#[derive(Debug)]
pub struct LogPath {
    path: String,
    seq_num: usize,
}

impl View for LogPath {
    type V = LogPathView;

    closed spec fn view(&self) -> LogPathView {
        LogPathView { path: self.path@, seq_num: self.seq_num as int }
    }
}

impl DeepView for LogPath {
    type V = LogPathView;

    open spec fn deep_view(&self) -> LogPathView {
        self.view()
    }
}

impl LogPath {
    #[verifier::type_invariant]
    closed spec fn type_inv(self) -> bool {
        log_path_wf(self@)
    }

    /// Create a new path with the specified sequence number, which must be
    /// at least one and at most `MAX_SEQ_NUM`.
    pub fn new(dir: &str, seq_num: usize) -> (p: LogPath)
        requires
            1 <= seq_num <= MAX_SEQ_NUM,
        ensures
            p@ == (LogPathView { path: entry_path(dir@, seq_num as int), seq_num: seq_num as int }),
    {
        let name = entry_name_string(seq_num);
        let path = join_dir(dir, name.as_str());
        proof {
            lemma_entry_path_parses(dir@, seq_num as int);
        }
        LogPath { path, seq_num }
    }

    /// Parse the sequence number from a filesystem path.
    /// Returns `None` unless the filename is formatted like
    /// "000000123.devlog" and encodes a sequence number of at least one.
    pub fn from_path(path: String) -> (r: Option<LogPath>)
        ensures
            match r {
                Some(p) => {
                    &&& is_entry_path(path@)
                    &&& p@ == (LogPathView { path: path@, seq_num: path_seq_num(path@) })
                    &&& log_path_wf(p@)
                },
                None => !is_entry_path(path@),
            },
    {
        let ghost s = path@;
        let len = path.as_str().unicode_len();
        if len < NAME_LEN {
            return None;
        }
        if len > NAME_LEN && path.as_str().get_char(len - (NAME_LEN + 1)) != '/' {
            return None;
        }
        let ext = path.as_str().substring_char(len - 7, len);
        if !str_eq(ext, ".devlog") {
            assert(s.subrange(s.len() - 7, s.len() as int) != ".devlog"@);
            return None;
        }
        let ghost stem = s.subrange(s.len() - NAME_LEN, s.len() - 7);
        let mut value: usize = 0;
        let mut i: usize = 0;
        while i < NUM_DIGITS
            invariant
                0 <= i <= NUM_DIGITS,
                path@ == s,
                len == s.len(),
                len >= NAME_LEN,
                stem == s.subrange(s.len() - NAME_LEN, s.len() - 7),
                forall|j: int| 0 <= j < i ==> is_digit_char(#[trigger] stem[j]),
                value == digits_val(stem.take(i as int)),
                0 <= value < pow10(i as nat),
            decreases NUM_DIGITS - i,
        {
            let c = path.as_str().get_char(len - NAME_LEN + i);
            assert(c == stem[i as int]);
            if c < '0' || c > '9' {
                assert(!all_digits(stem));
                return None;
            }
            let d = char_digit_value(c);
            proof {
                lemma_pow10_bounds();
                assert(stem.take(i + 1).drop_last() == stem.take(i as int));
                assert(stem.take(i + 1).last() == stem[i as int]);
            }
            value = value * 10 + d;
            i = i + 1;
        }
        assert(stem.take(NUM_DIGITS as int) == stem);
        if value == 0 {
            return None;
        }
        proof {
            lemma_pow10_bounds();
        }
        let p = LogPath { path, seq_num: value };
        proof {
            assert(is_entry_path(s));
        }
        Some(p)
    }

    /// Returns the path for the next entry in the sequence, in the same
    /// directory.  In the unlikely event that the maximum sequence number
    /// is reached, returns `Error::LogFileLimitExceeded`.
    pub fn next(&self) -> (r: Result<LogPath, Error>)
        ensures
            self@.seq_num < MAX_SEQ_NUM ==> (r matches Ok(p) && p@ == (LogPathView {
                path: replace_entry_name(self@.path, self@.seq_num + 1),
                seq_num: self@.seq_num + 1,
            })),
            self@.seq_num >= MAX_SEQ_NUM ==> (r matches Err(e) && e
                == Error::LogFileLimitExceeded),
    {
        proof {
            use_type_invariant(self);
        }
        if self.seq_num >= MAX_SEQ_NUM {
            return Err(Error::LogFileLimitExceeded);
        }
        let seq_num = self.seq_num + 1;
        let len = self.path.as_str().unicode_len();
        let prefix = self.path.as_str().substring_char(0, len - NAME_LEN);
        let name = entry_name_string(seq_num);
        let mut path = prefix.to_owned();
        path.append(name.as_str());
        proof {
            lemma_prefixed_entry_name_parses(prefix@, seq_num as int);
            assert(prefix@ == self@.path.take(self@.path.len() - NAME_LEN));
            if self@.path.len() > NAME_LEN {
                assert(prefix@.last() == self@.path[self@.path.len() - (NAME_LEN + 1)]);
            }
        }
        Ok(LogPath { path, seq_num })
    }

    /// Returns the sequence number (e.g. "000000123.devlog" has sequence
    /// number 123).
    pub fn seq_num(&self) -> (r: usize)
        ensures
            r == self@.seq_num,
            1 <= r <= MAX_SEQ_NUM,
    {
        proof {
            use_type_invariant(self);
        }
        self.seq_num
    }

    /// Returns the filesystem path.
    pub fn path(&self) -> (r: &str)
        ensures
            r@ == self@.path,
    {
        self.path.as_str()
    }
}

impl Clone for LogPath {
    fn clone(&self) -> (r: Self)
        ensures
            r@ == self@,
    {
        proof {
            use_type_invariant(self);
        }
        LogPath { path: self.path.clone(), seq_num: self.seq_num }
    }
}

/// Equal if and only if the sequence numbers are equal.
impl PartialEq for LogPath {
    fn eq(&self, other: &Self) -> (r: bool) {
        self.seq_num == other.seq_num
    }
}

impl vstd::std_specs::cmp::PartialEqSpecImpl for LogPath {
    open spec fn obeys_eq_spec() -> bool {
        true
    }

    open spec fn eq_spec(&self, other: &Self) -> bool {
        self@.seq_num == other@.seq_num
    }
}

impl Eq for LogPath {

}

/// Order by sequence number.
impl PartialOrd for LogPath {
    fn partial_cmp(&self, other: &Self) -> (r: Option<core::cmp::Ordering>) {
        if self.seq_num < other.seq_num {
            Some(core::cmp::Ordering::Less)
        } else if self.seq_num == other.seq_num {
            Some(core::cmp::Ordering::Equal)
        } else {
            Some(core::cmp::Ordering::Greater)
        }
    }
}

impl vstd::std_specs::cmp::PartialOrdSpecImpl for LogPath {
    open spec fn obeys_partial_cmp_spec() -> bool {
        true
    }

    open spec fn partial_cmp_spec(&self, other: &Self) -> Option<core::cmp::Ordering> {
        if self@.seq_num < other@.seq_num {
            Some(core::cmp::Ordering::Less)
        } else if self@.seq_num == other@.seq_num {
            Some(core::cmp::Ordering::Equal)
        } else {
            Some(core::cmp::Ordering::Greater)
        }
    }
}

/// The numeric value of a digit character.
pub(crate) fn char_digit_value(c: char) -> (d: usize)
    requires
        is_digit_char(c),
    ensures
        d == digit_val(c),
        d < 10,
{
    (c as u32 as usize) - 48
}

/// The decimal digit character with value `d`.
fn digit_str(d: usize) -> (r: &'static str)
    requires
        d < 10,
    ensures
        r@ =~= seq![digit_char(d as int)],
{
    proof {
        reveal_strlit("0");
        reveal_strlit("1");
        reveal_strlit("2");
        reveal_strlit("3");
        reveal_strlit("4");
        reveal_strlit("5");
        reveal_strlit("6");
        reveal_strlit("7");
        reveal_strlit("8");
        reveal_strlit("9");
    }
    if d == 0 {
        "0"
    } else if d == 1 {
        "1"
    } else if d == 2 {
        "2"
    } else if d == 3 {
        "3"
    } else if d == 4 {
        "4"
    } else if d == 5 {
        "5"
    } else if d == 6 {
        "6"
    } else if d == 7 {
        "7"
    } else if d == 8 {
        "8"
    } else {
        "9"
    }
}

/// The last `k` decimal digits of `n`, zero-padded to `k` characters.
pub(crate) fn seq_num_string(n: usize, k: usize) -> (r: String)
    ensures
        r@ == seq_digits(n as int, k as nat),
    decreases k,
{
    if k == 0 {
        let r = String::new();
        assert(r@ =~= seq_digits(n as int, 0));
        r
    } else {
        let mut r = seq_num_string(n / 10, k - 1);
        r.append(digit_str(n % 10));
        assert(r@ =~= seq_digits(n as int, k as nat));
        r
    }
}

/// The filename of the entry with sequence number `n`.
fn entry_name_string(n: usize) -> (r: String)
    ensures
        r@ == entry_name(n as int),
{
    let mut r = seq_num_string(n, NUM_DIGITS);
    r.append(".devlog");
    r
}

/// `name` appended to the directory `dir`, with a separating slash
/// unless `dir` is empty or already ends with one.
pub(crate) fn join_dir(dir: &str, name: &str) -> (r: String)
    ensures
        r@ == join_path(dir@, name@),
{
    let dir_len = dir.unicode_len();
    let mut path = dir.to_owned();
    if dir_len > 0 && dir.get_char(dir_len - 1) != '/' {
        path.append("/");
    }
    path.append(name);
    path
}

/// Whether two strings hold the same characters.
fn str_eq(a: &str, b: &str) -> (r: bool)
    ensures
        r == (a@ == b@),
{
    let x = a.to_owned();
    let y = b.to_owned();
    x == y
}

/// The powers of ten up to the digit count of a filename, as literals.
proof fn lemma_pow10_bounds()
    ensures
        pow10(0) == 1,
        pow10(1) == 10,
        pow10(2) == 100,
        pow10(3) == 1000,
        pow10(4) == 10000,
        pow10(5) == 100000,
        pow10(6) == 1000000,
        pow10(7) == 10000000,
        pow10(8) == 100000000,
        pow10(9) == 1000000000,
{
    reveal_with_fuel(pow10, 11);
}

/// A digit string's value only grows as more digits follow it.
pub proof fn lemma_digits_val_prefix(s: Seq<char>, j: int)
    requires
        0 <= j <= s.len(),
        all_digits(s),
    ensures
        digits_val(s.take(j)) <= digits_val(s),
    decreases s.len() - j,
{
    if j == s.len() {
        assert(s.take(j) =~= s);
    } else {
        lemma_digits_val_prefix(s, j + 1);
        assert(s.take(j + 1).drop_last() =~= s.take(j));
        assert(s.take(j + 1).last() == s[j]);
        assert(all_digits(s.take(j))) by {
            assert(forall|k: int| 0 <= k < j ==> s.take(j)[k] == #[trigger] s[k]);
        }
        lemma_digits_val_bound(s.take(j));
        assert(is_digit_char(s[j]));
    }
}

/// A digit string's value is bounded by ten to its length.
pub proof fn lemma_digits_val_bound(s: Seq<char>)
    requires
        all_digits(s),
    ensures
        0 <= digits_val(s) < pow10(s.len() as nat),
    decreases s.len(),
{
    if s.len() == 0 {
    } else {
        assert(all_digits(s.drop_last())) by {
            assert(forall|i: int|
                0 <= i < s.len() - 1 ==> s.drop_last()[i] == #[trigger] s[i]);
        }
        lemma_digits_val_bound(s.drop_last());
        assert(is_digit_char(s.last()));
        assert(0 <= digit_val(s.last()) <= 9);
    }
}

/// Generating `k` digits of `n` and reading them back yields `n` again.
pub proof fn lemma_digits_round_trip(n: int, k: nat)
    requires
        0 <= n < pow10(k),
    ensures
        seq_digits(n, k).len() == k,
        all_digits(seq_digits(n, k)),
        digits_val(seq_digits(n, k)) == n,
    decreases k,
{
    if k == 0 {
    } else {
        assert(pow10(k) == 10 * pow10((k - 1) as nat));
        assert(n / 10 < pow10((k - 1) as nat)) by {
            if n / 10 >= pow10((k - 1) as nat) {
                assert(n >= 10 * (n / 10)) by (nonlinear_arith)
                    requires n >= 0;
                assert(10 * (n / 10) >= 10 * pow10((k - 1) as nat)) by (nonlinear_arith)
                    requires n / 10 >= pow10((k - 1) as nat);
            }
        }
        lemma_digits_round_trip(n / 10, (k - 1) as nat);
        let rest = seq_digits(n / 10, (k - 1) as nat);
        let whole = seq_digits(n, k);
        assert(whole == rest.push(digit_char(n % 10)));
        assert(whole.drop_last() == rest);
        assert(0 <= n % 10 <= 9);
        assert(is_digit_char(digit_char(n % 10)));
        assert(digit_val(digit_char(n % 10)) == n % 10);
        assert(digits_val(whole) == (n / 10) * 10 + n % 10);
    }
}

/// A path made of any prefix that is empty or ends with a slash, followed
/// by the filename for sequence number `n`, parses back to `n`.
pub proof fn lemma_prefixed_entry_name_parses(prefix: Seq<char>, n: int)
    requires
        1 <= n <= MAX_SEQ_NUM,
        prefix.len() == 0 || prefix.last() == '/',
    ensures
        is_entry_path(prefix + entry_name(n)),
        path_seq_num(prefix + entry_name(n)) == n,
        (prefix + entry_name(n)).len() == prefix.len() + NAME_LEN,
{
    lemma_pow10_bounds();
    lemma_digits_round_trip(n, NUM_DIGITS as nat);
    reveal_strlit(".devlog");
    let s = prefix + entry_name(n);
    let digits = seq_digits(n, NUM_DIGITS as nat);
    assert(entry_name(n).len() == NAME_LEN);
    assert(s.len() == prefix.len() + NAME_LEN);
    assert(s.subrange(s.len() - NAME_LEN, s.len() - 7) =~= digits);
    assert(s.subrange(s.len() - 7, s.len() as int) =~= ".devlog"@);
    if s.len() > NAME_LEN {
        assert(s[s.len() - (NAME_LEN + 1)] == prefix.last());
    }
}

/// Law: the path generated for a directory and a valid sequence number
/// always parses back to that same sequence number (round trip).
pub proof fn lemma_entry_path_parses(dir: Seq<char>, n: int)
    requires
        1 <= n <= MAX_SEQ_NUM,
    ensures
        is_entry_path(entry_path(dir, n)),
        path_seq_num(entry_path(dir, n)) == n,
        log_path_wf(LogPathView { path: entry_path(dir, n), seq_num: n }),
{
    reveal_strlit("/");
    if dir.len() == 0 {
        lemma_prefixed_entry_name_parses(Seq::empty(), n);
        assert(Seq::<char>::empty() + entry_name(n) =~= entry_name(n));
        assert(entry_path(dir, n) == entry_name(n));
    } else if dir.last() == '/' {
        lemma_prefixed_entry_name_parses(dir, n);
    } else {
        let prefix = dir + "/"@;
        assert(prefix.last() == '/');
        lemma_prefixed_entry_name_parses(prefix, n);
        assert(entry_path(dir, n) == prefix + entry_name(n));
    }
}

} // verus!
