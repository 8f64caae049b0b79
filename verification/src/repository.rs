//! A devlog repository is a directory containing devlog entry files.
//!
//! The repository itself holds no state beyond the directory path: every
//! query works from a fresh listing of the directory's file names, which
//! the caller obtains and passes in.  Directory enumeration order is
//! filesystem-defined, so every query ranks the entries by parsed sequence
//! number and never relies on the order of the listing.

use crate::path::LogPath;
use crate::path::LogPathView;
use crate::path::entry_path;
use crate::path::is_entry_path;
use crate::path::join_path;
use crate::path::path_seq_num;
use vstd::multiset::Multiset;
use vstd::prelude::*;

verus! {

/// The text seeding the first entry of a new repository.
pub const SEED_TEXT: &'static str = "Welcome to your devlog!\n\nYou can add tasks below using this format:\n* Use an asterisk (*) for each task you want to complete today.\n^ Use a caret symbol (^) for tasks that are in progress.\n+ Use a plus sign (+) for tasks you completed\n- Use a minus sign (-) for tasks that are blocked.\n\nAs you work, you can write your questions, thoughts,\nand discoveries alongside your tasks.  These will be\nstored in your devlog so you can refer to them later.\n\nTo edit this devlog:\n   devlog edit\n\nTo quickly view tasks:\n   devlog status\n\nTo rollover incomplete tasks to a fresh devlog:\n   devlog rollover\n\nTo view recent devlogs:\n    devlog tail\n\nPlease visit https://devlog-cli.org/ for the full user guide.\n";

/// The entry denoted by the file name `name` inside the directory `dir`,
/// if that name follows the entry naming scheme.
pub open spec fn parse_entry(dir: Seq<char>, name: Seq<char>) -> Option<LogPathView> {
    let path = join_path(dir, name);
    if is_entry_path(path) {
        Some(LogPathView { path, seq_num: path_seq_num(path) })
    } else {
        None
    }
}

/// The entries denoted by the file names `names` inside `dir`, in the
/// order the names were given; names that do not follow the entry naming
/// scheme are dropped.
pub open spec fn list_spec(dir: Seq<char>, names: Seq<Seq<char>>) -> Seq<LogPathView>
    decreases names.len(),
{
    if names.len() == 0 {
        Seq::empty()
    } else {
        list_spec(dir, names.drop_last()) + match parse_entry(dir, names.last()) {
            Some(v) => seq![v],
            None => Seq::<LogPathView>::empty(),
        }
    }
}

/// `x` inserted into `sorted` before the first element whose sequence
/// number is strictly smaller.
pub open spec fn insert_desc(sorted: Seq<LogPathView>, x: LogPathView) -> Seq<LogPathView>
    decreases sorted.len(),
{
    if sorted.len() == 0 {
        seq![x]
    } else if x.seq_num > sorted[0].seq_num {
        seq![x] + sorted
    } else {
        seq![sorted[0]] + insert_desc(sorted.drop_first(), x)
    }
}

/// The entries of `s` ranked by descending sequence number.
pub open spec fn sort_desc(s: Seq<LogPathView>) -> Seq<LogPathView>
    decreases s.len(),
{
    if s.len() == 0 {
        Seq::empty()
    } else {
        insert_desc(sort_desc(s.drop_last()), s.last())
    }
}

/// Whether the sequence numbers of `s` never increase from left to right.
pub open spec fn sorted_desc(s: Seq<LogPathView>) -> bool {
    forall|i: int, j: int| 0 <= i < j < s.len() ==> s[i].seq_num >= s[j].seq_num
}

/// The element of `s` with the greatest sequence number; among equals,
/// the earliest.
pub open spec fn max_entry(s: Seq<LogPathView>) -> LogPathView
    decreases s.len(),
{
    if s.len() <= 1 {
        s[0]
    } else {
        let m = max_entry(s.drop_last());
        if s.last().seq_num > m.seq_num {
            s.last()
        } else {
            m
        }
    }
}

/// The most recent entries of the listing, ranked by descending sequence
/// number and cut off after `limit` entries.
pub open spec fn tail_spec(dir: Seq<char>, names: Seq<Seq<char>>, limit: int) -> Seq<LogPathView> {
    let sorted = sort_desc(list_spec(dir, names));
    sorted.take(vstd::math::min(limit, sorted.len() as int))
}

/// Represents a devlog repository: the directory meant to hold the entry
/// files.  The directory may or may not exist.
#[derive(Debug)]
pub struct LogRepository {
    dir: String,
}

impl View for LogRepository {
    type V = Seq<char>;

    closed spec fn view(&self) -> Seq<char> {
        self.dir@
    }
}

impl LogRepository {
    /// Creates a handle to the devlog repository at the specified path.
    /// The directory may or may not exist.
    pub fn new(p: &str) -> (r: LogRepository)
        ensures
            r@ == p@,
    {
        LogRepository { dir: p.to_owned() }
    }

    /// Returns the path to the repository directory,
    /// which may or may not exist.
    pub fn path(&self) -> (r: &str)
        ensures
            r@ == self@,
    {
        self.dir.as_str()
    }

    /// Returns the paths of the devlog entry files among the given
    /// directory file names.  The result keeps the order of `names`,
    /// which is not necessarily ordered by recency.
    pub fn list(&self, names: &Vec<String>) -> (r: Vec<LogPath>)
        ensures
            r.deep_view() == list_spec(self@, names.deep_view()),
    {
        let ghost dir = self@;
        let ghost names_view = names.deep_view();
        let mut r: Vec<LogPath> = Vec::new();
        assert(r.deep_view() =~= list_spec(dir, names_view.take(0)));
        let mut i: usize = 0;
        while i < names.len()
            invariant
                0 <= i <= names.len(),
                names_view == names.deep_view(),
                names_view.len() == names.len(),
                r.deep_view() == list_spec(self@, names_view.take(i as int)),
                dir == self@,
            decreases names.len() - i,
        {
            let path = crate::path::join_dir(self.dir.as_str(), names[i].as_str());
            assert(names_view[i as int] == names@[i as int]@);
            let ghost old_r = r.deep_view();
            match LogPath::from_path(path) {
                Some(p) => {
                    r.push(p);
                    assert(r.deep_view() =~= old_r + seq![p@]);
                },
                None => {
                    assert(r.deep_view() =~= old_r + Seq::<LogPathView>::empty());
                },
            }
            proof {
                assert(names_view.take(i + 1).drop_last() =~= names_view.take(i as int));
                assert(names_view.take(i + 1).last() == names_view[i as int]);
            }
            i = i + 1;
        }
        assert(names_view.take(names_view.len() as int) =~= names_view);
        r
    }

    /// Checks if the repository has been initialized: true if and only if
    /// the directory listing holds at least one entry file.
    pub fn initialized(&self, names: &Vec<String>) -> (r: bool)
        ensures
            r == (list_spec(self@, names.deep_view()).len() > 0),
    {
        let entries = self.list(names);
        entries.len() > 0
    }

    /// Initializes the repository: returns the path of the first devlog
    /// entry file, with sequence number one, and the text that seeds it.
    /// The caller creates that file exclusively, failing if it already
    /// exists.
    pub fn init(&self) -> (r: (LogPath, String))
        ensures
            r.0@ == (LogPathView { path: entry_path(self@, 1), seq_num: 1 }),
            r.1@ == SEED_TEXT@,
    {
        let p = LogPath::new(self.dir.as_str(), 1);
        let content = SEED_TEXT.to_owned();
        (p, content)
    }

    /// Returns the most recent devlog entry file paths among the given
    /// directory file names, most recent first.  `limit` is the maximum
    /// number of paths that may be returned.
    pub fn tail(&self, names: &Vec<String>, limit: usize) -> (r: Vec<LogPath>)
        ensures
            r.deep_view() == tail_spec(self@, names.deep_view(), limit as int),
    {
        let entries = self.list(names);
        let mut sorted = sort_paths_desc(&entries);
        let ghost sorted_view = sorted.deep_view();
        if limit < sorted.len() {
            sorted.truncate(limit);
            assert(sorted.deep_view() =~= sorted_view.take(limit as int));
        }
        proof {
            let l = list_spec(self@, names.deep_view());
            lemma_sort_desc_ensures(l);
            if limit >= sorted_view.len() {
                assert(sorted_view.take(sorted_view.len() as int) =~= sorted_view);
            }
        }
        sorted
    }

    /// Returns the most recent devlog entry file path among the given
    /// directory file names, or `None` if there is no entry file.
    pub fn latest(&self, names: &Vec<String>) -> (r: Option<LogPath>)
        ensures
            match r {
                Some(p) => {
                    &&& list_spec(self@, names.deep_view()).len() > 0
                    &&& p@ == sort_desc(list_spec(self@, names.deep_view()))[0]
                },
                None => list_spec(self@, names.deep_view()).len() == 0,
            },
    {
        let ghost l = list_spec(self@, names.deep_view());
        let entries = self.list(names);
        if entries.len() == 0 {
            return None;
        }
        let mut best: LogPath = entries[0].clone();
        assert(l.len() == entries@.len());
        assert(best@ == l[0]);
        assert(l.take(1)[0] == l[0]);
        assert(best@ == max_entry(l.take(1)));
        let mut i: usize = 1;
        while i < entries.len()
            invariant
                1 <= i <= entries.len(),
                entries.deep_view() == l,
                l.len() == entries.len(),
                best@ == max_entry(l.take(i as int)),
            decreases entries.len() - i,
        {
            proof {
                assert(l.take(i + 1).drop_last() =~= l.take(i as int));
                assert(l.take(i + 1).last() == l[i as int]);
            }
            if entries[i].seq_num() > best.seq_num() {
                best = entries[i].clone();
            }
            i = i + 1;
        }
        assert(l.take(l.len() as int) =~= l);
        proof {
            lemma_sort_desc_first_is_max(l);
        }
        Some(best)
    }

    /// Returns the "nth" most recent devlog entry file path among the
    /// given directory file names.  For example, `n=0` is the most recent
    /// entry, `n=1` is the second most recent entry, and so on.  Returns
    /// `None` if the listing holds fewer than `n + 1` entry files.
    pub fn nth_from_latest(&self, names: &Vec<String>, n: usize) -> (r: Option<LogPath>)
        ensures
            match r {
                Some(p) => {
                    &&& n < list_spec(self@, names.deep_view()).len()
                    &&& p@ == sort_desc(list_spec(self@, names.deep_view()))[n as int]
                },
                None => n >= list_spec(self@, names.deep_view()).len(),
            },
    {
        let ghost l = list_spec(self@, names.deep_view());
        proof {
            lemma_sort_desc_ensures(l);
        }
        if n == 0 {
            self.latest(names)
        } else if n == usize::MAX {
            // There cannot be more entries than the listing holds, and the
            // listing cannot hold more than `usize::MAX` names, so there is
            // no entry this far back.
            let entries = self.list(names);
            let count = entries.len();
            assert(l.len() == count);
            None
        } else {
            let mut t = self.tail(names, n + 1);
            let ghost tv = t.deep_view();
            let ghost sorted = sort_desc(l);
            if t.len() > n {
                let p = t.remove(n);
                assert(tv.len() == t@.len() + 1);
                assert(p@ == tv[n as int]);
                assert(tv == sorted.take(vstd::math::min(n + 1, sorted.len() as int)));
                assert(tv[n as int] == sorted[n as int]);
                Some(p)
            } else {
                assert(tv.len() == t@.len());
                None
            }
        }
    }
}

/// The entries ranked by descending sequence number.
fn sort_paths_desc(v: &Vec<LogPath>) -> (r: Vec<LogPath>)
    ensures
        r.deep_view() == sort_desc(v.deep_view()),
{
    let ghost s = v.deep_view();
    let mut r: Vec<LogPath> = Vec::new();
    assert(r.deep_view() =~= sort_desc(s.take(0)));
    let mut i: usize = 0;
    while i < v.len()
        invariant
            0 <= i <= v.len(),
            s == v.deep_view(),
            s.len() == v.len(),
            r.deep_view() == sort_desc(s.take(i as int)),
        decreases v.len() - i,
    {
        proof {
            assert(s.take(i + 1).drop_last() =~= s.take(i as int));
            assert(s.take(i + 1).last() == s[i as int]);
        }
        let x = v[i].clone();
        insert_path_desc(&mut r, x);
        i = i + 1;
    }
    assert(s.take(s.len() as int) =~= s);
    r
}

/// Insert `x` into the ranked entries `r`, before the first entry whose
/// sequence number is strictly smaller.
fn insert_path_desc(r: &mut Vec<LogPath>, x: LogPath)
    ensures
        final(r).deep_view() == insert_desc(old(r).deep_view(), x@),
{
    let ghost s = r.deep_view();
    let mut j: usize = 0;
    while j < r.len() && !(x.seq_num() > r[j].seq_num())
        invariant
            0 <= j <= r.len(),
            s == r.deep_view(),
            s.len() == r.len(),
            forall|k: int| 0 <= k < j ==> !(x@.seq_num > s[k].seq_num),
        decreases r.len() - j,
    {
        j = j + 1;
    }
    let ghost xv = x@;
    let ghost rv = r@;
    r.insert(j, x);
    proof {
        rv.insert_ensures(j as int, x);
        assert(r.deep_view() =~= s.take(j as int) + seq![xv] + s.skip(j as int));
        lemma_insert_desc_at(s, xv, j as int);
    }
}

/// Where `insert_desc` places the new entry: after every entry whose
/// sequence number is at least as large, before the rest.
proof fn lemma_insert_desc_at(s: Seq<LogPathView>, x: LogPathView, j: int)
    requires
        0 <= j <= s.len(),
        forall|k: int| 0 <= k < j ==> !(x.seq_num > s[k].seq_num),
        j == s.len() || x.seq_num > s[j].seq_num,
    ensures
        insert_desc(s, x) == s.take(j) + seq![x] + s.skip(j),
    decreases j,
{
    if j == 0 {
        if s.len() == 0 {
            assert(insert_desc(s, x) =~= s.take(0) + seq![x] + s.skip(0));
        } else {
            assert(insert_desc(s, x) =~= s.take(0) + seq![x] + s.skip(0));
        }
    } else {
        let t = s.drop_first();
        assert(forall|k: int| 0 <= k < j - 1 ==> t[k] == s[k + 1]);
        if j - 1 < t.len() {
            assert(t[j - 1] == s[j]);
        }
        lemma_insert_desc_at(t, x, j - 1);
        assert(insert_desc(s, x) == seq![s[0]] + insert_desc(t, x));
        assert(seq![s[0]] + (t.take(j - 1) + seq![x] + t.skip(j - 1)) =~= s.take(j) + seq![x]
            + s.skip(j));
    }
}

/// Ranking keeps exactly the given entries: the result is a permutation
/// of the input, ordered by descending sequence number.
pub proof fn lemma_sort_desc_ensures(s: Seq<LogPathView>)
    ensures
        sort_desc(s).len() == s.len(),
        sort_desc(s).to_multiset() == s.to_multiset(),
        sorted_desc(sort_desc(s)),
    decreases s.len(),
{
    broadcast use vstd::seq_lib::group_to_multiset_ensures;

    if s.len() == 0 {
        assert(sort_desc(s).to_multiset() =~= s.to_multiset());
    } else {
        let t = s.drop_last();
        lemma_sort_desc_ensures(t);
        lemma_insert_desc_ensures(sort_desc(t), s.last());
        assert(t.push(s.last()) =~= s);
        assert(sort_desc(t).to_multiset().insert(s.last()) =~= t.to_multiset().insert(s.last()));
    }
}

/// Inserting into a ranked sequence keeps it ranked and adds exactly the
/// new entry.
proof fn lemma_insert_desc_ensures(s: Seq<LogPathView>, x: LogPathView)
    requires
        sorted_desc(s),
    ensures
        insert_desc(s, x).len() == s.len() + 1,
        insert_desc(s, x).to_multiset() == s.to_multiset().insert(x),
        sorted_desc(insert_desc(s, x)),
    decreases s.len(),
{
    broadcast use vstd::seq_lib::group_to_multiset_ensures;

    if s.len() == 0 {
        assert(insert_desc(s, x) =~= Seq::empty().push(x));
        assert(Seq::<LogPathView>::empty().to_multiset().insert(x) =~= s.to_multiset().insert(
            x,
        ));
    } else if x.seq_num > s[0].seq_num {
        let out = seq![x] + s;
        assert(out =~= seq![x] + s);
        lemma_multiset_of_cons(x, s);
        assert forall|i: int, j: int| 0 <= i < j < out.len() implies out[i].seq_num
            >= out[j].seq_num by {
            if i > 0 {
                assert(out[i] == s[i - 1]);
                assert(out[j] == s[j - 1]);
            } else {
                assert(out[j] == s[j - 1]);
                assert(s[0].seq_num >= s[j - 1].seq_num);
            }
        }
    } else {
        let t = s.drop_first();
        assert(forall|i: int, j: int|
            0 <= i < j < t.len() ==> t[i].seq_num >= t[j].seq_num) by {
            assert(forall|k: int| 0 <= k < t.len() ==> t[k] == s[k + 1]);
        }
        lemma_insert_desc_ensures(t, x);
        let inner = insert_desc(t, x);
        let out = seq![s[0]] + inner;
        assert(insert_desc(s, x) == out);
        lemma_multiset_of_cons(s[0], inner);
        lemma_multiset_of_cons(s[0], t);
        assert(s =~= seq![s[0]] + t);
        assert(s.to_multiset() =~= t.to_multiset().insert(s[0]));
        assert(out.to_multiset() =~= s.to_multiset().insert(x));
        // every element of the inner insertion is either x or an element
        // of t, so the head still dominates it
        assert forall|i: int, j: int| 0 <= i < j < out.len() implies out[i].seq_num
            >= out[j].seq_num by {
            if i == 0 {
                let e = out[j];
                assert(inner[j - 1] == e);
                assert(inner.to_multiset().count(e) > 0);
                if e == x {
                } else {
                    assert(t.to_multiset().count(e) > 0);
                    let k = choose|k: int| 0 <= k < t.len() && t[k] == e;
                    assert(s[0].seq_num >= s[k + 1].seq_num);
                }
            } else {
                assert(out[i] == inner[i - 1]);
                assert(out[j] == inner[j - 1]);
            }
        }
    }
}

/// Prepending one entry adds exactly that entry to the multiset.
proof fn lemma_multiset_of_cons(x: LogPathView, s: Seq<LogPathView>)
    ensures
        (seq![x] + s).to_multiset() == s.to_multiset().insert(x),
{
    broadcast use vstd::seq_lib::group_to_multiset_ensures;

    let out = seq![x] + s;
    assert(out.drop_first() =~= s);
    assert(out =~= out.drop_first().insert(0, x));
    vstd::seq_lib::lemma_multiset_commutative(seq![x], s);
    assert(seq![x].to_multiset() =~= Multiset::empty().insert(x)) by {
        assert(seq![x] =~= Seq::empty().push(x));
    }
    assert(Multiset::empty().insert(x).add(s.to_multiset()) =~= s.to_multiset().insert(x));
}

/// Law: the tail of a listing is its `limit` most recent entries.  It is
/// ranked by descending sequence number; together with the rest of the
/// ranking it holds exactly the listed entries; and every listed entry it
/// leaves out has a sequence number no greater than any it holds.
pub proof fn lemma_tail_spec_is_k_largest(dir: Seq<char>, names: Seq<Seq<char>>, limit: int)
    requires
        limit >= 0,
    ensures
        ({
            let l = list_spec(dir, names);
            let t = tail_spec(dir, names, limit);
            let rest = sort_desc(l).skip(t.len() as int);
            &&& t.len() == vstd::math::min(limit, l.len() as int)
            &&& sorted_desc(t)
            &&& t.to_multiset().add(rest.to_multiset()) == l.to_multiset()
            &&& forall|i: int, j: int|
                #![trigger t[i], rest[j]]
                0 <= i < t.len() && 0 <= j < rest.len() ==> t[i].seq_num >= rest[j].seq_num
        }),
{
    let l = list_spec(dir, names);
    lemma_sort_desc_ensures(l);
    let sorted = sort_desc(l);
    let n = vstd::math::min(limit, l.len() as int);
    let t = tail_spec(dir, names, limit);
    let rest = sorted.skip(n);
    assert(t == sorted.take(n));
    assert(sorted =~= t + rest);
    vstd::seq_lib::lemma_multiset_commutative(t, rest);
    assert forall|i: int, j: int|
        #![trigger t[i], rest[j]]
        0 <= i < t.len() && 0 <= j < rest.len() implies t[i].seq_num >= rest[j].seq_num by {
        assert(t[i] == sorted[i]);
        assert(rest[j] == sorted[n + j]);
    }
}

/// Whether no two entries of `s` share a sequence number, as holds of
/// every set of entries created in one directory: the zero-padded filename
/// of a sequence number is unique, so one directory cannot hold two entry
/// files with the same number.
pub open spec fn distinct_seq_nums(s: Seq<LogPathView>) -> bool {
    forall|i: int, j: int| 0 <= i < j < s.len() ==> s[i].seq_num != s[j].seq_num
}

/// Law: the greatest entry is one of the listed entries, and no listed
/// entry has a greater sequence number.
pub proof fn lemma_max_entry_ensures(s: Seq<LogPathView>)
    requires
        s.len() > 0,
    ensures
        s.contains(max_entry(s)),
        forall|i: int| 0 <= i < s.len() ==> #[trigger] s[i].seq_num <= max_entry(s).seq_num,
    decreases s.len(),
{
    if s.len() == 1 {
        assert(max_entry(s) == s[0]);
        assert(s.contains(s[0]));
    } else {
        let t = s.drop_last();
        lemma_max_entry_ensures(t);
        assert(forall|i: int| 0 <= i < t.len() ==> t[i] == #[trigger] s[i]);
        if s.last().seq_num > max_entry(t).seq_num {
            assert(max_entry(s) == s.last());
            assert(s[s.len() - 1] == s.last());
            assert(s.contains(s.last()));
        } else {
            assert(max_entry(s) == max_entry(t));
            let k = choose|k: int| 0 <= k < t.len() && t[k] == max_entry(t);
            assert(s[k] == max_entry(s));
            assert(s.contains(max_entry(s)));
        }
    }
}

/// Law: the nth most recent entry is the nth element of every tail long
/// enough to hold it.
pub proof fn lemma_nth_matches_tail(dir: Seq<char>, names: Seq<Seq<char>>, n: int)
    requires
        0 <= n < list_spec(dir, names).len(),
    ensures
        tail_spec(dir, names, n + 1)[n] == sort_desc(list_spec(dir, names))[n],
{
    lemma_sort_desc_ensures(list_spec(dir, names));
}

/// Sharing a multiset of entries carries distinctness of sequence numbers
/// from one listing to the other.
proof fn lemma_distinct_transfer(x: Seq<LogPathView>, y: Seq<LogPathView>)
    requires
        x.to_multiset() == y.to_multiset(),
        distinct_seq_nums(x),
    ensures
        distinct_seq_nums(y),
{
    broadcast use vstd::seq_lib::group_to_multiset_ensures;

    assert forall|i: int, j: int| 0 <= i < j < y.len() implies y[i].seq_num != y[j].seq_num by {
        if y[i].seq_num == y[j].seq_num {
            let u = y[i];
            let v = y[j];
            if u != v {
                assert(y.contains(u) && y.contains(v));
                assert(y.to_multiset().count(u) > 0 && y.to_multiset().count(v) > 0);
                assert(x.to_multiset().count(u) > 0 && x.to_multiset().count(v) > 0);
                assert(x.contains(u) && x.contains(v));
                let ki = choose|k: int| 0 <= k < x.len() && x[k] == u;
                let kj = choose|k: int| 0 <= k < x.len() && x[k] == v;
                assert(ki != kj);
                assert(false);
            } else {
                // the same entry appears twice in y, so twice in x, and two
                // occurrences in x share a sequence number
                let yr = y.remove(i);
                assert(yr.to_multiset() =~= y.to_multiset().remove(u));
                assert(yr[j - 1] == v);
                assert(yr.contains(v));
                assert(yr.to_multiset().count(v) > 0);
                assert(y.to_multiset().count(u) >= 2);
                assert(x.to_multiset().count(u) >= 2);
                assert(x.to_multiset().count(u) > 0);
                assert(x.contains(u));
                let k1 = choose|k: int| 0 <= k < x.len() && x[k] == u;
                let xr = x.remove(k1);
                assert(xr.to_multiset() =~= x.to_multiset().remove(u));
                assert(xr.to_multiset().count(u) > 0);
                assert(xr.contains(u));
                let k2 = choose|k: int| 0 <= k < xr.len() && xr[k] == u;
                if k2 < k1 {
                    assert(x[k2] == u);
                    assert(false);
                } else {
                    assert(x[k2 + 1] == u);
                    assert(false);
                }
            }
        }
    }
}

/// Two rankings of the same entries are identical, provided no two
/// entries share a sequence number.
proof fn lemma_sorted_unique(a: Seq<LogPathView>, b: Seq<LogPathView>)
    requires
        sorted_desc(a),
        sorted_desc(b),
        a.to_multiset() == b.to_multiset(),
        distinct_seq_nums(a),
    ensures
        a == b,
    decreases a.len(),
{
    vstd::seq_lib::to_multiset_len(a);
    vstd::seq_lib::to_multiset_len(b);
    assert(a.len() == b.len());
    if a.len() == 0 {
        assert(a =~= b);
    } else {
        assert(b.contains(b[0]));
        vstd::seq_lib::to_multiset_contains(b, b[0]);
        vstd::seq_lib::to_multiset_contains(a, b[0]);
        assert(a.contains(b[0]));
        let ia = choose|k: int| 0 <= k < a.len() && a[k] == b[0];
        assert(a.contains(a[0]));
        vstd::seq_lib::to_multiset_contains(a, a[0]);
        vstd::seq_lib::to_multiset_contains(b, a[0]);
        assert(b.contains(a[0]));
        let ib = choose|k: int| 0 <= k < b.len() && b[k] == a[0];
        assert(a[0].seq_num >= a[ia].seq_num);
        assert(b[0].seq_num >= b[ib].seq_num);
        assert(a[0].seq_num == b[0].seq_num);
        if ia > 0 {
            assert(a[0].seq_num != a[ia].seq_num);
        }
        assert(a[0] == b[0]);
        let at = a.drop_first();
        let bt = b.drop_first();
        assert(at =~= a.remove(0));
        assert(bt =~= b.remove(0));
        vstd::seq_lib::to_multiset_remove(a, 0);
        vstd::seq_lib::to_multiset_remove(b, 0);
        assert(at.to_multiset() == bt.to_multiset());
        assert(forall|k: int| 0 <= k < at.len() ==> at[k] == #[trigger] a[k + 1]);
        assert(forall|k: int| 0 <= k < bt.len() ==> bt[k] == #[trigger] b[k + 1]);
        assert(sorted_desc(at));
        assert(sorted_desc(bt));
        assert(distinct_seq_nums(at));
        lemma_sorted_unique(at, bt);
        assert forall|k: int| 0 <= k < a.len() implies a[k] == b[k] by {
            if k > 0 {
                assert(a[k] == at[k - 1]);
                assert(b[k] == bt[k - 1]);
            }
        }
        assert(a =~= b);
    }
}

/// Law: ranking does not depend on the order in which the directory was
/// enumerated.  Two listings holding the same entries, no two of which
/// share a sequence number, rank identically — and so every tail, the
/// latest entry, and every nth-from-latest entry agree between them.
pub proof fn lemma_sort_desc_permutation(l1: Seq<LogPathView>, l2: Seq<LogPathView>)
    requires
        l1.to_multiset() == l2.to_multiset(),
        distinct_seq_nums(l1),
    ensures
        sort_desc(l1) == sort_desc(l2),
{
    lemma_sort_desc_ensures(l1);
    lemma_sort_desc_ensures(l2);
    lemma_distinct_transfer(l1, sort_desc(l1));
    lemma_sorted_unique(sort_desc(l1), sort_desc(l2));
}

/// The first entry of the ranking is the greatest entry of the listing:
/// the one a direct maximum scan finds.
pub proof fn lemma_sort_desc_first_is_max(s: Seq<LogPathView>)
    requires
        s.len() > 0,
    ensures
        sort_desc(s)[0] == max_entry(s),
    decreases s.len(),
{
    let t = s.drop_last();
    if t.len() == 0 {
        assert(sort_desc(s) == insert_desc(sort_desc(t), s.last()));
        assert(sort_desc(t) == Seq::<LogPathView>::empty());
        assert(insert_desc(Seq::empty(), s.last()) == seq![s.last()]);
        assert(s.len() == 1 && s[0] == s.last());
    } else {
        lemma_sort_desc_first_is_max(t);
        lemma_sort_desc_ensures(t);
        let sorted_t = sort_desc(t);
        assert(sorted_t.len() > 0);
        let x = s.last();
        if x.seq_num > sorted_t[0].seq_num {
            assert(insert_desc(sorted_t, x)[0] == (seq![x] + sorted_t)[0]);
        } else {
            assert(insert_desc(sorted_t, x) == seq![sorted_t[0]] + insert_desc(
                sorted_t.drop_first(),
                x,
            ));
            assert(insert_desc(sorted_t, x)[0] == sorted_t[0]);
        }
    }
}

} // verus!
