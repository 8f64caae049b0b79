//! A task is something the user wants or needs to do.
//!
//! Tasks are written one per line inside a devlog entry file.  A task line
//! begins with a one-character status marker followed by the task's content;
//! any other line is free-form commentary and is not a task.

use vstd::prelude::*;

verus! {

/// Represents the user-assigned status of a task.
#[derive(Debug, Copy, Clone, PartialEq, Eq, Structural)]
pub enum TaskStatus {
    /// The user has not yet started the task.
    ToDo,
    /// The user has started, but not completed, the task.
    Started,
    /// The user cannot complete the task due to external circumstances.
    Blocked,
    /// The user has completed the task.
    Done,
}

/// The human-readable name of a task status.
pub open spec fn display_name_spec(s: TaskStatus) -> Seq<char> {
    match s {
        TaskStatus::ToDo => "To Do"@,
        TaskStatus::Started => "In Progress"@,
        TaskStatus::Blocked => "Blocked"@,
        TaskStatus::Done => "Done"@,
    }
}

/// The marker that begins a task line with this status, with the single
/// space that separates it from the content.
pub open spec fn marker_spec(s: TaskStatus) -> Seq<char> {
    match s {
        TaskStatus::ToDo => "* "@,
        TaskStatus::Started => "^ "@,
        TaskStatus::Blocked => "- "@,
        TaskStatus::Done => "+ "@,
    }
}

/// The status denoted by a marker character, if any.
pub open spec fn parse_marker(c: char) -> Option<TaskStatus> {
    if c == '*' {
        Some(TaskStatus::ToDo)
    } else if c == '^' {
        Some(TaskStatus::Started)
    } else if c == '+' {
        Some(TaskStatus::Done)
    } else if c == '-' {
        Some(TaskStatus::Blocked)
    } else {
        None
    }
}

impl TaskStatus {
    /// Return a human-readable name for the task status.
    pub fn display_name(&self) -> (r: &'static str)
        ensures
            r@ == display_name_spec(*self),
    {
        match self {
            TaskStatus::ToDo => "To Do",
            TaskStatus::Started => "In Progress",
            TaskStatus::Blocked => "Blocked",
            TaskStatus::Done => "Done",
        }
    }
}

/// The mathematical value of a task: a status and the content characters.
pub struct TaskView {
    pub status: TaskStatus,
    pub content: Seq<char>,
}

/// A task the user wants or needs to do.
#[derive(Debug, PartialEq, Eq)]
pub struct Task {
    status: TaskStatus,
    content: String,
}

impl View for Task {
    type V = TaskView;

    closed spec fn view(&self) -> TaskView {
        TaskView { status: self.status, content: self.content@ }
    }
}

impl DeepView for Task {
    type V = TaskView;

    open spec fn deep_view(&self) -> TaskView {
        self.view()
    }
}

impl Clone for Task {
    fn clone(&self) -> (r: Self)
        ensures
            r@ == self@,
    {
        Task { status: self.status, content: self.content.clone() }
    }
}

/// Whether a character counts as whitespace when content is trimmed:
/// the characters with the Unicode white-space property.
pub open spec fn is_space_char(c: char) -> bool {
    ||| c == ' '
    ||| ('\u{09}' <= c && c <= '\u{0D}')
    ||| c == '\u{85}'
    ||| c == '\u{A0}'
    ||| c == '\u{1680}'
    ||| ('\u{2000}' <= c && c <= '\u{200A}')
    ||| c == '\u{2028}'
    ||| c == '\u{2029}'
    ||| c == '\u{202F}'
    ||| c == '\u{205F}'
    ||| c == '\u{3000}'
}

/// The number of whitespace characters at the start of `s`.
pub open spec fn leading_spaces(s: Seq<char>) -> int
    decreases s.len(),
{
    if s.len() == 0 {
        0
    } else if !is_space_char(s[0]) {
        0
    } else {
        1 + leading_spaces(s.drop_first())
    }
}

/// The number of whitespace characters at the end of `s`.
pub open spec fn trailing_spaces(s: Seq<char>) -> int
    decreases s.len(),
{
    if s.len() == 0 {
        0
    } else if !is_space_char(s.last()) {
        0
    } else {
        1 + trailing_spaces(s.drop_last())
    }
}

/// `s` without its leading and trailing whitespace.
pub open spec fn trim_spec(s: Seq<char>) -> Seq<char> {
    if leading_spaces(s) == s.len() {
        Seq::empty()
    } else {
        s.subrange(leading_spaces(s), s.len() - trailing_spaces(s))
    }
}

/// The task denoted by one line of text, if any: the first character must
/// be a status marker, and the rest of the line, trimmed of surrounding
/// whitespace, is the content.
pub open spec fn parse_task_spec(s: Seq<char>) -> Option<TaskView> {
    if s.len() == 0 {
        None
    } else {
        match parse_marker(s[0]) {
            Some(st) => Some(TaskView { status: st, content: trim_spec(s.drop_first()) }),
            None => None,
        }
    }
}

proof fn lemma_leading_spaces_is(s: Seq<char>, a: int)
    requires
        0 <= a <= s.len(),
        forall|i: int| 0 <= i < a ==> is_space_char(#[trigger] s[i]),
        a == s.len() || !is_space_char(s[a]),
    ensures
        leading_spaces(s) == a,
    decreases a,
{
    if a == 0 {
    } else {
        assert(is_space_char(s[0]));
        let t = s.drop_first();
        assert forall|i: int| 0 <= i < a - 1 implies is_space_char(#[trigger] t[i]) by {
            assert(t[i] == s[i + 1]);
        }
        if a - 1 < t.len() {
            assert(t[a - 1] == s[a]);
        }
        lemma_leading_spaces_is(t, a - 1);
    }
}

proof fn lemma_trailing_spaces_is(s: Seq<char>, b: int)
    requires
        0 <= b <= s.len(),
        forall|i: int| b <= i < s.len() ==> is_space_char(#[trigger] s[i]),
        b == 0 || !is_space_char(s[b - 1]),
    ensures
        trailing_spaces(s) == s.len() - b,
    decreases s.len() - b,
{
    if b == s.len() {
    } else {
        assert(is_space_char(s.last()));
        let t = s.drop_last();
        assert forall|i: int| b <= i < t.len() implies is_space_char(#[trigger] t[i]) by {
            assert(t[i] == s[i]);
        }
        if b > 0 {
            assert(t[b - 1] == s[b - 1]);
        }
        lemma_trailing_spaces_is(t, b);
    }
}

/// Whether a character counts as whitespace when content is trimmed.
fn is_space(c: char) -> (b: bool)
    ensures
        b == is_space_char(c),
{
    c == ' ' || (c >= '\u{09}' && c <= '\u{0D}') || c == '\u{85}' || c == '\u{A0}' || c
        == '\u{1680}' || (c >= '\u{2000}' && c <= '\u{200A}') || c == '\u{2028}' || c
        == '\u{2029}' || c == '\u{202F}' || c == '\u{205F}' || c == '\u{3000}'
}

/// Copy `s` without its leading and trailing whitespace.
pub(crate) fn trim(s: &str) -> (r: String)
    ensures
        r@ == trim_spec(s@),
{
    let n = s.unicode_len();
    let mut a: usize = 0;
    while a < n && is_space(s.get_char(a))
        invariant
            0 <= a <= n,
            n == s@.len(),
            forall|i: int| 0 <= i < a ==> is_space_char(#[trigger] s@[i]),
        decreases n - a,
    {
        a = a + 1;
    }
    proof {
        lemma_leading_spaces_is(s@, a as int);
    }
    if a == n {
        return String::new();
    }
    let mut b: usize = n;
    while b > a && is_space(s.get_char(b - 1))
        invariant
            a < n,
            a <= b <= n,
            n == s@.len(),
            !is_space_char(s@[a as int]),
            forall|i: int| b <= i < n ==> is_space_char(#[trigger] s@[i]),
        decreases b,
    {
        b = b - 1;
    }
    proof {
        if b == a {
            assert(is_space_char(s@[a as int]));
        }
        lemma_trailing_spaces_is(s@, b as int);
    }
    let r = s.substring_char(a, b);
    r.to_owned()
}

impl Task {
    /// Create a new task with the specified status and content.
    pub fn new(status: TaskStatus, content: &str) -> (r: Task)
        ensures
            r@ == (TaskView { status, content: content@ }),
    {
        Task { status, content: content.to_owned() }
    }

    /// Parse a task from its string representation.
    /// A task string always begins with one of four characters:
    /// "*" means `ToDo`, "^" means `Started`, "+" means `Done`,
    /// and "-" means `Blocked`.  The rest of the string, except for
    /// surrounding whitespace, is the content of the task.
    /// Returns `None` if the string is not a valid task.
    pub fn from_string(s: &str) -> (r: Option<Task>)
        ensures
            match r {
                Some(t) => parse_task_spec(s@) == Some(t@),
                None => parse_task_spec(s@) is None,
            },
    {
        let n = s.unicode_len();
        if n == 0 {
            return None;
        }
        let c = s.get_char(0);
        let status = if c == '*' {
            TaskStatus::ToDo
        } else if c == '^' {
            TaskStatus::Started
        } else if c == '+' {
            TaskStatus::Done
        } else if c == '-' {
            TaskStatus::Blocked
        } else {
            return None;
        };
        let rest = s.substring_char(1, n);
        assert(rest@ == s@.drop_first());
        let content = trim(rest);
        Some(Task { status, content })
    }

    /// Returns the status of the task.
    pub fn status(&self) -> (r: TaskStatus)
        ensures
            r == self@.status,
    {
        self.status
    }

    /// Returns the content of the task.
    pub fn content(&self) -> (r: &str)
        ensures
            r@ == self@.content,
    {
        self.content.as_str()
    }

    /// The string representation of the task: its status marker, one
    /// space, and its content.
    pub fn render(&self) -> (r: String)
        ensures
            r@ == render_spec(self@),
    {
        let mut r = marker(self.status).to_owned();
        r.append(self.content.as_str());
        r
    }
}

/// The rendered line of a task: marker, space, content.
pub open spec fn render_spec(t: TaskView) -> Seq<char> {
    marker_spec(t.status) + t.content
}

/// The rendered lines of the given tasks, each followed by a newline.
pub open spec fn lines_spec(tasks: Seq<TaskView>) -> Seq<char>
    decreases tasks.len(),
{
    if tasks.len() == 0 {
        Seq::empty()
    } else {
        lines_spec(tasks.drop_last()) + render_spec(tasks.last()) + "\n"@
    }
}

/// Append the rendered line of each task, each followed by a newline.
pub(crate) fn append_lines(out: &mut String, sec: &Vec<Task>)
    ensures
        final(out)@ == old(out)@ + lines_spec(sec.deep_view()),
{
    let ghost sv = sec.deep_view();
    assert(out@ =~= old(out)@ + lines_spec(sv.take(0)));
    let mut i: usize = 0;
    while i < sec.len()
        invariant
            0 <= i <= sec.len(),
            sv == sec.deep_view(),
            sv.len() == sec.len(),
            out@ == old(out)@ + lines_spec(sv.take(i as int)),
        decreases sec.len() - i,
    {
        assert(sv[i as int] == sec@[i as int]@);
        let line = sec[i].render();
        out.append(line.as_str());
        out.append("\n");
        proof {
            assert(sv.take(i + 1).drop_last() =~= sv.take(i as int));
            assert(sv.take(i + 1).last() == sv[i as int]);
            assert(out@ =~= old(out)@ + lines_spec(sv.take(i + 1)));
        }
        i = i + 1;
    }
    assert(sv.take(sv.len() as int) =~= sv);
}

/// The marker and separating space that begin a rendered task line.
fn marker(s: TaskStatus) -> (r: &'static str)
    ensures
        r@ == marker_spec(s),
{
    match s {
        TaskStatus::ToDo => "* ",
        TaskStatus::Started => "^ ",
        TaskStatus::Blocked => "- ",
        TaskStatus::Done => "+ ",
    }
}

} // verus!
