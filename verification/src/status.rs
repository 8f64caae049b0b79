//! Rendering a status report: the tasks of one entry, grouped by status.
//!
//! The report shows the non-empty groups in a fixed display order —
//! in progress, to do, blocked, done — each as a header line followed by
//! the rendered task lines, with exactly one blank line between groups.
//! A display mode may restrict the report to a single status, in which
//! case the header lines are omitted.  A report with nothing to show is
//! never silent: it reads as an explicit no-tasks marker, so a consumer
//! can tell a successful run with nothing to show from a failure.

use crate::task::Task;
use crate::task::TaskStatus;
use crate::task::TaskView;
use crate::task::append_lines;
use crate::task::display_name_spec;
use crate::task::lines_spec;
use vstd::prelude::*;

verus! {

/// Which sections of the status report are rendered.
#[derive(Debug, Copy, Clone)]
pub enum DisplayMode {
    /// Show every status, each under a section header.
    ShowAll,
    /// Show only the tasks of one status, without a header.
    ShowOnly(TaskStatus),
}

impl DisplayMode {
    /// Whether tasks of status `s` are rendered in this mode.
    pub open spec fn shows(self, s: TaskStatus) -> bool {
        match self {
            DisplayMode::ShowAll => true,
            DisplayMode::ShowOnly(only) => only == s,
        }
    }

    /// Whether section headers are rendered in this mode.
    pub open spec fn with_names(self) -> bool {
        self is ShowAll
    }

    /// Whether section headers are rendered in this mode.
    pub fn show_section_names(&self) -> (r: bool)
        ensures
            r == self.with_names(),
    {
        match self {
            DisplayMode::ShowAll => true,
            DisplayMode::ShowOnly(_) => false,
        }
    }

    /// Whether tasks of status `s` are rendered in this mode.
    pub fn show_status(&self, s: &TaskStatus) -> (r: bool)
        ensures
            r == self.shows(*s),
    {
        match self {
            DisplayMode::ShowAll => true,
            DisplayMode::ShowOnly(only) => *s == *only,
        }
    }
}

/// The tasks of `tasks` whose status is `st`, in their original order.
pub open spec fn with_status(tasks: Seq<TaskView>, st: TaskStatus) -> Seq<TaskView>
    decreases tasks.len(),
{
    if tasks.len() == 0 {
        Seq::empty()
    } else {
        with_status(tasks.drop_last(), st) + if tasks.last().status == st {
            seq![tasks.last()]
        } else {
            Seq::<TaskView>::empty()
        }
    }
}

/// One section of the report: a header line naming the status when the
/// mode shows headers, then the lines of the tasks with that status.
pub open spec fn section_spec(tasks: Seq<TaskView>, st: TaskStatus, d: DisplayMode) -> Seq<char> {
    (if d.with_names() {
        display_name_spec(st) + ":\n"@
    } else {
        Seq::<char>::empty()
    }) + lines_spec(with_status(tasks, st))
}

/// Whether the section for `st` appears in the report: the mode shows it
/// and at least one task has that status.
pub open spec fn shown(tasks: Seq<TaskView>, st: TaskStatus, d: DisplayMode) -> bool {
    d.shows(st) && with_status(tasks, st).len() > 0
}

/// The fixed display order of the sections.
pub open spec fn report_order() -> Seq<TaskStatus> {
    seq![TaskStatus::Started, TaskStatus::ToDo, TaskStatus::Blocked, TaskStatus::Done]
}

/// The report text for the statuses of `sts`, in order: each shown
/// section, separated from the previous shown section by one blank line.
pub open spec fn report_rec(
    tasks: Seq<TaskView>,
    d: DisplayMode,
    sts: Seq<TaskStatus>,
    has_prev: bool,
) -> Seq<char>
    decreases sts.len(),
{
    if sts.len() == 0 {
        Seq::empty()
    } else if shown(tasks, sts[0], d) {
        (if has_prev {
            "\n"@
        } else {
            Seq::<char>::empty()
        }) + section_spec(tasks, sts[0], d) + report_rec(tasks, d, sts.drop_first(), true)
    } else {
        report_rec(tasks, d, sts.drop_first(), has_prev)
    }
}

/// The marker reported when no requested section has tasks, so that a
/// successful run with nothing to show is never silent.
pub const NO_TASKS_MARKER: &'static str = "No tasks.\n";

/// The full status report for the given tasks in the given display mode:
/// the shown sections in display order, or the explicit no-tasks marker
/// when no requested section has tasks.
pub open spec fn report_spec(tasks: Seq<TaskView>, d: DisplayMode) -> Seq<char> {
    let body = report_rec(tasks, d, report_order(), false);
    if body.len() == 0 {
        NO_TASKS_MARKER@
    } else {
        body
    }
}

/// One step of the report: the first status contributes its section text
/// when shown, and the rest of the report follows.
proof fn lemma_report_rec_step(
    tasks: Seq<TaskView>,
    d: DisplayMode,
    sts: Seq<TaskStatus>,
    has_prev: bool,
)
    requires
        sts.len() > 0,
    ensures
        report_rec(tasks, d, sts, has_prev) == (if shown(tasks, sts[0], d) {
            (if has_prev {
                "\n"@
            } else {
                Seq::<char>::empty()
            }) + section_spec(tasks, sts[0], d)
        } else {
            Seq::<char>::empty()
        }) + report_rec(tasks, d, sts.drop_first(), has_prev || shown(tasks, sts[0], d)),
{
    if shown(tasks, sts[0], d) {
        assert(report_rec(tasks, d, sts, has_prev) =~= (if has_prev {
            "\n"@
        } else {
            Seq::<char>::empty()
        }) + section_spec(tasks, sts[0], d) + report_rec(tasks, d, sts.drop_first(), true));
    } else {
        assert(Seq::<char>::empty() + report_rec(tasks, d, sts.drop_first(), has_prev)
            =~= report_rec(tasks, d, sts.drop_first(), has_prev));
    }
}

/// Render the status report for the tasks of one entry.  The sections
/// appear in the fixed display order, each non-empty shown section as a
/// header (in the all-statuses mode) followed by its task lines, with one
/// blank line between sections.  An entry with no task to show yields the
/// explicit no-tasks marker.
pub fn print(tasks: &Vec<Task>, d: DisplayMode) -> (r: String)
    ensures
        r@ == report_spec(tasks.deep_view(), d),
{
    let ghost tv = tasks.deep_view();
    let g = group_tasks(tasks);
    let mut out = String::new();
    let ghost sts0 = report_order();
    let ghost sts1 = sts0.drop_first();
    let ghost sts2 = sts1.drop_first();
    let ghost sts3 = sts2.drop_first();
    let ghost sts4 = sts3.drop_first();
    let ghost body = report_rec(tv, d, sts0, false);
    proof {
        assert(out@ + report_rec(tv, d, sts0, false) =~= body);
        lemma_report_rec_step(tv, d, sts0, false);
    }
    let p1 = append_section(&mut out, g.retrieve(&TaskStatus::Started), TaskStatus::Started, d,
        false, Ghost(tv));
    proof {
        lemma_report_rec_step(tv, d, sts1, p1);
        assert(sts1[0] == TaskStatus::ToDo);
        assert(out@ + report_rec(tv, d, sts1, p1) =~= body);
    }
    let p2 = append_section(&mut out, g.retrieve(&TaskStatus::ToDo), TaskStatus::ToDo, d, p1,
        Ghost(tv));
    proof {
        lemma_report_rec_step(tv, d, sts2, p2);
        assert(sts2[0] == TaskStatus::Blocked);
        assert(out@ + report_rec(tv, d, sts2, p2) =~= body);
    }
    let p3 = append_section(&mut out, g.retrieve(&TaskStatus::Blocked), TaskStatus::Blocked, d, p2,
        Ghost(tv));
    proof {
        lemma_report_rec_step(tv, d, sts3, p3);
        assert(sts3[0] == TaskStatus::Done);
        assert(out@ + report_rec(tv, d, sts3, p3) =~= body);
    }
    let p4 = append_section(&mut out, g.retrieve(&TaskStatus::Done), TaskStatus::Done, d, p3,
        Ghost(tv));
    proof {
        assert(sts4.len() == 0);
        assert(out@ + report_rec(tv, d, sts4, p4) =~= body);
        assert(out@ =~= body);
    }
    if out.as_str().is_empty() {
        NO_TASKS_MARKER.to_owned()
    } else {
        out
    }
}

/// Append one section of the report to `out`: nothing when the mode hides
/// the status or no task has it; otherwise a separating blank line after a
/// previous section, the header when the mode shows headers, and the task
/// lines.  Returns whether any section has been rendered so far.
fn append_section(
    out: &mut String,
    sec: &Vec<Task>,
    st: TaskStatus,
    d: DisplayMode,
    has_prev: bool,
    Ghost(tasks): Ghost<Seq<TaskView>>,
) -> (r: bool)
    requires
        sec.deep_view() == with_status(tasks, st),
    ensures
        final(out)@ == old(out)@ + (if shown(tasks, st, d) {
            (if has_prev {
                "\n"@
            } else {
                Seq::<char>::empty()
            }) + section_spec(tasks, st, d)
        } else {
            Seq::<char>::empty()
        }),
        r == (has_prev || shown(tasks, st, d)),
{
    let show = d.show_status(&st);
    if show && sec.len() > 0 {
        if has_prev {
            out.append("\n");
        }
        if d.show_section_names() {
            out.append(st.display_name());
            out.append(":\n");
        }
        append_lines(out, sec);
        assert(final(out)@ =~= old(out)@ + (if has_prev {
            "\n"@
        } else {
            Seq::<char>::empty()
        }) + section_spec(tasks, st, d));
        true
    } else {
        assert(final(out)@ =~= old(out)@ + Seq::<char>::empty());
        has_prev
    }
}

/// The tasks of one entry, grouped by their status.
struct GroupedTasks {
    todo: Vec<Task>,
    started: Vec<Task>,
    blocked: Vec<Task>,
    done: Vec<Task>,
}

impl GroupedTasks {
    fn new() -> (g: GroupedTasks)
        ensures
            g.todo.deep_view() == Seq::<TaskView>::empty(),
            g.started.deep_view() == Seq::<TaskView>::empty(),
            g.blocked.deep_view() == Seq::<TaskView>::empty(),
            g.done.deep_view() == Seq::<TaskView>::empty(),
    {
        let g = GroupedTasks {
            todo: Vec::new(),
            started: Vec::new(),
            blocked: Vec::new(),
            done: Vec::new(),
        };
        assert(g.todo.deep_view() =~= Seq::<TaskView>::empty());
        assert(g.started.deep_view() =~= Seq::<TaskView>::empty());
        assert(g.blocked.deep_view() =~= Seq::<TaskView>::empty());
        assert(g.done.deep_view() =~= Seq::<TaskView>::empty());
        g
    }

    fn insert(&mut self, task: &Task)
        ensures
            final(self).todo.deep_view() == old(self).todo.deep_view() + (if task@.status
                == TaskStatus::ToDo {
                seq![task@]
            } else {
                Seq::<TaskView>::empty()
            }),
            final(self).started.deep_view() == old(self).started.deep_view() + (if task@.status
                == TaskStatus::Started {
                seq![task@]
            } else {
                Seq::<TaskView>::empty()
            }),
            final(self).blocked.deep_view() == old(self).blocked.deep_view() + (if task@.status
                == TaskStatus::Blocked {
                seq![task@]
            } else {
                Seq::<TaskView>::empty()
            }),
            final(self).done.deep_view() == old(self).done.deep_view() + (if task@.status
                == TaskStatus::Done {
                seq![task@]
            } else {
                Seq::<TaskView>::empty()
            }),
    {
        let t = task.clone();
        match t.status() {
            TaskStatus::ToDo => self.todo.push(t),
            TaskStatus::Started => self.started.push(t),
            TaskStatus::Blocked => self.blocked.push(t),
            TaskStatus::Done => self.done.push(t),
        }
        assert(final(self).todo.deep_view() =~= old(self).todo.deep_view() + (if task@.status
            == TaskStatus::ToDo {
            seq![task@]
        } else {
            Seq::<TaskView>::empty()
        }));
        assert(final(self).started.deep_view() =~= old(self).started.deep_view() + (if task@.status
            == TaskStatus::Started {
            seq![task@]
        } else {
            Seq::<TaskView>::empty()
        }));
        assert(final(self).blocked.deep_view() =~= old(self).blocked.deep_view() + (if task@.status
            == TaskStatus::Blocked {
            seq![task@]
        } else {
            Seq::<TaskView>::empty()
        }));
        assert(final(self).done.deep_view() =~= old(self).done.deep_view() + (if task@.status
            == TaskStatus::Done {
            seq![task@]
        } else {
            Seq::<TaskView>::empty()
        }));
    }

    fn retrieve(&self, status: &TaskStatus) -> (r: &Vec<Task>)
        ensures
            r.deep_view() == match *status {
                TaskStatus::ToDo => self.todo.deep_view(),
                TaskStatus::Started => self.started.deep_view(),
                TaskStatus::Blocked => self.blocked.deep_view(),
                TaskStatus::Done => self.done.deep_view(),
            },
    {
        match status {
            TaskStatus::ToDo => &self.todo,
            TaskStatus::Started => &self.started,
            TaskStatus::Blocked => &self.blocked,
            TaskStatus::Done => &self.done,
        }
    }
}

/// Group the tasks of one entry by status, keeping their original order
/// within each group.
fn group_tasks(tasks: &Vec<Task>) -> (g: GroupedTasks)
    ensures
        g.todo.deep_view() == with_status(tasks.deep_view(), TaskStatus::ToDo),
        g.started.deep_view() == with_status(tasks.deep_view(), TaskStatus::Started),
        g.blocked.deep_view() == with_status(tasks.deep_view(), TaskStatus::Blocked),
        g.done.deep_view() == with_status(tasks.deep_view(), TaskStatus::Done),
{
    let ghost tv = tasks.deep_view();
    let mut g = GroupedTasks::new();
    assert(g.todo.deep_view() =~= with_status(tv.take(0), TaskStatus::ToDo));
    assert(g.started.deep_view() =~= with_status(tv.take(0), TaskStatus::Started));
    assert(g.blocked.deep_view() =~= with_status(tv.take(0), TaskStatus::Blocked));
    assert(g.done.deep_view() =~= with_status(tv.take(0), TaskStatus::Done));
    let mut i: usize = 0;
    while i < tasks.len()
        invariant
            0 <= i <= tasks.len(),
            tv == tasks.deep_view(),
            tv.len() == tasks.len(),
            g.todo.deep_view() == with_status(tv.take(i as int), TaskStatus::ToDo),
            g.started.deep_view() == with_status(tv.take(i as int), TaskStatus::Started),
            g.blocked.deep_view() == with_status(tv.take(i as int), TaskStatus::Blocked),
            g.done.deep_view() == with_status(tv.take(i as int), TaskStatus::Done),
        decreases tasks.len() - i,
    {
        assert(tv[i as int] == tasks@[i as int]@);
        g.insert(&tasks[i]);
        proof {
            assert(tv.take(i + 1).drop_last() =~= tv.take(i as int));
            assert(tv.take(i + 1).last() == tv[i as int]);
        }
        i = i + 1;
    }
    assert(tv.take(tv.len() as int) =~= tv);
    g
}

} // verus!
