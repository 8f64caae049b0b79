//! The parsed contents of one devlog entry file.

use crate::task::Task;
use crate::task::TaskView;
use crate::task::parse_task_spec;
use vstd::prelude::*;

verus! {

/// The tasks denoted by the lines of an entry file, in their original
/// order; lines that are not task lines are dropped.
pub open spec fn parse_lines_spec(lines: Seq<Seq<char>>) -> Seq<TaskView>
    decreases lines.len(),
{
    if lines.len() == 0 {
        Seq::empty()
    } else {
        parse_lines_spec(lines.drop_last()) + match parse_task_spec(lines.last()) {
            Some(t) => seq![t],
            None => Seq::<TaskView>::empty(),
        }
    }
}

/// A read-only snapshot of the tasks in one devlog entry file, in the
/// order they appear top to bottom.
pub struct LogFile {
    tasks: Vec<Task>,
}

impl View for LogFile {
    type V = Seq<TaskView>;

    closed spec fn view(&self) -> Seq<TaskView> {
        self.tasks.deep_view()
    }
}

impl LogFile {
    /// Parse the lines of an entry file, keeping only the lines that
    /// denote tasks and preserving their order.  A line that is not a
    /// task is never an error; it is silently ignored.
    pub fn from_lines(lines: &Vec<String>) -> (r: LogFile)
        ensures
            r@ == parse_lines_spec(lines.deep_view()),
    {
        let ghost lv = lines.deep_view();
        let mut tasks: Vec<Task> = Vec::new();
        assert(tasks.deep_view() =~= parse_lines_spec(lv.take(0)));
        let mut i: usize = 0;
        while i < lines.len()
            invariant
                0 <= i <= lines.len(),
                lv == lines.deep_view(),
                lv.len() == lines.len(),
                tasks.deep_view() == parse_lines_spec(lv.take(i as int)),
            decreases lines.len() - i,
        {
            assert(lv[i as int] == lines@[i as int]@);
            let ghost old_tasks = tasks.deep_view();
            match Task::from_string(lines[i].as_str()) {
                Some(t) => {
                    tasks.push(t);
                    assert(tasks.deep_view() =~= old_tasks + seq![t@]);
                },
                None => {
                    assert(tasks.deep_view() =~= old_tasks + Seq::<TaskView>::empty());
                },
            }
            proof {
                assert(lv.take(i + 1).drop_last() =~= lv.take(i as int));
                assert(lv.take(i + 1).last() == lv[i as int]);
            }
            i = i + 1;
        }
        assert(lv.take(lv.len() as int) =~= lv);
        LogFile { tasks }
    }

    /// The tasks of the entry, in their original order.
    pub fn tasks(&self) -> (r: &Vec<Task>)
        ensures
            r.deep_view() == self@,
    {
        &self.tasks
    }
}

} // verus!
