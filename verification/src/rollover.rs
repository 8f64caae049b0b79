//! Creating a new devlog entry seeded with the unfinished tasks of the
//! previous one.
//!
//! Rollover always advances state: each call yields the path for the next
//! sequence number, so calling it twice produces two new entries.  The
//! caller writes the returned tasks, after a header, into a file created
//! exclusively at the returned path, so a second rollover against the same
//! entry fails loudly on the file creation rather than clobbering it.

use crate::error::Error;
use crate::header::header_spec;
use crate::header::write_header;
use crate::path::LogPath;
use crate::path::LogPathView;
use crate::path::MAX_SEQ_NUM;
use crate::path::entry_path;
use crate::path::replace_entry_name;
use crate::repository::LogRepository;
use crate::task::Task;
use crate::task::TaskStatus;
use crate::task::TaskView;
use crate::task::append_lines;
use crate::task::lines_spec;
use vstd::prelude::*;

verus! {

/// Whether a task survives a rollover: tasks still to do, started, or
/// blocked are carried forward; done tasks represent closed work and are
/// never carried.
pub open spec fn carries_over(st: TaskStatus) -> bool {
    st == TaskStatus::ToDo || st == TaskStatus::Started || st == TaskStatus::Blocked
}

/// The tasks carried forward by a rollover: exactly those whose status
/// survives it, in their original order.
pub open spec fn carryover_spec(tasks: Seq<TaskView>) -> Seq<TaskView>
    decreases tasks.len(),
{
    if tasks.len() == 0 {
        Seq::empty()
    } else {
        carryover_spec(tasks.drop_last()) + if carries_over(tasks.last().status) {
            seq![tasks.last()]
        } else {
            Seq::<TaskView>::empty()
        }
    }
}

/// Law: rollover carries forward exactly the tasks whose status is to do,
/// started, or blocked, keeping their original order, and excludes the
/// done tasks.
pub proof fn lemma_carryover_exact(tasks: Seq<TaskView>)
    ensures
        carryover_spec(tasks) == tasks.filter(|t: TaskView| carries_over(t.status)),
    decreases tasks.len(),
{
    reveal(Seq::filter);
    if tasks.len() == 0 {
        assert(carryover_spec(tasks) =~= tasks.filter(|t: TaskView| carries_over(t.status)));
    } else {
        lemma_carryover_exact(tasks.drop_last());
        let rest = carryover_spec(tasks.drop_last());
        if carries_over(tasks.last().status) {
            assert(carryover_spec(tasks) =~= rest.push(tasks.last()));
        } else {
            assert(carryover_spec(tasks) =~= rest);
        }
    }
}

/// Plan a rollover of the repository whose most recent entry is `latest`
/// and whose tasks are `tasks`: the path of the new entry to create, and
/// the tasks to carry forward into it.
///
/// When the repository holds no entry at all (`latest` is `None`), the
/// rollover degenerates to initialization: it yields the path for sequence
/// number one and carries nothing.  When the most recent entry already has
/// the maximum sequence number, the capacity error is returned unchanged.
pub fn rollover(repo: &LogRepository, latest: Option<&LogPath>, tasks: &Vec<Task>) -> (r: Result<
    (LogPath, Vec<Task>),
    Error,
>)
    ensures
        match latest {
            None => r matches Ok(pair) && pair.0@ == (LogPathView {
                path: entry_path(repo@, 1),
                seq_num: 1,
            }) && pair.1.deep_view() == Seq::<TaskView>::empty(),
            Some(p) => {
                if p@.seq_num < MAX_SEQ_NUM {
                    r matches Ok(pair) && pair.0@ == (LogPathView {
                        path: replace_entry_name(p@.path, p@.seq_num + 1),
                        seq_num: p@.seq_num + 1,
                    }) && pair.1.deep_view() == carryover_spec(tasks.deep_view())
                } else {
                    r matches Err(e) && e == Error::LogFileLimitExceeded
                }
            },
        },
{
    let p = match latest {
        None => {
            let first = LogPath::new(repo.path(), 1);
            let carried: Vec<Task> = Vec::new();
            assert(carried.deep_view() =~= Seq::<TaskView>::empty());
            return Ok((first, carried));
        },
        Some(p) => p,
    };
    let next = match p.next() {
        Ok(n) => n,
        Err(e) => {
            return Err(e);
        },
    };
    let carried = carryover_tasks(tasks);
    Ok((next, carried))
}

/// The text of the entry file a rollover creates: a dated header without
/// the help text, then one rendered line per carried task, in their
/// original order.  Today's date comes from the system clock, so the
/// header holds some date with a month and day in calendar range.
pub fn rollover_content(tasks: &Vec<Task>) -> (r: String)
    ensures
        exists|y: int, m: int, d: int|
            1 <= m <= 12 && 1 <= d <= 31 && r@ == #[trigger] header_spec(y, m, d, false)
                + lines_spec(tasks.deep_view()),
{
    let mut content = write_header(false);
    proof {
        let (y, m, d) = choose|y: int, m: int, d: int|
            1 <= m <= 12 && 1 <= d <= 31 && content@ == #[trigger] header_spec(y, m, d, false);
        assert(1 <= m <= 12 && 1 <= d <= 31 && content@ == header_spec(y, m, d, false));
    }
    let ghost header_view = content@;
    append_lines(&mut content, tasks);
    proof {
        let (y, m, d) = choose|y: int, m: int, d: int|
            1 <= m <= 12 && 1 <= d <= 31 && header_view == #[trigger] header_spec(y, m, d, false);
        assert(1 <= m <= 12 && 1 <= d <= 31 && content@ == header_spec(y, m, d, false)
            + lines_spec(tasks.deep_view()));
    }
    content
}

/// The tasks that survive a rollover, in their original order.
fn carryover_tasks(tasks: &Vec<Task>) -> (r: Vec<Task>)
    ensures
        r.deep_view() == carryover_spec(tasks.deep_view()),
{
    let ghost tv = tasks.deep_view();
    let mut carried: Vec<Task> = Vec::new();
    assert(carried.deep_view() =~= carryover_spec(tv.take(0)));
    let mut i: usize = 0;
    while i < tasks.len()
        invariant
            0 <= i <= tasks.len(),
            tv == tasks.deep_view(),
            tv.len() == tasks.len(),
            carried.deep_view() == carryover_spec(tv.take(i as int)),
        decreases tasks.len() - i,
    {
        assert(tv[i as int] == tasks@[i as int]@);
        let ghost old_carried = carried.deep_view();
        let keep = match tasks[i].status() {
            TaskStatus::ToDo => true,
            TaskStatus::Started => true,
            TaskStatus::Blocked => true,
            TaskStatus::Done => false,
        };
        if keep {
            let t = tasks[i].clone();
            carried.push(t);
            assert(carried.deep_view() =~= old_carried + seq![tv[i as int]]);
        } else {
            assert(carried.deep_view() =~= old_carried + Seq::<TaskView>::empty());
        }
        proof {
            assert(tv.take(i + 1).drop_last() =~= tv.take(i as int));
            assert(tv.take(i + 1).last() == tv[i as int]);
        }
        i = i + 1;
    }
    assert(tv.take(tv.len() as int) =~= tv);
    carried
}

} // verus!
