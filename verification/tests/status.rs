use devlog::Task;
use devlog::TaskStatus;
use devlog::status::DisplayMode;
use devlog::status::print;

fn check_current_status(tasks: &[Task], display_mode: DisplayMode, expected_status: &str) {
    let tasks: Vec<Task> = tasks.to_vec();
    let actual_status = print(&tasks, display_mode);
    assert_eq!(actual_status, expected_status);
}

#[test]
fn test_status_no_tasks() {
    check_current_status(&[], DisplayMode::ShowAll, "No tasks.\n");
}

#[test]
fn test_status_only_todo() {
    check_current_status(
        &[
            Task::new(TaskStatus::ToDo, "Foo"),
            Task::new(TaskStatus::ToDo, "Bar"),
        ],
        DisplayMode::ShowAll,
        "To Do:\n* Foo\n* Bar\n",
    );
}

#[test]
fn test_status_only_started() {
    check_current_status(
        &[
            Task::new(TaskStatus::Started, "Foo"),
            Task::new(TaskStatus::Started, "Bar"),
        ],
        DisplayMode::ShowAll,
        "In Progress:\n^ Foo\n^ Bar\n",
    )
}

#[test]
fn test_status_only_blocked() {
    check_current_status(
        &[
            Task::new(TaskStatus::Blocked, "Foo"),
            Task::new(TaskStatus::Blocked, "Bar"),
        ],
        DisplayMode::ShowAll,
        "Blocked:\n- Foo\n- Bar\n",
    );
}

#[test]
fn test_status_only_done() {
    check_current_status(
        &[
            Task::new(TaskStatus::Done, "Foo"),
            Task::new(TaskStatus::Done, "Bar"),
        ],
        DisplayMode::ShowAll,
        "Done:\n+ Foo\n+ Bar\n",
    );
}

#[test]
fn test_status_todo_and_blocked() {
    check_current_status(
        &[
            Task::new(TaskStatus::ToDo, "Foo"),
            Task::new(TaskStatus::Blocked, "Bar"),
        ],
        DisplayMode::ShowAll,
        "To Do:\n* Foo\n\nBlocked:\n- Bar\n",
    );
}

#[test]
fn test_status_blocked_and_done() {
    check_current_status(
        &[
            Task::new(TaskStatus::Blocked, "Bar"),
            Task::new(TaskStatus::Done, "Baz"),
        ],
        DisplayMode::ShowAll,
        "Blocked:\n- Bar\n\nDone:\n+ Baz\n",
    );
}

#[test]
fn test_status_all_task_types() {
    check_current_status(
        &[
            Task::new(TaskStatus::ToDo, "Foo"),
            Task::new(TaskStatus::Started, "Bar"),
            Task::new(TaskStatus::Blocked, "Baz"),
            Task::new(TaskStatus::Done, "Boo"),
        ],
        DisplayMode::ShowAll,
        "In Progress:\n^ Bar\n\nTo Do:\n* Foo\n\nBlocked:\n- Baz\n\nDone:\n+ Boo\n",
    );
}

#[test]
fn test_show_only_todo() {
    check_current_status(
        &[
            Task::new(TaskStatus::ToDo, "Foo"),
            Task::new(TaskStatus::Started, "Bar"),
            Task::new(TaskStatus::Blocked, "Baz"),
            Task::new(TaskStatus::Done, "Boo"),
        ],
        DisplayMode::ShowOnly(TaskStatus::ToDo),
        "* Foo\n",
    );
}

#[test]
fn test_show_only_started() {
    check_current_status(
        &[
            Task::new(TaskStatus::ToDo, "Foo"),
            Task::new(TaskStatus::Started, "Bar"),
            Task::new(TaskStatus::Blocked, "Baz"),
            Task::new(TaskStatus::Done, "Boo"),
        ],
        DisplayMode::ShowOnly(TaskStatus::Started),
        "^ Bar\n",
    );
}

#[test]
fn test_show_only_blocked() {
    check_current_status(
        &[
            Task::new(TaskStatus::ToDo, "Foo"),
            Task::new(TaskStatus::Started, "Bar"),
            Task::new(TaskStatus::Blocked, "Baz"),
            Task::new(TaskStatus::Done, "Boo"),
        ],
        DisplayMode::ShowOnly(TaskStatus::Blocked),
        "- Baz\n",
    );
}

#[test]
fn test_show_only_done() {
    check_current_status(
        &[
            Task::new(TaskStatus::ToDo, "Foo"),
            Task::new(TaskStatus::Started, "Bar"),
            Task::new(TaskStatus::Blocked, "Baz"),
            Task::new(TaskStatus::Done, "Boo"),
        ],
        DisplayMode::ShowOnly(TaskStatus::Done),
        "+ Boo\n",
    );
}

#[test]
fn test_show_only_todo_no_tasks() {
    check_current_status(
        &[
            Task::new(TaskStatus::Started, "Bar"),
            Task::new(TaskStatus::Blocked, "Baz"),
            Task::new(TaskStatus::Done, "Boo"),
        ],
        DisplayMode::ShowOnly(TaskStatus::ToDo),
        "No tasks.\n",
    );
}

#[test]
fn test_show_only_started_no_tasks() {
    check_current_status(
        &[
            Task::new(TaskStatus::ToDo, "Bar"),
            Task::new(TaskStatus::Blocked, "Baz"),
            Task::new(TaskStatus::Done, "Boo"),
        ],
        DisplayMode::ShowOnly(TaskStatus::Started),
        "No tasks.\n",
    );
}

#[test]
fn test_show_only_blocked_no_tasks() {
    check_current_status(
        &[
            Task::new(TaskStatus::ToDo, "Bar"),
            Task::new(TaskStatus::Started, "Bar"),
            Task::new(TaskStatus::Done, "Boo"),
        ],
        DisplayMode::ShowOnly(TaskStatus::Blocked),
        "No tasks.\n",
    );
}

#[test]
fn test_show_only_done_no_tasks() {
    check_current_status(
        &[
            Task::new(TaskStatus::ToDo, "Bar"),
            Task::new(TaskStatus::Started, "Bar"),
            Task::new(TaskStatus::Blocked, "Baz"),
        ],
        DisplayMode::ShowOnly(TaskStatus::Done),
        "No tasks.\n",
    );
}

#[test]
fn test_previous_status() {
    // The first entry holds one open and two done tasks; a rollover
    // carries only the open one into the new entry.  The report of each
    // entry, and of the time before the first, shows what was open then.
    let repo = devlog::LogRepository::new("/foo/devlogs");
    let first = devlog::LogPath::new("/foo/devlogs", 1);
    let tasks = vec![
        Task::new(TaskStatus::ToDo, "Bar"),
        Task::new(TaskStatus::Done, "Bar"),
        Task::new(TaskStatus::Done, "Baz"),
    ];
    let (second, carried) = devlog::rollover::rollover(&repo, Some(&first), &tasks).unwrap();
    assert_eq!(second.seq_num(), 2);

    // Before the first logfile there is no entry at all.
    let names = vec![
        String::from("000000001.devlog"),
        String::from("000000002.devlog"),
    ];
    assert!(repo.nth_from_latest(&names, 2).is_none());

    // The first logfile still shows everything it held.
    check_current_status(
        &tasks,
        DisplayMode::ShowAll,
        "To Do:\n* Bar\n\nDone:\n+ Bar\n+ Baz\n",
    );

    // The latest logfile holds only the carried task.
    check_current_status(&carried, DisplayMode::ShowAll, "To Do:\n* Bar\n");
}
