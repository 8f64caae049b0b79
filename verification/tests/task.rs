use devlog::Task;
use devlog::TaskStatus;

#[test]
fn test_parse_todo() {
    let t = Task::from_string("* INCOMPLETE").expect("Could not parse todo task");
    assert_eq!(t.status(), TaskStatus::ToDo);
    assert_eq!(t.content(), "INCOMPLETE");
}

#[test]
fn test_parse_started() {
    let t = Task::from_string("^ STARTED").expect("Could not parse started task");
    assert_eq!(t.status(), TaskStatus::Started);
    assert_eq!(t.content(), "STARTED");
}

#[test]
fn test_parse_done() {
    let t = Task::from_string("+ Done").expect("Could not parse done task");
    assert_eq!(t.status(), TaskStatus::Done);
    assert_eq!(t.content(), "Done");
}

#[test]
fn test_parse_blocked() {
    let t = Task::from_string("- Blocked").expect("Could not parse blocked task");
    assert_eq!(t.status(), TaskStatus::Blocked);
    assert_eq!(t.content(), "Blocked");
}

#[test]
fn test_parse_ignore() {
    let t = Task::from_string("Comment");
    assert!(t.is_none());
}

#[test]
fn test_parse_ignore_leading_whitespace() {
    let t = Task::from_string("     * COMMENT");
    assert!(t.is_none());
}

#[test]
fn test_trim_whitespace() {
    let t = Task::from_string("+    done      \n").expect("Could not parse task");
    assert_eq!(t.status(), TaskStatus::Done);
    assert_eq!(t.content(), "done");
}

#[test]
fn test_fmt_todo() {
    let t = Task::new(TaskStatus::ToDo, "INCOMPLETE");
    let s = t.render();
    assert_eq!(s, "* INCOMPLETE");
}

#[test]
fn test_fmt_started() {
    let t = Task::new(TaskStatus::Started, "STARTED");
    let s = t.render();
    assert_eq!(s, "^ STARTED");
}

#[test]
fn test_fmt_done() {
    let t = Task::new(TaskStatus::Done, "DONE");
    let s = t.render();
    assert_eq!(s, "+ DONE");
}

#[test]
fn test_fmt_blocked() {
    let t = Task::new(TaskStatus::Blocked, "BLOCKED");
    let s = t.render();
    assert_eq!(s, "- BLOCKED");
}
