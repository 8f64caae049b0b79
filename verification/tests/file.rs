use devlog::LogFile;
use devlog::Task;
use devlog::TaskStatus;

#[test]
fn test_load() {
    let lines = vec![
        String::from("+ DONE"),
        String::from("- BLOCKED"),
        String::from("* INCOMPLETE"),
        String::from("COMMENT"),
    ];
    let lf = LogFile::from_lines(&lines);
    let expected = vec![
        Task::new(TaskStatus::Done, "DONE"),
        Task::new(TaskStatus::Blocked, "BLOCKED"),
        Task::new(TaskStatus::ToDo, "INCOMPLETE"),
    ];
    assert_eq!(lf.tasks(), &expected);
}

#[test]
fn test_load_empty() {
    let lines: Vec<String> = Vec::new();
    let lf = LogFile::from_lines(&lines);
    assert_eq!(lf.tasks().len(), 0);
}

#[test]
fn test_load_keeps_order_and_duplicates() {
    let lines = vec![
        String::from("* one"),
        String::from("ignore me"),
        String::from("* one"),
        String::from("^ two"),
    ];
    let lf = LogFile::from_lines(&lines);
    let expected = vec![
        Task::new(TaskStatus::ToDo, "one"),
        Task::new(TaskStatus::ToDo, "one"),
        Task::new(TaskStatus::Started, "two"),
    ];
    assert_eq!(lf.tasks(), &expected);
}
