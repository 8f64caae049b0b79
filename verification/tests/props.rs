use devlog::Error;
use devlog::LogPath;
use devlog::LogRepository;
use devlog::Task;
use devlog::TaskStatus;
use devlog::args::is_affirmative;
use devlog::args::parse_count;
use devlog::args::parse_limit;
use devlog::header::HEADER_HELP;
use devlog::header::header_text;
use devlog::header::write_header;
use devlog::repository::SEED_TEXT;

#[test]
fn test_round_trip_generated_paths() {
    // A generated path always parses back to the same sequence number,
    // whatever the directory looks like.
    for dir in ["", "/", "/foo/bar", "relative", "/ends/with/slash/"] {
        for seq in [1usize, 2, 123, 1000, 999_999_998, 999_999_999] {
            let p = LogPath::new(dir, seq);
            let q = LogPath::from_path(p.path().to_string()).unwrap();
            assert_eq!(q.seq_num(), seq);
            assert_eq!(q.path(), p.path());
        }
    }
}

#[test]
fn test_from_path_rejects_zero() {
    assert!(LogPath::from_path(String::from("/foo/000000000.devlog")).is_none());
}

#[test]
fn test_from_path_rejects_digits_inside_prefix() {
    // The nine digits must make up the whole file name.
    assert!(LogPath::from_path(String::from("/foo/x000000123.devlog")).is_none());
}

#[test]
fn test_tail_on_permutations() {
    // However the directory enumeration orders the names, tail returns
    // the k largest sequence numbers in descending order, latest the
    // single largest, and nth-from-latest the nth element of the tail.
    let repo = LogRepository::new("/foo/devlogs");
    let orders: Vec<Vec<usize>> = vec![
        vec![1, 2, 3, 4],
        vec![4, 3, 2, 1],
        vec![2, 4, 1, 3],
        vec![3, 1, 4, 2],
    ];
    for order in orders {
        let names: Vec<String> = order.iter().map(|s| format!("{:09}.devlog", s)).collect();
        for k in 0..=5usize {
            let t = repo.tail(&names, k);
            assert_eq!(t.len(), k.min(4));
            let seqs: Vec<usize> = t.iter().map(|p| p.seq_num()).collect();
            let expected: Vec<usize> = [4usize, 3, 2, 1][..k.min(4)].to_vec();
            assert_eq!(seqs, expected);
        }
        let latest = repo.latest(&names).unwrap();
        assert_eq!(latest.seq_num(), 4);
        for i in 0..4usize {
            let nth = repo.nth_from_latest(&names, i).unwrap();
            let t = repo.tail(&names, i + 1);
            assert_eq!(nth, t[i]);
            assert_eq!(nth.seq_num(), 4 - i);
        }
        assert!(repo.nth_from_latest(&names, 4).is_none());
    }
}

#[test]
fn test_list_skips_foreign_names() {
    let repo = LogRepository::new("/foo/devlogs");
    let names = vec![
        String::from("000000002.devlog"),
        String::from("notes.txt"),
        String::from("000000001.devlog"),
        String::from("hooks"),
    ];
    let listed = repo.list(&names);
    let seqs: Vec<usize> = listed.iter().map(|p| p.seq_num()).collect();
    assert_eq!(seqs, vec![2, 1]);
}

#[test]
fn test_initialized() {
    let repo = LogRepository::new("/foo/devlogs");
    let empty: Vec<String> = Vec::new();
    assert!(!repo.initialized(&empty));
    let only_foreign = vec![String::from("readme.md")];
    assert!(!repo.initialized(&only_foreign));
    let with_entry = vec![String::from("readme.md"), String::from("000000007.devlog")];
    assert!(repo.initialized(&with_entry));
}

#[test]
fn test_init_seeds_first_entry() {
    let repo = LogRepository::new("/foo/devlogs");
    let (p, content) = repo.init();
    assert_eq!(p.seq_num(), 1);
    assert_eq!(p.path(), "/foo/devlogs/000000001.devlog");
    assert_eq!(content, SEED_TEXT);
    assert!(content.starts_with("Welcome to your devlog!\n"));
    assert!(content.ends_with("\n"));
}

#[test]
fn test_parse_examples() {
    let t = Task::from_string("* foo").unwrap();
    assert_eq!(t.status(), TaskStatus::ToDo);
    assert_eq!(t.content(), "foo");
    let t = Task::from_string("^ bar").unwrap();
    assert_eq!(t.status(), TaskStatus::Started);
    assert_eq!(t.content(), "bar");
    let t = Task::from_string("+ baz").unwrap();
    assert_eq!(t.status(), TaskStatus::Done);
    assert_eq!(t.content(), "baz");
    let t = Task::from_string("- qux").unwrap();
    assert_eq!(t.status(), TaskStatus::Blocked);
    assert_eq!(t.content(), "qux");
    assert!(Task::from_string("   * indented").is_none());
    assert!(Task::from_string("plain text").is_none());
    let t = Task::from_string("+    trim me   ").unwrap();
    assert_eq!(t.status(), TaskStatus::Done);
    assert_eq!(t.content(), "trim me");
    assert!(Task::from_string("").is_none());
}

#[test]
fn test_trim_unicode_whitespace() {
    // Content is trimmed of all Unicode white space, not only the ASCII
    // kind, as a text editor may leave no-break or ideographic spaces.
    let t = Task::from_string("*\u{00A0}nbsp padded\u{00A0} ").unwrap();
    assert_eq!(t.status(), TaskStatus::ToDo);
    assert_eq!(t.content(), "nbsp padded");
    let t = Task::from_string("-\u{2003}\u{3000}wide\u{2028}").unwrap();
    assert_eq!(t.status(), TaskStatus::Blocked);
    assert_eq!(t.content(), "wide");
    let t = Task::from_string("^\u{0085}kept\u{00A0}inside\u{0085}").unwrap();
    assert_eq!(t.status(), TaskStatus::Started);
    assert_eq!(t.content(), "kept\u{00A0}inside");
}

#[test]
fn test_header_text_known_date() {
    assert_eq!(header_text(2026, 10, 11, false), "2026-10-11\n\n");
    assert_eq!(header_text(987, 1, 2, false), "0987-01-02\n\n");
    assert_eq!(header_text(-44, 3, 15, false), "-0044-03-15\n\n");
    assert_eq!(header_text(10000, 12, 31, false), "10000-12-31\n\n");
    let with_help = header_text(2026, 10, 11, true);
    assert_eq!(
        with_help,
        format!("2026-10-11\n{}\n\n", HEADER_HELP)
    );
}

#[test]
fn test_write_header_is_dated() {
    // The header comes from the clock, so only its shape is fixed: a date
    // line of digits and dashes, then a blank line.
    let h = write_header(false);
    assert!(h.ends_with("\n\n"));
    let date_line = h.lines().next().unwrap();
    let parts: Vec<&str> = date_line.split('-').collect();
    assert_eq!(parts.len(), 3);
    assert!(parts.iter().all(|p| !p.is_empty() && p.chars().all(|c| c.is_ascii_digit())));
    assert_eq!(parts[0].len(), 4);
    assert_eq!(parts[1].len(), 2);
    assert_eq!(parts[2].len(), 2);
}

#[test]
fn test_parse_count_values() {
    assert_eq!(parse_count("0"), Some(0));
    assert_eq!(parse_count("7"), Some(7));
    assert_eq!(parse_count("042"), Some(42));
    assert_eq!(parse_count("+5"), Some(5));
    assert_eq!(parse_count("+0"), Some(0));
    assert_eq!(parse_count(""), None);
    assert_eq!(parse_count("+"), None);
    assert_eq!(parse_count("++5"), None);
    assert_eq!(parse_count("5+"), None);
    assert_eq!(parse_count("12a"), None);
    assert_eq!(parse_count("-3"), None);
    assert_eq!(parse_count(" 3"), None);
    assert_eq!(parse_count("99999999999999999999999999"), None);
}

#[test]
fn test_parse_limit_values() {
    assert_eq!(parse_limit("2").unwrap(), 2);
    assert_eq!(parse_limit("10").unwrap(), 10);
    assert_eq!(parse_limit("+2").unwrap(), 2);
    match parse_limit("0") {
        Err(Error::InvalidArg(m)) => assert_eq!(m, "limit must be >= 1"),
        _ => assert!(false),
    }
    match parse_limit("abc") {
        Err(Error::InvalidArg(m)) => assert_eq!(m, "limit must be an integer"),
        _ => assert!(false),
    }
}

#[test]
fn test_is_affirmative_answers() {
    assert!(is_affirmative("y"));
    assert!(is_affirmative("Y"));
    assert!(is_affirmative("yes"));
    assert!(is_affirmative("YES"));
    assert!(is_affirmative("Yes"));
    assert!(is_affirmative("  yes \n"));
    assert!(is_affirmative("\u{00A0}yes\u{00A0}"));
    assert!(!is_affirmative("no"));
    assert!(!is_affirmative(""));
    assert!(!is_affirmative("yess"));
    assert!(!is_affirmative("y e s"));
}

#[test]
fn test_hook_names() {
    assert_eq!(devlog::hook::HookType::BeforeEdit.name(), "before-edit");
    assert_eq!(devlog::hook::HookType::AfterEdit.name(), "after-edit");
    assert_eq!(devlog::hook::HookType::BeforeRollover.name(), "before-rollover");
    assert_eq!(devlog::hook::HookType::AfterRollover.name(), "after-rollover");
}

#[test]
fn test_config_values() {
    let c = devlog::Config::new("/home/someone/devlogs", "vim");
    assert_eq!(c.repo_dir(), "/home/someone/devlogs");
    assert_eq!(c.editor_prog(), "vim");
}

#[test]
fn test_display_names() {
    assert_eq!(TaskStatus::ToDo.display_name(), "To Do");
    assert_eq!(TaskStatus::Started.display_name(), "In Progress");
    assert_eq!(TaskStatus::Blocked.display_name(), "Blocked");
    assert_eq!(TaskStatus::Done.display_name(), "Done");
}
