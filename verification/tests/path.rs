use devlog::Error;
use devlog::LogPath;
use devlog::path::MAX_SEQ_NUM;

fn dir() -> String {
    String::from("/foo/bar")
}

fn rootdir() -> String {
    String::from("/")
}

fn join(dir: &str, name: &str) -> String {
    if dir.ends_with('/') {
        format!("{}{}", dir, name)
    } else {
        format!("{}/{}", dir, name)
    }
}

#[test]
fn test_new() {
    let d = dir();
    let p = LogPath::new(&d, 123);
    assert_eq!(p.seq_num(), 123);
    assert_eq!(p.path(), join(&d, "000000123.devlog"));
}

#[test]
fn test_from_path() {
    let path = join(&dir(), "000000123.devlog");
    let p = LogPath::from_path(path).unwrap();
    assert_eq!(p.seq_num(), 123);
    assert_eq!(p.path(), join(&dir(), "000000123.devlog"));
}

#[test]
fn test_from_path_max_seq_num() {
    let fname = format!("{}.devlog", MAX_SEQ_NUM);
    let path = join(&dir(), &fname);
    let p = LogPath::from_path(path).unwrap();
    assert_eq!(p.seq_num(), MAX_SEQ_NUM);
    assert_eq!(p.path(), join(&dir(), &fname));
}

#[test]
fn test_from_path_not_a_number() {
    let path = join(&dir(), "abc123.devlog");
    assert!(LogPath::from_path(path).is_none());
}

#[test]
fn test_from_path_too_few_digits() {
    let path = join(&dir(), "12345678.devlog");
    assert!(LogPath::from_path(path).is_none());
}

#[test]
fn test_from_path_too_many_digits() {
    let path = join(&dir(), "1234567890.devlog");
    assert!(LogPath::from_path(path).is_none());
}

#[test]
fn test_from_path_seq_num_too_large() {
    let fname = format!("{}.devlog", MAX_SEQ_NUM + 1);
    let path = join(&dir(), &fname);
    assert!(LogPath::from_path(path).is_none());
}

#[test]
fn test_from_path_wrong_ext() {
    let path = join(&dir(), "000000001.csv");
    assert!(LogPath::from_path(path).is_none());
}

#[test]
fn test_next_in_subdir() {
    let d = dir();
    let p = LogPath::new(&d, 123).next().unwrap();
    assert_eq!(p.seq_num(), 124);
    assert_eq!(p.path(), join(&dir(), "000000124.devlog"));
}

#[test]
fn test_next_in_rootdir() {
    let d = rootdir();
    let p = LogPath::new(&d, 123).next().unwrap();
    assert_eq!(p.seq_num(), 124);
    assert_eq!(p.path(), join(&d, "000000124.devlog"));
}

#[test]
fn test_next_file_limit_exceeded() {
    let d = dir();
    let p = LogPath::new(&d, MAX_SEQ_NUM).next();
    match p {
        Err(Error::LogFileLimitExceeded) => {}
        _ => assert!(false),
    }
}

#[test]
fn test_ordering() {
    let d = dir();
    let p1 = LogPath::new(&d, 1);
    let p2 = LogPath::new(&d, 2);
    let p3 = LogPath::new(&d, 2);
    assert!(p1 < p2);
    assert!(p2 > p1);
    assert!(p2 == p3);
}
