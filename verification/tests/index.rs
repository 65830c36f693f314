use palpatine::index::{
    decode, extract_todo, should_index, Index, IndexCommand, IndexError, IndexedEntry, Todo,
};
use palpatine::text::Candidate;
use palpatine::time::Timestamp;

fn at(secs: u64, nanos: u32) -> Timestamp {
    Timestamp { secs_since_epoch: secs, nanos_since_epoch: nanos }
}

fn entry(relative_path: &str, todos: Vec<Todo>, last_indexed: Timestamp) -> IndexedEntry {
    IndexedEntry {
        path: format!("/repo/{}", relative_path),
        relative_path: relative_path.to_string(),
        todos,
        last_indexed,
    }
}

fn note(line: usize, body: &str) -> Todo {
    Todo { line, col: 2, author: String::from("Ann"), body: body.to_string() }
}

const CACHE: &str = "/repo/.palpatine/index.json";

#[test]
fn timestamps_order_by_seconds_then_nanoseconds() {
    assert!(at(5, 0).at_or_after(&at(4, 999_999_999)));
    assert!(at(5, 1).at_or_after(&at(5, 0)));
    assert!(at(5, 7).at_or_after(&at(5, 7)));
    assert!(!at(5, 0).at_or_after(&at(5, 1)));
    assert!(!at(4, 999_999_999).at_or_after(&at(5, 0)));
}

#[test]
fn a_new_index_has_no_rows() {
    let index = Index::new();
    assert_eq!(index.len(), 0);
    assert!(index.get("a.py").is_none());
}

#[test]
fn insert_adds_a_row_under_its_relative_path() {
    let mut index = Index::new();
    index.insert(entry("a.py", vec![note(1, "x")], at(1, 0)));
    index.insert(entry("b.py", vec![], at(2, 0)));
    assert_eq!(index.len(), 2);
    assert_eq!(index.get("a.py"), Some(&entry("a.py", vec![note(1, "x")], at(1, 0))));
    assert_eq!(index.get("b.py"), Some(&entry("b.py", vec![], at(2, 0))));
    assert!(index.get("c.py").is_none());
}

#[test]
fn insert_replaces_the_row_with_the_same_key() {
    let mut index = Index::new();
    index.insert(entry("a.py", vec![note(1, "old"), note(2, "older")], at(1, 0)));
    index.insert(entry("b.py", vec![], at(1, 0)));
    index.insert(entry("a.py", vec![note(7, "new")], at(9, 0)));
    assert_eq!(index.len(), 2);
    assert_eq!(index.get("a.py"), Some(&entry("a.py", vec![note(7, "new")], at(9, 0))));
    assert_eq!(index.get("b.py"), Some(&entry("b.py", vec![], at(1, 0))));
}

#[test]
fn from_rows_keeps_rows_with_distinct_keys() {
    let rows = vec![
        entry("a.py", vec![note(1, "x")], at(1, 0)),
        entry("b.py", vec![], at(2, 5)),
    ];
    let index = Index::from_rows(rows.clone()).expect("keys are distinct");
    assert_eq!(index.entries, rows);
    assert_eq!(Index::from_rows(Vec::new()), Some(Index::new()));
}

#[test]
fn from_rows_refuses_a_key_that_comes_twice() {
    let rows = vec![
        entry("a.py", vec![], at(1, 0)),
        entry("b.py", vec![], at(2, 0)),
        entry("a.py", vec![note(1, "x")], at(3, 0)),
    ];
    assert_eq!(Index::from_rows(rows), None);
}

#[test]
fn rows_survive_being_taken_out_and_put_back() {
    let mut index = Index::new();
    index.insert(entry("a.py", vec![note(3, "fix parsing")], at(4, 2)));
    index.insert(entry("dir/b.rs", vec![], at(5, 0)));
    let copy = Index::from_rows(index.clone().into_rows());
    assert_eq!(copy, Some(index));
}

#[test]
fn the_cache_file_is_skipped_without_a_reason() {
    let index = Index::new();
    assert_eq!(
        should_index(&index, CACHE, "/repo/", CACHE, Some(at(1, 0))),
        Ok(IndexCommand::Skip(None))
    );
    assert_eq!(should_index(&index, CACHE, "/repo/", CACHE, None), Ok(IndexCommand::Skip(None)));
}

#[test]
fn a_file_without_a_modification_time_is_an_error() {
    let index = Index::new();
    assert_eq!(
        should_index(&index, CACHE, "/repo/", "/repo/a.py", None),
        Err(IndexError::MetadataFailure)
    );
}

#[test]
fn a_file_outside_the_root_is_an_error() {
    let index = Index::new();
    assert_eq!(
        should_index(&index, CACHE, "/repo/", "/elsewhere/a.py", Some(at(1, 0))),
        Err(IndexError::OutsideRoot)
    );
}

#[test]
fn a_file_without_a_row_is_scanned() {
    let index = Index::new();
    assert_eq!(
        should_index(&index, CACHE, "/repo/", "/repo/src/a.py", Some(at(1, 0))),
        Ok(IndexCommand::Scan(String::from("src/a.py")))
    );
}

#[test]
fn a_file_older_than_its_row_is_skipped() {
    let mut index = Index::new();
    index.insert(entry("a.py", vec![], at(10, 0)));
    assert_eq!(
        should_index(&index, CACHE, "/repo/", "/repo/a.py", Some(at(9, 999))),
        Ok(IndexCommand::Skip(Some(String::from("already up to date"))))
    );
}

#[test]
fn a_file_changed_in_the_instant_of_its_scan_is_skipped() {
    let mut index = Index::new();
    index.insert(entry("a.py", vec![], at(10, 5)));
    assert_eq!(
        should_index(&index, CACHE, "/repo/", "/repo/a.py", Some(at(10, 5))),
        Ok(IndexCommand::Skip(Some(String::from("already up to date"))))
    );
}

#[test]
fn a_file_younger_than_its_row_is_scanned() {
    let mut index = Index::new();
    index.insert(entry("a.py", vec![], at(10, 5)));
    assert_eq!(
        should_index(&index, CACHE, "/repo/", "/repo/a.py", Some(at(10, 6))),
        Ok(IndexCommand::Scan(String::from("a.py")))
    );
    assert_eq!(
        should_index(&index, CACHE, "/repo/", "/repo/a.py", Some(at(11, 0))),
        Ok(IndexCommand::Scan(String::from("a.py")))
    );
}

#[test]
fn decode_gives_the_text_of_valid_bytes() {
    assert_eq!(decode(Some(b"# TODO: x\n".to_vec())), Some(String::from("# TODO: x\n")));
    assert_eq!(decode(Some(vec![0xc3, 0xa9])), Some(String::from("é")));
    assert_eq!(decode(Some(Vec::new())), Some(String::new()));
}

#[test]
fn decode_gives_nothing_for_bytes_that_are_no_text() {
    assert_eq!(decode(Some(vec![0xff, 0xfe, 0x00])), None);
    assert_eq!(decode(Some(vec![b'a', 0xc3])), None);
    assert_eq!(decode(None), None);
}

#[test]
fn extract_todo_counts_lines_from_one() {
    let candidate = Candidate { row: 2, col: 4, body: String::from("fix parsing") };
    assert_eq!(
        extract_todo(&candidate, Some(String::from("Ann"))),
        Todo { line: 3, col: 4, author: String::from("Ann"), body: String::from("fix parsing") }
    );
}

#[test]
fn extract_todo_without_an_author_says_unknown() {
    let candidate = Candidate { row: 0, col: 0, body: String::from("x") };
    assert_eq!(
        extract_todo(&candidate, None),
        Todo { line: 1, col: 0, author: String::from("Unknown"), body: String::from("x") }
    );
}
