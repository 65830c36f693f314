use palpatine::index::{Index, IndexedEntry, Todo};
use palpatine::report::{decimal_text, header, render_todo, report_index};
use palpatine::time::Timestamp;

fn todo(line: usize, author: &str, body: &str) -> Todo {
    Todo { line, col: 2, author: author.to_string(), body: body.to_string() }
}

fn row(relative_path: &str, todos: Vec<Todo>) -> IndexedEntry {
    IndexedEntry {
        path: format!("/repo/{}", relative_path),
        relative_path: relative_path.to_string(),
        todos,
        last_indexed: Timestamp { secs_since_epoch: 10, nanos_since_epoch: 0 },
    }
}

#[test]
fn decimal_text_writes_numbers() {
    assert_eq!(decimal_text(0), "0");
    assert_eq!(decimal_text(7), "7");
    assert_eq!(decimal_text(10), "10");
    assert_eq!(decimal_text(12345), "12345");
    assert_eq!(decimal_text(usize::MAX), usize::MAX.to_string());
}

#[test]
fn header_names_count_and_file() {
    assert_eq!(header(1, "a.py"), "1 TODOs in a.py");
    assert_eq!(header(12, "src/lib.rs"), "12 TODOs in src/lib.rs");
}

#[test]
fn a_todo_line_shows_line_author_and_body() {
    assert_eq!(render_todo(&todo(3, "Ann", "fix parsing")), "    3: TODO(Ann): fix parsing");
    assert_eq!(render_todo(&todo(120, "Unknown", "x")), "    120: TODO(Unknown): x");
}

#[test]
fn report_shows_only_files_with_annotations() {
    let mut index = Index::new();
    index.insert(row("a.py", vec![todo(3, "Ann", "fix parsing")]));
    index.insert(row("empty.py", vec![]));
    index.insert(row("b.rs", vec![todo(1, "Bo", "one"), todo(9, "Unknown", "two")]));
    assert_eq!(
        report_index(&index),
        vec![
            "1 TODOs in a.py",
            "    3: TODO(Ann): fix parsing",
            "2 TODOs in b.rs",
            "    1: TODO(Bo): one",
            "    9: TODO(Unknown): two",
        ]
    );
}

#[test]
fn report_of_an_empty_index_is_empty() {
    assert!(report_index(&Index::new()).is_empty());
}
