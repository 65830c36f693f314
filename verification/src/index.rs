//! The index: one row per file, keyed by the file's path relative to the
//! repository root, and the procedure that keeps it up to date.

use crate::config::Config;
use crate::paths::{relative_path, relative_to, same_text};
use crate::text::{candidate_views, markers, scan, Candidate, CandidateView};
use crate::time::Timestamp;
use vstd::prelude::*;
use vstd::utf8::{decode_utf8, valid_utf8};

verus! {

/// One annotation, attributed to whoever wrote its line.
#[derive(Debug, Clone, PartialEq, Eq)]
pub struct Todo {
    /// Line number, counted from one.
    pub line: usize,
    /// Byte offset of the tag within the line.
    pub col: usize,
    /// Name of the author, or `Unknown`.
    pub author: String,
    /// Text after the tag, without surrounding blanks.
    pub body: String,
}

/// An annotation as the contracts see it.
pub struct TodoView {
    pub line: nat,
    pub col: nat,
    pub author: Seq<char>,
    pub body: Seq<char>,
}

impl View for Todo {
    type V = TodoView;

    open spec fn view(&self) -> TodoView {
        TodoView {
            line: self.line as nat,
            col: self.col as nat,
            author: self.author@,
            body: self.body@,
        }
    }
}

/// The views of a sequence of annotations.
pub open spec fn todo_views(v: Seq<Todo>) -> Seq<TodoView> {
    Seq::new(v.len(), |i: int| v[i]@)
}

/// What the index knows of one file.
#[derive(Debug, Clone, PartialEq, Eq)]
pub struct IndexedEntry {
    /// Where the file was when it was scanned.
    pub path: String,
    /// The same place seen from the repository root: the key of the row.
    pub relative_path: String,
    /// The annotations found, top to bottom.
    pub todos: Vec<Todo>,
    /// When the scan took place.
    pub last_indexed: Timestamp,
}

/// A row as the contracts see it.
pub struct EntryView {
    pub path: Seq<char>,
    pub relative_path: Seq<char>,
    pub todos: Seq<TodoView>,
    pub last_indexed: Timestamp,
}

impl View for IndexedEntry {
    type V = EntryView;

    open spec fn view(&self) -> EntryView {
        EntryView {
            path: self.path@,
            relative_path: self.relative_path@,
            todos: todo_views(self.todos@),
            last_indexed: self.last_indexed,
        }
    }
}

/// The views of a sequence of rows.
pub open spec fn entry_views(v: Seq<IndexedEntry>) -> Seq<EntryView> {
    Seq::new(v.len(), |i: int| v[i]@)
}

/// Whether the row at `i` has the key `key`.
pub open spec fn holds_key_at(rows: Seq<EntryView>, i: int, key: Seq<char>) -> bool {
    0 <= i < rows.len() && rows[i].relative_path == key
}

/// No two rows share a key.
pub open spec fn distinct_keys(rows: Seq<EntryView>) -> bool {
    forall|i: int, j: int|
        0 <= i < rows.len() && 0 <= j < rows.len() && i != j ==> #[trigger] rows[i].relative_path
            != #[trigger] rows[j].relative_path
}

/// The rows as a mapping from key to row.
pub open spec fn rows_map(rows: Seq<EntryView>) -> Map<Seq<char>, EntryView> {
    Map::new(
        |key: Seq<char>| exists|i: int| holds_key_at(rows, i, key),
        |key: Seq<char>| rows[choose|i: int| holds_key_at(rows, i, key)],
    )
}

/// The rows in the order in which their keys first came in.
#[derive(Debug, Clone, PartialEq, Eq)]
pub struct Index {
    pub entries: Vec<IndexedEntry>,
}

/// An index as it is handed around between runs.
#[derive(Debug, Clone, PartialEq, Eq)]
pub struct IndexData {
    pub index: Index,
}

impl View for Index {
    type V = Map<Seq<char>, EntryView>;

    open spec fn view(&self) -> Map<Seq<char>, EntryView> {
        rows_map(self.rows())
    }
}

/// In a sequence with distinct keys the row with a given key is found
/// under that key.
pub proof fn lemma_row_is_mapped(rows: Seq<EntryView>, i: int, key: Seq<char>)
    requires
        distinct_keys(rows),
        holds_key_at(rows, i, key),
    ensures
        rows_map(rows).contains_key(key),
        rows_map(rows)[key] == rows[i],
{
    let j = choose|j: int| holds_key_at(rows, j, key);
    assert(holds_key_at(rows, j, key));
    if i != j {
        assert(rows[i].relative_path != rows[j].relative_path);
    }
}

/// Replacing the row that has the key of `row` is an insertion under that
/// key.
pub proof fn lemma_replace_is_insert(rows: Seq<EntryView>, i: int, row: EntryView)
    requires
        distinct_keys(rows),
        holds_key_at(rows, i, row.relative_path),
    ensures
        distinct_keys(rows.update(i, row)),
        rows_map(rows.update(i, row)) == rows_map(rows).insert(row.relative_path, row),
{
    let after = rows.update(i, row);
    assert forall|a: int, b: int| 0 <= a < after.len() && 0 <= b < after.len() && a != b implies
        #[trigger] after[a].relative_path != #[trigger] after[b].relative_path by {
        assert(after[a].relative_path == rows[a].relative_path);
        assert(after[b].relative_path == rows[b].relative_path);
    }
    assert forall|key: Seq<char>|
        rows_map(after).contains_key(key) <==> rows_map(rows).insert(
            row.relative_path,
            row,
        ).contains_key(key) by {
        if rows_map(after).contains_key(key) {
            let j = choose|j: int| holds_key_at(after, j, key);
            assert(holds_key_at(rows, j, key));
        }
        if rows_map(rows).contains_key(key) {
            let j = choose|j: int| holds_key_at(rows, j, key);
            assert(holds_key_at(after, j, key));
        }
        if key == row.relative_path {
            assert(holds_key_at(after, i, key));
        }
    }
    assert forall|key: Seq<char>| rows_map(after).contains_key(key) implies rows_map(after)[key]
        == rows_map(rows).insert(row.relative_path, row)[key] by {
        let j = choose|j: int| holds_key_at(after, j, key);
        assert(holds_key_at(after, j, key));
        lemma_row_is_mapped(after, j, key);
        if key == row.relative_path {
            assert(holds_key_at(after, i, key));
            lemma_row_is_mapped(after, i, key);
        } else {
            assert(holds_key_at(rows, j, key));
            lemma_row_is_mapped(rows, j, key);
        }
    }
    assert(rows_map(after) =~= rows_map(rows).insert(row.relative_path, row));
}

/// Appending a row whose key is new is an insertion under that key.
pub proof fn lemma_push_is_insert(rows: Seq<EntryView>, row: EntryView)
    requires
        distinct_keys(rows),
        forall|i: int| !holds_key_at(rows, i, row.relative_path),
    ensures
        distinct_keys(rows.push(row)),
        rows_map(rows.push(row)) == rows_map(rows).insert(row.relative_path, row),
{
    let after = rows.push(row);
    let last = rows.len() as int;
    assert forall|a: int, b: int| 0 <= a < after.len() && 0 <= b < after.len() && a != b implies
        #[trigger] after[a].relative_path != #[trigger] after[b].relative_path by {
        if a < last {
            assert(!holds_key_at(rows, a, row.relative_path));
        }
        if b < last {
            assert(!holds_key_at(rows, b, row.relative_path));
        }
    }
    assert forall|key: Seq<char>|
        rows_map(after).contains_key(key) <==> rows_map(rows).insert(
            row.relative_path,
            row,
        ).contains_key(key) by {
        if rows_map(after).contains_key(key) {
            let j = choose|j: int| holds_key_at(after, j, key);
            if j < last {
                assert(holds_key_at(rows, j, key));
            }
        }
        if rows_map(rows).contains_key(key) {
            let j = choose|j: int| holds_key_at(rows, j, key);
            assert(holds_key_at(after, j, key));
        }
        if key == row.relative_path {
            assert(holds_key_at(after, last, key));
        }
    }
    assert forall|key: Seq<char>| rows_map(after).contains_key(key) implies rows_map(after)[key]
        == rows_map(rows).insert(row.relative_path, row)[key] by {
        let j = choose|j: int| holds_key_at(after, j, key);
        assert(holds_key_at(after, j, key));
        lemma_row_is_mapped(after, j, key);
        if key == row.relative_path {
            assert(holds_key_at(after, last, key));
            lemma_row_is_mapped(after, last, key);
        } else {
            assert(holds_key_at(rows, j, key));
            lemma_row_is_mapped(rows, j, key);
        }
    }
    assert(rows_map(after) =~= rows_map(rows).insert(row.relative_path, row));
}

impl Index {
    /// The rows, in order.
    pub open spec fn rows(&self) -> Seq<EntryView> {
        entry_views(self.entries@)
    }

    /// No two rows share a key.
    pub open spec fn wf(&self) -> bool {
        distinct_keys(self.rows())
    }

    /// An index without rows.
    pub fn new() -> (r: Index)
        ensures
            r.wf(),
            r@ == Map::<Seq<char>, EntryView>::empty(),
            r.rows().len() == 0,
    {
        let r = Index { entries: Vec::new() };
        assert(r@ =~= Map::<Seq<char>, EntryView>::empty());
        r
    }

    /// Whether `r` is the index made of `entries`: the one that holds
    /// them in their order where no two share a relative path, and nothing
    /// where two do.
    pub open spec fn made_of(entries: Seq<IndexedEntry>, r: Option<Index>) -> bool {
        match r {
            Some(index) => index.entries@ == entries && index.wf(),
            None => !distinct_keys(entry_views(entries)),
        }
    }

    /// The rows of the index, in order.
    pub fn into_rows(self) -> (rows: Vec<IndexedEntry>)
        ensures
            rows@ == self.entries@,
    {
        self.entries
    }

    /// An index made of `entries`, where no two of them share a relative
    /// path; nothing where two do.
    pub fn from_rows(entries: Vec<IndexedEntry>) -> (r: Option<Index>)
        ensures
            Index::made_of(entries@, r),
    {
        let ghost rows = entry_views(entries@);
        let mut i: usize = 0;
        while i < entries.len()
            invariant
                i <= entries@.len(),
                rows == entry_views(entries@),
                forall|a: int, b: int|
                    0 <= a < b < i ==> #[trigger] rows[a].relative_path
                        != #[trigger] rows[b].relative_path,
            decreases entries@.len() - i,
        {
            let mut j: usize = 0;
            while j < i
                invariant
                    j <= i < entries@.len(),
                    rows == entry_views(entries@),
                    forall|a: int|
                        0 <= a < j ==> #[trigger] rows[a].relative_path != rows[i as int].relative_path,
                decreases i - j,
            {
                if entries[j].relative_path == entries[i].relative_path {
                    assert(rows[j as int].relative_path == rows[i as int].relative_path);
                    return None;
                }
                j += 1;
            }
            i += 1;
        }
        Some(Index { entries })
    }

    /// Number of rows.
    pub fn len(&self) -> (n: usize)
        ensures
            n == self.rows().len(),
    {
        self.entries.len()
    }

    /// Where the row with the key `key` stands.
    fn position(&self, key: &String) -> (r: Option<usize>)
        ensures
            match r {
                Some(i) => holds_key_at(self.rows(), i as int, key@),
                None => forall|i: int| !holds_key_at(self.rows(), i, key@),
            },
    {
        let mut i: usize = 0;
        while i < self.entries.len()
            invariant
                i <= self.entries@.len(),
                forall|j: int| 0 <= j < i ==> !holds_key_at(self.rows(), j, key@),
            decreases self.entries@.len() - i,
        {
            if self.entries[i].relative_path == *key {
                return Some(i);
            }
            i += 1;
        }
        None
    }

    /// The row of the file with the relative path `key`.
    pub fn get(&self, key: &str) -> (r: Option<&IndexedEntry>)
        requires
            self.wf(),
        ensures
            match r {
                Some(entry) => self@.contains_key(key@) && self@[key@] == entry@,
                None => !self@.contains_key(key@),
            },
    {
        let owned = key.to_owned();
        match self.position(&owned) {
            Some(i) => {
                proof {
                    lemma_row_is_mapped(self.rows(), i as int, key@);
                }
                Some(&self.entries[i])
            },
            None => None,
        }
    }

    /// Puts `entry` under its relative path, in place of any row that was
    /// there.
    pub fn insert(&mut self, entry: IndexedEntry)
        requires
            old(self).wf(),
        ensures
            final(self).wf(),
            final(self)@ == old(self)@.insert(entry.relative_path@, entry@),
    {
        let ghost before = self.rows();
        match self.position(&entry.relative_path) {
            Some(i) => {
                proof {
                    lemma_replace_is_insert(before, i as int, entry@);
                }
                self.entries.set(i, entry);
                assert(self.rows() =~= before.update(i as int, entry@));
            },
            None => {
                proof {
                    lemma_push_is_insert(before, entry@);
                }
                self.entries.push(entry);
                assert(self.rows() =~= before.push(entry@));
            },
        }
    }
}

/// Why a file could not be indexed.
#[derive(Debug, PartialEq, Eq, Clone, Copy)]
pub enum IndexError {
    /// The file's modification time could not be had.
    MetadataFailure,
    /// The file does not lie under the repository root.
    OutsideRoot,
}

/// What to do with a file.
#[derive(Debug, PartialEq, Eq)]
pub enum IndexCommand {
    /// Leave the file alone, for the reason given, if any.
    Skip(Option<String>),
    /// Read the file and scan it; the row goes under the relative path
    /// given.
    Scan(String),
}

/// What the index needs of a file, seen from its path and modification
/// time alone.
pub enum Plan {
    /// The file is the cache itself.
    Ignore,
    /// The row of the file is at least as young as the file.
    UpToDate,
    /// The file cannot be indexed.
    Fail(IndexError),
    /// The file has to be read; its row goes under the key given.
    Read(Seq<char>),
}

/// The plan for the file at `path`.
pub open spec fn plan(
    index: Map<Seq<char>, EntryView>,
    cache_file: Seq<char>,
    root: Seq<char>,
    path: Seq<char>,
    modified: Option<Timestamp>,
) -> Plan {
    if path == cache_file {
        Plan::Ignore
    } else {
        match modified {
            None => Plan::Fail(IndexError::MetadataFailure),
            Some(changed) => match relative_to(path, root) {
                None => Plan::Fail(IndexError::OutsideRoot),
                Some(key) => if index.contains_key(key) && index[key].last_indexed.not_before(
                    changed,
                ) {
                    Plan::UpToDate
                } else {
                    Plan::Read(key)
                },
            },
        }
    }
}

/// Decides from a file's path and modification time whether it has to be
/// read. `modified` is empty where the time could not be had.
pub fn should_index(
    index: &Index,
    cache_file: &str,
    root: &str,
    path: &str,
    modified: Option<Timestamp>,
) -> (r: Result<IndexCommand, IndexError>)
    requires
        index.wf(),
    ensures
        match plan(index@, cache_file@, root@, path@, modified) {
            Plan::Ignore => r matches Ok(IndexCommand::Skip(None)),
            Plan::UpToDate => r matches Ok(IndexCommand::Skip(Some(reason))) && reason@
                == "already up to date"@,
            Plan::Fail(e) => r matches Err(f) && f == e,
            Plan::Read(key) => r matches Ok(IndexCommand::Scan(rel)) && rel@ == key,
        },
{
    if same_text(path, cache_file) {
        return Ok(IndexCommand::Skip(None));
    }
    let changed = match modified {
        Some(t) => t,
        None => {
            return Err(IndexError::MetadataFailure);
        },
    };
    let rel = match relative_path(path, root) {
        Some(rel) => rel,
        None => {
            return Err(IndexError::OutsideRoot);
        },
    };
    if let Some(row) = index.get(rel.as_str()) {
        if row.last_indexed.at_or_after(&changed) {
            return Ok(IndexCommand::Skip(Some("already up to date".to_owned())));
        }
    }
    Ok(IndexCommand::Scan(rel))
}

/// The text that the bytes of a file stand for, where they were read and
/// are valid UTF-8.
pub open spec fn text_of(data: Option<Seq<u8>>) -> Option<Seq<char>> {
    match data {
        Some(bytes) => if valid_utf8(bytes) {
            Some(decode_utf8(bytes))
        } else {
            None
        },
        None => None,
    }
}

/// The bytes of a file as a sequence.
pub open spec fn bytes_view(data: Option<Vec<u8>>) -> Option<Seq<u8>> {
    match data {
        Some(bytes) => Some(bytes@),
        None => None,
    }
}

/// Calls `String::from_utf8`, which gives the text of the bytes exactly
/// where they are valid UTF-8.
#[verifier::external_body]
fn string_from_utf8(bytes: Vec<u8>) -> (r: Option<String>)
    ensures
        r is Some <==> valid_utf8(bytes@),
        r matches Some(text) ==> text@ == decode_utf8(bytes@),
{
    String::from_utf8(bytes).ok()
}

/// The text of a file, where its bytes were read and are valid UTF-8.
pub fn decode(data: Option<Vec<u8>>) -> (r: Option<String>)
    ensures
        match text_of(bytes_view(data)) {
            Some(text) => r matches Some(s) && s@ == text,
            None => r is None,
        },
{
    match data {
        Some(bytes) => string_from_utf8(bytes),
        None => None,
    }
}

/// The name under which an annotation goes: the one found, or `Unknown`.
pub open spec fn author_name(found: Option<String>) -> Seq<char> {
    match found {
        Some(name) => name@,
        None => "Unknown"@,
    }
}

/// Whether `todo` is `candidate` with an author put to it.
pub open spec fn attributes(todo: TodoView, candidate: CandidateView) -> bool {
    &&& todo.line == candidate.row + 1
    &&& todo.col == candidate.col
    &&& todo.body == candidate.body
}

/// Whether `todos` are `candidates`, one for one and in order, each with
/// an author put to it.
pub open spec fn attributed(todos: Seq<TodoView>, candidates: Seq<CandidateView>) -> bool {
    &&& todos.len() == candidates.len()
    &&& forall|i: int| 0 <= i < todos.len() ==> attributes(#[trigger] todos[i], candidates[i])
}

/// Makes an annotation of a candidate and of what is known of its author.
pub fn extract_todo(candidate: &Candidate, author: Option<String>) -> (todo: Todo)
    requires
        candidate.row < usize::MAX,
    ensures
        todo@ == (TodoView {
            line: (candidate.row + 1) as nat,
            col: candidate.col as nat,
            author: author_name(author),
            body: candidate.body@,
        }),
{
    let name = match author {
        Some(name) => name,
        None => "Unknown".to_owned(),
    };
    Todo { line: candidate.row + 1, col: candidate.col, author: name, body: candidate.body.clone() }
}

/// Puts an author to each candidate found in the file at the
/// repository-relative path `rel`.
pub fn attribute(config: &Config, rel: &str, candidates: &Vec<Candidate>) -> (todos: Vec<Todo>)
    requires
        forall|i: int| 0 <= i < candidates@.len() ==> candidates@[i].row < usize::MAX,
    ensures
        attributed(todo_views(todos@), candidate_views(candidates@)),
{
    let mut todos: Vec<Todo> = Vec::new();
    let mut i: usize = 0;
    while i < candidates.len()
        invariant
            i <= candidates@.len(),
            todos@.len() == i,
            forall|j: int| 0 <= j < candidates@.len() ==> candidates@[j].row < usize::MAX,
            forall|j: int|
                0 <= j < i ==> attributes(
                    #[trigger] todo_views(todos@)[j],
                    candidate_views(candidates@)[j],
                ),
        decreases candidates@.len() - i,
    {
        let candidate = &candidates[i];
        let author = config.author_of(rel, candidate.row);
        let todo = extract_todo(candidate, author);
        let ghost before = todo_views(todos@);
        todos.push(todo);
        assert(todo_views(todos@) =~= before.push(todo@));
        i += 1;
    }
    todos
}

/// Whether `row` is what a scan of `text` at the time `now` leaves for the
/// file at `path`.
pub open spec fn rescanned(
    row: EntryView,
    path: Seq<char>,
    key: Seq<char>,
    text: Seq<char>,
    now: Timestamp,
) -> bool {
    &&& row.path == path
    &&& row.relative_path == key
    &&& row.last_indexed == now
    &&& attributed(row.todos, markers(text))
}

/// What indexing one file does to the index and to the count of scanned
/// files.
pub open spec fn index_file_outcome(
    before: Map<Seq<char>, EntryView>,
    count_before: nat,
    cache_file: Seq<char>,
    root: Seq<char>,
    path: Seq<char>,
    modified: Option<Timestamp>,
    data: Option<Seq<u8>>,
    now: Timestamp,
    after: Map<Seq<char>, EntryView>,
    count_after: nat,
    r: Result<(), IndexError>,
) -> bool {
    match plan(before, cache_file, root, path, modified) {
        Plan::Ignore => r is Ok && after == before && count_after == count_before,
        Plan::UpToDate => r is Ok && after == before && count_after == count_before,
        Plan::Fail(e) => r == Err::<(), IndexError>(e) && after == before && count_after
            == count_before,
        Plan::Read(key) => r is Ok && match text_of(data) {
            None => after == before && count_after == count_before,
            Some(text) => {
                &&& count_after == count_before + 1
                &&& after.contains_key(key)
                &&& after == before.insert(key, after[key])
                &&& rescanned(after[key], path, key, text, now)
            },
        },
    }
}

/// Brings the row of one file up to date.
///
/// `modified` is the file's modification time, empty where it could not be
/// had; `data` holds the file's bytes, empty where they could not be read.
/// A file that is the cache itself, or whose row is at least as young as
/// the file, is left alone, and so is one that is no text. Any other file
/// is scanned, its row replaced by the result, and the count raised by one.
pub fn index_file(
    index: &mut Index,
    config: &Config,
    path: &str,
    modified: Option<Timestamp>,
    data: Option<Vec<u8>>,
    now: Timestamp,
    indexed_count: &mut usize,
) -> (r: Result<(), IndexError>)
    requires
        old(index).wf(),
        *old(indexed_count) < usize::MAX,
    ensures
        final(index).wf(),
        index_file_outcome(
            old(index)@,
            *old(indexed_count) as nat,
            config.cache_file(),
            config.root@,
            path@,
            modified,
            bytes_view(data),
            now,
            final(index)@,
            *final(indexed_count) as nat,
            r,
        ),
{
    let cache_file = config.index_file_path();
    let command = should_index(index, cache_file.as_str(), config.root.as_str(), path, modified);
    let rel = match command {
        Err(e) => {
            return Err(e);
        },
        Ok(IndexCommand::Skip(_)) => {
            return Ok(());
        },
        Ok(IndexCommand::Scan(rel)) => rel,
    };
    let contents = match decode(data) {
        Some(contents) => contents,
        None => {
            return Ok(());
        },
    };
    let candidates = scan(contents.as_str());
    let todos = attribute(config, rel.as_str(), &candidates);
    let entry = IndexedEntry {
        path: path.to_owned(),
        relative_path: rel,
        todos,
        last_indexed: now,
    };
    index.insert(entry);
    *indexed_count += 1;
    Ok(())
}

/// The rows taken out of an index make that index again: the same rows in
/// the same order, and so the same mapping.
pub proof fn lemma_rows_make_the_index_again(index: Index, rows: Vec<IndexedEntry>, r: Option<Index>)
    requires
        index.wf(),
        rows@ == index.entries@,
        Index::made_of(rows@, r),
    ensures
        r matches Some(again) && again.rows() == index.rows() && again@ == index@,
{
}

/// Indexing a file twice in a row, with nothing changed in between, does
/// nothing the second time: neither the index nor the count moves. The
/// first scan has to be dated at or after the file's modification time.
pub proof fn lemma_second_pass_changes_nothing(
    start: Map<Seq<char>, EntryView>,
    count_start: nat,
    cache_file: Seq<char>,
    root: Seq<char>,
    path: Seq<char>,
    modified: Option<Timestamp>,
    data: Option<Seq<u8>>,
    first_now: Timestamp,
    middle: Map<Seq<char>, EntryView>,
    count_middle: nat,
    first: Result<(), IndexError>,
    second_now: Timestamp,
    end: Map<Seq<char>, EntryView>,
    count_end: nat,
    second: Result<(), IndexError>,
)
    requires
        modified matches Some(changed) ==> first_now.not_before(changed),
        index_file_outcome(
            start,
            count_start,
            cache_file,
            root,
            path,
            modified,
            data,
            first_now,
            middle,
            count_middle,
            first,
        ),
        index_file_outcome(
            middle,
            count_middle,
            cache_file,
            root,
            path,
            modified,
            data,
            second_now,
            end,
            count_end,
            second,
        ),
    ensures
        end == middle,
        count_end == count_middle,
        second == first,
{
    if first is Ok && second is Ok {
        assert(first->Ok_0 == ());
        assert(second->Ok_0 == ());
    }
}

/// A file whose row is at least as young as the file is left alone: the
/// index, and so the row and its annotations, stay as they are.
pub proof fn lemma_fresh_row_is_kept(
    before: Map<Seq<char>, EntryView>,
    count_before: nat,
    cache_file: Seq<char>,
    root: Seq<char>,
    path: Seq<char>,
    changed: Timestamp,
    data: Option<Seq<u8>>,
    now: Timestamp,
    after: Map<Seq<char>, EntryView>,
    count_after: nat,
    r: Result<(), IndexError>,
    key: Seq<char>,
)
    requires
        relative_to(path, root) == Some(key),
        before.contains_key(key),
        before[key].last_indexed.not_before(changed),
        index_file_outcome(
            before,
            count_before,
            cache_file,
            root,
            path,
            Some(changed),
            data,
            now,
            after,
            count_after,
            r,
        ),
    ensures
        after == before,
        count_after == count_before,
        r is Ok,
{
}

/// A text file that changed after its row was written, or that has no
/// row, gets a row made of what the scan finds now and of nothing else,
/// even where the scan finds nothing. The other rows stay.
pub proof fn lemma_changed_file_is_rescanned(
    before: Map<Seq<char>, EntryView>,
    count_before: nat,
    cache_file: Seq<char>,
    root: Seq<char>,
    path: Seq<char>,
    changed: Timestamp,
    data: Option<Seq<u8>>,
    now: Timestamp,
    after: Map<Seq<char>, EntryView>,
    count_after: nat,
    r: Result<(), IndexError>,
    key: Seq<char>,
    text: Seq<char>,
)
    requires
        path != cache_file,
        relative_to(path, root) == Some(key),
        !(before.contains_key(key) && before[key].last_indexed.not_before(changed)),
        text_of(data) == Some(text),
        index_file_outcome(
            before,
            count_before,
            cache_file,
            root,
            path,
            Some(changed),
            data,
            now,
            after,
            count_after,
            r,
        ),
    ensures
        r is Ok,
        count_after == count_before + 1,
        after.contains_key(key),
        after == before.insert(key, after[key]),
        after[key].last_indexed == now,
        attributed(after[key].todos, markers(text)),
        markers(text).len() == 0 ==> after[key].todos.len() == 0,
{
}

/// A file that could not be read, or whose bytes are no text, leaves the
/// index as it is, and is no error.
pub proof fn lemma_non_text_is_skipped(
    before: Map<Seq<char>, EntryView>,
    count_before: nat,
    cache_file: Seq<char>,
    root: Seq<char>,
    path: Seq<char>,
    modified: Option<Timestamp>,
    data: Option<Seq<u8>>,
    now: Timestamp,
    after: Map<Seq<char>, EntryView>,
    count_after: nat,
    r: Result<(), IndexError>,
)
    requires
        text_of(data) is None,
        index_file_outcome(
            before,
            count_before,
            cache_file,
            root,
            path,
            modified,
            data,
            now,
            after,
            count_after,
            r,
        ),
    ensures
        after == before,
        count_after == count_before,
        modified is Some && relative_to(path, root) is Some ==> r is Ok,
{
}

/// No row is lost and no row gets older, as long as scans are dated at or
/// after the modification time of the file they read.
pub proof fn lemma_rows_never_get_older(
    before: Map<Seq<char>, EntryView>,
    count_before: nat,
    cache_file: Seq<char>,
    root: Seq<char>,
    path: Seq<char>,
    modified: Option<Timestamp>,
    data: Option<Seq<u8>>,
    now: Timestamp,
    after: Map<Seq<char>, EntryView>,
    count_after: nat,
    r: Result<(), IndexError>,
    key: Seq<char>,
)
    requires
        modified matches Some(changed) ==> now.not_before(changed),
        before.contains_key(key),
        index_file_outcome(
            before,
            count_before,
            cache_file,
            root,
            path,
            modified,
            data,
            now,
            after,
            count_after,
            r,
        ),
    ensures
        after.contains_key(key),
        after[key].last_indexed.not_before(before[key].last_indexed),
{
}

} // verus!
