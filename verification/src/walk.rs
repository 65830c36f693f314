//! The walk through the tree: what happens to each entry that is met.

use crate::config::Config;
use crate::index::{bytes_view, index_file, index_file_outcome, EntryView, Index, IndexError};
use crate::time::Timestamp;
use vstd::prelude::*;

verus! {

/// What to do with one entry met on the walk through the tree.
#[derive(Debug, PartialEq, Eq, Clone, Copy)]
pub enum WalkStep {
    /// Leave the entry alone.
    Skip,
    /// Walk through the directory.
    Descend,
    /// Hand the file to the indexer.
    Index,
}

/// An ignore answer counts only where the backend gave one: a failure
/// reads as "not ignored".
pub open spec fn counts_as_ignored(answer: Result<bool, git2::Error>) -> bool {
    answer matches Ok(b) && b
}

/// Ignored entries are skipped whatever they are; of the others,
/// directories are walked and files indexed.
pub open spec fn walk_step(ignored: bool, is_dir: bool) -> WalkStep {
    if ignored {
        WalkStep::Skip
    } else if is_dir {
        WalkStep::Descend
    } else {
        WalkStep::Index
    }
}

/// Reads an answer of the ignore backend.
pub fn ignore_verdict(answer: Result<bool, git2::Error>) -> (r: bool)
    ensures
        r == counts_as_ignored(answer),
{
    match answer {
        Ok(b) => b,
        Err(_) => false,
    }
}

/// Decides what the walk does with one entry.
pub fn visit(ignored: bool, is_dir: bool) -> (r: WalkStep)
    ensures
        r == walk_step(ignored, is_dir),
        ignored ==> r == WalkStep::Skip,
{
    if ignored {
        WalkStep::Skip
    } else if is_dir {
        WalkStep::Descend
    } else {
        WalkStep::Index
    }
}

/// What the walk's visit to one entry does to the index and to the count:
/// only an entry that is neither ignored nor a directory is indexed.
pub open spec fn index_entry_outcome(
    before: Map<Seq<char>, EntryView>,
    count_before: nat,
    cache_file: Seq<char>,
    root: Seq<char>,
    path: Seq<char>,
    ignored: bool,
    is_dir: bool,
    modified: Option<Timestamp>,
    data: Option<Seq<u8>>,
    now: Timestamp,
    after: Map<Seq<char>, EntryView>,
    count_after: nat,
    r: Result<WalkStep, IndexError>,
) -> bool {
    match walk_step(ignored, is_dir) {
        WalkStep::Index => {
            &&& r matches Ok(step) ==> step == WalkStep::Index
            &&& index_file_outcome(
                before,
                count_before,
                cache_file,
                root,
                path,
                modified,
                data,
                now,
                after,
                count_after,
                match r {
                    Ok(_) => Ok(()),
                    Err(e) => Err(e),
                },
            )
        },
        step => r == Ok::<WalkStep, IndexError>(step) && after == before && count_after
            == count_before,
    }
}

/// Visits one entry met on the walk. `ignored` is the answer of the ignore
/// rules for the entry and `is_dir` says whether it is a directory. An
/// ignored entry and a directory leave the index alone; any other entry is
/// indexed as a file. The result says what the walk does next.
pub fn index_entry(
    index: &mut Index,
    config: &Config,
    path: &str,
    ignored: bool,
    is_dir: bool,
    modified: Option<Timestamp>,
    data: Option<Vec<u8>>,
    now: Timestamp,
    indexed_count: &mut usize,
) -> (r: Result<WalkStep, IndexError>)
    requires
        old(index).wf(),
        *old(indexed_count) < usize::MAX,
    ensures
        final(index).wf(),
        index_entry_outcome(
            old(index)@,
            *old(indexed_count) as nat,
            config.cache_file(),
            config.root@,
            path@,
            ignored,
            is_dir,
            modified,
            bytes_view(data),
            now,
            final(index)@,
            *final(indexed_count) as nat,
            r,
        ),
{
    match visit(ignored, is_dir) {
        WalkStep::Index => match index_file(index, config, path, modified, data, now, indexed_count) {
            Ok(_) => Ok(WalkStep::Index),
            Err(e) => Err(e),
        },
        WalkStep::Skip => Ok(WalkStep::Skip),
        WalkStep::Descend => Ok(WalkStep::Descend),
    }
}

/// An ignored entry gets no row, whatever it holds: the walk passes it by,
/// the index stays as it is, and a path without a row has none afterwards.
pub proof fn lemma_ignored_entry_gets_no_row(
    before: Map<Seq<char>, EntryView>,
    count_before: nat,
    cache_file: Seq<char>,
    root: Seq<char>,
    path: Seq<char>,
    is_dir: bool,
    modified: Option<Timestamp>,
    data: Option<Seq<u8>>,
    now: Timestamp,
    after: Map<Seq<char>, EntryView>,
    count_after: nat,
    r: Result<WalkStep, IndexError>,
    key: Seq<char>,
)
    requires
        index_entry_outcome(
            before,
            count_before,
            cache_file,
            root,
            path,
            true,
            is_dir,
            modified,
            data,
            now,
            after,
            count_after,
            r,
        ),
    ensures
        r == Ok::<WalkStep, IndexError>(WalkStep::Skip),
        after == before,
        count_after == count_before,
        !before.contains_key(key) ==> !after.contains_key(key),
{
}

} // verus!
