//! Where a run takes place: the requested path, the repository around it
//! and the places of the cache inside that repository.

use crate::paths::{absolute_path, join, joined};
use crate::walk::ignore_verdict;
use vstd::prelude::*;

verus! {

#[verifier::external_type_specification]
#[verifier::external_body]
pub struct ExRepository(git2::Repository);

#[verifier::external_type_specification]
#[verifier::external_body]
pub struct ExGitError(git2::Error);

#[verifier::external_type_specification]
#[verifier::external_body]
pub struct ExBlame<'a>(git2::Blame<'a>);

#[verifier::external_type_specification]
#[verifier::external_body]
pub struct ExBlameHunk<'a>(git2::BlameHunk<'a>);

#[verifier::external_type_specification]
#[verifier::external_body]
pub struct ExSignature<'a>(git2::Signature<'a>);

/// Calls `std::path::Path::is_dir`. The answer depends on what is on disk,
/// so nothing is claimed of it.
#[verifier::external_body]
fn is_directory(path: &str) -> (r: bool) {
    std::path::Path::new(path).is_dir()
}

/// Calls `git2::Repository::discover`, which looks for a repository at
/// `path` or above it. The answer depends on what is on disk, so nothing is
/// claimed of it.
#[verifier::external_body]
fn discover(path: &str) -> (r: Result<git2::Repository, git2::Error>) {
    git2::Repository::discover(path)
}

/// Calls `git2::Repository::workdir`, which gives the working directory of
/// a repository and nothing for a bare one. Nothing is claimed of the text.
#[verifier::external_body]
fn workdir_of(repo: &git2::Repository) -> (r: Option<String>) {
    match repo.workdir() {
        Some(dir) => Some(dir.to_string_lossy().into_owned()),
        None => None,
    }
}

/// Calls `git2::Repository::is_path_ignored`. The answer depends on the
/// ignore rules on disk, so nothing is claimed of it.
#[verifier::external_body]
fn path_is_ignored(repo: &git2::Repository, path: &str) -> (r: Result<bool, git2::Error>) {
    repo.is_path_ignored(path)
}

/// Calls `git2::Repository::blame_file` without options, which gives the
/// blame of the file at the repository-relative `path`. The answer depends
/// on the repository's history, so nothing is claimed of it.
#[verifier::external_body]
fn blame_file<'a>(repo: &'a git2::Repository, path: &str) -> (r: Result<
    git2::Blame<'a>,
    git2::Error,
>) {
    repo.blame_file(std::path::Path::new(path), None)
}

/// Calls `git2::Blame::get_line`, which gives the hunk that holds a line,
/// if any does.
#[verifier::external_body]
fn blame_line<'a>(blame: &'a git2::Blame<'a>, row: usize) -> (r: Option<git2::BlameHunk<'a>>) {
    blame.get_line(row)
}

/// Calls `git2::BlameHunk::orig_signature`, which gives the signature of
/// the author of the commit that a hunk comes from, if there is one.
#[verifier::external_body]
fn hunk_signature<'a>(hunk: &'a git2::BlameHunk<'a>) -> (r: Option<git2::Signature<'a>>) {
    hunk.orig_signature()
}

/// Calls `git2::Signature::name`, which gives the name on a signature and
/// fails where the name is not UTF-8.
#[verifier::external_body]
fn signature_name<'a>(signature: &git2::Signature<'a>) -> (r: Result<String, git2::Error>) {
    match signature.name() {
        Ok(name) => Ok(name.to_string()),
        Err(e) => Err(e),
    }
}

/// Why no configuration could be made.
#[derive(Debug, PartialEq, Eq, Clone, Copy)]
pub enum ConfigError {
    /// The requested path names no directory.
    NotADirectory,
    /// No repository with a working directory lies at or above the path.
    NoRepository,
}

/// The setting of a run: what was asked for and the repository found for it.
pub struct Config {
    /// Where to start searching.
    pub path: Option<String>,
    /// The repository found around `path`.
    pub repo: git2::Repository,
    /// The working directory of `repo`.
    pub root: String,
}

/// The path that a request names: the given one, or the current directory.
pub open spec fn requested(rel_path: Option<String>) -> Seq<char> {
    match rel_path {
        Some(p) => p@,
        None => "."@,
    }
}

impl Config {
    /// The directory of the cache.
    pub open spec fn cache_dir(&self) -> Seq<char> {
        joined(self.root@, ".palpatine"@)
    }

    /// The file of the cache.
    pub open spec fn cache_file(&self) -> Seq<char> {
        joined(self.root@, ".palpatine/index.json"@)
    }

    /// What a search for the repository around `path` comes to. `is_dir`
    /// says whether the path names a directory; `found` holds the
    /// repository met at or above it, with its working directory where it
    /// has one.
    pub fn from_discovery(
        path: String,
        is_dir: bool,
        found: Option<(git2::Repository, Option<String>)>,
    ) -> (r: Result<Config, ConfigError>)
        ensures
            !is_dir ==> (r matches Err(e) && e == ConfigError::NotADirectory),
            is_dir ==> match found {
                Some((repo, Some(dir))) => r matches Ok(c) && c.path == Some(path) && c.repo
                    == repo && c.root == dir,
                Some((_, None)) => r matches Err(e) && e == ConfigError::NoRepository,
                None => r matches Err(e) && e == ConfigError::NoRepository,
            },
    {
        if !is_dir {
            return Err(ConfigError::NotADirectory);
        }
        match found {
            Some((repo, Some(root))) => Ok(Config { path: Some(path), repo, root }),
            Some((_, None)) => Err(ConfigError::NoRepository),
            None => Err(ConfigError::NoRepository),
        }
    }

    /// Finds the repository around `rel_path` (the current directory where
    /// none is given), taking relative paths from `cwd`. The path has to
    /// name a directory, and a repository with a working directory has to
    /// lie at or above it.
    pub fn new(rel_path: Option<String>, cwd: &str) -> (r: Result<Config, ConfigError>)
        ensures
            r matches Ok(c) ==> c.path matches Some(p) && p@ == requested(rel_path),
    {
        let path = match rel_path {
            Some(p) => p,
            None => ".".to_owned(),
        };
        let root_path = absolute_path(path.as_str(), cwd);
        let is_dir = is_directory(root_path.as_str());
        let found = if is_dir {
            match discover(root_path.as_str()) {
                Ok(repo) => {
                    let workdir = workdir_of(&repo);
                    Some((repo, workdir))
                },
                Err(_) => None,
            }
        } else {
            None
        };
        Config::from_discovery(path, is_dir, found)
    }

    /// The root of the tree that is indexed.
    pub fn root_dir(&self) -> (r: String)
        ensures
            r@ == self.root@,
    {
        self.root.clone()
    }

    /// The directory that holds the cache.
    pub fn index_dir(&self) -> (r: String)
        ensures
            r@ == self.cache_dir(),
    {
        join(self.root.as_str(), ".palpatine")
    }

    /// The file that holds the cache.
    pub fn index_file_path(&self) -> (r: String)
        ensures
            r@ == self.cache_file(),
    {
        join(self.root.as_str(), ".palpatine/index.json")
    }

    /// Whether the repository's ignore rules exclude `path`. A failure of
    /// the backend reads as "not ignored".
    pub fn is_ignored(&self, path: &str) -> (r: bool) {
        ignore_verdict(path_is_ignored(&self.repo, path))
    }

    /// The name of whoever wrote line `row` (counted from zero) of the file
    /// at the repository-relative `path`, as far as the history tells.
    pub fn author_of(&self, path: &str, row: usize) -> (r: Option<String>) {
        let blame = match blame_file(&self.repo, path) {
            Ok(blame) => blame,
            Err(_) => {
                return None;
            },
        };
        let hunk = match blame_line(&blame, row) {
            Some(hunk) => hunk,
            None => {
                return None;
            },
        };
        let signature = match hunk_signature(&hunk) {
            Some(signature) => signature,
            None => {
                return None;
            },
        };
        name_found(signature_name(&signature))
    }
}

/// Reads what came of asking a signature for its name: the name where
/// there is one, nobody where it could not be read.
pub fn name_found(name: Result<String, git2::Error>) -> (r: Option<String>)
    ensures
        match name {
            Ok(text) => r == Some(text),
            Err(_) => r is None,
        },
{
    match name {
        Ok(text) => Some(text),
        Err(_) => None,
    }
}

} // verus!
