//! Paths as `/`-separated text: joining, normalising, and taking a path
//! relative to a root.

use crate::text::chars_of;
use vstd::prelude::*;

verus! {

/// The lexically normalised form of a path, as `path_clean::clean` gives it.
pub uninterp spec fn cleaned(path: Seq<char>) -> Seq<char>;

/// Calls `path_clean::clean`, which removes `.` components, resolves `..`
/// against the component before it and collapses repeated separators,
/// without looking at the filesystem. The result is a function of the
/// argument alone; the contract only gives it a name.
#[verifier::external_body]
fn clean_path(path: &str) -> (r: String)
    ensures
        r@ == cleaned(path@),
{
    path_clean::clean(path).to_string_lossy().into_owned()
}

/// Whether a path starts at the filesystem root.
pub open spec fn is_rooted(path: Seq<char>) -> bool {
    path.len() > 0 && path[0] == '/'
}

/// `rel` taken from `base`: a rooted `rel` stands for itself, any other is
/// appended to `base` with one separator between them.
pub open spec fn joined(base: Seq<char>, rel: Seq<char>) -> Seq<char> {
    if is_rooted(rel) {
        rel
    } else if base.len() == 0 || base.last() == '/' {
        base + rel
    } else {
        base + seq!['/'] + rel
    }
}

/// Number of consecutive separators of `s` that start at index `i`.
pub open spec fn slashes_from(s: Seq<char>, i: int) -> nat
    decreases s.len() - i,
{
    if 0 <= i < s.len() && s[i] == '/' {
        1 + slashes_from(s, i + 1)
    } else {
        0
    }
}

/// Number of consecutive separators of `s` that end just before index `j`.
pub open spec fn slashes_before(s: Seq<char>, j: int) -> nat
    decreases j,
{
    if 0 < j <= s.len() && s[j - 1] == '/' {
        1 + slashes_before(s, j - 1)
    } else {
        0
    }
}

/// `path` relative to `root`: what follows `root` (taken without trailing
/// separators) and the separators after it, where `path` lies at or under
/// `root`; nothing where it does not. Both are taken as written: no `.` or
/// `..` is resolved, and what follows is not touched.
pub open spec fn relative_to(path: Seq<char>, root: Seq<char>) -> Option<Seq<char>> {
    let r = root.len() - slashes_before(root, root.len() as int);
    if 0 <= r <= path.len() && path.take(r) == root.take(r) && (r == path.len() || path[r] == '/') {
        Some(path.skip(r + slashes_from(path, r)))
    } else {
        None
    }
}

/// The path that names the same file as `path` from anywhere: `path`
/// itself where it is rooted, else `path` taken from `cwd`; normalised.
pub open spec fn absolute_of(path: Seq<char>, cwd: Seq<char>) -> Seq<char> {
    cleaned(joined(cwd, path))
}

/// Whether two texts are the same.
pub fn same_text(a: &str, b: &str) -> (r: bool)
    ensures
        r == (a@ == b@),
{
    let x = a.to_owned();
    let y = b.to_owned();
    x == y
}

/// Whether `path` starts at the filesystem root.
pub fn is_absolute(path: &str) -> (r: bool)
    ensures
        r == is_rooted(path@),
{
    path.unicode_len() > 0 && path.get_char(0) == '/'
}

/// `rel` taken from `base`.
pub fn join(base: &str, rel: &str) -> (r: String)
    ensures
        r@ == joined(base@, rel@),
{
    if is_absolute(rel) {
        return rel.to_owned();
    }
    let n: usize = base.unicode_len();
    let mut out = base.to_owned();
    if n > 0 && base.get_char(n - 1) != '/' {
        proof {
            reveal_strlit("/");
        }
        out.append("/");
        assert(out@ =~= base@ + seq!['/']);
    }
    out.append(rel);
    out
}

/// The absolute, normalised form of `path`, where relative paths are taken
/// from `cwd`.
pub fn absolute_path(path: &str, cwd: &str) -> (r: String)
    ensures
        r@ == absolute_of(path@, cwd@),
{
    let full = join(cwd, path);
    clean_path(full.as_str())
}

/// `path` relative to `root`, where it lies at or under `root`.
pub fn relative_path(path: &str, root: &str) -> (r: Option<String>)
    ensures
        match r {
            Some(rel) => relative_to(path@, root@) == Some(rel@),
            None => relative_to(path@, root@) is None,
        },
{
    let p = chars_of(path);
    let base = chars_of(root);
    let mut r: usize = base.len();
    while r > 0 && base[r - 1] == '/'
        invariant
            r <= base@.len(),
            slashes_before(base@, base@.len() as int) == (base@.len() - r) + slashes_before(
                base@,
                r as int,
            ),
        decreases r,
    {
        r -= 1;
    }
    if r > p.len() {
        return None;
    }
    let mut i: usize = 0;
    while i < r
        invariant
            i <= r <= p@.len(),
            r <= base@.len(),
            p@ == path@,
            base@ == root@,
            r == root@.len() - slashes_before(root@, root@.len() as int),
            p@.take(i as int) == base@.take(i as int),
        decreases r - i,
    {
        if p[i] != base[i] {
            assert(p@.take(r as int)[i as int] != base@.take(r as int)[i as int]);
            return None;
        }
        assert(p@.take(i + 1) =~= p@.take(i as int).push(p@[i as int]));
        assert(base@.take(i + 1) =~= base@.take(i as int).push(base@[i as int]));
        i += 1;
    }
    if r < p.len() && p[r] != '/' {
        return None;
    }
    let mut a: usize = r;
    while a < p.len() && p[a] == '/'
        invariant
            r <= a <= p@.len(),
            slashes_from(p@, r as int) == (a - r) + slashes_from(p@, a as int),
        decreases p@.len() - a,
    {
        a += 1;
    }
    let rel = path.substring_char(a, p.len()).to_owned();
    assert(rel@ =~= p@.skip(a as int));
    Some(rel)
}

} // verus!
