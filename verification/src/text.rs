//! Line-oriented scanning of file text for `TODO:` annotations.
//!
//! Text is modelled as a sequence of characters. A marker is recognised by a
//! prefix heuristic only: the tag has to occur on a line whose first
//! non-blank characters are `#` or `//`.

use vstd::prelude::*;
use vstd::slice::slice_subrange;
use vstd::utf8::{char_is_scalar, encode_utf8};

verus! {

/// Whether `c` has the Unicode property `White_Space`.
pub open spec fn is_space(c: char) -> bool {
    let v = c as u32;
    ||| 0x09 <= v <= 0x0D
    ||| v == 0x20
    ||| v == 0x85
    ||| v == 0xA0
    ||| v == 0x1680
    ||| 0x2000 <= v <= 0x200A
    ||| v == 0x2028
    ||| v == 0x2029
    ||| v == 0x202F
    ||| v == 0x205F
    ||| v == 0x3000
}

/// Number of consecutive blanks of `s` that start at index `i`.
pub open spec fn spaces_from(s: Seq<char>, i: int) -> nat
    decreases s.len() - i,
{
    if 0 <= i < s.len() && is_space(s[i]) {
        1 + spaces_from(s, i + 1)
    } else {
        0
    }
}

/// Number of consecutive blanks of `s` that end just before index `j`.
pub open spec fn spaces_before(s: Seq<char>, j: int) -> nat
    decreases j,
{
    if 0 < j <= s.len() && is_space(s[j - 1]) {
        1 + spaces_before(s, j - 1)
    } else {
        0
    }
}

/// `s` without its leading and trailing blanks.
pub open spec fn trim(s: Seq<char>) -> Seq<char> {
    let a = spaces_from(s, 0) as int;
    let b = s.len() - spaces_before(s, s.len() as int);
    if a < b {
        s.subrange(a, b)
    } else {
        Seq::empty()
    }
}

/// Whether the tag `TODO:` stands in `s` at index `i`.
pub open spec fn tag_at(s: Seq<char>, i: int) -> bool {
    &&& 0 <= i
    &&& i + 5 <= s.len()
    &&& s[i] == 'T'
    &&& s[i + 1] == 'O'
    &&& s[i + 2] == 'D'
    &&& s[i + 3] == 'O'
    &&& s[i + 4] == ':'
}

/// Index of the first occurrence of the tag in `s` at or after `i`.
pub open spec fn find_tag(s: Seq<char>, i: int) -> Option<int>
    decreases s.len() - i,
{
    if i < 0 || i + 5 > s.len() {
        None
    } else if tag_at(s, i) {
        Some(i)
    } else {
        find_tag(s, i + 1)
    }
}

/// Whether the first non-blank characters of `s` open a line comment.
pub open spec fn is_comment_line(s: Seq<char>) -> bool {
    let i = spaces_from(s, 0) as int;
    ||| (i < s.len() && s[i] == '#')
    ||| (i + 1 < s.len() && s[i] == '/' && s[i + 1] == '/')
}

/// Number of bytes that `c` takes in UTF-8.
pub open spec fn utf8_width(c: char) -> nat {
    let v = c as u32;
    if v <= 0x7F {
        1
    } else if v <= 0x7FF {
        2
    } else if v <= 0xFFFF {
        3
    } else {
        4
    }
}

/// Number of bytes that `s` takes in UTF-8.
pub open spec fn byte_len(s: Seq<char>) -> nat
    decreases s.len(),
{
    if s.len() == 0 {
        0
    } else {
        utf8_width(s[0]) + byte_len(s.drop_first())
    }
}

/// What one line yields: the byte column of the tag and the text after it,
/// or nothing where the line holds no annotation.
pub open spec fn line_marker(line: Seq<char>) -> Option<(nat, Seq<char>)> {
    match find_tag(line, 0) {
        Some(k) => {
            let body = trim(line.skip(k + 5));
            if is_comment_line(line) && body.len() > 0 {
                Some((byte_len(line.take(k)), body))
            } else {
                None
            }
        },
        None => None,
    }
}

/// Number of characters from index `i` of `s` up to the next line feed.
pub open spec fn line_len(s: Seq<char>, i: int) -> nat
    decreases s.len() - i,
{
    if 0 <= i < s.len() && s[i] != '\n' {
        1 + line_len(s, i + 1)
    } else {
        0
    }
}

/// An annotation found in a text, not yet attributed to anyone.
#[derive(Debug, Clone, PartialEq, Eq)]
pub struct Candidate {
    /// Zero-based index of the line.
    pub row: usize,
    /// Byte offset of the tag within the line.
    pub col: usize,
    /// Text after the tag, without surrounding blanks.
    pub body: String,
}

/// A candidate as the contracts see it.
pub struct CandidateView {
    pub row: nat,
    pub col: nat,
    pub body: Seq<char>,
}

impl View for Candidate {
    type V = CandidateView;

    open spec fn view(&self) -> CandidateView {
        CandidateView { row: self.row as nat, col: self.col as nat, body: self.body@ }
    }
}

/// The views of a sequence of candidates.
pub open spec fn candidate_views(v: Seq<Candidate>) -> Seq<CandidateView> {
    Seq::new(v.len(), |i: int| v[i]@)
}

/// The annotations of the lines of `s` that start at index `start` or later,
/// where the line at `start` has the number `row`. A line ends at a line
/// feed; a carriage return before it is a blank like any other and never
/// part of a tag, a column or a body.
pub open spec fn markers_from(s: Seq<char>, start: int, row: nat) -> Seq<CandidateView>
    decreases s.len() - start,
{
    if start < 0 || start >= s.len() {
        Seq::empty()
    } else {
        let end = start + line_len(s, start);
        let rest = if end < s.len() {
            markers_from(s, end + 1, row + 1)
        } else {
            Seq::empty()
        };
        match line_marker(s.subrange(start, end)) {
            Some((col, body)) => seq![CandidateView { row, col, body }] + rest,
            None => rest,
        }
    }
}

/// The annotations of a whole text, top to bottom.
pub open spec fn markers(s: Seq<char>) -> Seq<CandidateView> {
    markers_from(s, 0, 0)
}

/// The byte length of a concatenation is the sum of the parts' lengths.
pub proof fn lemma_byte_len_concat(a: Seq<char>, b: Seq<char>)
    ensures
        byte_len(a + b) == byte_len(a) + byte_len(b),
    decreases a.len(),
{
    if a.len() == 0 {
        assert(a + b =~= b);
    } else {
        assert((a + b).drop_first() =~= a.drop_first() + b);
        lemma_byte_len_concat(a.drop_first(), b);
    }
}

/// `byte_len` is the length of the UTF-8 encoding.
pub proof fn lemma_byte_len_is_encoded_len(s: Seq<char>)
    ensures
        byte_len(s) == encode_utf8(s).len(),
    decreases s.len(),
{
    if s.len() > 0 {
        char_is_scalar(s[0]);
        lemma_byte_len_is_encoded_len(s.drop_first());
    }
}

/// A part of a text takes no more bytes than the whole.
pub proof fn lemma_byte_len_subrange(s: Seq<char>, i: int, j: int)
    requires
        0 <= i <= j <= s.len(),
    ensures
        byte_len(s.subrange(i, j)) <= byte_len(s),
{
    lemma_byte_len_concat(s.take(i), s.subrange(i, j));
    lemma_byte_len_concat(s.take(i) + s.subrange(i, j), s.skip(j));
    assert(s =~= (s.take(i) + s.subrange(i, j)) + s.skip(j));
}

/// The first tag that `find_tag` reports is a tag, and none stands before it.
pub proof fn lemma_find_tag_is_first(s: Seq<char>, i: int)
    requires
        0 <= i,
    ensures
        match find_tag(s, i) {
            Some(k) => i <= k && tag_at(s, k) && forall|j: int| i <= j < k ==> !tag_at(s, j),
            None => forall|j: int| i <= j ==> !tag_at(s, j),
        },
    decreases s.len() - i,
{
    if i + 5 <= s.len() && !tag_at(s, i) {
        lemma_find_tag_is_first(s, i + 1);
    }
}

/// Annotations come in the order of their lines: none has a number below
/// `row`, and each lies on a later line than the one before it.
pub proof fn lemma_markers_follow_the_lines(s: Seq<char>, start: int, row: nat)
    ensures
        forall|i: int|
            0 <= i < markers_from(s, start, row).len() ==> (#[trigger] markers_from(
                s,
                start,
                row,
            )[i]).row >= row,
        forall|i: int, j: int|
            0 <= i < j < markers_from(s, start, row).len() ==> (#[trigger] markers_from(
                s,
                start,
                row,
            )[i]).row < (#[trigger] markers_from(s, start, row)[j]).row,
    decreases s.len() - start,
{
    let found = markers_from(s, start, row);
    if 0 <= start < s.len() {
        let end = start + line_len(s, start);
        let rest = if end < s.len() {
            markers_from(s, end + 1, row + 1)
        } else {
            Seq::empty()
        };
        if end < s.len() {
            lemma_markers_follow_the_lines(s, end + 1, row + 1);
        }
        match line_marker(s.subrange(start, end)) {
            Some((col, body)) => {
                let head = CandidateView { row, col, body };
                assert(found == seq![head] + rest);
                assert forall|i: int| 0 <= i < found.len() implies (#[trigger] found[i]).row
                    >= row by {
                    if i > 0 {
                        assert(found[i] == rest[i - 1]);
                    }
                }
                assert forall|i: int, j: int| 0 <= i < j < found.len() implies (
                #[trigger] found[i]).row < (#[trigger] found[j]).row by {
                    assert(found[j] == rest[j - 1]);
                    if i > 0 {
                        assert(found[i] == rest[i - 1]);
                    }
                }
            },
            None => {
                assert(found == rest);
            },
        }
    }
}

/// The characters of `s`, in order.
pub fn chars_of(s: &str) -> (v: Vec<char>)
    ensures
        v@ == s@,
{
    broadcast use vstd::string::group_string_axioms;

    let mut v: Vec<char> = Vec::new();
    for c in it: s.chars()
        invariant
            v@ == it.history(),
            it.seq() == s@,
    {
        v.push(c);
    }
    assert(v@ =~= s@);
    v
}

/// Whether `c` is a blank.
pub fn is_whitespace(c: char) -> (r: bool)
    ensures
        r == is_space(c),
{
    let v: u32 = c as u32;
    (0x09 <= v && v <= 0x0D) || v == 0x20 || v == 0x85 || v == 0xA0 || v == 0x1680 || (0x2000 <= v
        && v <= 0x200A) || v == 0x2028 || v == 0x2029 || v == 0x202F || v == 0x205F || v == 0x3000
}

/// Index of the first non-blank of `line` at or after `from`.
pub(crate) fn skip_spaces(line: &[char], from: usize) -> (i: usize)
    requires
        from <= line@.len(),
    ensures
        from <= i <= line@.len(),
        i - from == spaces_from(line@, from as int),
{
    let mut i: usize = from;
    while i < line.len() && is_whitespace(line[i])
        invariant
            from <= i <= line@.len(),
            spaces_from(line@, from as int) == (i - from) + spaces_from(line@, i as int),
        decreases line@.len() - i,
    {
        i += 1;
    }
    i
}

/// Index just after the last non-blank of `line` before `to`.
pub(crate) fn skip_spaces_back(line: &[char], to: usize) -> (j: usize)
    requires
        to <= line@.len(),
    ensures
        j <= to,
        to - j == spaces_before(line@, to as int),
{
    let mut j: usize = to;
    while j > 0 && is_whitespace(line[j - 1])
        invariant
            j <= to <= line@.len(),
            spaces_before(line@, to as int) == (to - j) + spaces_before(line@, j as int),
        decreases j,
    {
        j -= 1;
    }
    j
}

/// Where the tag first occurs in `line`.
fn find_tag_in(line: &[char]) -> (r: Option<usize>)
    ensures
        match r {
            Some(k) => find_tag(line@, 0) == Some(k as int) && k + 5 <= line@.len(),
            None => find_tag(line@, 0) is None,
        },
{
    let n: usize = line.len();
    if n < 5 {
        return None;
    }
    let mut i: usize = 0;
    while i <= n - 5
        invariant
            n == line@.len(),
            n >= 5,
            i <= n - 4,
            find_tag(line@, 0) == find_tag(line@, i as int),
        decreases n - i,
    {
        if line[i] == 'T' && line[i + 1] == 'O' && line[i + 2] == 'D' && line[i + 3] == 'O'
            && line[i + 4] == ':' {
            return Some(i);
        }
        i += 1;
    }
    None
}

/// Whether the first non-blank characters of `line` open a line comment.
fn is_comment_chars(line: &[char]) -> (r: bool)
    ensures
        r == is_comment_line(line@),
{
    let i: usize = skip_spaces(line, 0);
    let n: usize = line.len();
    (i < n && line[i] == '#') || (i < n && n - i > 1 && line[i] == '/' && line[i + 1] == '/')
}

/// Number of bytes that `c` takes in UTF-8.
fn width_of(c: char) -> (w: usize)
    ensures
        w == utf8_width(c),
{
    let v: u32 = c as u32;
    if v <= 0x7F {
        1
    } else if v <= 0x7FF {
        2
    } else if v <= 0xFFFF {
        3
    } else {
        4
    }
}

/// Number of bytes that the first `k` characters of `line` take in UTF-8.
fn byte_offset(line: &[char], k: usize) -> (n: usize)
    requires
        k <= line@.len(),
        byte_len(line@) <= usize::MAX,
    ensures
        n == byte_len(line@.take(k as int)),
{
    let mut n: usize = 0;
    let mut j: usize = 0;
    assert(line@.take(0) =~= Seq::<char>::empty());
    while j < k
        invariant
            j <= k <= line@.len(),
            byte_len(line@) <= usize::MAX,
            n == byte_len(line@.take(j as int)),
        decreases k - j,
    {
        let w: usize = width_of(line[j]);
        proof {
            let c = line@[j as int];
            assert(seq![c].len() == 1 && seq![c][0] == c);
            assert(seq![c].drop_first() =~= Seq::<char>::empty());
            assert(byte_len(seq![c].drop_first()) == 0);
            assert(byte_len(seq![c]) == utf8_width(c));
            lemma_byte_len_concat(line@.take(j as int), seq![c]);
            assert(line@.take(j + 1) =~= line@.take(j as int) + seq![c]);
            lemma_byte_len_subrange(line@, 0, j + 1);
            assert(line@.subrange(0, j + 1) =~= line@.take(j + 1));
        }
        n = n + w;
        j += 1;
    }
    n
}

/// The annotation of one line: the byte column of the tag and the bounds
/// of the body within `line`.
fn marker_in_line(line: &[char]) -> (r: Option<(usize, usize, usize)>)
    requires
        byte_len(line@) <= usize::MAX,
    ensures
        match r {
            Some((col, a, b)) => a < b <= line@.len() && line_marker(line@) == Some(
                (col as nat, line@.subrange(a as int, b as int)),
            ),
            None => line_marker(line@) is None,
        },
{
    match find_tag_in(line) {
        None => None,
        Some(k) => {
            if !is_comment_chars(line) {
                return None;
            }
            let n: usize = line.len();
            let rest = slice_subrange(line, k + 5, n);
            let a: usize = skip_spaces(rest, 0);
            let b: usize = skip_spaces_back(rest, rest.len());
            assert(rest@ =~= line@.skip(k + 5));
            if a < b {
                let col: usize = byte_offset(line, k);
                assert(rest@.subrange(a as int, b as int) =~= line@.subrange(
                    k + 5 + a,
                    k + 5 + b,
                ));
                Some((col, k + 5 + a, k + 5 + b))
            } else {
                None
            }
        },
    }
}

/// Whether `line` counts as a comment: its first non-blank characters are
/// `#` or `//`.
pub fn is_comment(line: &str) -> (r: bool)
    ensures
        r == is_comment_line(line@),
{
    let chars = chars_of(line);
    is_comment_chars(chars.as_slice())
}

/// The annotation that one line holds: the byte column of the tag and the
/// body after it.
pub fn scan_line(line: &str) -> (r: Option<(usize, String)>)
    ensures
        match r {
            Some((col, body)) => line_marker(line@) == Some((col as nat, body@)),
            None => line_marker(line@) is None,
        },
{
    let chars = chars_of(line);
    let encoded_len: usize = line.as_bytes().len();
    proof {
        lemma_byte_len_is_encoded_len(line@);
    }
    match marker_in_line(chars.as_slice()) {
        Some((col, a, b)) => Some((col, line.substring_char(a, b).to_owned())),
        None => None,
    }
}

/// All annotations of `contents`, line by line from the top.
pub fn scan(contents: &str) -> (found: Vec<Candidate>)
    ensures
        candidate_views(found@) == markers(contents@),
        forall|i: int| 0 <= i < found@.len() ==> found@[i].row < usize::MAX,
{
    let chars = chars_of(contents);
    let encoded_len: usize = contents.as_bytes().len();
    proof {
        lemma_byte_len_is_encoded_len(contents@);
    }
    let text = chars.as_slice();
    let n: usize = text.len();
    let mut found: Vec<Candidate> = Vec::new();
    let mut start: usize = 0;
    let mut row: usize = 0;
    assert(candidate_views(found@) + markers_from(contents@, 0, 0) =~= markers(contents@));
    while start < n
        invariant
            text@ == contents@,
            n == text@.len(),
            byte_len(contents@) <= usize::MAX,
            start <= n,
            row <= start,
            forall|i: int| 0 <= i < found@.len() ==> found@[i].row < usize::MAX,
            candidate_views(found@) + markers_from(contents@, start as int, row as nat)
                == markers(contents@),
        decreases n - start,
    {
        let mut end: usize = start;
        while end < n && text[end] != '\n'
            invariant
                n == text@.len(),
                start <= end <= n,
                line_len(text@, start as int) == (end - start) + line_len(text@, end as int),
            decreases n - end,
        {
            end += 1;
        }
        let line = slice_subrange(text, start, end);
        proof {
            lemma_byte_len_subrange(contents@, start as int, end as int);
        }
        let ghost before = candidate_views(found@);
        let ghost rest = if end < n {
            markers_from(contents@, end + 1, (row + 1) as nat)
        } else {
            Seq::empty()
        };
        match marker_in_line(line) {
            Some((col, a, b)) => {
                let body = contents.substring_char(start + a, start + b).to_owned();
                assert(body@ =~= line@.subrange(a as int, b as int));
                let candidate = Candidate { row, col, body };
                found.push(candidate);
                assert(candidate_views(found@) =~= before + seq![candidate@]);
                assert((before + seq![candidate@]) + rest =~= before + (seq![candidate@] + rest));
            },
            None => {},
        }
        if end < n {
            start = end + 1;
        } else {
            start = n;
        }
        row += 1;
    }
    assert(candidate_views(found@) + Seq::<CandidateView>::empty() =~= candidate_views(found@));
    found
}

} // verus!
