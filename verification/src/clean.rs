//! The question asked before the cache is deleted.

use crate::text::{chars_of, skip_spaces, skip_spaces_back, trim};
use vstd::prelude::*;

verus! {

/// Whether an answer, blanks around it aside, is `y` or `Y`.
pub open spec fn is_yes(answer: Seq<char>) -> bool {
    trim(answer) == seq!['y'] || trim(answer) == seq!['Y']
}

/// Whether `answer` agrees to deleting the cache.
pub fn confirmed(answer: &str) -> (r: bool)
    ensures
        r == is_yes(answer@),
{
    let chars = chars_of(answer);
    let line = chars.as_slice();
    let a: usize = skip_spaces(line, 0);
    let b: usize = skip_spaces_back(line, line.len());
    if a < b && b - a == 1 {
        let c = line[a];
        assert(trim(answer@) =~= seq![c]);
        assert(seq![c][0] == c);
        assert(seq!['y'][0] == 'y' && seq!['Y'][0] == 'Y');
        c == 'y' || c == 'Y'
    } else {
        assert(trim(answer@).len() != 1);
        assert(seq!['y'].len() == 1 && seq!['Y'].len() == 1);
        false
    }
}

} // verus!
