//! Borrowed text: slices of an argument handed back, and a preview that
//! holds one.
use vstd::prelude::*;

use vstd::string::StrSliceExecFns;

pub mod v1;
pub mod v2;

verus! {

/// Whether position `i` of `s` holds the first full stop.
pub open spec fn first_full_stop_at(s: Seq<char>, i: int) -> bool {
    &&& 0 <= i < s.len()
    &&& s[i] == '.'
    &&& forall|j: int| 0 <= j < i ==> s[j] != '.'
}

/// The text before the first full stop, or all of it where there is none.
pub open spec fn first_sentence_of(s: Seq<char>) -> Seq<char> {
    if exists|i: int| 0 <= i < s.len() && s[i] == '.' {
        s.take(choose|i: int| first_full_stop_at(s, i))
    } else {
        s
    }
}

/// The first full stop stands at one place only.
pub proof fn lemma_first_full_stop_unique(s: Seq<char>, i: int, k: int)
    requires
        first_full_stop_at(s, i),
        first_full_stop_at(s, k),
    ensures
        i == k,
{
}

pub(crate) fn before_first_full_stop(text: &str) -> (r: &str)
    ensures
        r@ == first_sentence_of(text@),
{
    let n = text.unicode_len();
    let mut i: usize = 0;
    while i < n
        invariant
            n == text@.len(),
            i <= n,
            forall|j: int| 0 <= j < i ==> text@[j] != '.',
        decreases n - i,
    {
        if text.get_char(i) == '.' {
            proof {
                assert(first_full_stop_at(text@, i as int));
                let k = choose|k: int| first_full_stop_at(text@, k);
                lemma_first_full_stop_unique(text@, i as int, k);
            }
            return text.substring_char(0, i);
        }
        i = i + 1;
    }
    text
}

} // verus!
