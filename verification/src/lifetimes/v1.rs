//! Returning slices of the arguments.
use vstd::prelude::*;

use super::{before_first_full_stop, first_sentence_of};
use crate::text::byte_len;

verus! {

/// Everything before the first full stop of `text`, or all of `text` where
/// it has none.
pub fn first_sentence(text: &str) -> (r: &str)
    ensures
        r@ == first_sentence_of(text@),
{
    before_first_full_stop(text)
}

/// The longer of two texts by their length in bytes; `a` where they tie.
pub fn longer<'a>(a: &'a str, b: &'a str) -> (r: &'a str)
    ensures
        r@ == if byte_len(b@) > byte_len(a@) {
            b@
        } else {
            a@
        },
{
    if b.as_bytes().len() > a.as_bytes().len() {
        b
    } else {
        a
    }
}

} // verus!
