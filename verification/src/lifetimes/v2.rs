//! An owned, shouted title beside a borrowed excerpt.
use vstd::prelude::*;

use super::{before_first_full_stop, first_sentence_of};
use crate::text::{to_uppercase, upper_case};

verus! {

/// An upper-case copy of `text`.
pub fn shout(text: &str) -> (r: String)
    ensures
        r@ == upper_case(text@),
{
    to_uppercase(text)
}

/// A title in capitals and the opening sentence of a body it borrows.
pub struct Preview<'a> {
    pub title: String,
    pub excerpt: &'a str,
}

impl<'a> Preview<'a> {
    /// The preview of an article.
    pub fn new(title: &str, body: &'a str) -> (r: Preview<'a>)
        ensures
            r.title@ == upper_case(title@),
            r.excerpt@ == first_sentence_of(body@),
    {
        Preview { title: to_uppercase(title), excerpt: first_sentence(body) }
    }
}

/// Everything before the first full stop of `text`, or all of `text` where
/// it has none.
pub fn first_sentence(text: &str) -> (r: &str)
    ensures
        r@ == first_sentence_of(text@),
{
    before_first_full_stop(text)
}

} // verus!
