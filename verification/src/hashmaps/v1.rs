//! A dictionary that can be searched.
use vstd::prelude::*;

use super::entries::{definitions, lookup};

verus! {

/// Words and their definitions; the last pair for a word is the one that
/// counts.
pub struct Dictionary(pub Vec<(String, String)>);

impl View for Dictionary {
    type V = Map<Seq<char>, Seq<char>>;

    open spec fn view(&self) -> Map<Seq<char>, Seq<char>> {
        definitions(self.0@)
    }
}

impl Default for Dictionary {
    fn default() -> (r: Self)
        ensures
            r@ == Map::<Seq<char>, Seq<char>>::empty(),
    {
        Dictionary(Vec::new())
    }
}

impl Dictionary {
    /// The definition of `word`, if it has one.
    pub fn search(&self, word: &str) -> (r: Option<&str>)
        ensures
            r is Some <==> self@.dom().contains(word@),
            r is Some ==> r.unwrap()@ == self@[word@],
    {
        lookup(&self.0, word)
    }
}

} // verus!
