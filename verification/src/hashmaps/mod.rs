//! A dictionary of words and their definitions, grown one operation at a
//! time: search, then add, update and delete.
mod entries;
pub mod v1;
pub mod v2;
pub mod v3;
pub mod v4;

pub use entries::definitions;

use vstd::prelude::*;

verus! {

/// A word that was added is found with the definition it was added with,
/// and every other word keeps what it had.
pub proof fn lemma_search_after_add(
    words: Map<Seq<char>, Seq<char>>,
    word: Seq<char>,
    definition: Seq<char>,
    other: Seq<char>,
)
    ensures
        words.insert(word, definition).dom().contains(word),
        words.insert(word, definition)[word] == definition,
        other != word ==> (words.insert(word, definition).dom().contains(other) <==> words.dom().contains(other)),
        other != word && words.dom().contains(other) ==> words.insert(word, definition)[other] == words[other],
{
}

/// A word that was deleted is no longer found, and every other word keeps
/// what it had.
pub proof fn lemma_search_after_delete(
    words: Map<Seq<char>, Seq<char>>,
    word: Seq<char>,
    other: Seq<char>,
)
    ensures
        !words.remove(word).dom().contains(word),
        other != word ==> (words.remove(word).dom().contains(other) <==> words.dom().contains(other)),
        other != word && words.dom().contains(other) ==> words.remove(word)[other] == words[other],
{
}

} // verus!
