//! A dictionary whose definitions can also be changed.
use vstd::prelude::*;

use super::entries::{definitions, find, insert_new, lemma_last_pair, lemma_no_pair, lookup, replace_at};

verus! {

/// Why a dictionary refused a change.
#[derive(Debug, PartialEq, Eq, Structural)]
pub enum DictionaryError {
    WordExists,
    WordDoesNotExist,
}

/// Words and their definitions; the last pair for a word is the one that
/// counts.
pub struct Dictionary(pub Vec<(String, String)>);

impl View for Dictionary {
    type V = Map<Seq<char>, Seq<char>>;

    open spec fn view(&self) -> Map<Seq<char>, Seq<char>> {
        definitions(self.0@)
    }
}

impl Default for Dictionary {
    fn default() -> (r: Self)
        ensures
            r@ == Map::<Seq<char>, Seq<char>>::empty(),
    {
        Dictionary(Vec::new())
    }
}

impl Dictionary {
    /// The definition of `word`, if it has one.
    pub fn search(&self, word: &str) -> (r: Option<&str>)
        ensures
            r is Some <==> self@.dom().contains(word@),
            r is Some ==> r.unwrap()@ == self@[word@],
    {
        lookup(&self.0, word)
    }

    /// Defines a new word; a word that already has a definition keeps it.
    pub fn add(&mut self, word: &str, definition: &str) -> (r: Result<(), DictionaryError>)
        ensures
            r is Ok <==> !old(self)@.dom().contains(word@),
            r is Ok ==> final(self)@ == old(self)@.insert(word@, definition@),
            r is Err ==> r == Err::<(), _>(DictionaryError::WordExists) && final(self)@ == old(
                self,
            )@,
    {
        match find(&self.0, word) {
            Some(i) => {
                proof {
                    lemma_last_pair(self.0@, i as int);
                }
                Err(DictionaryError::WordExists)
            },
            None => {
                proof {
                    lemma_no_pair(self.0@, word@);
                }
                insert_new(&mut self.0, word, definition);
                Ok(())
            },
        }
    }

    /// Gives a word that has a definition a new one.
    pub fn update(&mut self, word: &str, definition: &str) -> (r: Result<(), DictionaryError>)
        ensures
            r is Ok <==> old(self)@.dom().contains(word@),
            r is Ok ==> final(self)@ == old(self)@.insert(word@, definition@),
            r is Err ==> r == Err::<(), _>(DictionaryError::WordDoesNotExist) && final(self)@
                == old(self)@,
    {
        match find(&self.0, word) {
            Some(i) => {
                proof {
                    lemma_last_pair(self.0@, i as int);
                }
                replace_at(&mut self.0, i, word, definition);
                Ok(())
            },
            None => {
                proof {
                    lemma_no_pair(self.0@, word@);
                }
                Err(DictionaryError::WordDoesNotExist)
            },
        }
    }
}

} // verus!
