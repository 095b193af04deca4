//! The word list that every dictionary keeps: `(word, definition)` pairs, of
//! which the last pair for a word gives its definition, as when a map is
//! built from the pairs in order.
use vstd::prelude::*;

use crate::text::str_eq;

verus! {

broadcast use vstd::string::to_string_from_display_ensures_for_str;

/// The definitions that `entries` give: each pair in turn defines its word,
/// so the last pair for a word is the one that counts.
pub open spec fn definitions(entries: Seq<(String, String)>) -> Map<Seq<char>, Seq<char>>
    decreases entries.len(),
{
    if entries.len() == 0 {
        Map::empty()
    } else {
        definitions(entries.drop_last()).insert(entries.last().0@, entries.last().1@)
    }
}

/// A word has a definition exactly when some pair holds it.
pub proof fn lemma_defined_words(entries: Seq<(String, String)>, word: Seq<char>)
    ensures
        definitions(entries).dom().contains(word) <==> exists|j: int|
            0 <= j < entries.len() && (#[trigger] entries[j]).0@ == word,
    decreases entries.len(),
{
    if entries.len() > 0 {
        let rest = entries.drop_last();
        lemma_defined_words(rest, word);
        if exists|j: int| 0 <= j < entries.len() && (#[trigger] entries[j]).0@ == word {
            let j = choose|j: int| 0 <= j < entries.len() && (#[trigger] entries[j]).0@ == word;
            if j < rest.len() {
                assert(rest[j] == entries[j]);
            }
        }
        if exists|j: int| 0 <= j < rest.len() && (#[trigger] rest[j]).0@ == word {
            let j = choose|j: int| 0 <= j < rest.len() && (#[trigger] rest[j]).0@ == word;
            assert(entries[j] == rest[j]);
        }
    }
}

/// The pair at `i`, the last for its word, gives that word's definition.
pub proof fn lemma_last_pair(entries: Seq<(String, String)>, i: int)
    requires
        0 <= i < entries.len(),
        forall|j: int| i < j < entries.len() ==> (#[trigger] entries[j]).0@ != entries[i].0@,
    ensures
        definitions(entries).dom().contains(entries[i].0@),
        definitions(entries)[entries[i].0@] == entries[i].1@,
    decreases entries.len(),
{
    if i < entries.len() - 1 {
        let rest = entries.drop_last();
        assert(rest[i] == entries[i]);
        assert forall|j: int| i < j < rest.len() implies (#[trigger] rest[j]).0@ != rest[i].0@ by {
            assert(rest[j] == entries[j]);
        }
        lemma_last_pair(rest, i);
        assert(entries[entries.len() - 1] == entries.last());
    }
}

/// A word that no pair holds has no definition.
pub proof fn lemma_no_pair(entries: Seq<(String, String)>, word: Seq<char>)
    requires
        forall|j: int| 0 <= j < entries.len() ==> (#[trigger] entries[j]).0@ != word,
    ensures
        !definitions(entries).dom().contains(word),
{
    lemma_defined_words(entries, word);
}

/// Replacing the last pair for a word replaces that word's definition and
/// nothing else.
pub proof fn lemma_replace_last(
    entries: Seq<(String, String)>,
    i: int,
    pair: (String, String),
)
    requires
        0 <= i < entries.len(),
        pair.0@ == entries[i].0@,
        forall|j: int| i < j < entries.len() ==> (#[trigger] entries[j]).0@ != entries[i].0@,
    ensures
        definitions(entries.update(i, pair)) == definitions(entries).insert(pair.0@, pair.1@),
    decreases entries.len(),
{
    let rest = entries.drop_last();
    let updated = entries.update(i, pair);
    if i == entries.len() - 1 {
        assert(updated.drop_last() =~= rest);
        assert(definitions(updated) =~= definitions(entries).insert(pair.0@, pair.1@));
    } else {
        assert(updated.drop_last() =~= rest.update(i, pair));
        assert(rest[i] == entries[i]);
        assert forall|j: int| i < j < rest.len() implies (#[trigger] rest[j]).0@ != rest[i].0@ by {
            assert(rest[j] == entries[j]);
        }
        lemma_replace_last(rest, i, pair);
        assert(entries[entries.len() - 1] == entries.last());
        assert(updated.last() == entries.last());
        assert(definitions(updated) =~= definitions(entries).insert(pair.0@, pair.1@));
    }
}

/// Where the last pair for `word` stands, if any.
pub fn find(entries: &Vec<(String, String)>, word: &str) -> (r: Option<usize>)
    ensures
        match r {
            Some(i) => {
                &&& i < entries@.len()
                &&& entries@[i as int].0@ == word@
                &&& forall|j: int| i < j < entries@.len() ==> (#[trigger] entries@[j]).0@ != word@
            },
            None => forall|j: int| 0 <= j < entries@.len() ==> (#[trigger] entries@[j]).0@ != word@,
        },
{
    let mut i: usize = entries.len();
    while i > 0
        invariant
            i <= entries@.len(),
            forall|j: int| i <= j < entries@.len() ==> (#[trigger] entries@[j]).0@ != word@,
        decreases i,
    {
        if str_eq(entries[i - 1].0.as_str(), word) {
            return Some(i - 1);
        }
        i = i - 1;
    }
    None
}

/// The definition of `word`, borrowed from `entries`.
pub fn lookup<'a>(entries: &'a Vec<(String, String)>, word: &str) -> (r: Option<&'a str>)
    ensures
        r is Some <==> definitions(entries@).dom().contains(word@),
        r is Some ==> r.unwrap()@ == definitions(entries@)[word@],
{
    match find(entries, word) {
        Some(i) => {
            proof {
                lemma_last_pair(entries@, i as int);
            }
            Some(entries[i].1.as_str())
        },
        None => {
            proof {
                lemma_no_pair(entries@, word@);
            }
            None
        },
    }
}

/// Appends a pair for a word that has no definition yet.
pub fn insert_new(entries: &mut Vec<(String, String)>, word: &str, definition: &str)
    requires
        !definitions(old(entries)@).dom().contains(word@),
    ensures
        definitions(final(entries)@) == definitions(old(entries)@).insert(word@, definition@),
{
    let pair = (word.to_string(), definition.to_string());
    entries.push(pair);
    assert(final(entries)@.drop_last() =~= old(entries)@);
}

/// Gives the word at `i`, the last pair for its word, a new definition.
pub fn replace_at(entries: &mut Vec<(String, String)>, i: usize, word: &str, definition: &str)
    requires
        i < old(entries)@.len(),
        old(entries)@[i as int].0@ == word@,
        forall|j: int| i < j < old(entries)@.len() ==> (#[trigger] old(entries)@[j]).0@ != word@,
    ensures
        definitions(final(entries)@) == definitions(old(entries)@).insert(word@, definition@),
{
    let pair = (word.to_string(), definition.to_string());
    proof {
        lemma_replace_last(old(entries)@, i as int, pair);
    }
    entries.set(i, pair);
}

/// Drops every pair that holds `word`.
pub fn remove_word(entries: &mut Vec<(String, String)>, word: &str)
    ensures
        definitions(final(entries)@) == definitions(old(entries)@).remove(word@),
{
    let mut kept: Vec<(String, String)> = Vec::new();
    let mut i: usize = 0;
    while i < entries.len()
        invariant
            i <= entries@.len(),
            entries@ == old(entries)@,
            definitions(kept@) == definitions(entries@.take(i as int)).remove(word@),
            forall|j: int| 0 <= j < kept@.len() ==> (#[trigger] kept@[j]).0@ != word@,
        decreases entries@.len() - i,
    {
        let ghost before = entries@.take(i as int);
        assert(entries@.take(i + 1).drop_last() =~= before);
        if !str_eq(entries[i].0.as_str(), word) {
            let pair = (entries[i].0.clone(), entries[i].1.clone());
            let ghost kept_before = kept@;
            kept.push(pair);
            assert(kept@.drop_last() =~= kept_before);
            assert(definitions(kept@) =~= definitions(entries@.take(i + 1)).remove(word@));
        } else {
            assert(definitions(kept@) =~= definitions(entries@.take(i + 1)).remove(word@));
        }
        i = i + 1;
    }
    assert(entries@.take(entries@.len() as int) =~= entries@);
    *entries = kept;
}

} // verus!
