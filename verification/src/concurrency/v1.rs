//! Checking each website with a given checker.
use vstd::prelude::*;

use crate::text::str_eq;

verus! {

broadcast use vstd::string::to_string_from_display_ensures_for_str;

/// No url occurs twice among `results`.
pub open spec fn urls_distinct(results: Seq<(String, bool)>) -> bool {
    forall|a: int, b: int| 0 <= a < b < results.len() ==> results[a].0@ != results[b].0@
}

/// Whether `urls[k]` is the last of the first `n` urls to say `urls[k]`.
pub open spec fn last_among(urls: Seq<&str>, k: int, n: int) -> bool {
    forall|m: int| k < m < n ==> (#[trigger] urls[m])@ != urls[k]@
}

/// The results read as a map from url to what the checker said of it.
pub open spec fn site_map(results: Seq<(String, bool)>) -> Map<Seq<char>, bool> {
    Map::new(
        |u: Seq<char>| exists|j: int| 0 <= j < results.len() && (#[trigger] results[j]).0@ == u,
        |u: Seq<char>|
            results[choose|j: int| 0 <= j < results.len() && (#[trigger] results[j]).0@ == u].1,
    )
}

/// Where the results say `u`, if they do.
fn position(results: &Vec<(String, bool)>, u: &str) -> (r: Option<usize>)
    ensures
        match r {
            Some(j) => j < results@.len() && results@[j as int].0@ == u@,
            None => forall|j: int| 0 <= j < results@.len() ==> (#[trigger] results@[j]).0@ != u@,
        },
{
    let mut j: usize = 0;
    while j < results.len()
        invariant
            j <= results@.len(),
            forall|k: int| 0 <= k < j ==> (#[trigger] results@[k]).0@ != u@,
        decreases results@.len() - j,
    {
        if str_eq(results[j].0.as_str(), u) {
            return Some(j);
        }
        j = j + 1;
    }
    None
}

/// What `checker` says of each url, one entry per distinct url: the
/// results read as a map hold every url given, and no other, and each
/// holds what the checker said of its last occurrence.
pub fn check_websites<F: Fn(&str) -> bool>(checker: F, urls: &[&str]) -> (r: Vec<(String, bool)>)
    requires
        forall|i: int| 0 <= i < urls@.len() ==> checker.requires((#[trigger] urls@[i],)),
    ensures
        urls_distinct(r@),
        forall|u: Seq<char>| #[trigger]
            site_map(r@).dom().contains(u) <==> exists|i: int|
                0 <= i < urls@.len() && (#[trigger] urls@[i])@ == u,
        forall|i: int|
            0 <= i < urls@.len() && last_among(urls@, i, urls@.len() as int) ==> checker.ensures(
                (#[trigger] urls@[i],),
                site_map(r@)[urls@[i]@],
            ),
{
    let mut results: Vec<(String, bool)> = Vec::new();
    let mut i: usize = 0;
    while i < urls.len()
        invariant
            i <= urls@.len(),
            forall|k: int| 0 <= k < urls@.len() ==> checker.requires((#[trigger] urls@[k],)),
            checked_so_far(results@, urls@, checker, i as int),
        decreases urls@.len() - i,
    {
        let url: &str = urls[i];
        let up = checker(url);
        let ghost before = results@;
        let pair = (url.to_string(), up);
        assert(pair.0@ == url@);
        match position(&results, url) {
            Some(j0) => {
                results.set(j0, pair);
                proof {
                    lemma_step_replace(before, results@, urls@, checker, i as int, j0 as int);
                }
            },
            None => {
                let ghost pushed = pair;
                results.push(pair);
                proof {
                    lemma_step_push(before, results@, urls@, checker, i as int, pushed);
                }
            },
        }
        i = i + 1;
    }
    proof {
        lemma_map_reading(results@, urls@, checker);
    }
    results
}

/// What the results say after the first `n` urls: no url twice, each of
/// them there, nothing else, and each holding what the checker said of its
/// last occurrence so far.
pub open spec fn checked_so_far<F: Fn(&str) -> bool>(
    results: Seq<(String, bool)>,
    urls: Seq<&str>,
    checker: F,
    n: int,
) -> bool {
    &&& urls_distinct(results)
    &&& forall|k: int|
        0 <= k < n ==> exists|j: int|
            0 <= j < results.len() && (#[trigger] results[j]).0@ == (#[trigger] urls[k])@
    &&& forall|j: int|
        0 <= j < results.len() ==> exists|k: int|
            0 <= k < n && (#[trigger] urls[k])@ == (#[trigger] results[j]).0@ && checker.ensures(
                (urls[k],),
                results[j].1,
            ) && last_among(urls, k, n)
}

proof fn lemma_step_replace<F: Fn(&str) -> bool>(
    before: Seq<(String, bool)>,
    after: Seq<(String, bool)>,
    urls: Seq<&str>,
    checker: F,
    i: int,
    j0: int,
)
    requires
        0 <= i < urls.len(),
        0 <= j0 < before.len(),
        checked_so_far(before, urls, checker, i),
        before[j0].0@ == urls[i]@,
        after.len() == before.len(),
        after[j0].0@ == urls[i]@,
        checker.ensures((urls[i],), after[j0].1),
        forall|j: int| 0 <= j < after.len() && j != j0 ==> after[j] == before[j],
    ensures
        checked_so_far(after, urls, checker, i + 1),
{
    assert forall|k: int| 0 <= k < i + 1 implies exists|j: int|
        0 <= j < after.len() && (#[trigger] after[j]).0@ == (#[trigger] urls[k])@ by {
        if k < i {
            let j = choose|j: int|
                0 <= j < before.len() && (#[trigger] before[j]).0@ == (#[trigger] urls[k])@;
            if j == j0 {
                assert(after[j0].0@ == urls[k]@);
            } else {
                assert(after[j] == before[j]);
            }
        } else {
            assert(after[j0].0@ == urls[k]@);
        }
    }
    assert forall|j: int| 0 <= j < after.len() implies exists|k: int|
        0 <= k < i + 1 && (#[trigger] urls[k])@ == (#[trigger] after[j]).0@ && checker.ensures(
            (urls[k],),
            after[j].1,
        ) && last_among(urls, k, i + 1) by {
        if j == j0 {
            assert(urls[i]@ == after[j].0@);
            assert(last_among(urls, i, i + 1));
        } else {
            assert(after[j] == before[j]);
            let k = choose|k: int|
                0 <= k < i && (#[trigger] urls[k])@ == (#[trigger] before[j]).0@
                    && checker.ensures((urls[k],), before[j].1) && last_among(urls, k, i);
            if j < j0 {
                assert(before[j].0@ != before[j0].0@);
            } else {
                assert(before[j0].0@ != before[j].0@);
            }
            assert(last_among(urls, k, i + 1));
        }
    }
    assert forall|a: int, b: int| 0 <= a < b < after.len() implies after[a].0@ != after[b].0@ by {
        assert(before[a].0@ != before[b].0@);
        if a != j0 {
            assert(after[a] == before[a]);
        }
        if b != j0 {
            assert(after[b] == before[b]);
        }
    }
}

proof fn lemma_step_push<F: Fn(&str) -> bool>(
    before: Seq<(String, bool)>,
    after: Seq<(String, bool)>,
    urls: Seq<&str>,
    checker: F,
    i: int,
    pair: (String, bool),
)
    requires
        0 <= i < urls.len(),
        checked_so_far(before, urls, checker, i),
        forall|j: int| 0 <= j < before.len() ==> (#[trigger] before[j]).0@ != urls[i]@,
        after == before.push(pair),
        pair.0@ == urls[i]@,
        checker.ensures((urls[i],), pair.1),
    ensures
        checked_so_far(after, urls, checker, i + 1),
{
    lemma_push_covers(before, after, urls, checker, i, pair);
    lemma_push_entries(before, after, urls, checker, i, pair);
    assert forall|a: int, b: int| 0 <= a < b < after.len() implies after[a].0@ != after[b].0@ by {
        assert(after[a] == before[a]);
        if b < before.len() {
            assert(after[b] == before[b]);
        }
    }
}

proof fn lemma_push_covers<F: Fn(&str) -> bool>(
    before: Seq<(String, bool)>,
    after: Seq<(String, bool)>,
    urls: Seq<&str>,
    checker: F,
    i: int,
    pair: (String, bool),
)
    requires
        0 <= i < urls.len(),
        checked_so_far(before, urls, checker, i),
        after == before.push(pair),
        pair.0@ == urls[i]@,
    ensures
        forall|k: int|
            0 <= k < i + 1 ==> exists|j: int|
                0 <= j < after.len() && (#[trigger] after[j]).0@ == (#[trigger] urls[k])@,
{
    assert forall|k: int| 0 <= k < i + 1 implies exists|j: int|
        0 <= j < after.len() && (#[trigger] after[j]).0@ == (#[trigger] urls[k])@ by {
        if k < i {
            let j = choose|j: int|
                0 <= j < before.len() && (#[trigger] before[j]).0@ == (#[trigger] urls[k])@;
            assert(after[j] == before[j]);
        } else {
            assert(after[before.len() as int] == pair);
        }
    }
}

proof fn lemma_push_entries<F: Fn(&str) -> bool>(
    before: Seq<(String, bool)>,
    after: Seq<(String, bool)>,
    urls: Seq<&str>,
    checker: F,
    i: int,
    pair: (String, bool),
)
    requires
        0 <= i < urls.len(),
        checked_so_far(before, urls, checker, i),
        forall|j: int| 0 <= j < before.len() ==> (#[trigger] before[j]).0@ != urls[i]@,
        after == before.push(pair),
        pair.0@ == urls[i]@,
        checker.ensures((urls[i],), pair.1),
    ensures
        forall|j: int|
            0 <= j < after.len() ==> exists|k: int|
                0 <= k < i + 1 && (#[trigger] urls[k])@ == (#[trigger] after[j]).0@
                    && checker.ensures((urls[k],), after[j].1) && last_among(urls, k, i + 1),
{
    assert forall|j: int| 0 <= j < after.len() implies exists|k: int|
        0 <= k < i + 1 && (#[trigger] urls[k])@ == (#[trigger] after[j]).0@ && checker.ensures(
            (urls[k],),
            after[j].1,
        ) && last_among(urls, k, i + 1) by {
        if j == before.len() {
            assert(after[j] == pair);
            assert(last_among(urls, i, i + 1));
        } else {
            assert(after[j] == before[j]);
            let k = choose|k: int|
                0 <= k < i && (#[trigger] urls[k])@ == (#[trigger] before[j]).0@
                    && checker.ensures((urls[k],), before[j].1) && last_among(urls, k, i);
            assert(before[j].0@ != urls[i]@);
            assert(last_among(urls, k, i + 1));
        }
    }
}

/// Per-entry facts about distinct results, read through `site_map`.
proof fn lemma_map_reading<F: Fn(&str) -> bool>(results: Seq<(String, bool)>, urls: Seq<&str>, checker: F)
    requires
        checked_so_far(results, urls, checker, urls.len() as int),
    ensures
        forall|u: Seq<char>| #[trigger]
            site_map(results).dom().contains(u) <==> exists|i: int|
                0 <= i < urls.len() && (#[trigger] urls[i])@ == u,
        forall|i: int|
            0 <= i < urls.len() && last_among(urls, i, urls.len() as int) ==> checker.ensures(
                (#[trigger] urls[i],),
                site_map(results)[urls[i]@],
            ),
{
    assert forall|u: Seq<char>| #[trigger]
        site_map(results).dom().contains(u) <==> exists|i: int|
            0 <= i < urls.len() && (#[trigger] urls[i])@ == u by {
        if site_map(results).dom().contains(u) {
            let j = choose|j: int| 0 <= j < results.len() && (#[trigger] results[j]).0@ == u;
            let k = choose|k: int|
                0 <= k < urls.len() && (#[trigger] urls[k])@ == (#[trigger] results[j]).0@
                    && checker.ensures((urls[k],), results[j].1) && last_among(
                    urls,
                    k,
                    urls.len() as int,
                );
            assert(urls[k]@ == u);
        }
        if exists|i: int| 0 <= i < urls.len() && (#[trigger] urls[i])@ == u {
            let i = choose|i: int| 0 <= i < urls.len() && (#[trigger] urls[i])@ == u;
            let j = choose|j: int|
                0 <= j < results.len() && (#[trigger] results[j]).0@ == (#[trigger] urls[i])@;
            assert(results[j].0@ == u);
        }
    }
    assert forall|i: int|
        0 <= i < urls.len() && last_among(urls, i, urls.len() as int) implies checker.ensures(
        (#[trigger] urls[i],),
        site_map(results)[urls[i]@],
    ) by {
        let u = urls[i]@;
        let j = choose|j: int| 0 <= j < results.len() && (#[trigger] results[j]).0@ == (
        #[trigger] urls[i])@;
        assert(site_map(results).dom().contains(u));
        let c = choose|c: int| 0 <= c < results.len() && (#[trigger] results[c]).0@ == u;
        if c != j {
            if c < j {
                assert(results[c].0@ != results[j].0@);
            } else {
                assert(results[j].0@ != results[c].0@);
            }
        }
        let k = choose|k: int|
            0 <= k < urls.len() && (#[trigger] urls[k])@ == (#[trigger] results[j]).0@
                && checker.ensures((urls[k],), results[j].1) && last_among(
                urls,
                k,
                urls.len() as int,
            );
        if k < i {
            assert(urls[i]@ != urls[k]@);
        } else if i < k {
            assert(urls[k]@ != urls[i]@);
        }
    }
}

} // verus!
