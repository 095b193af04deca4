//! The poker league that the server chapters keep: players and their wins,
//! looked up by name, bumped by one win at a time, and ranked by wins.
use vstd::prelude::*;

use crate::text::{
    is_white_space, lemma_trim_end_take, lemma_trim_start_skip, push_signed_decimal,
    signed_decimal, str_eq, strip_suffix, trim, trim_end, trim_start, trimmed, without_suffix,
};
use vstd::std_specs::cmp::PartialEqSpecImpl;
use vstd::string::StringExecFns;

verus! {

/// A player and how many games they have won.
#[derive(Debug)]
pub struct Player {
    pub name: String,
    pub wins: i32,
}

impl View for Player {
    type V = (Seq<char>, i32);

    open spec fn view(&self) -> (Seq<char>, i32) {
        (self.name@, self.wins)
    }
}

impl Clone for Player {
    fn clone(&self) -> (r: Self)
        ensures
            r == *self,
    {
        Player { name: self.name.clone(), wins: self.wins }
    }
}

impl PartialEq for Player {
    fn eq(&self, other: &Self) -> (r: bool) {
        self.name == other.name && self.wins == other.wins
    }
}

impl PartialEqSpecImpl for Player {
    open spec fn obeys_eq_spec() -> bool {
        true
    }

    open spec fn eq_spec(&self, other: &Self) -> bool {
        self@ == other@
    }
}

/// A league as names and wins, in the order the players are kept.
pub open spec fn standings(league: Seq<Player>) -> Seq<(Seq<char>, i32)> {
    league.map_values(|p: Player| p@)
}

/// The wins of the first player called `name`, if any.
pub open spec fn score_in(league: Seq<(Seq<char>, i32)>, name: Seq<char>) -> Option<i32>
    decreases league.len(),
{
    if league.len() == 0 {
        None
    } else if league[0].0 == name {
        Some(league[0].1)
    } else {
        score_in(league.drop_first(), name)
    }
}

/// Whether one more win for `name` still fits in an `i32`.
pub open spec fn win_fits(league: Seq<(Seq<char>, i32)>, name: Seq<char>) -> bool {
    score_in(league, name) matches Some(w) ==> w < i32::MAX
}

/// The league after a win for `name`: the first player of that name gains a
/// win, and an unknown name joins at the end with one win.
pub open spec fn with_win(league: Seq<(Seq<char>, i32)>, name: Seq<char>) -> Seq<
    (Seq<char>, i32),
>
    decreases league.len(),
{
    if league.len() == 0 {
        seq![(name, 1i32)]
    } else if league[0].0 == name {
        league.update(0, (name, (league[0].1 + 1) as i32))
    } else {
        seq![league[0]] + with_win(league.drop_first(), name)
    }
}

/// `sorted` with `p` placed after every entry that has at least as many wins.
pub open spec fn insert_ranked(sorted: Seq<(Seq<char>, i32)>, p: (Seq<char>, i32)) -> Seq<
    (Seq<char>, i32),
>
    decreases sorted.len(),
{
    if sorted.len() == 0 {
        seq![p]
    } else if sorted.last().1 >= p.1 {
        sorted.push(p)
    } else {
        insert_ranked(sorted.drop_last(), p).push(sorted.last())
    }
}

/// The league ranked by wins, most first; players with equal wins keep the
/// order they had.
pub open spec fn ranked(league: Seq<(Seq<char>, i32)>) -> Seq<(Seq<char>, i32)>
    decreases league.len(),
{
    if league.len() == 0 {
        league
    } else {
        insert_ranked(ranked(league.drop_last()), league.last())
    }
}

/// No entry has more wins than one before it.
pub open spec fn ranked_by_wins(s: Seq<(Seq<char>, i32)>) -> bool {
    forall|i: int, j: int| 0 <= i < j < s.len() ==> s[i].1 >= s[j].1
}

/// The entries with exactly `wins` wins, in order.
pub open spec fn with_wins(s: Seq<(Seq<char>, i32)>, wins: i32) -> Seq<(Seq<char>, i32)> {
    s.filter(|e: (Seq<char>, i32)| e.1 == wins)
}

proof fn lemma_score_skip(league: Seq<(Seq<char>, i32)>, name: Seq<char>, i: int)
    requires
        0 <= i < league.len(),
        league[i].0 != name,
    ensures
        score_in(league.skip(i), name) == score_in(league.skip(i + 1), name),
{
    assert(league.skip(i).drop_first() =~= league.skip(i + 1));
}

/// Where the first player called `name` stands, with the facts the
/// league's spec functions need about it.
fn position(league: &Vec<Player>, name: &str) -> (r: Option<usize>)
    ensures
        match r {
            Some(i) => {
                &&& i < league@.len()
                &&& league@[i as int].name@ == name@
                &&& forall|j: int| 0 <= j < i ==> (#[trigger] league@[j]).name@ != name@
            },
            None => forall|j: int| 0 <= j < league@.len() ==> (#[trigger] league@[j]).name@ != name@,
        },
{
    let mut i: usize = 0;
    while i < league.len()
        invariant
            i <= league@.len(),
            forall|j: int| 0 <= j < i ==> (#[trigger] league@[j]).name@ != name@,
        decreases league@.len() - i,
    {
        if str_eq(league[i].name.as_str(), name) {
            return Some(i);
        }
        i = i + 1;
    }
    None
}

/// The score is that of the first player of the name.
proof fn lemma_score_at(league: Seq<(Seq<char>, i32)>, name: Seq<char>, i: int)
    requires
        0 <= i <= league.len(),
        forall|j: int| 0 <= j < i ==> (#[trigger] league[j]).0 != name,
    ensures
        score_in(league, name) == score_in(league.skip(i), name),
    decreases i,
{
    if i > 0 {
        lemma_score_at(league, name, i - 1);
        lemma_score_skip(league, name, i - 1);
    } else {
        assert(league.skip(0) =~= league);
    }
}

/// A win lands on the first player of the name, or a new player joins.
proof fn lemma_with_win_at(league: Seq<(Seq<char>, i32)>, name: Seq<char>, i: int)
    requires
        0 <= i <= league.len(),
        forall|j: int| 0 <= j < i ==> (#[trigger] league[j]).0 != name,
        i < league.len() ==> league[i].0 == name,
    ensures
        i < league.len() ==> with_win(league, name) == league.update(
            i,
            (name, (league[i].1 + 1) as i32),
        ),
        i == league.len() ==> with_win(league, name) == league.push((name, 1i32)),
    decreases i,
{
    if i > 0 {
        let rest = league.drop_first();
        assert forall|j: int| 0 <= j < i - 1 implies (#[trigger] rest[j]).0 != name by {
            assert(rest[j] == league[j + 1]);
        }
        lemma_with_win_at(rest, name, i - 1);
        assert(league[0].0 != name);
        if i < league.len() {
            assert(with_win(league, name) =~= league.update(i, (name, (league[i].1 + 1) as i32)));
        } else {
            assert(with_win(league, name) =~= league.push((name, 1i32)));
        }
    } else if league.len() == 0 {
        assert(with_win(league, name) =~= league.push((name, 1i32)));
    }
}

/// The wins of the first player called `name`, if any.
pub fn find_score(league: &Vec<Player>, name: &str) -> (r: Option<i32>)
    ensures
        r == score_in(standings(league@), name@),
{
    let ghost v = standings(league@);
    match position(league, name) {
        Some(i) => {
            proof {
                lemma_score_at(v, name@, i as int);
                assert(v.skip(i as int)[0] == v[i as int]);
            }
            Some(league[i].wins)
        },
        None => {
            proof {
                lemma_score_at(v, name@, v.len() as int);
                assert(v.skip(v.len() as int) =~= Seq::<(Seq<char>, i32)>::empty());
            }
            None
        },
    }
}

/// Records one more win for `name`.
pub fn add_win(league: &mut Vec<Player>, name: &str)
    requires
        win_fits(standings(old(league)@), name@),
    ensures
        standings(final(league)@) == with_win(standings(old(league)@), name@),
{
    let ghost v = standings(league@);
    match position(league, name) {
        Some(i) => {
            proof {
                lemma_score_at(v, name@, i as int);
                assert(v.skip(i as int)[0] == v[i as int]);
                lemma_with_win_at(v, name@, i as int);
            }
            let wins = league[i].wins + 1;
            let player = Player { name: league[i].name.clone(), wins };
            league.set(i, player);
            assert(standings(league@) =~= v.update(i as int, (name@, (v[i as int].1 + 1) as i32)));
        },
        None => {
            proof {
                lemma_with_win_at(v, name@, v.len() as int);
            }
            league.push(Player { name: name.to_string(), wins: 1 });
            assert(standings(league@) =~= v.push((name@, 1i32)));
        },
    }
}

/// Placing `p` at `j`, after the last entry with at least its wins, is what
/// `insert_ranked` does.
proof fn lemma_insert_ranked_at(s: Seq<(Seq<char>, i32)>, p: (Seq<char>, i32), j: int)
    requires
        0 <= j <= s.len(),
        j == 0 || s[j - 1].1 >= p.1,
        forall|k: int| j <= k < s.len() ==> (#[trigger] s[k]).1 < p.1,
    ensures
        insert_ranked(s, p) == s.insert(j, p),
    decreases s.len(),
{
    if s.len() == 0 {
        assert(insert_ranked(s, p) =~= s.insert(j, p));
    } else if s.last().1 >= p.1 {
        assert(insert_ranked(s, p) =~= s.insert(j, p));
    } else {
        let rest = s.drop_last();
        assert forall|k: int| j <= k < rest.len() implies (#[trigger] rest[k]).1 < p.1 by {
            assert(rest[k] == s[k]);
        }
        if j > 0 {
            assert(rest[j - 1] == s[j - 1]);
        }
        lemma_insert_ranked_at(rest, p, j);
        assert(insert_ranked(s, p) =~= s.insert(j, p));
    }
}

/// The league, ranked by wins with ties in their original order.
pub fn rank(league: &Vec<Player>) -> (r: Vec<Player>)
    ensures
        standings(r@) == ranked(standings(league@)),
{
    let ghost v = standings(league@);
    let mut out: Vec<Player> = Vec::new();
    let mut i: usize = 0;
    assert(v.take(0) =~= Seq::<(Seq<char>, i32)>::empty());
    while i < league.len()
        invariant
            i <= league@.len(),
            v == standings(league@),
            standings(out@) == ranked(v.take(i as int)),
        decreases league@.len() - i,
    {
        let p = league[i].clone();
        let mut j: usize = out.len();
        while j > 0 && out[j - 1].wins < p.wins
            invariant
                j <= out@.len(),
                forall|k: int| j <= k < out@.len() ==> (#[trigger] out@[k]).wins < p.wins,
            decreases j,
        {
            j = j - 1;
        }
        let ghost before = standings(out@);
        proof {
            assert forall|k: int| j <= k < before.len() implies (#[trigger] before[k]).1 < p@.1 by {
                assert(before[k] == out@[k]@);
            }
            if j > 0 {
                assert(before[j - 1] == out@[j - 1]@);
            }
            lemma_insert_ranked_at(before, p@, j as int);
            assert(v.take(i + 1).drop_last() =~= v.take(i as int));
            assert(v.take(i + 1).last() == league@[i as int]@);
        }
        out.insert(j, p);
        assert(standings(out@) =~= before.insert(j as int, league@[i as int]@));
        i = i + 1;
    }
    assert(v.take(league@.len() as int) =~= v);
    out
}

/// Inserting into a ranked league keeps it ranked.
proof fn lemma_insert_keeps_ranked(s: Seq<(Seq<char>, i32)>, p: (Seq<char>, i32))
    requires
        ranked_by_wins(s),
    ensures
        ranked_by_wins(insert_ranked(s, p)),
        insert_ranked(s, p).len() == s.len() + 1,
        forall|i: int|
            0 <= i < insert_ranked(s, p).len() ==> #[trigger] insert_ranked(s, p)[i] == p
                || s.contains(insert_ranked(s, p)[i]),
    decreases s.len(),
{
    if s.len() > 0 && s.last().1 < p.1 {
        let rest = s.drop_last();
        lemma_insert_keeps_ranked(rest, p);
        let t = insert_ranked(rest, p);
        assert forall|i: int| 0 <= i < t.len() implies t[i].1 >= s.last().1 by {
            if t[i] != p {
                let k = choose|k: int| 0 <= k < rest.len() && rest[k] == t[i];
                assert(s[k] == rest[k]);
            }
        }
        assert forall|i: int|
            0 <= i < insert_ranked(s, p).len() implies #[trigger] insert_ranked(s, p)[i] == p
            || s.contains(insert_ranked(s, p)[i]) by {
            if i < t.len() && t[i] != p {
                let k = choose|k: int| 0 <= k < rest.len() && rest[k] == t[i];
                assert(s[k] == rest[k]);
            } else if i == t.len() {
                assert(s[s.len() - 1] == s.last());
            }
        }
    } else if s.len() > 0 {
        assert forall|i: int|
            0 <= i < insert_ranked(s, p).len() implies #[trigger] insert_ranked(s, p)[i] == p
            || s.contains(insert_ranked(s, p)[i]) by {
            if i < s.len() {
                assert(s[i] == insert_ranked(s, p)[i]);
            }
        }
    }
}

proof fn lemma_with_wins_push(s: Seq<(Seq<char>, i32)>, p: (Seq<char>, i32), wins: i32)
    ensures
        with_wins(s.push(p), wins) == if p.1 == wins {
            with_wins(s, wins).push(p)
        } else {
            with_wins(s, wins)
        },
{
    reveal(Seq::filter);
    assert(s.push(p).drop_last() =~= s);
}

/// Inserting keeps, for each number of wins, the entries with that many in
/// the order they had, with the new entry after them.
proof fn lemma_insert_keeps_ties(s: Seq<(Seq<char>, i32)>, p: (Seq<char>, i32), wins: i32)
    ensures
        with_wins(insert_ranked(s, p), wins) == with_wins(s.push(p), wins),
    decreases s.len(),
{
    if s.len() > 0 && s.last().1 < p.1 {
        let rest = s.drop_last();
        let l = s.last();
        lemma_insert_keeps_ties(rest, p, wins);
        lemma_with_wins_push(insert_ranked(rest, p), l, wins);
        lemma_with_wins_push(rest, p, wins);
        lemma_with_wins_push(rest, l, wins);
        lemma_with_wins_push(s, p, wins);
        lemma_with_wins_push(rest.push(p), l, wins);
        lemma_with_wins_push(rest.push(l), p, wins);
        assert(rest.push(l) =~= s);
    } else if s.len() == 0 {
        assert(insert_ranked(s, p) =~= s.push(p));
    }
}

/// A ranked league is ordered by wins, most first; for each number of wins
/// it lists the players with that many in the order the league kept them;
/// and it holds the same players, each as often, as the league.
pub proof fn lemma_league_ranking(league: Seq<(Seq<char>, i32)>)
    ensures
        ranked_by_wins(ranked(league)),
        forall|wins: i32| #[trigger] with_wins(ranked(league), wins) == with_wins(league, wins),
        ranked(league).to_multiset() == league.to_multiset(),
    decreases league.len(),
{
    broadcast use vstd::seq_lib::group_seq_properties;

    if league.len() > 0 {
        let rest = league.drop_last();
        lemma_league_ranking(rest);
        lemma_insert_keeps_ranked(ranked(rest), league.last());
        assert(rest.push(league.last()) =~= league);
        assert forall|wins: i32| #[trigger] with_wins(ranked(league), wins) == with_wins(league, wins) by {
            lemma_insert_keeps_ties(ranked(rest), league.last(), wins);
            lemma_with_wins_push(ranked(rest), league.last(), wins);
            lemma_with_wins_push(rest, league.last(), wins);
        }
        lemma_insert_multiset(ranked(rest), league.last());
    } else {
        assert(ranked(league) =~= league);
    }
}

proof fn lemma_insert_multiset(s: Seq<(Seq<char>, i32)>, p: (Seq<char>, i32))
    ensures
        insert_ranked(s, p).to_multiset() == s.to_multiset().insert(p),
    decreases s.len(),
{
    broadcast use vstd::seq_lib::group_seq_properties;

    if s.len() > 0 && s.last().1 < p.1 {
        let rest = s.drop_last();
        lemma_insert_multiset(rest, p);
        assert(rest.push(s.last()) =~= s);
        assert(insert_ranked(s, p).to_multiset() =~= s.to_multiset().insert(p));
    }
}

/// A league kept in memory.
pub struct InMemoryPlayerStore {
    scores: Vec<Player>,
}

impl View for InMemoryPlayerStore {
    type V = Seq<(Seq<char>, i32)>;

    closed spec fn view(&self) -> Seq<(Seq<char>, i32)> {
        standings(self.scores@)
    }
}

impl Default for InMemoryPlayerStore {
    fn default() -> (r: Self)
        ensures
            r@ == Seq::<(Seq<char>, i32)>::empty(),
    {
        let r = InMemoryPlayerStore { scores: Vec::new() };
        assert(r@ =~= Seq::<(Seq<char>, i32)>::empty());
        r
    }
}

impl InMemoryPlayerStore {
    /// The wins of the player called `name`, if any.
    pub fn score(&self, name: &str) -> (r: Option<i32>)
        ensures
            r == score_in(self@, name@),
    {
        find_score(&self.scores, name)
    }

    /// Records one more win for `name`; one more must fit in an `i32`.
    pub fn record_win(&mut self, name: &str)
        requires
            win_fits(old(self)@, name@),
        ensures
            final(self)@ == with_win(old(self)@, name@),
    {
        add_win(&mut self.scores, name);
    }

    /// The players ranked by wins, most first.
    pub fn league(&self) -> (r: Vec<Player>)
        ensures
            standings(r@) == ranked(self@),
    {
        rank(&self.scores)
    }
}

/// A league read from a database of type `F`, which it keeps beside the
/// league so that every change can be written back.
pub struct FileSystemPlayerStore<F> {
    database: F,
    league: Vec<Player>,
}

impl<F> View for FileSystemPlayerStore<F> {
    type V = Seq<(Seq<char>, i32)>;

    closed spec fn view(&self) -> Seq<(Seq<char>, i32)> {
        standings(self.league@)
    }
}

impl<F> FileSystemPlayerStore<F> {
    /// A store over `database`, holding the league that was read from it.
    pub fn new(database: F, league: Vec<Player>) -> (r: Self)
        ensures
            r@ == standings(league@),
            r.database() == database,
    {
        FileSystemPlayerStore { database, league }
    }

    /// The wins of the first player called `name`, if any.
    pub fn score(&self, name: &str) -> (r: Option<i32>)
        ensures
            r == score_in(self@, name@),
    {
        find_score(&self.league, name)
    }

    /// Records one more win for `name`; one more must fit in an `i32`.
    pub fn record_win(&mut self, name: &str)
        requires
            win_fits(old(self)@, name@),
        ensures
            final(self)@ == with_win(old(self)@, name@),
            final(self).database() == old(self).database(),
    {
        add_win(&mut self.league, name);
    }

    /// The players ranked by wins, most first.
    pub fn league(&self) -> (r: Vec<Player>)
        ensures
            standings(r@) == ranked(self@),
    {
        rank(&self.league)
    }

    /// The players in the order they are stored, as they are written back.
    pub fn players(&self) -> (r: &Vec<Player>)
        ensures
            standings(r@) == self@,
    {
        &self.league
    }

    /// The database the league is written back to.
    pub closed spec fn database(&self) -> F {
        self.database
    }

    /// The database, to write the league back to; what is done through it
    /// is the store's database afterwards, and the league stays as it was.
    pub fn database_mut(&mut self) -> (r: &mut F)
        ensures
            *r == old(self).database(),
            final(self).database() == *final(r),
            final(self)@ == old(self)@,
    {
        &mut self.database
    }
}

/// Whether a database's contents hold no league at all: nothing but white
/// space.
pub fn is_blank(contents: &str) -> (r: bool)
    ensures
        r == (trimmed(contents@).len() == 0),
{
    trim(contents).is_empty()
}

/// The status and body that answer a request for a score: the number with
/// `200 OK`, or an empty `404 Not Found` for an unknown player.
pub fn score_reply(score: Option<i32>) -> (r: (u16, String))
    ensures
        score matches Some(s) ==> r.0 == 200 && r.1@ == signed_decimal(s as int),
        score is None ==> r.0 == 404 && r.1@ == Seq::<char>::empty(),
{
    match score {
        Some(s) => {
            let mut body = String::new();
            push_signed_decimal(&mut body, s as i64);
            (200, body)
        },
        None => (404, String::new()),
    }
}

/// The status that answers a recorded win: `202 Accepted`.
pub const WIN_ACCEPTED: u16 = 202;

/// The winner that a line of input such as `Chris wins` names.
pub fn winner(line: &str) -> (r: Option<&str>)
    ensures
        r matches Some(name) ==> without_suffix(trimmed(line@), " wins"@) == Some(name@),
        r is None ==> without_suffix(trimmed(line@), " wins"@) is None,
{
    strip_suffix(trim(line), " wins")
}

/// A line that says who won gives back that name exactly, spaces inside it
/// included: for any name that is not empty and does not start with white
/// space, and any white space around `name wins` (a line break among it),
/// what the line names is `name`.
pub proof fn lemma_winner_is_the_name_before_wins(
    pad_left: Seq<char>,
    name: Seq<char>,
    pad_right: Seq<char>,
)
    requires
        name.len() > 0,
        !is_white_space(name[0]),
        forall|j: int| 0 <= j < pad_left.len() ==> is_white_space(#[trigger] pad_left[j]),
        forall|j: int| 0 <= j < pad_right.len() ==> is_white_space(#[trigger] pad_right[j]),
    ensures
        without_suffix(trimmed(pad_left + name + " wins"@ + pad_right), " wins"@) == Some(name),
{
    reveal_strlit(" wins");
    let s = pad_left + name + " wins"@ + pad_right;
    let k = pad_left.len() as int;
    assert forall|j: int| 0 <= j < k implies is_white_space(#[trigger] s[j]) by {
        assert(s[j] == pad_left[j]);
    }
    lemma_trim_start_skip(s, k);
    let t = name + " wins"@ + pad_right;
    assert(s.skip(k) =~= t);
    assert(t[0] == name[0]);
    assert(trim_start(t) == t);
    let m = name.len() + 5int;
    assert forall|j: int| m <= j < t.len() implies is_white_space(#[trigger] t[j]) by {
        assert(t[j] == pad_right[j - m]);
    }
    lemma_trim_end_take(t, m);
    let u = name + " wins"@;
    assert(t.take(m) =~= u);
    assert(u.last() == 's');
    assert(!is_white_space('s'));
    assert(trim_end(u) == u);
    assert(u.subrange(u.len() - 5, u.len() as int) =~= " wins"@);
    assert(u.subrange(0, u.len() - 5) =~= name);
}

/// After a win for `name`, `name` has one more win than before, or one win
/// if it was unknown, and every other player's score is unchanged.
pub proof fn lemma_score_after_win(league: Seq<(Seq<char>, i32)>, name: Seq<char>, other: Seq<char>)
    requires
        win_fits(league, name),
    ensures
        score_in(with_win(league, name), name) == match score_in(league, name) {
            Some(w) => Some((w + 1) as i32),
            None => Some(1i32),
        },
        other != name ==> score_in(with_win(league, name), other) == score_in(league, other),
    decreases league.len(),
{
    if league.len() > 0 && league[0].0 != name {
        let rest = league.drop_first();
        lemma_score_after_win(rest, name, other);
        let w = with_win(league, name);
        assert(w.drop_first() =~= with_win(rest, name));
        assert(w[0] == league[0]);
        assert(w.len() > 0);
        if other != name {
            assert(score_in(w, other) == score_in(league, other));
        }
    } else if league.len() > 0 {
        let w = with_win(league, name);
        assert(w.drop_first() =~= league.drop_first());
        assert(w.len() > 0 && w[0].0 == name);
        if other != name {
            assert(score_in(w, other) == score_in(w.drop_first(), other));
            assert(score_in(league, other) == score_in(league.drop_first(), other));
        }
    } else {
        let w = with_win(league, name);
        assert(w.drop_first() =~= Seq::<(Seq<char>, i32)>::empty());
        assert(w.len() == 1 && w[0].0 == name);
        if other != name {
            assert(score_in(w, other) == score_in(w.drop_first(), other));
        }
    }
}

} // verus!
