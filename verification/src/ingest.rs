//! Ingest bookkeeping: which fetched games are new, and what the tick
//! should warn about.
//!
//! The store keeps at most one game per `(timestamp, id_a, id_b)`;
//! [`new_games`] mirrors that rule over plain vectors, so feeding a batch
//! twice inserts nothing the second time ([`lemma_refeed_adds_nothing`]).
//! [`grab_report`] turns the raw counts of one fetch into the diagnostics
//! the ingest loop emits.

use vstd::prelude::*;
use crate::game::{Game, same_game_key};

verus! {

/// Some game in `s` collides with `g` on the store key.
pub open spec fn key_in(s: Seq<Game>, g: Game) -> bool {
    exists|i: int| 0 <= i < s.len() && same_game_key(s[i], g)
}

/// The games of `fetched` that survive insert-or-ignore against
/// `existing`, processed front to back.
pub open spec fn new_games_spec(existing: Seq<Game>, fetched: Seq<Game>) -> Seq<Game>
    decreases fetched.len(),
{
    if fetched.len() == 0 {
        Seq::empty()
    } else {
        let g = fetched[0];
        let rest = fetched.drop_first();
        if key_in(existing, g) {
            new_games_spec(existing, rest)
        } else {
            seq![g] + new_games_spec(existing.push(g), rest)
        }
    }
}

fn key_in_exec(s: &Vec<Game>, g: &Game) -> (r: bool)
    ensures
        r == key_in(s@, *g),
{
    let mut i: usize = 0;
    while i < s.len()
        invariant
            0 <= i <= s@.len(),
            forall|j: int| 0 <= j < i ==> !same_game_key(s@[j], *g),
        decreases s@.len() - i,
    {
        if s[i].timestamp == g.timestamp && s[i].id_a == g.id_a && s[i].id_b == g.id_b {
            assert(same_game_key(s@[i as int], *g));
            return true;
        }
        i = i + 1;
    }
    false
}

proof fn lemma_key_in_concat(a: Seq<Game>, b: Seq<Game>, g: Game)
    ensures
        key_in(a + b, g) <==> key_in(a, g) || key_in(b, g),
{
    if key_in(a, g) {
        let i = choose|i: int| 0 <= i < a.len() && same_game_key(a[i], g);
        assert(same_game_key((a + b)[i], g));
    }
    if key_in(b, g) {
        let i = choose|i: int| 0 <= i < b.len() && same_game_key(b[i], g);
        assert(same_game_key((a + b)[a.len() + i], g));
    }
    if key_in(a + b, g) {
        let i = choose|i: int| 0 <= i < (a + b).len() && same_game_key((a + b)[i], g);
        if i < a.len() {
            assert(same_game_key(a[i], g));
        } else {
            assert(same_game_key(b[i - a.len()], g));
        }
    }
}

/// The games of `fetched` that the store would accept: those whose key is
/// in neither `existing` nor an earlier accepted game. Names and other
/// fields ride along untouched, so the result can be inserted as is.
pub fn new_games(existing: &Vec<Game>, fetched: Vec<Game>) -> (r: Vec<Game>)
    ensures
        r@ == new_games_spec(existing@, fetched@),
{
    let ghost all = fetched@;
    let mut fetched = fetched;
    let mut accepted: Vec<Game> = Vec::new();
    let ghost mut i: int = 0;
    while fetched.len() > 0
        invariant
            0 <= i <= all.len(),
            fetched@ == all.skip(i),
            new_games_spec(existing@, all) == accepted@ + new_games_spec(
                existing@ + accepted@,
                fetched@,
            ),
        decreases fetched@.len(),
    {
        let g = fetched.remove(0);
        proof {
            assert(all.skip(i).drop_first() =~= all.skip(i + 1));
        }
        let ghost pre = accepted@;
        let fresh = !key_in_exec(existing, &g) && !key_in_exec(&accepted, &g);
        proof {
            lemma_key_in_concat(existing@, accepted@, g);
        }
        if fresh {
            accepted.push(g);
            proof {
                assert(existing@ + pre.push(g) =~= (existing@ + pre).push(g));
                assert(pre + seq![g] + new_games_spec((existing@ + pre).push(g), fetched@)
                    =~= pre.push(g) + new_games_spec(existing@ + pre.push(g), fetched@));
            }
        }
        proof {
            i = i + 1;
        }
    }
    proof {
        assert(new_games_spec(existing@ + accepted@, fetched@) =~= Seq::<Game>::empty());
        assert(accepted@ + Seq::<Game>::empty() =~= accepted@);
    }
    accepted
}

/// Feeding games whose keys the store already holds adds nothing.
pub proof fn lemma_refeed_adds_nothing(existing: Seq<Game>, fetched: Seq<Game>)
    requires
        forall|i: int| 0 <= i < fetched.len() ==> key_in(existing, #[trigger] fetched[i]),
    ensures
        new_games_spec(existing, fetched) =~= Seq::<Game>::empty(),
    decreases fetched.len(),
{
    if fetched.len() > 0 {
        assert(key_in(existing, fetched[0]));
        assert(forall|i: int| 0 <= i < fetched.drop_first().len() ==> #[trigger] fetched.drop_first()[i]
            == fetched[i + 1]);
        lemma_refeed_adds_nothing(existing, fetched.drop_first());
    }
}

/// What the ingest loop logs after one fetch.
#[derive(Debug, Clone, Copy, PartialEq, Eq, Structural)]
pub struct IngestReport {
    /// Games inserted this tick: the growth of the games table.
    pub new_games: i64,
    /// Every fetched game was new; pages were probably too few.
    pub page_count_too_low: bool,
    /// More than half of the fetched games were new.
    pub over_half_new: bool,
    /// Some fetched records failed to parse.
    pub parse_failures: bool,
}

/// Turns the counts of one fetch into its diagnostics.
pub fn grab_report(fetched: usize, parse_errors: usize, old_count: i64, new_count: i64) -> (r:
    IngestReport)
    requires
        0 <= old_count <= new_count,
        fetched <= i64::MAX,
    ensures
        r.new_games == new_count - old_count,
        r.page_count_too_low <==> new_count - old_count == fetched,
        r.over_half_new <==> (new_count - old_count != fetched && new_count - old_count > fetched as int / 2),
        r.parse_failures <==> parse_errors > 0,
{
    let new_games = new_count - old_count;
    let page_count_too_low = new_games == fetched as i64;
    IngestReport {
        new_games,
        page_count_too_low,
        over_half_new: !page_count_too_low && new_games > fetched as i64 / 2,
        parse_failures: parse_errors > 0,
    }
}

} // verus!
