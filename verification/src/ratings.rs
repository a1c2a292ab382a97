//! The rating updater and matchup accumulator: one rating window, batch
//! applied.
//!
//! [`update_ratings`] takes the cursor, the games of the window
//! `[last_update, last_update + RATING_PERIOD)` and every stored rating
//! row, and produces everything one tick writes back: player upserts,
//! idempotent matchup row inserts, matchup counter updates, one pre-update
//! rating snapshot per game, the updated rating rows, and the advanced
//! cursor. Within the window every read uses the pre-window rating, and
//! each entity is updated by one Glicko-2 call over all its games, so the
//! result does not depend on the order of games inside the window.
//!
//! Counter updates that add a win probability name which side's
//! probability to use and which game it comes from; evaluating the
//! logistic itself is floating point and stays with the caller.

use vstd::prelude::*;
use crate::game::{Game, akey, bkey, winner_key, loser_key, valid_game};
use crate::glicko::{RatingNums, unrated_nums, game_result_win, game_result_loss, new_rating};
use crate::schedule::RATING_PERIOD;

verus! {

/// One stored rating row, with the two threshold flags the accumulator
/// reads. The flags restate the row's floating-point deviation and value
/// against MAX_DEVIATION and HIGH_RATING; the caller computes them when
/// loading the row, where the floats live.
pub struct RatedPlayer {
    pub id: i64,
    pub char_id: i64,
    pub win_count: i64,
    pub loss_count: i64,
    pub rating: RatingNums,
    /// Deviation below MAX_DEVIATION: the rating is established.
    pub established: bool,
    /// Value above HIGH_RATING: the player is high-rated on this character.
    pub high_rated: bool,
}

impl RatedPlayer {
    /// A freshly encountered (player, character): the Glicko-2 unrated
    /// defaults. An unrated deviation is far above MAX_DEVIATION and its
    /// value is 0, so the flags are both false.
    pub fn new(id: i64, char_id: i64) -> (p: RatedPlayer)
        ensures
            p.id == id,
            p.char_id == char_id,
            p.win_count == 0,
            p.loss_count == 0,
            !p.established,
            !p.high_rated,
            p.rating.value@ == "0.0"@,
    {
        RatedPlayer {
            id,
            char_id,
            win_count: 0,
            loss_count: 0,
            rating: unrated_nums(),
            established: false,
            high_rated: false,
        }
    }
}

/// The (player, character) key of a rating row.
pub open spec fn rkey(p: RatedPlayer) -> (int, int) {
    (p.id as int, p.char_id as int)
}

pub open spec fn unique_rating_keys(s: Seq<RatedPlayer>) -> bool {
    forall|i: int, j: int| 0 <= i < j < s.len() ==> rkey(s[i]) != rkey(s[j])
}

pub open spec fn has_rkey(s: Seq<RatedPlayer>, k: (int, int)) -> bool {
    exists|i: int| 0 <= i < s.len() && rkey(s[i]) == k
}

pub open spec fn idx_of(s: Seq<RatedPlayer>, k: (int, int)) -> int {
    choose|i: int| 0 <= i < s.len() && rkey(s[i]) == k
}

pub open spec fn entry_of(s: Seq<RatedPlayer>, k: (int, int)) -> RatedPlayer {
    s[idx_of(s, k)]
}

/// Established flag of the pre-window rating of `k`; a key without a row
/// would be created unrated, which is never established.
pub open spec fn est_of(s: Seq<RatedPlayer>, k: (int, int)) -> bool {
    has_rkey(s, k) && entry_of(s, k).established
}

/// High-rated flag of the pre-window rating of `k`.
pub open spec fn high_of(s: Seq<RatedPlayer>, k: (int, int)) -> bool {
    has_rkey(s, k) && entry_of(s, k).high_rated
}

pub open spec fn old_win(s: Seq<RatedPlayer>, k: (int, int)) -> int {
    if has_rkey(s, k) {
        entry_of(s, k).win_count as int
    } else {
        0
    }
}

pub open spec fn old_loss(s: Seq<RatedPlayer>, k: (int, int)) -> int {
    if has_rkey(s, k) {
        entry_of(s, k).loss_count as int
    } else {
        0
    }
}

/// Key `k` plays in one of the games.
pub open spec fn key_appears(games: Seq<Game>, k: (int, int)) -> bool {
    exists|i: int| 0 <= i < games.len() && (akey(#[trigger] games[i]) == k || bkey(games[i]) == k)
}

/// Games of the window won by key `k`.
pub open spec fn wins_in(games: Seq<Game>, k: (int, int)) -> int
    decreases games.len(),
{
    if games.len() == 0 {
        0
    } else {
        wins_in(games.drop_last(), k) + if winner_key(games.last()) == k {
            1int
        } else {
            0int
        }
    }
}

/// Games of the window lost by key `k`.
pub open spec fn losses_in(games: Seq<Game>, k: (int, int)) -> int
    decreases games.len(),
{
    if games.len() == 0 {
        0
    } else {
        losses_in(games.drop_last(), k) + if loser_key(games.last()) == k {
            1int
        } else {
            0int
        }
    }
}

/// Which matchup table a counter update or insert addresses.
#[derive(Debug, Clone, Copy, PartialEq, Eq, Structural)]
pub enum Target {
    Player { id: i64 },
    Global,
    HighRated,
}

/// Whose pre-game win probability weighs an adjusted increment.
#[derive(Debug, Clone, Copy, PartialEq, Eq, Structural)]
pub enum ProbSide {
    PlayerA,
    PlayerB,
}

/// How much a counter update adds: 1 to the real counter, or one side's
/// logistic win probability to the adjusted counter.
#[derive(Debug, Clone, Copy, PartialEq, Eq, Structural)]
pub enum Amount {
    One,
    Probability { side: ProbSide },
}

/// Create-if-absent of one matchup row, with zeroed counters.
#[derive(Debug, Clone, Copy, PartialEq, Eq, Structural)]
pub struct MatchupInsert {
    pub target: Target,
    pub char_id: i64,
    pub opp_char_id: i64,
}

/// One increment of one matchup counter. `game_index` points into the
/// window's game list; a probability amount is the logistic of the two
/// pre-window rating values of that game's sides.
#[derive(Debug, Clone, Copy, PartialEq, Eq, Structural)]
pub struct CounterUpdate {
    pub game_index: usize,
    pub target: Target,
    pub char_id: i64,
    pub opp_char_id: i64,
    /// Wins counter when true, losses counter when false.
    pub is_win: bool,
    pub amount: Amount,
}

pub open spec fn cu(
    i: int,
    target: Target,
    char_id: i64,
    opp_char_id: i64,
    is_win: bool,
    amount: Amount,
) -> CounterUpdate {
    CounterUpdate { game_index: i as usize, target, char_id, opp_char_id, is_win, amount }
}

/// The six idempotent row inserts of one game: both player rows and both
/// orientations of the global and high-rated rows.
pub open spec fn game_inserts(g: Game) -> Seq<MatchupInsert> {
    seq![
        MatchupInsert { target: Target::Player { id: g.id_a }, char_id: g.char_a, opp_char_id: g.char_b },
        MatchupInsert { target: Target::Player { id: g.id_b }, char_id: g.char_b, opp_char_id: g.char_a },
        MatchupInsert { target: Target::Global, char_id: g.char_a, opp_char_id: g.char_b },
        MatchupInsert { target: Target::Global, char_id: g.char_b, opp_char_id: g.char_a },
        MatchupInsert { target: Target::HighRated, char_id: g.char_a, opp_char_id: g.char_b },
        MatchupInsert { target: Target::HighRated, char_id: g.char_b, opp_char_id: g.char_a },
    ]
}

pub open spec fn all_inserts(games: Seq<Game>) -> Seq<MatchupInsert>
    decreases games.len(),
{
    if games.len() == 0 {
        Seq::empty()
    } else {
        all_inserts(games.drop_last()) + game_inserts(games.last())
    }
}

/// The counter updates of one game, exactly as the accumulator applies
/// them. The real player counters always move; adjusted, global and
/// high-rated counters move only when both ratings are established, and
/// the high-rated rows additionally only when both values are high.
///
/// When player B wins, the high-rated rows are weighted with player B's
/// probability where the player and global rows use player A's; the
/// stored aggregates were built that way, so the rule is kept.
pub open spec fn game_counter_updates(
    g: Game,
    i: int,
    est_a: bool,
    est_b: bool,
    high_a: bool,
    high_b: bool,
) -> Seq<CounterUpdate> {
    if g.winner == 1 {
        let base = seq![
            cu(i, Target::Player { id: g.id_a }, g.char_a, g.char_b, true, Amount::One),
            cu(i, Target::Player { id: g.id_b }, g.char_b, g.char_a, false, Amount::One),
        ];
        if est_a && est_b {
            let adj = seq![
                cu(i, Target::Player { id: g.id_a }, g.char_a, g.char_b, true,
                    Amount::Probability { side: ProbSide::PlayerB }),
                cu(i, Target::Player { id: g.id_b }, g.char_b, g.char_a, false,
                    Amount::Probability { side: ProbSide::PlayerB }),
                cu(i, Target::Global, g.char_a, g.char_b, true, Amount::One),
                cu(i, Target::Global, g.char_a, g.char_b, true,
                    Amount::Probability { side: ProbSide::PlayerB }),
                cu(i, Target::Global, g.char_b, g.char_a, false, Amount::One),
                cu(i, Target::Global, g.char_b, g.char_a, false,
                    Amount::Probability { side: ProbSide::PlayerB }),
            ];
            let high = if high_a && high_b {
                seq![
                    cu(i, Target::HighRated, g.char_a, g.char_b, true, Amount::One),
                    cu(i, Target::HighRated, g.char_a, g.char_b, true,
                        Amount::Probability { side: ProbSide::PlayerB }),
                    cu(i, Target::HighRated, g.char_b, g.char_a, false, Amount::One),
                    cu(i, Target::HighRated, g.char_b, g.char_a, false,
                        Amount::Probability { side: ProbSide::PlayerB }),
                ]
            } else {
                Seq::empty()
            };
            base + adj + high
        } else {
            base
        }
    } else {
        let base = seq![
            cu(i, Target::Player { id: g.id_a }, g.char_a, g.char_b, false, Amount::One),
            cu(i, Target::Player { id: g.id_b }, g.char_b, g.char_a, true, Amount::One),
        ];
        if est_a && est_b {
            let adj = seq![
                cu(i, Target::Player { id: g.id_a }, g.char_a, g.char_b, false,
                    Amount::Probability { side: ProbSide::PlayerA }),
                cu(i, Target::Player { id: g.id_b }, g.char_b, g.char_a, true,
                    Amount::Probability { side: ProbSide::PlayerA }),
                cu(i, Target::Global, g.char_b, g.char_a, true, Amount::One),
                cu(i, Target::Global, g.char_b, g.char_a, true,
                    Amount::Probability { side: ProbSide::PlayerA }),
                cu(i, Target::Global, g.char_a, g.char_b, false, Amount::One),
                cu(i, Target::Global, g.char_a, g.char_b, false,
                    Amount::Probability { side: ProbSide::PlayerA }),
            ];
            let high = if high_a && high_b {
                seq![
                    cu(i, Target::HighRated, g.char_b, g.char_a, true, Amount::One),
                    cu(i, Target::HighRated, g.char_b, g.char_a, true,
                        Amount::Probability { side: ProbSide::PlayerB }),
                    cu(i, Target::HighRated, g.char_a, g.char_b, false, Amount::One),
                    cu(i, Target::HighRated, g.char_a, g.char_b, false,
                        Amount::Probability { side: ProbSide::PlayerB }),
                ]
            } else {
                Seq::empty()
            };
            base + adj + high
        } else {
            base
        }
    }
}

/// All counter updates of the window, one game after the other, with the
/// threshold flags of the pre-window ratings.
pub open spec fn all_counter_updates(games: Seq<Game>, ratings: Seq<RatedPlayer>) -> Seq<
    CounterUpdate,
>
    decreases games.len(),
{
    if games.len() == 0 {
        Seq::empty()
    } else {
        let n = games.len() - 1;
        let g = games.last();
        all_counter_updates(games.drop_last(), ratings) + game_counter_updates(
            g,
            n,
            est_of(ratings, akey(g)),
            est_of(ratings, bkey(g)),
            high_of(ratings, akey(g)),
            high_of(ratings, bkey(g)),
        )
    }
}

/// One player upsert: the name and floor most recently seen.
pub struct PlayerUpdate {
    pub id: i64,
    pub name: String,
    pub floor: i64,
}

/// The upsert of a game's side A.
pub open spec fn player_update_a(g: Game) -> PlayerUpdate {
    PlayerUpdate { id: g.id_a, name: g.name_a, floor: g.game_floor }
}

/// The upsert of a game's side B.
pub open spec fn player_update_b(g: Game) -> PlayerUpdate {
    PlayerUpdate { id: g.id_b, name: g.name_b, floor: g.game_floor }
}

/// One pre-update rating snapshot, one per processed game, with the
/// threshold flags that held when the game was processed.
pub struct GameRatingRow {
    pub timestamp: i64,
    pub id_a: i64,
    pub value_a: String,
    pub deviation_a: String,
    pub id_b: i64,
    pub value_b: String,
    pub deviation_b: String,
    pub established_a: bool,
    pub high_rated_a: bool,
    pub established_b: bool,
    pub high_rated_b: bool,
}

/// One updated rating row, to replace the stored one.
pub struct NewRating {
    pub id: i64,
    pub char_id: i64,
    pub win_count: i64,
    pub loss_count: i64,
    pub rating: RatingNums,
}

pub open spec fn nkey(n: NewRating) -> (int, int) {
    (n.id as int, n.char_id as int)
}

pub open spec fn has_nkey(s: Seq<NewRating>, k: (int, int)) -> bool {
    exists|i: int| 0 <= i < s.len() && nkey(s[i]) == k
}

pub open spec fn unique_new_keys(s: Seq<NewRating>) -> bool {
    forall|i: int, j: int| 0 <= i < j < s.len() ==> nkey(s[i]) != nkey(s[j])
}

/// Total games played over a set of rating rows, counted as wins plus
/// losses.
pub open spec fn sum_counts_rated(s: Seq<RatedPlayer>) -> int
    decreases s.len(),
{
    if s.len() == 0 {
        0
    } else {
        sum_counts_rated(s.drop_last()) + s.last().win_count + s.last().loss_count
    }
}

pub open spec fn sum_counts_new(s: Seq<NewRating>) -> int
    decreases s.len(),
{
    if s.len() == 0 {
        0
    } else {
        sum_counts_new(s.drop_last()) + s.last().win_count + s.last().loss_count
    }
}

pub open spec fn sum_i64(s: Seq<i64>) -> int
    decreases s.len(),
{
    if s.len() == 0 {
        0
    } else {
        sum_i64(s.drop_last()) + s.last()
    }
}

/// Everything one window tick writes back to the store.
pub struct WindowOutcome {
    /// The advanced cursor: `last_update + RATING_PERIOD`.
    pub next_last_update: i64,
    /// Two upserts per game, side A then side B, in game order.
    pub player_updates: Vec<PlayerUpdate>,
    /// Six idempotent matchup row inserts per game.
    pub matchup_inserts: Vec<MatchupInsert>,
    /// The matchup counter increments, in game order.
    pub counter_updates: Vec<CounterUpdate>,
    /// One pre-update snapshot per game, in game order.
    pub game_ratings: Vec<GameRatingRow>,
    /// The updated rating table: the input rows in order, then one row
    /// per freshly encountered key in order of first appearance.
    pub new_ratings: Vec<NewRating>,
}

proof fn lemma_sum_i64_push(s: Seq<i64>, v: i64)
    ensures
        sum_i64(s.push(v)) == sum_i64(s) + v,
{
    assert(s.push(v).drop_last() =~= s);
}

proof fn lemma_sum_i64_update(s: Seq<i64>, j: int, v: i64)
    requires
        0 <= j < s.len(),
    ensures
        sum_i64(s.update(j, v)) == sum_i64(s) - s[j] + v,
    decreases s.len(),
{
    if j == s.len() - 1 {
        assert(s.update(j, v).drop_last() =~= s.drop_last());
        assert(s.update(j, v).last() == v);
    } else {
        assert(s.update(j, v).drop_last() =~= s.drop_last().update(j, v));
        assert(s.update(j, v).last() == s.last());
        lemma_sum_i64_update(s.drop_last(), j, v);
    }
}

proof fn lemma_sum_counts_rated_skip(s: Seq<RatedPlayer>, n: int)
    requires
        0 <= n < s.len(),
    ensures
        sum_counts_rated(s.take(n + 1)) == sum_counts_rated(s.take(n)) + s[n].win_count
            + s[n].loss_count,
{
    assert(s.take(n + 1).drop_last() =~= s.take(n));
    assert(s.take(n + 1).last() == s[n]);
}

proof fn lemma_counts_in_bounds(games: Seq<Game>, k: (int, int))
    ensures
        0 <= wins_in(games, k) <= games.len(),
        0 <= losses_in(games, k) <= games.len(),
    decreases games.len(),
{
    if games.len() > 0 {
        lemma_counts_in_bounds(games.drop_last(), k);
    }
}

proof fn lemma_counts_absent(games: Seq<Game>, k: (int, int))
    requires
        !key_appears(games, k),
    ensures
        wins_in(games, k) == 0,
        losses_in(games, k) == 0,
    decreases games.len(),
{
    if games.len() > 0 {
        assert forall|i: int| 0 <= i < games.drop_last().len() implies !(akey(
            #[trigger] games.drop_last()[i],
        ) == k || bkey(games.drop_last()[i]) == k) by {
            assert(games.drop_last()[i] == games[i]);
            assert(!(akey(games[i]) == k || bkey(games[i]) == k));
        }
        lemma_counts_absent(games.drop_last(), k);
        let n = games.len() - 1;
        assert(games.last() == games[n]);
        assert(!(akey(games[n]) == k || bkey(games[n]) == k));
    }
}

proof fn lemma_counts_take_succ(games: Seq<Game>, i: int, k: (int, int))
    requires
        0 <= i < games.len(),
    ensures
        wins_in(games.take(i + 1), k) == wins_in(games.take(i), k) + if winner_key(games[i]) == k {
            1int
        } else {
            0int
        },
        losses_in(games.take(i + 1), k) == losses_in(games.take(i), k) + if loser_key(games[i])
            == k {
            1int
        } else {
            0int
        },
{
    assert(games.take(i + 1).drop_last() =~= games.take(i));
    assert(games.take(i + 1).last() == games[i]);
}

proof fn lemma_key_appears_take_succ(games: Seq<Game>, i: int, k: (int, int))
    requires
        0 <= i < games.len(),
    ensures
        key_appears(games.take(i + 1), k) <==> (key_appears(games.take(i), k) || akey(games[i])
            == k || bkey(games[i]) == k),
{
    let t0 = games.take(i);
    let t1 = games.take(i + 1);
    if key_appears(t0, k) {
        let j = choose|j: int| 0 <= j < t0.len() && (akey(#[trigger] t0[j]) == k || bkey(t0[j]) == k);
        assert(t1[j] == t0[j]);
        assert(akey(t1[j]) == k || bkey(t1[j]) == k);
    }
    if akey(games[i]) == k || bkey(games[i]) == k {
        assert(t1[i] == games[i]);
        assert(akey(t1[i]) == k || bkey(t1[i]) == k);
    }
    if key_appears(t1, k) {
        let j = choose|j: int| 0 <= j < t1.len() && (akey(#[trigger] t1[j]) == k || bkey(t1[j]) == k);
        if j < i {
            assert(t0[j] == t1[j]);
            assert(akey(t0[j]) == k || bkey(t0[j]) == k);
        } else {
            assert(t1[j] == games[i]);
        }
    }
}

/// In a table with unique keys, the row found for the key of row `j` is
/// row `j` itself.
proof fn lemma_idx_of_self(s: Seq<RatedPlayer>, j: int)
    requires
        unique_rating_keys(s),
        0 <= j < s.len(),
    ensures
        has_rkey(s, rkey(s[j])),
        idx_of(s, rkey(s[j])) == j,
        entry_of(s, rkey(s[j])) == s[j],
{
    assert(0 <= j < s.len() && rkey(s[j]) == rkey(s[j]));
    let i = idx_of(s, rkey(s[j]));
    assert(0 <= i < s.len() && rkey(s[i]) == rkey(s[j]));
    if i != j {
        if i < j {
            assert(rkey(s[i]) != rkey(s[j]));
        } else {
            assert(rkey(s[j]) != rkey(s[i]));
        }
    }
}

pub open spec fn has_pair(ids: Seq<i64>, chars: Seq<i64>, k: (int, int)) -> bool {
    exists|j: int| 0 <= j < ids.len() && (#[trigger] ids[j]) == k.0 && chars[j] == k.1
}

fn find_pair(ids: &Vec<i64>, chars: &Vec<i64>, id: i64, ch: i64) -> (r: Option<usize>)
    requires
        ids@.len() == chars@.len(),
    ensures
        match r {
            Some(j) => j < ids@.len() && ids@[j as int] == id && chars@[j as int] == ch,
            None => !has_pair(ids@, chars@, (id as int, ch as int)),
        },
{
    let mut j: usize = 0;
    while j < ids.len()
        invariant
            ids@.len() == chars@.len(),
            0 <= j <= ids@.len(),
            forall|t: int| 0 <= t < j ==> !((#[trigger] ids@[t]) == id && chars@[t] == ch),
        decreases ids@.len() - j,
    {
        if ids[j] == id && chars[j] == ch {
            return Some(j);
        }
        j = j + 1;
    }
    None
}

fn push_player_updates(out: &mut Vec<PlayerUpdate>, g: &Game)
    ensures
        final(out)@ == old(out)@.push(player_update_a(*g)).push(player_update_b(*g)),
{
    out.push(PlayerUpdate { id: g.id_a, name: g.name_a.clone(), floor: g.game_floor });
    out.push(PlayerUpdate { id: g.id_b, name: g.name_b.clone(), floor: g.game_floor });
}

fn push_game_inserts(out: &mut Vec<MatchupInsert>, g: &Game)
    ensures
        final(out)@ == old(out)@ + game_inserts(*g),
{
    out.push(MatchupInsert { target: Target::Player { id: g.id_a }, char_id: g.char_a, opp_char_id: g.char_b });
    out.push(MatchupInsert { target: Target::Player { id: g.id_b }, char_id: g.char_b, opp_char_id: g.char_a });
    out.push(MatchupInsert { target: Target::Global, char_id: g.char_a, opp_char_id: g.char_b });
    out.push(MatchupInsert { target: Target::Global, char_id: g.char_b, opp_char_id: g.char_a });
    out.push(MatchupInsert { target: Target::HighRated, char_id: g.char_a, opp_char_id: g.char_b });
    out.push(MatchupInsert { target: Target::HighRated, char_id: g.char_b, opp_char_id: g.char_a });
    assert(out@ =~= old(out)@ + game_inserts(*g));
}

fn push_counter_updates(
    out: &mut Vec<CounterUpdate>,
    g: &Game,
    i: usize,
    est_a: bool,
    est_b: bool,
    high_a: bool,
    high_b: bool,
)
    requires
        valid_game(*g),
    ensures
        final(out)@ == old(out)@ + game_counter_updates(*g, i as int, est_a, est_b, high_a, high_b),
{
    if g.winner == 1 {
        out.push(CounterUpdate { game_index: i, target: Target::Player { id: g.id_a }, char_id: g.char_a, opp_char_id: g.char_b, is_win: true, amount: Amount::One });
        out.push(CounterUpdate { game_index: i, target: Target::Player { id: g.id_b }, char_id: g.char_b, opp_char_id: g.char_a, is_win: false, amount: Amount::One });
        if est_a && est_b {
            out.push(CounterUpdate { game_index: i, target: Target::Player { id: g.id_a }, char_id: g.char_a, opp_char_id: g.char_b, is_win: true, amount: Amount::Probability { side: ProbSide::PlayerB } });
            out.push(CounterUpdate { game_index: i, target: Target::Player { id: g.id_b }, char_id: g.char_b, opp_char_id: g.char_a, is_win: false, amount: Amount::Probability { side: ProbSide::PlayerB } });
            out.push(CounterUpdate { game_index: i, target: Target::Global, char_id: g.char_a, opp_char_id: g.char_b, is_win: true, amount: Amount::One });
            out.push(CounterUpdate { game_index: i, target: Target::Global, char_id: g.char_a, opp_char_id: g.char_b, is_win: true, amount: Amount::Probability { side: ProbSide::PlayerB } });
            out.push(CounterUpdate { game_index: i, target: Target::Global, char_id: g.char_b, opp_char_id: g.char_a, is_win: false, amount: Amount::One });
            out.push(CounterUpdate { game_index: i, target: Target::Global, char_id: g.char_b, opp_char_id: g.char_a, is_win: false, amount: Amount::Probability { side: ProbSide::PlayerB } });
            if high_a && high_b {
                out.push(CounterUpdate { game_index: i, target: Target::HighRated, char_id: g.char_a, opp_char_id: g.char_b, is_win: true, amount: Amount::One });
                out.push(CounterUpdate { game_index: i, target: Target::HighRated, char_id: g.char_a, opp_char_id: g.char_b, is_win: true, amount: Amount::Probability { side: ProbSide::PlayerB } });
                out.push(CounterUpdate { game_index: i, target: Target::HighRated, char_id: g.char_b, opp_char_id: g.char_a, is_win: false, amount: Amount::One });
                out.push(CounterUpdate { game_index: i, target: Target::HighRated, char_id: g.char_b, opp_char_id: g.char_a, is_win: false, amount: Amount::Probability { side: ProbSide::PlayerB } });
            }
        }
    } else {
        out.push(CounterUpdate { game_index: i, target: Target::Player { id: g.id_a }, char_id: g.char_a, opp_char_id: g.char_b, is_win: false, amount: Amount::One });
        out.push(CounterUpdate { game_index: i, target: Target::Player { id: g.id_b }, char_id: g.char_b, opp_char_id: g.char_a, is_win: true, amount: Amount::One });
        if est_a && est_b {
            out.push(CounterUpdate { game_index: i, target: Target::Player { id: g.id_a }, char_id: g.char_a, opp_char_id: g.char_b, is_win: false, amount: Amount::Probability { side: ProbSide::PlayerA } });
            out.push(CounterUpdate { game_index: i, target: Target::Player { id: g.id_b }, char_id: g.char_b, opp_char_id: g.char_a, is_win: true, amount: Amount::Probability { side: ProbSide::PlayerA } });
            out.push(CounterUpdate { game_index: i, target: Target::Global, char_id: g.char_b, opp_char_id: g.char_a, is_win: true, amount: Amount::One });
            out.push(CounterUpdate { game_index: i, target: Target::Global, char_id: g.char_b, opp_char_id: g.char_a, is_win: true, amount: Amount::Probability { side: ProbSide::PlayerA } });
            out.push(CounterUpdate { game_index: i, target: Target::Global, char_id: g.char_a, opp_char_id: g.char_b, is_win: false, amount: Amount::One });
            out.push(CounterUpdate { game_index: i, target: Target::Global, char_id: g.char_a, opp_char_id: g.char_b, is_win: false, amount: Amount::Probability { side: ProbSide::PlayerA } });
            if high_a && high_b {
                out.push(CounterUpdate { game_index: i, target: Target::HighRated, char_id: g.char_b, opp_char_id: g.char_a, is_win: true, amount: Amount::One });
                out.push(CounterUpdate { game_index: i, target: Target::HighRated, char_id: g.char_b, opp_char_id: g.char_a, is_win: true, amount: Amount::Probability { side: ProbSide::PlayerB } });
                out.push(CounterUpdate { game_index: i, target: Target::HighRated, char_id: g.char_a, opp_char_id: g.char_b, is_win: false, amount: Amount::One });
                out.push(CounterUpdate { game_index: i, target: Target::HighRated, char_id: g.char_a, opp_char_id: g.char_b, is_win: false, amount: Amount::Probability { side: ProbSide::PlayerB } });
            }
        }
    }
    assert(out@ =~= old(out)@ + game_counter_updates(*g, i as int, est_a, est_b, high_a, high_b));
}

/// Row `j` mirrors stored row `j`: same key, numbers and flags.
pub open spec fn row_fixed_ok(
    orig: Seq<RatedPlayer>,
    ids: Seq<i64>,
    chars: Seq<i64>,
    nums: Seq<RatingNums>,
    est: Seq<bool>,
    high: Seq<bool>,
    j: int,
) -> bool {
    &&& ids[j] == orig[j].id
    &&& chars[j] == orig[j].char_id
    &&& nums[j] == orig[j].rating
    &&& est[j] == orig[j].established
    &&& high[j] == orig[j].high_rated
}

/// Row `j` was created during this window: unrated flags, a key the
/// stored table does not hold, and a key that plays in the window.
pub open spec fn row_fresh_ok(
    orig: Seq<RatedPlayer>,
    games: Seq<Game>,
    ids: Seq<i64>,
    chars: Seq<i64>,
    est: Seq<bool>,
    high: Seq<bool>,
    j: int,
) -> bool {
    &&& est[j] == false
    &&& high[j] == false
    &&& !has_rkey(orig, (ids[j] as int, chars[j] as int))
    &&& key_appears(games, (ids[j] as int, chars[j] as int))
}

/// Row `j`'s counters are the stored counts plus the games of `prefix`.
pub open spec fn row_counts_ok(
    orig: Seq<RatedPlayer>,
    prefix: Seq<Game>,
    ids: Seq<i64>,
    chars: Seq<i64>,
    wins: Seq<i64>,
    losses: Seq<i64>,
    j: int,
) -> bool {
    &&& wins[j] == old_win(orig, (ids[j] as int, chars[j] as int)) + wins_in(
        prefix,
        (ids[j] as int, chars[j] as int),
    )
    &&& losses[j] == old_loss(orig, (ids[j] as int, chars[j] as int)) + losses_in(
        prefix,
        (ids[j] as int, chars[j] as int),
    )
}

/// The in-memory rating table while a window is processed: parallel
/// columns, the stored rows first in order with their fixed fields, fresh
/// unrated rows behind them, every stored or already-played key present,
/// keys unique, and counters ahead of the stored ones by exactly the
/// first `done` games of the window.
pub open spec fn columns_inv(
    orig: Seq<RatedPlayer>,
    games: Seq<Game>,
    done: int,
    ids: Seq<i64>,
    chars: Seq<i64>,
    wins: Seq<i64>,
    losses: Seq<i64>,
    nums: Seq<RatingNums>,
    est: Seq<bool>,
    high: Seq<bool>,
    outs_len: int,
) -> bool {
    &&& chars.len() == ids.len()
    &&& wins.len() == ids.len()
    &&& losses.len() == ids.len()
    &&& nums.len() == ids.len()
    &&& est.len() == ids.len()
    &&& high.len() == ids.len()
    &&& outs_len == ids.len()
    &&& orig.len() <= ids.len()
    &&& forall|j: int| 0 <= j < orig.len() ==> #[trigger] row_fixed_ok(
        orig,
        ids,
        chars,
        nums,
        est,
        high,
        j,
    )
    &&& forall|j: int| orig.len() <= j < ids.len() ==> #[trigger] row_fresh_ok(
        orig,
        games,
        ids,
        chars,
        est,
        high,
        j,
    )
    &&& forall|j1: int, j2: int| 0 <= j1 < j2 < ids.len() ==> !((#[trigger] ids[j1]) == (
    #[trigger] ids[j2]) && chars[j1] == chars[j2])
    &&& forall|k: (int, int)| has_rkey(orig, k) ==> #[trigger] has_pair(ids, chars, k)
    &&& forall|k: (int, int)| key_appears(games.take(done), k) ==> #[trigger] has_pair(
        ids,
        chars,
        k,
    )
    &&& forall|j: int| 0 <= j < ids.len() ==> #[trigger] row_counts_ok(
        orig,
        games.take(done),
        ids,
        chars,
        wins,
        losses,
        j,
    )
    &&& sum_i64(wins) + sum_i64(losses) == sum_counts_rated(orig) + 2 * done
}

/// Appending a fresh unrated row for a key of game `done` that has no row
/// yet keeps the in-memory table well formed.
proof fn lemma_columns_create(
    orig: Seq<RatedPlayer>,
    games: Seq<Game>,
    done: int,
    ids: Seq<i64>,
    chars: Seq<i64>,
    wins: Seq<i64>,
    losses: Seq<i64>,
    nums: Seq<RatingNums>,
    est: Seq<bool>,
    high: Seq<bool>,
    outs_len: int,
    id: i64,
    ch: i64,
    num: RatingNums,
)
    requires
        columns_inv(orig, games, done, ids, chars, wins, losses, nums, est, high, outs_len),
        0 <= done < games.len(),
        (id as int, ch as int) == akey(games[done]) || (id as int, ch as int) == bkey(games[done]),
        !has_pair(ids, chars, (id as int, ch as int)),
    ensures
        columns_inv(
            orig,
            games,
            done,
            ids.push(id),
            chars.push(ch),
            wins.push(0),
            losses.push(0),
            nums.push(num),
            est.push(false),
            high.push(false),
            outs_len + 1,
        ),
        !has_rkey(orig, (id as int, ch as int)),
{
    let k = (id as int, ch as int);
    let n = ids.len() as int;
    assert(!has_rkey(orig, k) && !key_appears(games.take(done), k));
    assert(key_appears(games, k));
    lemma_counts_absent(games.take(done), k);
    lemma_sum_i64_push(wins, 0);
    lemma_sum_i64_push(losses, 0);
    let ids1 = ids.push(id);
    let chars1 = chars.push(ch);
    assert(ids1[n] == id && chars1[n] == ch);
    assert forall|t: int| 0 <= t < orig.len() implies #[trigger] row_fixed_ok(
        orig,
        ids1,
        chars1,
        nums.push(num),
        est.push(false),
        high.push(false),
        t,
    ) by {
        assert(row_fixed_ok(orig, ids, chars, nums, est, high, t));
        assert(ids1[t] == ids[t] && chars1[t] == chars[t] && nums.push(num)[t] == nums[t]
            && est.push(false)[t] == est[t] && high.push(false)[t] == high[t]);
    }
    assert forall|k2: (int, int)| has_rkey(orig, k2) implies #[trigger] has_pair(
        ids1,
        chars1,
        k2,
    ) by {
        assert(has_pair(ids, chars, k2));
        let t = choose|t: int| 0 <= t < ids.len() && (#[trigger] ids[t]) == k2.0 && chars[t]
            == k2.1;
        assert(ids1[t] == k2.0 && chars1[t] == k2.1);
    }
    assert forall|k2: (int, int)| key_appears(games.take(done), k2) implies #[trigger] has_pair(
        ids1,
        chars1,
        k2,
    ) by {
        assert(has_pair(ids, chars, k2));
        let t = choose|t: int| 0 <= t < ids.len() && (#[trigger] ids[t]) == k2.0 && chars[t]
            == k2.1;
        assert(ids1[t] == k2.0 && chars1[t] == k2.1);
    }
    assert forall|t: int| orig.len() <= t < ids1.len() implies #[trigger] row_fresh_ok(
        orig,
        games,
        ids1,
        chars1,
        est.push(false),
        high.push(false),
        t,
    ) by {
        if t < n {
            assert(row_fresh_ok(orig, games, ids, chars, est, high, t));
            assert(ids1[t] == ids[t] && chars1[t] == chars[t]);
            assert(est.push(false)[t] == est[t] && high.push(false)[t] == high[t]);
        } else {
            assert((ids1[t] as int, chars1[t] as int) == k);
        }
    }
    assert forall|j1: int, j2: int| 0 <= j1 < j2 < ids1.len() implies !((#[trigger] ids1[j1]) == (
    #[trigger] ids1[j2]) && chars1[j1] == chars1[j2]) by {
        if j2 < n {
            assert(ids1[j1] == ids[j1] && ids1[j2] == ids[j2] && chars1[j1] == chars[j1]
                && chars1[j2] == chars[j2]);
        } else {
            assert(ids1[j1] == ids[j1] && chars1[j1] == chars[j1]);
            assert(!(ids[j1] == id && chars[j1] == ch));
        }
    }
    assert forall|t: int| 0 <= t < ids1.len() implies #[trigger] row_counts_ok(
        orig,
        games.take(done),
        ids1,
        chars1,
        wins.push(0),
        losses.push(0),
        t,
    ) by {
        if t < n {
            assert(row_counts_ok(orig, games.take(done), ids, chars, wins, losses, t));
            assert(ids1[t] == ids[t] && chars1[t] == chars[t]);
            assert(wins.push(0)[t] == wins[t] && losses.push(0)[t] == losses[t]);
        } else {
            assert((ids1[t] as int, chars1[t] as int) == k);
            assert(wins.push(0)[t] == 0 && losses.push(0)[t] == 0);
            assert(old_win(orig, k) == 0 && old_loss(orig, k) == 0);
        }
    }
}

/// Counting one more game for the winner's and the loser's rows advances
/// the in-memory table from the first `done` games to the first
/// `done + 1`.
proof fn lemma_columns_bump(
    orig: Seq<RatedPlayer>,
    games: Seq<Game>,
    done: int,
    ids: Seq<i64>,
    chars: Seq<i64>,
    wins: Seq<i64>,
    losses: Seq<i64>,
    nums: Seq<RatingNums>,
    est: Seq<bool>,
    high: Seq<bool>,
    outs_len: int,
    jw: int,
    jl: int,
)
    requires
        columns_inv(orig, games, done, ids, chars, wins, losses, nums, est, high, outs_len),
        0 <= done < games.len(),
        0 <= jw < ids.len(),
        0 <= jl < ids.len(),
        wins[jw] < i64::MAX,
        losses[jl] < i64::MAX,
        ((ids[jw]) as int, (chars[jw]) as int) == winner_key(games[done]),
        ((ids[jl]) as int, (chars[jl]) as int) == loser_key(games[done]),
        has_pair(ids, chars, akey(games[done])),
        has_pair(ids, chars, bkey(games[done])),
    ensures
        columns_inv(
            orig,
            games,
            done + 1,
            ids,
            chars,
            wins.update(jw, (wins[jw] + 1) as i64),
            losses.update(jl, (losses[jl] + 1) as i64),
            nums,
            est,
            high,
            outs_len,
        ),
{
    let gi = games[done];
    let next = games.take(done + 1);
    let wins1 = wins.update(jw, (wins[jw] + 1) as i64);
    let losses1 = losses.update(jl, (losses[jl] + 1) as i64);
    assert(next.drop_last() =~= games.take(done));
    assert(next.last() == gi);
    assert(wins1.len() == ids.len() && losses1.len() == ids.len());
    lemma_counts_in_bounds(games.take(done), (ids[jw] as int, chars[jw] as int));
    lemma_sum_i64_update(wins, jw, (wins[jw] + 1) as i64);
    lemma_sum_i64_update(losses, jl, (losses[jl] + 1) as i64);
    assert forall|k: (int, int)| key_appears(next, k) implies #[trigger] has_pair(
        ids,
        chars,
        k,
    ) by {
        lemma_key_appears_take_succ(games, done, k);
    }
    assert forall|j: int| 0 <= j < ids.len() implies #[trigger] row_counts_ok(
        orig,
        next,
        ids,
        chars,
        wins1,
        losses1,
        j,
    ) by {
        let k = (ids[j] as int, chars[j] as int);
        lemma_counts_take_succ(games, done, k);
        assert(row_counts_ok(orig, games.take(done), ids, chars, wins, losses, j));
        if j != jw {
            assert(!((ids[j]) == ids[jw] && chars[j] == chars[jw]));
            assert(winner_key(gi) != k);
        }
        if j != jl {
            assert(!((ids[j]) == ids[jl] && chars[j] == chars[jl]));
            assert(loser_key(gi) != k);
        }
    }
}

/// Finds the row of `(id, ch)`, creating a fresh unrated row when the key
/// has none yet. `(id, ch)` must be a key of game `done`, the one being
/// processed, so that a created row belongs to a played key.
fn locate(
    ids: &mut Vec<i64>,
    chars: &mut Vec<i64>,
    wins: &mut Vec<i64>,
    losses: &mut Vec<i64>,
    nums: &mut Vec<RatingNums>,
    est: &mut Vec<bool>,
    high: &mut Vec<bool>,
    outs: &mut Vec<Vec<glicko2::GameResult>>,
    id: i64,
    ch: i64,
    Ghost(orig): Ghost<Seq<RatedPlayer>>,
    Ghost(games): Ghost<Seq<Game>>,
    Ghost(done): Ghost<int>,
) -> (j: usize)
    requires
        columns_inv(
            orig,
            games,
            done,
            old(ids)@,
            old(chars)@,
            old(wins)@,
            old(losses)@,
            old(nums)@,
            old(est)@,
            old(high)@,
            old(outs)@.len() as int,
        ),
        unique_rating_keys(orig),
        0 <= done < games.len(),
        (id as int, ch as int) == akey(games[done]) || (id as int, ch as int) == bkey(games[done]),
    ensures
        columns_inv(
            orig,
            games,
            done,
            final(ids)@,
            final(chars)@,
            final(wins)@,
            final(losses)@,
            final(nums)@,
            final(est)@,
            final(high)@,
            final(outs)@.len() as int,
        ),
        old(ids)@.len() <= final(ids)@.len(),
        forall|t: int| 0 <= t < old(ids)@.len() ==> final(ids)@[t] == (#[trigger] old(ids)@[t])
            && final(chars)@[t] == old(chars)@[t] && final(wins)@[t] == old(wins)@[t]
            && final(losses)@[t] == old(losses)@[t] && final(nums)@[t] == old(nums)@[t]
            && final(est)@[t] == old(est)@[t] && final(high)@[t] == old(high)@[t],
        j < final(ids)@.len(),
        final(ids)@[j as int] == id && final(chars)@[j as int] == ch,
        final(est)@[j as int] == est_of(orig, (id as int, ch as int)),
        final(high)@[j as int] == high_of(orig, (id as int, ch as int)),
        has_rkey(orig, (id as int, ch as int)) ==> final(nums)@[j as int] == entry_of(
            orig,
            (id as int, ch as int),
        ).rating,
        has_pair(final(ids)@, final(chars)@, (id as int, ch as int)),
{
    match find_pair(ids, chars, id, ch) {
        Some(j) => {
            proof {
                let k = (id as int, ch as int);
                if (j as int) < orig.len() {
                    assert(row_fixed_ok(orig, ids@, chars@, nums@, est@, high@, j as int));
                    lemma_idx_of_self(orig, j as int);
                } else {
                    assert(row_fresh_ok(orig, games, ids@, chars@, est@, high@, j as int));
                }
                assert(has_pair(ids@, chars@, k));
            }
            j
        },
        None => {
            let ghost k = (id as int, ch as int);
            let ghost ids0 = ids@;
            let ghost chars0 = chars@;
            let fresh_nums = unrated_nums();
            proof {
                lemma_columns_create(
                    orig,
                    games,
                    done,
                    ids@,
                    chars@,
                    wins@,
                    losses@,
                    nums@,
                    est@,
                    high@,
                    outs@.len() as int,
                    id,
                    ch,
                    fresh_nums,
                );
            }
            ids.push(id);
            chars.push(ch);
            wins.push(0);
            losses.push(0);
            nums.push(fresh_nums);
            est.push(false);
            high.push(false);
            outs.push(Vec::new());
            let j = ids.len() - 1;
            proof {
                assert(ids@[j as int] == id && chars@[j as int] == ch);
                assert(has_pair(ids@, chars@, k));
                assert(!has_rkey(orig, k));
            }
            j
        },
    }
}

/// Moves the real counters for game `done`: one win for the winner's row,
/// one loss for the loser's, advancing the columns from the first `done`
/// games to the first `done + 1`.
fn bump_counts(
    ids: &Vec<i64>,
    chars: &Vec<i64>,
    wins: &mut Vec<i64>,
    losses: &mut Vec<i64>,
    jw: usize,
    jl: usize,
    Ghost(orig): Ghost<Seq<RatedPlayer>>,
    Ghost(games): Ghost<Seq<Game>>,
    Ghost(done): Ghost<int>,
    Ghost(nums_v): Ghost<Seq<RatingNums>>,
    Ghost(est_v): Ghost<Seq<bool>>,
    Ghost(high_v): Ghost<Seq<bool>>,
    Ghost(outs_len): Ghost<int>,
)
    requires
        columns_inv(
            orig,
            games,
            done,
            ids@,
            chars@,
            old(wins)@,
            old(losses)@,
            nums_v,
            est_v,
            high_v,
            outs_len,
        ),
        unique_rating_keys(orig),
        0 <= done < games.len(),
        games.len() <= i64::MAX,
        forall|t: int| 0 <= t < orig.len() ==> 0 <= (#[trigger] orig[t]).win_count
            && orig[t].win_count + games.len() <= i64::MAX,
        forall|t: int| 0 <= t < orig.len() ==> 0 <= (#[trigger] orig[t]).loss_count
            && orig[t].loss_count + games.len() <= i64::MAX,
        jw < ids@.len(),
        jl < ids@.len(),
        ((ids@[jw as int]) as int, (chars@[jw as int]) as int) == winner_key(games[done]),
        ((ids@[jl as int]) as int, (chars@[jl as int]) as int) == loser_key(games[done]),
        has_pair(ids@, chars@, akey(games[done])),
        has_pair(ids@, chars@, bkey(games[done])),
    ensures
        columns_inv(
            orig,
            games,
            done + 1,
            ids@,
            chars@,
            final(wins)@,
            final(losses)@,
            nums_v,
            est_v,
            high_v,
            outs_len,
        ),
{
    proof {
        let kw = (ids@[jw as int] as int, chars@[jw as int] as int);
        let kl = (ids@[jl as int] as int, chars@[jl as int] as int);
        lemma_counts_in_bounds(games.take(done), kw);
        lemma_counts_in_bounds(games.take(done), kl);
        if has_rkey(orig, kw) {
            let t = idx_of(orig, kw);
            assert(0 <= t < orig.len() && orig[t].win_count + games.len() <= i64::MAX);
        }
        if has_rkey(orig, kl) {
            let t = idx_of(orig, kl);
            assert(0 <= t < orig.len() && orig[t].loss_count + games.len() <= i64::MAX);
        }
        assert(games.take(done).len() == done);
        assert(row_counts_ok(orig, games.take(done), ids@, chars@, wins@, losses@, jw as int));
        assert(row_counts_ok(orig, games.take(done), ids@, chars@, wins@, losses@, jl as int));
        assert(wins@[jw as int] == old_win(orig, kw) + wins_in(games.take(done), kw));
        assert(losses@[jl as int] == old_loss(orig, kl) + losses_in(games.take(done), kl));
        assert(wins@[jw as int] < i64::MAX && losses@[jl as int] < i64::MAX);
        lemma_columns_bump(
            orig,
            games,
            done,
            ids@,
            chars@,
            wins@,
            losses@,
            nums_v,
            est_v,
            high_v,
            outs_len,
            jw as int,
            jl as int,
        );
    }
    let w = wins[jw];
    wins.set(jw, w + 1);
    let l = losses[jl];
    losses.set(jl, l + 1);
}

/// Applies one rating window.
///
/// `games` are the games of `[last_update, last_update + RATING_PERIOD)`,
/// in any order; `ratings` is the whole stored rating table. The result
/// holds every write of the tick. Keys without a stored row are created
/// unrated; every key, played or not, is put through one Glicko-2 update
/// over all its games of the window (the no-game rule grows the deviation
/// of idle ratings), and win/loss counters grow by exactly the games won
/// and lost, so the new table accounts for every processed game exactly
/// once.
#[verifier::rlimit(100)]
pub fn update_ratings(last_update: i64, games: &Vec<Game>, ratings: Vec<RatedPlayer>) -> (r:
    WindowOutcome)
    requires
        0 <= last_update,
        last_update <= i64::MAX - RATING_PERIOD,
        games@.len() <= i64::MAX,
        forall|i: int| 0 <= i < games@.len() ==> valid_game(#[trigger] games@[i]),
        forall|i: int| 0 <= i < games@.len() ==> last_update <= (#[trigger] games@[i]).timestamp
            < last_update + RATING_PERIOD,
        unique_rating_keys(ratings@),
        forall|i: int| 0 <= i < ratings@.len() ==> 0 <= (#[trigger] ratings@[i]).win_count
            && ratings@[i].win_count + games@.len() <= i64::MAX,
        forall|i: int| 0 <= i < ratings@.len() ==> 0 <= (#[trigger] ratings@[i]).loss_count
            && ratings@[i].loss_count + games@.len() <= i64::MAX,
    ensures
        r.next_last_update == last_update + RATING_PERIOD,
        r.player_updates@.len() == 2 * games@.len(),
        forall|i: int| 0 <= i < games@.len() ==> r.player_updates@[2 * i] == player_update_a(
            #[trigger] games@[i],
        ) && r.player_updates@[2 * i + 1] == player_update_b(games@[i]),
        r.matchup_inserts@ == all_inserts(games@),
        r.counter_updates@ == all_counter_updates(games@, ratings@),
        r.game_ratings@.len() == games@.len(),
        forall|i: int| 0 <= i < games@.len() ==> {
            let row = #[trigger] r.game_ratings@[i];
            let g = games@[i];
            &&& row.timestamp == g.timestamp
            &&& row.id_a == g.id_a
            &&& row.id_b == g.id_b
            &&& row.established_a == est_of(ratings@, akey(g))
            &&& row.high_rated_a == high_of(ratings@, akey(g))
            &&& row.established_b == est_of(ratings@, bkey(g))
            &&& row.high_rated_b == high_of(ratings@, bkey(g))
            &&& has_rkey(ratings@, akey(g)) ==> row.value_a == entry_of(ratings@, akey(g)).rating.value
                && row.deviation_a == entry_of(ratings@, akey(g)).rating.deviation
            &&& has_rkey(ratings@, bkey(g)) ==> row.value_b == entry_of(ratings@, bkey(g)).rating.value
                && row.deviation_b == entry_of(ratings@, bkey(g)).rating.deviation
        },
        unique_new_keys(r.new_ratings@),
        r.new_ratings@.len() >= ratings@.len(),
        forall|j: int| 0 <= j < ratings@.len() ==> nkey(#[trigger] r.new_ratings@[j]) == rkey(
            ratings@[j],
        ),
        forall|k: (int, int)| has_nkey(r.new_ratings@, k) <==> (has_rkey(ratings@, k)
            || key_appears(games@, k)),
        forall|j: int| 0 <= j < r.new_ratings@.len() ==> (#[trigger] r.new_ratings@[j]).win_count
            == old_win(ratings@, nkey(r.new_ratings@[j])) + wins_in(games@, nkey(r.new_ratings@[j])),
        forall|j: int| 0 <= j < r.new_ratings@.len() ==> (#[trigger] r.new_ratings@[j]).loss_count
            == old_loss(ratings@, nkey(r.new_ratings@[j])) + losses_in(
            games@,
            nkey(r.new_ratings@[j]),
        ),
        forall|j: int| 0 <= j < r.new_ratings@.len() ==> (#[trigger] r.new_ratings@[j]).win_count
            >= 0 && r.new_ratings@[j].loss_count >= 0,
        sum_counts_new(r.new_ratings@) == sum_counts_rated(ratings@) + 2 * games@.len(),
{
    let ghost orig = ratings@;
    let n_orig: usize = ratings.len();

    // Unpack the stored table into parallel columns: the counters change
    // per game, the numbers and flags stay fixed until the final update.
    let mut ratings = ratings;
    let mut ids: Vec<i64> = Vec::new();
    let mut chars: Vec<i64> = Vec::new();
    let mut wins: Vec<i64> = Vec::new();
    let mut losses: Vec<i64> = Vec::new();
    let mut nums: Vec<RatingNums> = Vec::new();
    let mut est: Vec<bool> = Vec::new();
    let mut high: Vec<bool> = Vec::new();
    let mut outs: Vec<Vec<glicko2::GameResult>> = Vec::new();
    while ratings.len() > 0
        invariant
            ids@.len() + ratings@.len() == orig.len(),
            chars@.len() == ids@.len(),
            wins@.len() == ids@.len(),
            losses@.len() == ids@.len(),
            nums@.len() == ids@.len(),
            est@.len() == ids@.len(),
            high@.len() == ids@.len(),
            outs@.len() == ids@.len(),
            ratings@ == orig.skip(ids@.len() as int),
            forall|j: int| 0 <= j < ids@.len() ==> ids@[j] == (#[trigger] orig[j]).id
                && chars@[j] == orig[j].char_id && wins@[j] == orig[j].win_count
                && losses@[j] == orig[j].loss_count && nums@[j] == orig[j].rating
                && est@[j] == orig[j].established && high@[j] == orig[j].high_rated
                && outs@[j].len() == 0,
            sum_i64(wins@) + sum_i64(losses@) == sum_counts_rated(orig.take(ids@.len() as int)),
        decreases ratings@.len(),
    {
        let ghost n = ids@.len() as int;
        let p = ratings.remove(0);
        proof {
            assert(orig.skip(n)[0] == orig[n]);
            assert(orig.skip(n).drop_first() =~= orig.skip(n + 1));
            assert(p == orig[n]);
            lemma_sum_i64_push(wins@, p.win_count);
            lemma_sum_i64_push(losses@, p.loss_count);
            lemma_sum_counts_rated_skip(orig, n);
        }
        ids.push(p.id);
        chars.push(p.char_id);
        wins.push(p.win_count);
        losses.push(p.loss_count);
        nums.push(p.rating);
        est.push(p.established);
        high.push(p.high_rated);
        outs.push(Vec::new());
    }
    proof {
        assert(orig.take(orig.len() as int) =~= orig);
        assert forall|j1: int, j2: int| 0 <= j1 < j2 < ids@.len() implies !((#[trigger] ids@[j1])
            == (#[trigger] ids@[j2]) && chars@[j1] == chars@[j2]) by {
            assert(rkey(orig[j1]) != rkey(orig[j2]));
        }
        assert(games@.take(0).len() == 0);
        assert forall|k: (int, int)| has_rkey(orig, k) implies #[trigger] has_pair(
            ids@,
            chars@,
            k,
        ) by {
            let j = choose|j: int| 0 <= j < orig.len() && rkey(orig[j]) == k;
            assert(ids@[j] == k.0 && chars@[j] == k.1);
        }
        assert forall|k: (int, int)| key_appears(games@.take(0), k) implies #[trigger] has_pair(
            ids@,
            chars@,
            k,
        ) by {
            let t = choose|t: int| 0 <= t < games@.take(0).len() && (akey(
                #[trigger] games@.take(0)[t],
            ) == k || bkey(games@.take(0)[t]) == k);
            assert(false);
        }
        assert forall|j: int| 0 <= j < ids@.len() implies #[trigger] row_counts_ok(
            orig,
            games@.take(0),
            ids@,
            chars@,
            wins@,
            losses@,
            j,
        ) by {
            lemma_idx_of_self(orig, j);
        }
        assert forall|j: int| 0 <= j < orig.len() implies #[trigger] row_fixed_ok(
            orig,
            ids@,
            chars@,
            nums@,
            est@,
            high@,
            j,
        ) by {}
        assert(columns_inv(
            orig,
            games@,
            0,
            ids@,
            chars@,
            wins@,
            losses@,
            nums@,
            est@,
            high@,
            outs@.len() as int,
        ));
    }

    let mut player_updates: Vec<PlayerUpdate> = Vec::new();
    let mut matchup_inserts: Vec<MatchupInsert> = Vec::new();
    let mut counter_updates: Vec<CounterUpdate> = Vec::new();
    let mut game_ratings: Vec<GameRatingRow> = Vec::new();

    let n_games: usize = games.len();
    let mut i: usize = 0;
    while i < n_games
        invariant
            i <= n_games,
            n_orig == orig.len(),
            n_games == games@.len(),
            games@.len() <= i64::MAX,
            unique_rating_keys(orig),
            forall|t: int| 0 <= t < games@.len() ==> valid_game(#[trigger] games@[t]),
            forall|t: int| 0 <= t < orig.len() ==> 0 <= (#[trigger] orig[t]).win_count
                && orig[t].win_count + games@.len() <= i64::MAX,
            forall|t: int| 0 <= t < orig.len() ==> 0 <= (#[trigger] orig[t]).loss_count
                && orig[t].loss_count + games@.len() <= i64::MAX,
            columns_inv(
                orig,
                games@,
                i as int,
                ids@,
                chars@,
                wins@,
                losses@,
                nums@,
                est@,
                high@,
                outs@.len() as int,
            ),
            player_updates@.len() == 2 * i,
            forall|t: int| 0 <= t < i ==> player_updates@[2 * t] == player_update_a(
                #[trigger] games@[t],
            ) && player_updates@[2 * t + 1] == player_update_b(games@[t]),
            matchup_inserts@ == all_inserts(games@.take(i as int)),
            counter_updates@ == all_counter_updates(games@.take(i as int), orig),
            game_ratings@.len() == i,
            forall|t: int| 0 <= t < i ==> {
                let row = #[trigger] game_ratings@[t];
                let g = games@[t];
                &&& row.timestamp == g.timestamp
                &&& row.id_a == g.id_a
                &&& row.id_b == g.id_b
                &&& row.established_a == est_of(orig, akey(g))
                &&& row.high_rated_a == high_of(orig, akey(g))
                &&& row.established_b == est_of(orig, bkey(g))
                &&& row.high_rated_b == high_of(orig, bkey(g))
                &&& has_rkey(orig, akey(g)) ==> row.value_a == entry_of(orig, akey(g)).rating.value
                    && row.deviation_a == entry_of(orig, akey(g)).rating.deviation
                &&& has_rkey(orig, bkey(g)) ==> row.value_b == entry_of(orig, bkey(g)).rating.value
                    && row.deviation_b == entry_of(orig, bkey(g)).rating.deviation
            },
        decreases n_games - i,
    {
        let g = &games[i];
        proof {
            assert(valid_game(*g));
            assert(akey(games@[i as int]) == (g.id_a as int, g.char_a as int));
            assert(bkey(games@[i as int]) == (g.id_b as int, g.char_b as int));
        }

        push_player_updates(&mut player_updates, g);
        push_game_inserts(&mut matchup_inserts, g);

        // Find or lazily create both entities; the pre-window rating of a
        // fresh one is the unrated default.
        let ja: usize = locate(
            &mut ids,
            &mut chars,
            &mut wins,
            &mut losses,
            &mut nums,
            &mut est,
            &mut high,
            &mut outs,
            g.id_a,
            g.char_a,
            Ghost(orig),
            Ghost(games@),
            Ghost(i as int),
        );
        let jb: usize = locate(
            &mut ids,
            &mut chars,
            &mut wins,
            &mut losses,
            &mut nums,
            &mut est,
            &mut high,
            &mut outs,
            g.id_b,
            g.char_b,
            Ghost(orig),
            Ghost(games@),
            Ghost(i as int),
        );

        let est_a = est[ja];
        let est_b = est[jb];
        let high_a = high[ja];
        let high_b = high[jb];
        proof {
            let gi = games@[i as int];
            assert(est_a == est_of(orig, akey(gi)) && high_a == high_of(orig, akey(gi)));
            assert(est_b == est_of(orig, bkey(gi)) && high_b == high_of(orig, bkey(gi)));
        }

        push_counter_updates(&mut counter_updates, g, i, est_a, est_b, high_a, high_b);

        game_ratings.push(GameRatingRow {
            timestamp: g.timestamp,
            id_a: g.id_a,
            value_a: nums[ja].value.clone(),
            deviation_a: nums[ja].deviation.clone(),
            id_b: g.id_b,
            value_b: nums[jb].value.clone(),
            deviation_b: nums[jb].deviation.clone(),
            established_a: est_a,
            high_rated_a: high_a,
            established_b: est_b,
            high_rated_b: high_b,
        });

        // Record the outcome against each side's pre-window opponent
        // rating.
        let result_a = if g.winner == 1 {
            game_result_win(&nums[jb])
        } else {
            game_result_loss(&nums[jb])
        };
        let result_b = if g.winner == 1 {
            game_result_loss(&nums[ja])
        } else {
            game_result_win(&nums[ja])
        };
        let mut lst = outs.remove(ja);
        lst.push(result_a);
        outs.insert(ja, lst);
        let mut lst = outs.remove(jb);
        lst.push(result_b);
        outs.insert(jb, lst);

        let jw: usize = if g.winner == 1 {
            ja
        } else {
            jb
        };
        let jl: usize = if g.winner == 1 {
            jb
        } else {
            ja
        };
        bump_counts(
            &ids,
            &chars,
            &mut wins,
            &mut losses,
            jw,
            jl,
            Ghost(orig),
            Ghost(games@),
            Ghost(i as int),
            Ghost(nums@),
            Ghost(est@),
            Ghost(high@),
            Ghost(outs@.len() as int),
        );

        proof {
            let gi = games@[i as int];
            let next = games@.take(i as int + 1);
            assert(next.drop_last() =~= games@.take(i as int));
            assert(next.last() == gi);
            assert(matchup_inserts@ =~= all_inserts(next));
            assert(counter_updates@ =~= all_counter_updates(next, orig));
        }
        i = i + 1;
    }
    proof {
        assert(games@.take(n_games as int) =~= games@);
    }

    // One Glicko-2 update per entity over all its games of the window;
    // entities without games still go through the no-game rule.
    let total: usize = ids.len();
    let mut new_ratings: Vec<NewRating> = Vec::new();
    let mut j: usize = 0;
    while j < total
        invariant
            j <= total,
            total == ids@.len(),
            chars@.len() == ids@.len(),
            wins@.len() == ids@.len(),
            losses@.len() == ids@.len(),
            nums@.len() == ids@.len(),
            outs@.len() == ids@.len(),
            new_ratings@.len() == j,
            forall|t: int| 0 <= t < j ==> (#[trigger] new_ratings@[t]).id == ids@[t]
                && new_ratings@[t].char_id == chars@[t] && new_ratings@[t].win_count == wins@[t]
                && new_ratings@[t].loss_count == losses@[t],
            sum_counts_new(new_ratings@) == sum_i64(wins@.take(j as int)) + sum_i64(
                losses@.take(j as int),
            ),
        decreases total - j,
    {
        let updated = new_rating(&nums[j], &outs[j], "0.1");
        let row = NewRating {
            id: ids[j],
            char_id: chars[j],
            win_count: wins[j],
            loss_count: losses[j],
            rating: updated,
        };
        proof {
            assert(new_ratings@.push(row).drop_last() =~= new_ratings@);
            assert(wins@.take(j as int + 1).drop_last() =~= wins@.take(j as int));
            assert(losses@.take(j as int + 1).drop_last() =~= losses@.take(j as int));
        }
        new_ratings.push(row);
        j = j + 1;
    }

    proof {
        assert(wins@.take(total as int) =~= wins@);
        assert(losses@.take(total as int) =~= losses@);
        assert forall|k: (int, int)| has_nkey(new_ratings@, k) <==> (has_rkey(orig, k)
            || key_appears(games@, k)) by {
            if has_nkey(new_ratings@, k) {
                let t = choose|t: int| 0 <= t < new_ratings@.len() && nkey(new_ratings@[t]) == k;
                assert(ids@[t] == k.0 && chars@[t] == k.1);
                if t < n_orig {
                    assert(row_fixed_ok(orig, ids@, chars@, nums@, est@, high@, t));
                    assert(rkey(orig[t]) == k);
                } else {
                    assert(row_fresh_ok(orig, games@, ids@, chars@, est@, high@, t));
                    assert(key_appears(games@, k));
                }
            }
            if has_rkey(orig, k) || key_appears(games@, k) {
                assert(has_pair(ids@, chars@, k));
                let t = choose|t: int| 0 <= t < ids@.len() && (#[trigger] ids@[t]) == k.0
                    && chars@[t] == k.1;
                assert(nkey(new_ratings@[t]) == k);
            }
        }
        assert forall|t: int| 0 <= t < orig.len() implies nkey(new_ratings@[t]) == rkey(
            orig[t],
        ) by {
            assert(row_fixed_ok(orig, ids@, chars@, nums@, est@, high@, t));
        }
        assert forall|t: int| 0 <= t < new_ratings@.len() implies (
        #[trigger] new_ratings@[t]).win_count >= 0 && new_ratings@[t].loss_count >= 0 by {
            let k = nkey(new_ratings@[t]);
            lemma_counts_in_bounds(games@, k);
            assert(row_counts_ok(
                orig,
                games@.take(n_games as int),
                ids@,
                chars@,
                wins@,
                losses@,
                t,
            ));
            if has_rkey(orig, k) {
                let u = idx_of(orig, k);
                assert(0 <= u < orig.len() && 0 <= orig[u].win_count && 0 <= orig[u].loss_count);
            }
        }
        assert forall|t: int| 0 <= t < new_ratings@.len() implies {
            let k = nkey(#[trigger] new_ratings@[t]);
            &&& new_ratings@[t].win_count == old_win(orig, k) + wins_in(games@, k)
            &&& new_ratings@[t].loss_count == old_loss(orig, k) + losses_in(games@, k)
        } by {
            assert(row_counts_ok(
                orig,
                games@.take(n_games as int),
                ids@,
                chars@,
                wins@,
                losses@,
                t,
            ));
        }
    }

    WindowOutcome {
        next_last_update: last_update + RATING_PERIOD,
        player_updates,
        matchup_inserts,
        counter_updates,
        game_ratings,
        new_ratings,
    }
}

/// Every (player, character) seen in a processed game has a rating row
/// afterwards: the updated table covers all played keys.
pub proof fn lemma_played_keys_have_rows(
    games: Seq<Game>,
    ratings: Seq<RatedPlayer>,
    new_ratings: Seq<NewRating>,
    i: int,
)
    requires
        forall|k: (int, int)| has_nkey(new_ratings, k) <==> (has_rkey(ratings, k) || key_appears(
            games,
            k,
        )),
        0 <= i < games.len(),
    ensures
        has_nkey(new_ratings, akey(games[i])),
        has_nkey(new_ratings, bkey(games[i])),
{
    assert(key_appears(games, akey(games[i])));
    assert(key_appears(games, bkey(games[i])));
}

} // verus!
