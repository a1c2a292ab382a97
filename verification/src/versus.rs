//! The versus-matchup deriver: a normalized character-pair win-rate
//! table from per-game rating snapshots.
//!
//! Snapshots are joined to games on `(timestamp, id_a, id_b)`. A joined
//! game qualifies when both snapshot ratings are established and
//! high-rated; mirror games (both sides on the same character) are
//! dropped. Each qualifying game is canonicalized so the lower character
//! id comes first, flipping the winner with it, and lands in the bucket
//! of its (low player, high player) pair. The table has one row per
//! character pair with at least one bucket: `pair_count` buckets and
//! `game_count` games.
//!
//! The win rate itself is a floating-point mean over buckets, so the
//! library hands back the exact canonical contributions and buckets; the
//! caller weighs them and writes each pair twice via [`mirror_rows`],
//! once per orientation, with complementary rates.

use vstd::prelude::*;
use crate::game::{Game, valid_game};
use crate::ratings::GameRatingRow;

verus! {

/// One qualifying game in canonical orientation. `snapshot_index` points
/// into the snapshot list the table was derived from; the caller reads
/// the two rating values there (sides swapped when `a_is_low` is false)
/// to weigh the contribution.
#[derive(Debug, Clone, Copy, PartialEq, Eq, Structural)]
pub struct CanonGame {
    pub snapshot_index: usize,
    pub char_low: i64,
    pub char_high: i64,
    pub id_low: i64,
    pub id_high: i64,
    /// The snapshot's side A is the low-character side.
    pub a_is_low: bool,
    /// The low-character side won.
    pub low_won: bool,
}

/// One (low player, high player) bucket of a character pair.
#[derive(Debug, Clone, Copy, PartialEq, Eq, Structural)]
pub struct BucketKey {
    pub char_low: i64,
    pub char_high: i64,
    pub id_low: i64,
    pub id_high: i64,
}

/// One row of the versus table, in canonical orientation.
#[derive(Debug, Clone, Copy, PartialEq, Eq, Structural)]
pub struct VersusRow {
    pub char_low: i64,
    pub char_high: i64,
    /// Qualifying games with this character pair.
    pub game_count: i64,
    /// Distinct player-pair buckets with this character pair.
    pub pair_count: i64,
}

/// The derived table: rows, their buckets, and the canonical games that
/// fill them, all cross-referenced by plain fields.
pub struct VersusTable {
    pub rows: Vec<VersusRow>,
    pub buckets: Vec<BucketKey>,
    pub contributions: Vec<CanonGame>,
}

/// One table row as written to the store: each canonical row twice, the
/// flipped copy carrying the complementary win rate.
#[derive(Debug, Clone, Copy, PartialEq, Eq, Structural)]
pub struct MirrorRow {
    pub char_a: i64,
    pub char_b: i64,
    pub game_count: i64,
    pub pair_count: i64,
    /// Index of the canonical row this one was derived from.
    pub source: usize,
    /// The win rate is one minus the source row's rate.
    pub flipped: bool,
}

pub open spec fn gkey(g: Game) -> (int, int, int) {
    (g.timestamp as int, g.id_a as int, g.id_b as int)
}

pub open spec fn skey(s: GameRatingRow) -> (int, int, int) {
    (s.timestamp as int, s.id_a as int, s.id_b as int)
}

pub open spec fn unique_game_keys(games: Seq<Game>) -> bool {
    forall|i: int, j: int| 0 <= i < j < games.len() ==> gkey(games[i]) != gkey(games[j])
}

pub open spec fn has_game(games: Seq<Game>, k: (int, int, int)) -> bool {
    exists|i: int| 0 <= i < games.len() && gkey(#[trigger] games[i]) == k
}

pub open spec fn game_of(games: Seq<Game>, k: (int, int, int)) -> Game {
    games[choose|i: int| 0 <= i < games.len() && gkey(games[i]) == k]
}

/// Both snapshot ratings established and high-rated.
pub open spec fn qualifies(s: GameRatingRow) -> bool {
    s.established_a && s.established_b && s.high_rated_a && s.high_rated_b
}

/// The snapshot joins to a qualifying, non-mirror game.
pub open spec fn vs_relevant(games: Seq<Game>, s: GameRatingRow) -> bool {
    &&& qualifies(s)
    &&& has_game(games, skey(s))
    &&& game_of(games, skey(s)).char_a != game_of(games, skey(s)).char_b
}

/// The canonical record of snapshot `si` joined to game `g`: the lower
/// character id first, the winner flipped with the orientation.
pub open spec fn canon_of(g: Game, si: int) -> CanonGame {
    if g.char_a < g.char_b {
        CanonGame {
            snapshot_index: si as usize,
            char_low: g.char_a,
            char_high: g.char_b,
            id_low: g.id_a,
            id_high: g.id_b,
            a_is_low: true,
            low_won: g.winner == 1,
        }
    } else {
        CanonGame {
            snapshot_index: si as usize,
            char_low: g.char_b,
            char_high: g.char_a,
            id_low: g.id_b,
            id_high: g.id_a,
            a_is_low: false,
            low_won: g.winner == 2,
        }
    }
}

pub open spec fn bkey_of(c: CanonGame) -> BucketKey {
    BucketKey { char_low: c.char_low, char_high: c.char_high, id_low: c.id_low, id_high: c.id_high }
}

pub open spec fn has_canon(r: Seq<CanonGame>, si: int) -> bool {
    exists|t: int| 0 <= t < r.len() && (#[trigger] r[t]).snapshot_index == si
}

pub open spec fn has_bucket(buckets: Seq<BucketKey>, bk: BucketKey) -> bool {
    exists|t: int| 0 <= t < buckets.len() && (#[trigger] buckets[t]) == bk
}

pub open spec fn has_row(rows: Seq<VersusRow>, cl: int, ch: int) -> bool {
    exists|t: int| 0 <= t < rows.len() && (#[trigger] rows[t]).char_low == cl && rows[t].char_high
        == ch
}

/// Bucket `bk` is the key of some canonical game.
pub open spec fn bucket_sourced(canon: Seq<CanonGame>, bk: BucketKey) -> bool {
    exists|u: int| 0 <= u < canon.len() && bkey_of(#[trigger] canon[u]) == bk
}

/// Row `row` counts its pair's canonical games and buckets exactly, and
/// some bucket carries its pair.
pub open spec fn vs_row_ok(canon: Seq<CanonGame>, buckets: Seq<BucketKey>, row: VersusRow) -> bool {
    &&& row.game_count == count_canon(canon, row.char_low as int, row.char_high as int)
    &&& row.pair_count == count_buckets(buckets, row.char_low as int, row.char_high as int)
    &&& exists|u: int| 0 <= u < buckets.len() && (#[trigger] buckets[u]).char_low == row.char_low
        && buckets[u].char_high == row.char_high
}

/// Canonical games with character pair `(cl, ch)`.
pub open spec fn count_canon(r: Seq<CanonGame>, cl: int, ch: int) -> int
    decreases r.len(),
{
    if r.len() == 0 {
        0
    } else {
        count_canon(r.drop_last(), cl, ch) + if r.last().char_low == cl && r.last().char_high
            == ch {
            1int
        } else {
            0int
        }
    }
}

/// Buckets with character pair `(cl, ch)`.
pub open spec fn count_buckets(buckets: Seq<BucketKey>, cl: int, ch: int) -> int
    decreases buckets.len(),
{
    if buckets.len() == 0 {
        0
    } else {
        count_buckets(buckets.drop_last(), cl, ch) + if buckets.last().char_low == cl
            && buckets.last().char_high == ch {
            1int
        } else {
            0int
        }
    }
}

/// In a list of games with unique keys, the game found for the key of
/// game `i` is game `i` itself.
proof fn lemma_game_of_self(games: Seq<Game>, i: int)
    requires
        unique_game_keys(games),
        0 <= i < games.len(),
    ensures
        has_game(games, gkey(games[i])),
        game_of(games, gkey(games[i])) == games[i],
{
    assert(0 <= i < games.len() && gkey(games[i]) == gkey(games[i]));
    let j = choose|j: int| 0 <= j < games.len() && gkey(games[j]) == gkey(games[i]);
    if i != j {
        if i < j {
            assert(gkey(games[i]) != gkey(games[j]));
        } else {
            assert(gkey(games[j]) != gkey(games[i]));
        }
    }
}

fn find_game(games: &Vec<Game>, timestamp: i64, id_a: i64, id_b: i64) -> (r: Option<usize>)
    ensures
        match r {
            Some(i) => i < games@.len() && gkey(games@[i as int]) == (
                timestamp as int,
                id_a as int,
                id_b as int,
            ),
            None => !has_game(games@, (timestamp as int, id_a as int, id_b as int)),
        },
{
    let mut i: usize = 0;
    while i < games.len()
        invariant
            0 <= i <= games@.len(),
            forall|t: int| 0 <= t < i ==> gkey(#[trigger] games@[t]) != (
                timestamp as int,
                id_a as int,
                id_b as int,
            ),
        decreases games@.len() - i,
    {
        if games[i].timestamp == timestamp && games[i].id_a == id_a && games[i].id_b == id_b {
            return Some(i);
        }
        i = i + 1;
    }
    None
}

/// Joins every snapshot to its game and keeps the qualifying non-mirror
/// ones, in snapshot order and in canonical orientation.
fn canonical_games(games: &Vec<Game>, snapshots: &Vec<GameRatingRow>) -> (r: Vec<CanonGame>)
    requires
        unique_game_keys(games@),
        forall|i: int| 0 <= i < games@.len() ==> valid_game(#[trigger] games@[i]),
    ensures
        r@.len() <= snapshots@.len(),
        forall|t: int| 0 <= t < r@.len() ==> {
            let c = #[trigger] r@[t];
            let si = c.snapshot_index as int;
            &&& si < snapshots@.len()
            &&& vs_relevant(games@, snapshots@[si])
            &&& c == canon_of(game_of(games@, skey(snapshots@[si])), si)
            &&& c.char_low < c.char_high
        },
        forall|t1: int, t2: int| 0 <= t1 < t2 < r@.len() ==> (#[trigger] r@[t1]).snapshot_index < (
        #[trigger] r@[t2]).snapshot_index,
        forall|si: int| 0 <= si < snapshots@.len() && vs_relevant(games@, #[trigger] snapshots@[si])
            ==> has_canon(r@, si),
{
    let mut r: Vec<CanonGame> = Vec::new();
    let mut si: usize = 0;
    while si < snapshots.len()
        invariant
            0 <= si <= snapshots@.len(),
            r@.len() <= si,
            unique_game_keys(games@),
            forall|i: int| 0 <= i < games@.len() ==> valid_game(#[trigger] games@[i]),
            forall|t: int| 0 <= t < r@.len() ==> {
                let c = #[trigger] r@[t];
                let s = c.snapshot_index as int;
                &&& s < si
                &&& vs_relevant(games@, snapshots@[s])
                &&& c == canon_of(game_of(games@, skey(snapshots@[s])), s)
                &&& c.char_low < c.char_high
            },
            forall|t1: int, t2: int| 0 <= t1 < t2 < r@.len() ==> (
            #[trigger] r@[t1]).snapshot_index < (#[trigger] r@[t2]).snapshot_index,
            forall|s: int| 0 <= s < si && vs_relevant(games@, #[trigger] snapshots@[s])
                ==> has_canon(r@, s),
        decreases snapshots@.len() - si,
    {
        let s = &snapshots[si];
        let ghost rows0 = r@;
        if s.established_a && s.established_b && s.high_rated_a && s.high_rated_b {
            match find_game(games, s.timestamp, s.id_a, s.id_b) {
                Some(gi) => {
                    proof {
                        lemma_game_of_self(games@, gi as int);
                        assert(game_of(games@, skey(snapshots@[si as int])) == games@[gi as int]);
                    }
                    let g = &games[gi];
                    if g.char_a != g.char_b {
                        let c = if g.char_a < g.char_b {
                            CanonGame {
                                snapshot_index: si,
                                char_low: g.char_a,
                                char_high: g.char_b,
                                id_low: g.id_a,
                                id_high: g.id_b,
                                a_is_low: true,
                                low_won: g.winner == 1,
                            }
                        } else {
                            CanonGame {
                                snapshot_index: si,
                                char_low: g.char_b,
                                char_high: g.char_a,
                                id_low: g.id_b,
                                id_high: g.id_a,
                                a_is_low: false,
                                low_won: g.winner == 2,
                            }
                        };
                        r.push(c);
                        proof {
                            assert(r@[r@.len() - 1].snapshot_index == si);
                            assert(has_canon(r@, si as int));
                        }
                    }
                },
                None => {
                },
            }
        }
        proof {
            assert forall|s2: int| 0 <= s2 < si + 1 && vs_relevant(
                games@,
                #[trigger] snapshots@[s2],
            ) implies has_canon(r@, s2) by {
                if s2 < si {
                    assert(has_canon(rows0, s2));
                    let t = choose|t: int| 0 <= t < rows0.len() && (
                    #[trigger] rows0[t]).snapshot_index == s2;
                    assert(r@[t].snapshot_index == s2);
                }
            }
        }
        si = si + 1;
    }
    r
}

/// The distinct bucket keys of the canonical games, in first-appearance
/// order.
fn find_bucket(r: &Vec<BucketKey>, bk: BucketKey) -> (res: Option<usize>)
    ensures
        match res {
            Some(j) => j < r@.len() && r@[j as int] == bk,
            None => forall|t: int| 0 <= t < r@.len() ==> (#[trigger] r@[t]) != bk,
        },
{
    let mut j: usize = 0;
    while j < r.len()
        invariant
            0 <= j <= r@.len(),
            forall|t: int| 0 <= t < j ==> (#[trigger] r@[t]) != bk,
        decreases r@.len() - j,
    {
        if r[j].char_low == bk.char_low && r[j].char_high == bk.char_high && r[j].id_low
            == bk.id_low && r[j].id_high == bk.id_high {
            return Some(j);
        }
        j = j + 1;
    }
    None
}

fn bucket_keys(canon: &Vec<CanonGame>) -> (r: Vec<BucketKey>)
    ensures
        r@.len() <= canon@.len(),
        forall|t1: int, t2: int| 0 <= t1 < t2 < r@.len() ==> (#[trigger] r@[t1]) != (
        #[trigger] r@[t2]),
        forall|t: int| 0 <= t < canon@.len() ==> has_bucket(r@, bkey_of(#[trigger] canon@[t])),
        forall|t: int| 0 <= t < r@.len() ==> #[trigger] bucket_sourced(canon@, r@[t]),
{
    let mut r: Vec<BucketKey> = Vec::new();
    let mut i: usize = 0;
    while i < canon.len()
        invariant
            0 <= i <= canon@.len(),
            r@.len() <= i,
            forall|t1: int, t2: int| 0 <= t1 < t2 < r@.len() ==> (#[trigger] r@[t1]) != (
            #[trigger] r@[t2]),
            forall|t: int| 0 <= t < i ==> has_bucket(r@, bkey_of(#[trigger] canon@[t])),
            forall|t: int| 0 <= t < r@.len() ==> #[trigger] bucket_sourced(canon@, r@[t]),
        decreases canon@.len() - i,
    {
        let c = canon[i];
        let bk = BucketKey {
            char_low: c.char_low,
            char_high: c.char_high,
            id_low: c.id_low,
            id_high: c.id_high,
        };
        proof {
            assert(bk == bkey_of(canon@[i as int]));
        }
        let ghost r0 = r@;
        match find_bucket(&r, bk) {
            Some(j) => {
                proof {
                    assert(r@[j as int] == bk);
                    assert(has_bucket(r@, bk));
                }
            },
            None => {
                r.push(bk);
                proof {
                    assert(r@[r@.len() - 1] == bk);
                    assert(has_bucket(r@, bk));
                    assert forall|t1: int, t2: int| 0 <= t1 < t2 < r@.len() implies (
                    #[trigger] r@[t1]) != (#[trigger] r@[t2]) by {
                        if t2 < r0.len() {
                            assert(r@[t1] == r0[t1] && r@[t2] == r0[t2]);
                        } else {
                            assert(r@[t1] == r0[t1] && r@[t2] == bk);
                            assert(r0[t1] != bk);
                        }
                    }
                    assert forall|t: int| 0 <= t < r@.len() implies #[trigger] bucket_sourced(
                        canon@,
                        r@[t],
                    ) by {
                        if t < r0.len() {
                            assert(r@[t] == r0[t]);
                            assert(bucket_sourced(canon@, r0[t]));
                        } else {
                            assert(r@[t] == bk);
                            assert(bkey_of(canon@[i as int]) == r@[t]);
                        }
                    }
                }
            },
        }
        proof {
            assert forall|t: int| 0 <= t < i + 1 implies has_bucket(
                r@,
                bkey_of(#[trigger] canon@[t]),
            ) by {
                if t < i {
                    assert(has_bucket(r0, bkey_of(canon@[t])));
                    let u = choose|u: int| 0 <= u < r0.len() && (#[trigger] r0[u]) == bkey_of(
                        canon@[t],
                    );
                    assert(r@[u] == bkey_of(canon@[t]));
                }
            }
        }
        i = i + 1;
    }
    r
}

fn count_canon_exec(canon: &Vec<CanonGame>, cl: i64, ch: i64) -> (c: i64)
    requires
        canon@.len() <= i64::MAX,
    ensures
        c == count_canon(canon@, cl as int, ch as int),
{
    let mut c: i64 = 0;
    let mut i: usize = 0;
    while i < canon.len()
        invariant
            canon@.len() <= i64::MAX,
            0 <= i <= canon@.len(),
            c == count_canon(canon@.take(i as int), cl as int, ch as int),
            0 <= c <= i,
        decreases canon@.len() - i,
    {
        proof {
            assert(canon@.take(i as int + 1).drop_last() =~= canon@.take(i as int));
            assert(canon@.take(i as int + 1).last() == canon@[i as int]);
        }
        if canon[i].char_low == cl && canon[i].char_high == ch {
            c = c + 1;
        }
        i = i + 1;
    }
    proof {
        assert(canon@.take(canon@.len() as int) =~= canon@);
    }
    c
}

fn count_buckets_exec(buckets: &Vec<BucketKey>, cl: i64, ch: i64) -> (c: i64)
    requires
        buckets@.len() <= i64::MAX,
    ensures
        c == count_buckets(buckets@, cl as int, ch as int),
{
    let mut c: i64 = 0;
    let mut i: usize = 0;
    while i < buckets.len()
        invariant
            buckets@.len() <= i64::MAX,
            0 <= i <= buckets@.len(),
            c == count_buckets(buckets@.take(i as int), cl as int, ch as int),
            0 <= c <= i,
        decreases buckets@.len() - i,
    {
        proof {
            assert(buckets@.take(i as int + 1).drop_last() =~= buckets@.take(i as int));
            assert(buckets@.take(i as int + 1).last() == buckets@[i as int]);
        }
        if buckets[i].char_low == cl && buckets[i].char_high == ch {
            c = c + 1;
        }
        i = i + 1;
    }
    proof {
        assert(buckets@.take(buckets@.len() as int) =~= buckets@);
    }
    c
}

fn find_row(rows: &Vec<VersusRow>, cl: i64, ch: i64) -> (res: Option<usize>)
    ensures
        match res {
            Some(j) => j < rows@.len() && rows@[j as int].char_low == cl && rows@[j as int].char_high
                == ch,
            None => forall|t: int| 0 <= t < rows@.len() ==> !((#[trigger] rows@[t]).char_low == cl
                && rows@[t].char_high == ch),
        },
{
    let mut j: usize = 0;
    while j < rows.len()
        invariant
            0 <= j <= rows@.len(),
            forall|t: int| 0 <= t < j ==> !((#[trigger] rows@[t]).char_low == cl
                && rows@[t].char_high == ch),
        decreases rows@.len() - j,
    {
        if rows[j].char_low == cl && rows[j].char_high == ch {
            return Some(j);
        }
        j = j + 1;
    }
    None
}

/// Derives the versus table from the games and the snapshot history.
///
/// Every snapshot that joins to a qualifying, non-mirror game contributes
/// exactly once; each present character pair gets one canonical row whose
/// `pair_count` is its number of distinct player-pair buckets and whose
/// `game_count` is its number of qualifying games. Absent pairs get no
/// row.
pub fn calc_versus_matchups(games: &Vec<Game>, snapshots: &Vec<GameRatingRow>) -> (r: VersusTable)
    requires
        unique_game_keys(games@),
        forall|i: int| 0 <= i < games@.len() ==> valid_game(#[trigger] games@[i]),
        snapshots@.len() <= i64::MAX,
    ensures
        // contributions: exactly the qualifying joined games, canonical
        forall|t: int| 0 <= t < r.contributions@.len() ==> {
            let c = #[trigger] r.contributions@[t];
            let si = c.snapshot_index as int;
            &&& si < snapshots@.len()
            &&& vs_relevant(games@, snapshots@[si])
            &&& c == canon_of(game_of(games@, skey(snapshots@[si])), si)
            &&& c.char_low < c.char_high
        },
        forall|t1: int, t2: int| 0 <= t1 < t2 < r.contributions@.len() ==> (
        #[trigger] r.contributions@[t1]).snapshot_index < (
        #[trigger] r.contributions@[t2]).snapshot_index,
        forall|si: int| 0 <= si < snapshots@.len() && vs_relevant(games@, #[trigger] snapshots@[si])
            ==> has_canon(r.contributions@, si),
        // buckets: the distinct player-pair keys of the contributions
        forall|t1: int, t2: int| 0 <= t1 < t2 < r.buckets@.len() ==> (#[trigger] r.buckets@[t1])
            != (#[trigger] r.buckets@[t2]),
        forall|t: int| 0 <= t < r.contributions@.len() ==> has_bucket(
            r.buckets@,
            bkey_of(#[trigger] r.contributions@[t]),
        ),
        forall|t: int| 0 <= t < r.buckets@.len() ==> #[trigger] bucket_sourced(
            r.contributions@,
            r.buckets@[t],
        ),
        // rows: one per present character pair, with exact counts
        forall|t1: int, t2: int| 0 <= t1 < t2 < r.rows@.len() ==> !((
        #[trigger] r.rows@[t1]).char_low == (#[trigger] r.rows@[t2]).char_low && r.rows@[t1].char_high
            == r.rows@[t2].char_high),
        forall|t: int| 0 <= t < r.buckets@.len() ==> has_row(
            r.rows@,
            (#[trigger] r.buckets@[t]).char_low as int,
            r.buckets@[t].char_high as int,
        ),
        forall|t: int| 0 <= t < r.rows@.len() ==> #[trigger] vs_row_ok(
            r.contributions@,
            r.buckets@,
            r.rows@[t],
        ),
{
    let contributions = canonical_games(games, snapshots);
    let buckets = bucket_keys(&contributions);
    proof {
        assert(contributions@.len() <= snapshots@.len());
        assert(buckets@.len() <= contributions@.len());
    }

    let mut rows: Vec<VersusRow> = Vec::new();
    let mut i: usize = 0;
    while i < buckets.len()
        invariant
            0 <= i <= buckets@.len(),
            buckets@.len() <= i64::MAX,
            contributions@.len() <= i64::MAX,
            forall|t1: int, t2: int| 0 <= t1 < t2 < rows@.len() ==> !((
            #[trigger] rows@[t1]).char_low == (#[trigger] rows@[t2]).char_low
                && rows@[t1].char_high == rows@[t2].char_high),
            forall|t: int| 0 <= t < i ==> has_row(
                rows@,
                (#[trigger] buckets@[t]).char_low as int,
                buckets@[t].char_high as int,
            ),
            forall|t: int| 0 <= t < rows@.len() ==> #[trigger] vs_row_ok(
                contributions@,
                buckets@,
                rows@[t],
            ),
        decreases buckets@.len() - i,
    {
        let cl = buckets[i].char_low;
        let ch = buckets[i].char_high;
        let ghost rows0 = rows@;
        match find_row(&rows, cl, ch) {
            Some(j) => {
                proof {
                    assert(rows@[j as int].char_low == cl && rows@[j as int].char_high == ch);
                    assert(has_row(rows@, cl as int, ch as int));
                }
            },
            None => {
                let game_count = count_canon_exec(&contributions, cl, ch);
                let pair_count = count_buckets_exec(&buckets, cl, ch);
                rows.push(VersusRow { char_low: cl, char_high: ch, game_count, pair_count });
                proof {
                    assert((rows@[rows@.len() - 1]).char_low == cl);
                    assert(has_row(rows@, cl as int, ch as int));
                    assert forall|t1: int, t2: int| 0 <= t1 < t2 < rows@.len() implies !((
                    #[trigger] rows@[t1]).char_low == (#[trigger] rows@[t2]).char_low
                        && rows@[t1].char_high == rows@[t2].char_high) by {
                        if t2 < rows0.len() {
                            assert(rows@[t1] == rows0[t1] && rows@[t2] == rows0[t2]);
                        } else {
                            assert(rows@[t1] == rows0[t1]);
                            assert(!(rows0[t1].char_low == cl && rows0[t1].char_high == ch));
                        }
                    }
                    assert forall|t: int| 0 <= t < rows@.len() implies #[trigger] vs_row_ok(
                        contributions@,
                        buckets@,
                        rows@[t],
                    ) by {
                        if t < rows0.len() {
                            assert(rows@[t] == rows0[t]);
                            assert(vs_row_ok(contributions@, buckets@, rows0[t]));
                        } else {
                            assert(buckets@[i as int].char_low == rows@[t].char_low
                                && buckets@[i as int].char_high == rows@[t].char_high);
                        }
                    }
                }
            },
        }
        proof {
            assert forall|t: int| 0 <= t < i + 1 implies has_row(
                rows@,
                (#[trigger] buckets@[t]).char_low as int,
                buckets@[t].char_high as int,
            ) by {
                if t < i {
                    assert(has_row(rows0, buckets@[t].char_low as int, buckets@[t].char_high as int));
                    let u = choose|u: int| 0 <= u < rows0.len() && (#[trigger] rows0[u]).char_low
                        == buckets@[t].char_low && rows0[u].char_high == buckets@[t].char_high;
                    assert(rows@[u].char_low == buckets@[t].char_low && rows@[u].char_high
                        == buckets@[t].char_high);
                }
            }
        }
        i = i + 1;
    }

    VersusTable { rows, buckets, contributions }
}

/// Writes each canonical row in both orientations: the store holds two
/// rows per pair, with complementary win rates.
pub fn mirror_rows(rows: &Vec<VersusRow>) -> (r: Vec<MirrorRow>)
    ensures
        r@.len() == 2 * rows@.len(),
        forall|i: int| 0 <= i < rows@.len() ==> {
            let fwd = #[trigger] r@[2 * i];
            let rev = r@[2 * i + 1];
            &&& fwd.char_a == rows@[i].char_low
            &&& fwd.char_b == rows@[i].char_high
            &&& rev.char_a == rows@[i].char_high
            &&& rev.char_b == rows@[i].char_low
            &&& fwd.game_count == rows@[i].game_count
            &&& rev.game_count == rows@[i].game_count
            &&& fwd.pair_count == rows@[i].pair_count
            &&& rev.pair_count == rows@[i].pair_count
            &&& fwd.source == i
            &&& rev.source == i
            &&& !fwd.flipped
            &&& rev.flipped
        },
{
    let mut r: Vec<MirrorRow> = Vec::new();
    let mut i: usize = 0;
    while i < rows.len()
        invariant
            0 <= i <= rows@.len(),
            r@.len() == 2 * i,
            forall|t: int| 0 <= t < i ==> {
                let fwd = #[trigger] r@[2 * t];
                let rev = r@[2 * t + 1];
                &&& fwd.char_a == rows@[t].char_low
                &&& fwd.char_b == rows@[t].char_high
                &&& rev.char_a == rows@[t].char_high
                &&& rev.char_b == rows@[t].char_low
                &&& fwd.game_count == rows@[t].game_count
                &&& rev.game_count == rows@[t].game_count
                &&& fwd.pair_count == rows@[t].pair_count
                &&& rev.pair_count == rows@[t].pair_count
                &&& fwd.source == t
                &&& rev.source == t
                &&& !fwd.flipped
                &&& rev.flipped
            },
        decreases rows@.len() - i,
    {
        let row = rows[i];
        r.push(MirrorRow {
            char_a: row.char_low,
            char_b: row.char_high,
            game_count: row.game_count,
            pair_count: row.pair_count,
            source: i,
            flipped: false,
        });
        let ghost r0 = r@;
        r.push(MirrorRow {
            char_a: row.char_high,
            char_b: row.char_low,
            game_count: row.game_count,
            pair_count: row.pair_count,
            source: i,
            flipped: true,
        });
        proof {
            assert forall|t: int| 0 <= t < i + 1 implies {
                let fwd = #[trigger] r@[2 * t];
                let rev = r@[2 * t + 1];
                &&& fwd.char_a == rows@[t].char_low
                &&& fwd.char_b == rows@[t].char_high
                &&& rev.char_a == rows@[t].char_high
                &&& rev.char_b == rows@[t].char_low
                &&& fwd.game_count == rows@[t].game_count
                &&& rev.game_count == rows@[t].game_count
                &&& fwd.pair_count == rows@[t].pair_count
                &&& rev.pair_count == rows@[t].pair_count
                &&& fwd.source == t
                &&& rev.source == t
                &&& !fwd.flipped
                &&& rev.flipped
            } by {
                if t < i {
                    assert(r@[2 * t] == r0.drop_last()[2 * t] && r@[2 * t + 1] == r0.drop_last()[2
                        * t + 1]);
                }
            }
        }
        i = i + 1;
    }
    r
}

/// For every written versus row there is the opposite-orientation row,
/// derived from the same canonical row with the same counts and the
/// complementary rate: the table is symmetric.
pub proof fn lemma_versus_mirror(r: Seq<MirrorRow>, rows: Seq<VersusRow>, m: int)
    requires
        r.len() == 2 * rows.len(),
        forall|i: int| 0 <= i < rows.len() ==> {
            let fwd = #[trigger] r[2 * i];
            let rev = r[2 * i + 1];
            &&& fwd.char_a == rows[i].char_low
            &&& fwd.char_b == rows[i].char_high
            &&& rev.char_a == rows[i].char_high
            &&& rev.char_b == rows[i].char_low
            &&& fwd.game_count == rows[i].game_count
            &&& rev.game_count == rows[i].game_count
            &&& fwd.pair_count == rows[i].pair_count
            &&& rev.pair_count == rows[i].pair_count
            &&& fwd.source == i
            &&& rev.source == i
            &&& !fwd.flipped
            &&& rev.flipped
        },
        0 <= m < r.len(),
    ensures
        exists|m2: int|
            0 <= m2 < r.len() && (#[trigger] r[m2]).char_a == r[m].char_b && r[m2].char_b
                == r[m].char_a && r[m2].game_count == r[m].game_count && r[m2].pair_count
                == r[m].pair_count && r[m2].source == r[m].source && r[m2].flipped != r[m].flipped,
{
    let i = m / 2;
    assert(0 <= i < rows.len());
    if m % 2 == 0 {
        assert(m == 2 * i);
        assert(r[2 * i].char_a == rows[i].char_low);
        let m2 = 2 * i + 1;
        assert(r[m2].char_a == r[m].char_b && r[m2].char_b == r[m].char_a && r[m2].game_count
            == r[m].game_count && r[m2].pair_count == r[m].pair_count && r[m2].source
            == r[m].source && r[m2].flipped != r[m].flipped);
    } else {
        assert(m == 2 * i + 1);
        let m2 = 2 * i;
        assert(r[m2].char_a == r[m].char_b && r[m2].char_b == r[m].char_a && r[m2].game_count
            == r[m].game_count && r[m2].pair_count == r[m].pair_count && r[m2].source
            == r[m].source && r[m2].flipped != r[m].flipped);
    }
}

} // verus!
