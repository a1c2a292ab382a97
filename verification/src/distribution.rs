//! The distribution snapshot: floor and rating histograms, rebuilt from
//! scratch after each rating window.
//!
//! The caller hands in plain columns: the floor of every player, the
//! floor of every game, and, for every established rating, the index of
//! its 50-point bin on the public scale (the caller converts the stored
//! floating-point value; a bin index may fall outside 0..60 when the
//! rating does). [`update_player_distribution`] rebuilds both tables; a
//! rating bin is published only when at least ten players fall in it.

use vstd::prelude::*;

verus! {

/// One row of the floor distribution.
#[derive(Debug, Clone, Copy, PartialEq, Eq, Structural)]
pub struct FloorDistRow {
    pub floor: i64,
    pub player_count: i64,
    pub game_count: i64,
}

/// One row of the rating distribution, over a public-scale bin
/// `[min_rating, max_rating)`.
#[derive(Debug, Clone, Copy, PartialEq, Eq, Structural)]
pub struct RatingDistRow {
    pub min_rating: i64,
    pub max_rating: i64,
    pub player_count: i64,
    /// Established players with a rating strictly below `max_rating`.
    pub player_count_cum: i64,
}

/// How often `v` occurs in `s`.
pub open spec fn count_eq(s: Seq<i64>, v: int) -> int
    decreases s.len(),
{
    if s.len() == 0 {
        0
    } else {
        count_eq(s.drop_last(), v) + if s.last() == v {
            1int
        } else {
            0int
        }
    }
}

/// How many entries of `s` are at most `v`.
pub open spec fn count_le(s: Seq<i64>, v: int) -> int
    decreases s.len(),
{
    if s.len() == 0 {
        0
    } else {
        count_le(s.drop_last(), v) + if s.last() <= v {
            1int
        } else {
            0int
        }
    }
}

/// The floor of row `i` of the floor table: floors 1 through 10, then
/// the sentinel 99.
pub open spec fn floor_label(i: int) -> int {
    if i < 10 {
        i + 1
    } else {
        99
    }
}

/// Row `row` is a correct published bin over the given bin indices.
pub open spec fn bin_row_ok(bins: Seq<i64>, row: RatingDistRow) -> bool {
    exists|b: int|
        0 <= b < 60 && #[trigger] row_is_bin(bins, row, b)
}

/// Row `row` publishes bin `b`.
pub open spec fn row_is_bin(bins: Seq<i64>, row: RatingDistRow, b: int) -> bool {
    &&& row.min_rating == 50 * b
    &&& row.max_rating == 50 * b + 50
    &&& row.player_count == count_eq(bins, b)
    &&& row.player_count >= 10
    &&& row.player_count_cum == count_le(bins, b)
}

/// A row for bin `b` stands somewhere in `rows`.
pub open spec fn has_bin(rows: Seq<RatingDistRow>, b: int) -> bool {
    exists|j: int| 0 <= j < rows.len() && (#[trigger] rows[j]).min_rating == 50 * b
}

proof fn lemma_count_take_succ(s: Seq<i64>, i: int, v: int)
    requires
        0 <= i < s.len(),
    ensures
        count_eq(s.take(i + 1), v) == count_eq(s.take(i), v) + if s[i] == v {
            1int
        } else {
            0int
        },
        count_le(s.take(i + 1), v) == count_le(s.take(i), v) + if s[i] <= v {
            1int
        } else {
            0int
        },
{
    assert(s.take(i + 1).drop_last() =~= s.take(i));
    assert(s.take(i + 1).last() == s[i]);
}

proof fn lemma_count_bounds(s: Seq<i64>, v: int)
    ensures
        0 <= count_eq(s, v) <= s.len(),
        0 <= count_le(s, v) <= s.len(),
    decreases s.len(),
{
    if s.len() > 0 {
        lemma_count_bounds(s.drop_last(), v);
    }
}

fn count_eq_exec(s: &Vec<i64>, v: i64) -> (c: i64)
    requires
        s@.len() <= i64::MAX,
    ensures
        c == count_eq(s@, v as int),
        0 <= c <= s@.len(),
{
    let mut c: i64 = 0;
    let mut i: usize = 0;
    while i < s.len()
        invariant
            s@.len() <= i64::MAX,
            0 <= i <= s@.len(),
            c == count_eq(s@.take(i as int), v as int),
            0 <= c <= i,
        decreases s@.len() - i,
    {
        proof {
            lemma_count_take_succ(s@, i as int, v as int);
        }
        if s[i] == v {
            c = c + 1;
        }
        i = i + 1;
    }
    proof {
        assert(s@.take(s@.len() as int) =~= s@);
    }
    c
}

fn count_le_exec(s: &Vec<i64>, v: i64) -> (c: i64)
    requires
        s@.len() <= i64::MAX,
    ensures
        c == count_le(s@, v as int),
        0 <= c <= s@.len(),
{
    let mut c: i64 = 0;
    let mut i: usize = 0;
    while i < s.len()
        invariant
            s@.len() <= i64::MAX,
            0 <= i <= s@.len(),
            c == count_le(s@.take(i as int), v as int),
            0 <= c <= i,
        decreases s@.len() - i,
    {
        proof {
            lemma_count_take_succ(s@, i as int, v as int);
        }
        if s[i] <= v {
            c = c + 1;
        }
        i = i + 1;
    }
    proof {
        assert(s@.take(s@.len() as int) =~= s@);
    }
    c
}

/// Rebuilds both distribution tables.
///
/// `player_floors` holds the floor of every player, `game_floors` the
/// floor of every game, and `rating_bins` the public-scale bin index of
/// every established rating. The floor table gets one row per floor 1
/// through 10 and 99; the rating table one row per bin 0 through 59 that
/// holds at least ten players, in ascending order, with a cumulative
/// count of everything at or below the bin.
pub fn update_player_distribution(
    player_floors: &Vec<i64>,
    game_floors: &Vec<i64>,
    rating_bins: &Vec<i64>,
) -> (r: (Vec<FloorDistRow>, Vec<RatingDistRow>))
    requires
        player_floors@.len() <= i64::MAX,
        game_floors@.len() <= i64::MAX,
        rating_bins@.len() <= i64::MAX,
    ensures
        r.0@.len() == 11,
        forall|i: int| 0 <= i < 11 ==> (#[trigger] r.0@[i]).floor == floor_label(i)
            && r.0@[i].player_count == count_eq(player_floors@, floor_label(i))
            && r.0@[i].game_count == count_eq(game_floors@, floor_label(i)),
        forall|j: int| 0 <= j < r.1@.len() ==> bin_row_ok(rating_bins@, #[trigger] r.1@[j]),
        forall|j: int| 0 <= j < r.1@.len() ==> (#[trigger] r.1@[j]).player_count >= 10,
        forall|b: int| 0 <= b < 60 && count_eq(rating_bins@, b) >= 10 ==> has_bin(r.1@, b),
        forall|j1: int, j2: int| 0 <= j1 < j2 < r.1@.len() ==> (#[trigger] r.1@[j1]).min_rating < (
        #[trigger] r.1@[j2]).min_rating,
{
    let mut floor_rows: Vec<FloorDistRow> = Vec::new();
    let mut i: usize = 0;
    while i < 11
        invariant
            0 <= i <= 11,
            floor_rows@.len() == i,
            forall|t: int| 0 <= t < i ==> (#[trigger] floor_rows@[t]).floor == floor_label(t)
                && floor_rows@[t].player_count == count_eq(player_floors@, floor_label(t))
                && floor_rows@[t].game_count == count_eq(game_floors@, floor_label(t)),
            player_floors@.len() <= i64::MAX,
            game_floors@.len() <= i64::MAX,
        decreases 11 - i,
    {
        let f: i64 = if i < 10 {
            (i as i64) + 1
        } else {
            99
        };
        let players = count_eq_exec(player_floors, f);
        let games = count_eq_exec(game_floors, f);
        floor_rows.push(FloorDistRow { floor: f, player_count: players, game_count: games });
        i = i + 1;
    }

    let mut rating_rows: Vec<RatingDistRow> = Vec::new();
    let mut b: i64 = 0;
    while b < 60
        invariant
            0 <= b <= 60,
            rating_bins@.len() <= i64::MAX,
            forall|j: int| 0 <= j < rating_rows@.len() ==> bin_row_ok(
                rating_bins@,
                #[trigger] rating_rows@[j],
            ),
            forall|j: int| 0 <= j < rating_rows@.len() ==> (#[trigger] rating_rows@[j]).min_rating
                < 50 * b,
            forall|bb: int| 0 <= bb < b && count_eq(rating_bins@, bb) >= 10 ==> has_bin(
                rating_rows@,
                bb,
            ),
            forall|j1: int, j2: int| 0 <= j1 < j2 < rating_rows@.len() ==> (
            #[trigger] rating_rows@[j1]).min_rating < (#[trigger] rating_rows@[j2]).min_rating,
        decreases 60 - b,
    {
        let ghost rows0 = rating_rows@;
        let n = count_eq_exec(rating_bins, b);
        if n >= 10 {
            let cum = count_le_exec(rating_bins, b);
            let row = RatingDistRow {
                min_rating: 50 * b,
                max_rating: 50 * b + 50,
                player_count: n,
                player_count_cum: cum,
            };
            rating_rows.push(row);
            proof {
                assert(row_is_bin(rating_bins@, row, b as int));
                assert(bin_row_ok(rating_bins@, row));
            }
        }
        proof {
            assert forall|bb: int| 0 <= bb < b + 1 && count_eq(rating_bins@, bb) >= 10
                implies has_bin(rating_rows@, bb) by {
                if bb < b {
                    assert(has_bin(rows0, bb));
                    let j = choose|j: int| 0 <= j < rows0.len() && (#[trigger] rows0[j]).min_rating
                        == 50 * bb;
                    assert(rating_rows@[j].min_rating == 50 * bb);
                } else {
                    assert(rating_rows@[rating_rows@.len() - 1].min_rating == 50 * bb);
                }
            }
        }
        b = b + 1;
    }

    (floor_rows, rating_rows)
}

} // verus!
