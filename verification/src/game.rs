//! Games: the one row the whole pipeline is built from.
//!
//! A game records one match between player A and player B. Games are
//! unique per `(timestamp, id_a, id_b)`; feeding the same game twice must
//! be a no-op, which [`crate::ingest`] builds on. The bulk-import path
//! reads wall-clock fields out of JSON, so this module also converts a
//! civil date and time to Unix seconds, verified against the calendar.

use vstd::prelude::*;

verus! {

/// Number of playable characters; character ids run from 0 to
/// `CHAR_COUNT - 1`.
pub const CHAR_COUNT: i64 = 30;

/// One recorded match.
#[derive(Debug)]
pub struct Game {
    pub timestamp: i64,
    pub id_a: i64,
    pub name_a: String,
    pub char_a: i64,
    pub id_b: i64,
    pub name_b: String,
    pub char_b: i64,
    /// 1 if player A won, 2 if player B won.
    pub winner: i64,
    pub game_floor: i64,
}

/// Why a raw record cannot become a [`Game`].
#[derive(Debug, Clone, Copy, PartialEq, Eq, Structural)]
pub enum DataError {
    BadWinner,
    BadCharacter,
    BadFloor,
}

pub open spec fn valid_winner(w: int) -> bool {
    w == 1 || w == 2
}

pub open spec fn valid_char(c: int) -> bool {
    0 <= c < CHAR_COUNT
}

/// Floors are 1 through 10, plus the sentinel 99 for the top tier.
pub open spec fn valid_floor(f: int) -> bool {
    (1 <= f <= 10) || f == 99
}

pub open spec fn valid_game(g: Game) -> bool {
    &&& valid_winner(g.winner as int)
    &&& valid_char(g.char_a as int)
    &&& valid_char(g.char_b as int)
    &&& valid_floor(g.game_floor as int)
}

/// The (player, character) entity of side A.
pub open spec fn akey(g: Game) -> (int, int) {
    (g.id_a as int, g.char_a as int)
}

/// The (player, character) entity of side B.
pub open spec fn bkey(g: Game) -> (int, int) {
    (g.id_b as int, g.char_b as int)
}

pub open spec fn winner_key(g: Game) -> (int, int) {
    if g.winner == 1 {
        akey(g)
    } else {
        bkey(g)
    }
}

pub open spec fn loser_key(g: Game) -> (int, int) {
    if g.winner == 1 {
        bkey(g)
    } else {
        akey(g)
    }
}

/// Two games would collide in the store: identity is
/// `(timestamp, id_a, id_b)`.
pub open spec fn same_game_key(a: Game, b: Game) -> bool {
    a.timestamp == b.timestamp && a.id_a == b.id_a && a.id_b == b.id_b
}

/// Builds a game from plain fields, rejecting bad data. The pipeline
/// treats bad data as fatal, so callers escalate an error rather than
/// skip the record.
pub fn make_game(
    timestamp: i64,
    id_a: i64,
    name_a: String,
    char_a: i64,
    id_b: i64,
    name_b: String,
    char_b: i64,
    winner: i64,
    game_floor: i64,
) -> (r: Result<Game, DataError>)
    ensures
        r is Ok <==> valid_winner(winner as int) && valid_char(char_a as int) && valid_char(
            char_b as int,
        ) && valid_floor(game_floor as int),
        r matches Ok(g) ==> {
            &&& g.timestamp == timestamp
            &&& g.id_a == id_a
            &&& g.name_a@ == name_a@
            &&& g.char_a == char_a
            &&& g.id_b == id_b
            &&& g.name_b@ == name_b@
            &&& g.char_b == char_b
            &&& g.winner == winner
            &&& g.game_floor == game_floor
            &&& valid_game(g)
        },
        r matches Err(e) ==> (if !valid_winner(winner as int) {
            e == DataError::BadWinner
        } else if !valid_char(char_a as int) || !valid_char(char_b as int) {
            e == DataError::BadCharacter
        } else {
            e == DataError::BadFloor
        }),
{
    if !(winner == 1 || winner == 2) {
        Err(DataError::BadWinner)
    } else if !(0 <= char_a && char_a < CHAR_COUNT) || !(0 <= char_b && char_b < CHAR_COUNT) {
        Err(DataError::BadCharacter)
    } else if !((1 <= game_floor && game_floor <= 10) || game_floor == 99) {
        Err(DataError::BadFloor)
    } else {
        Ok(
            Game {
                timestamp,
                id_a,
                name_a,
                char_a,
                id_b,
                name_b,
                char_b,
                winner,
                game_floor,
            },
        )
    }
}

pub open spec fn is_leap_year(y: int) -> bool {
    (y % 4 == 0 && y % 100 != 0) || y % 400 == 0
}

pub open spec fn days_in_month(y: int, m: int) -> int {
    if m == 2 {
        if is_leap_year(y) {
            29
        } else {
            28
        }
    } else if m == 4 || m == 6 || m == 9 || m == 11 {
        30
    } else {
        31
    }
}

/// Days since 1970-01-01 of the civil date y-m-d, by the standard
/// era-of-400-years computation over the proleptic Gregorian calendar.
pub open spec fn days_from_civil(y: int, m: int, d: int) -> int {
    let yy = if m <= 2 {
        y - 1
    } else {
        y
    };
    let era = yy / 400;
    let yoe = yy - era * 400;
    let mp = if m > 2 {
        m - 3
    } else {
        m + 9
    };
    let doy = (153 * mp + 2) / 5 + d - 1;
    let doe = yoe * 365 + yoe / 4 - yoe / 100 + doy;
    era * 146097 + doe - 719468
}

/// Unix seconds of the civil instant y-m-d h:mi:s (UTC).
pub open spec fn civil_timestamp(y: int, m: int, d: int, h: int, mi: int, s: int) -> int {
    days_from_civil(y, m, d) * 86400 + h * 3600 + mi * 60 + s
}

/// Converts a civil date and time to Unix seconds, or `None` when the
/// fields do not name a real instant (the import treats that as fatal).
pub fn timestamp_from_civil(y: i64, m: i64, d: i64, h: i64, mi: i64, s: i64) -> (r: Option<i64>)
    ensures
        r is Some <==> {
            &&& 1970 <= y <= 9999
            &&& 1 <= m <= 12
            &&& 1 <= d <= days_in_month(y as int, m as int)
            &&& 0 <= h < 24
            &&& 0 <= mi < 60
            &&& 0 <= s < 60
        },
        r matches Some(t) ==> t == civil_timestamp(
            y as int,
            m as int,
            d as int,
            h as int,
            mi as int,
            s as int,
        ),
{
    if !(1970 <= y && y <= 9999) || !(1 <= m && m <= 12) || !(0 <= h && h < 24) || !(0 <= mi
        && mi < 60) || !(0 <= s && s < 60) {
        return None;
    }
    let leap: bool = (y % 4 == 0 && y % 100 != 0) || y % 400 == 0;
    let dim: i64 = if m == 2 {
        if leap {
            29
        } else {
            28
        }
    } else if m == 4 || m == 6 || m == 9 || m == 11 {
        30
    } else {
        31
    };
    assert(dim == days_in_month(y as int, m as int));
    if !(1 <= d && d <= dim) {
        return None;
    }
    let yy: i64 = if m <= 2 {
        y - 1
    } else {
        y
    };
    let era: i64 = yy / 400;
    let yoe: i64 = yy - era * 400;
    let mp: i64 = if m > 2 {
        m - 3
    } else {
        m + 9
    };
    let doy: i64 = (153 * mp + 2) / 5 + d - 1;
    let doe: i64 = yoe * 365 + yoe / 4 - yoe / 100 + doy;
    let days: i64 = era * 146097 + doe - 719468;
    Some(days * 86400 + h * 3600 + mi * 60 + s)
}

} // verus!
