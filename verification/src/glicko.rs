//! The trusted boundary around the `glicko2` crate.
//!
//! Rating numbers live in the store and in this library as the exact
//! shortest decimal form of the underlying 64-bit float, the form `{:?}`
//! prints and `parse` reads back bit for bit. The wrappers below parse
//! those forms, run the crate's floating-point computation, and format
//! the results the same way. The numeric outcome is floating point and is
//! deliberately left unspecified here: it is not portable enough to pin
//! in a contract, so the tests hold the library to the crate at run time
//! instead. A field that does not parse as a float falls back to the
//! float default; the library only ever passes forms that it, or the
//! caller's formatter, printed.

use vstd::prelude::*;

verus! {

/// The numeric part of one rating, on the internal (Glicko-2) scale.
/// Each field holds the decimal form of a 64-bit float.
pub struct RatingNums {
    pub value: String,
    pub deviation: String,
    pub volatility: String,
}

/// One game against one opponent, as the `glicko2` crate consumes it.
#[verifier::external_type_specification]
#[verifier::external_body]
pub struct ExGameResult(glicko2::GameResult);

/// Relies on `glicko2::Glicko2Rating::unrated`: the defaults for a player
/// never rated. On the internal scale the value is exactly 0 and the
/// volatility exactly the parsed 0.06, so their decimal forms are fixed;
/// the deviation (350 / 173.7178) is left open.
#[verifier::external_body]
pub fn unrated_nums() -> (r: RatingNums)
    ensures
        r.value@ == "0.0"@,
        r.volatility@ == "0.06"@,
{
    let u = glicko2::Glicko2Rating::unrated();
    RatingNums {
        value: format!("{:?}", u.value),
        deviation: format!("{:?}", u.deviation),
        volatility: format!("{:?}", u.volatility),
    }
}

/// Relies on `glicko2::GameResult::win`: records a win over an opponent
/// with the given rating; the opponent's volatility is not read by the
/// update.
#[verifier::external_body]
pub fn game_result_win(opponent: &RatingNums) -> (r: glicko2::GameResult) {
    glicko2::GameResult::win(glicko2::Glicko2Rating {
        value: opponent.value.parse().unwrap_or_default(),
        deviation: opponent.deviation.parse().unwrap_or_default(),
        volatility: opponent.volatility.parse().unwrap_or_default(),
    })
}

/// Relies on `glicko2::GameResult::loss`: records a loss to an opponent
/// with the given rating.
#[verifier::external_body]
pub fn game_result_loss(opponent: &RatingNums) -> (r: glicko2::GameResult) {
    glicko2::GameResult::loss(glicko2::Glicko2Rating {
        value: opponent.value.parse().unwrap_or_default(),
        deviation: opponent.deviation.parse().unwrap_or_default(),
        volatility: opponent.volatility.parse().unwrap_or_default(),
    })
}

/// Relies on `glicko2::new_rating`: the Glicko-2 rating-period update of
/// one rating from the results of one period, with system constant `tau`.
/// An empty result list still grows the deviation, per the Glicko-2
/// no-game rule.
#[verifier::external_body]
pub fn new_rating(prior: &RatingNums, results: &Vec<glicko2::GameResult>, tau: &str) -> (r:
    RatingNums) {
    let p = glicko2::Glicko2Rating {
        value: prior.value.parse().unwrap_or_default(),
        deviation: prior.deviation.parse().unwrap_or_default(),
        volatility: prior.volatility.parse().unwrap_or_default(),
    };
    let n = glicko2::new_rating(p, results, tau.parse().unwrap_or_default());
    RatingNums {
        value: format!("{:?}", n.value),
        deviation: format!("{:?}", n.deviation),
        volatility: format!("{:?}", n.volatility),
    }
}

} // verus!
