//! Rating and matchup engine for a fighting-game replay feed.
//!
//! The library is the computational core of a batch pipeline: it decides
//! when a rating window is due, applies the Glicko-2 update to every
//! (player, character) entity over the games of one window, accumulates
//! player/global/high-rated matchup counters in the same pass, rebuilds
//! the floor and rating distributions, and derives the versus win-rate
//! table from per-game rating snapshots.
//!
//! All persistent storage and all floating-point evaluation live outside
//! the library: callers load rows into the plain types defined here, run
//! the verified batch functions, and persist what comes back. Rating
//! numbers travel through the library as their exact shortest decimal
//! forms; the one numeric computation the core needs, the Glicko-2
//! rating-period update, is delegated to the `glicko2` crate behind a
//! small trusted boundary in [`glicko`].

pub mod distribution;
pub mod game;
pub mod glicko;
pub mod ingest;
pub mod ratings;
pub mod schedule;
pub mod versus;
