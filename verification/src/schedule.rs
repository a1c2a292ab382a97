//! The window cursor: when a rating window is due and how it advances.
//!
//! The store keeps a single `last_update` value, the exclusive upper bound
//! of the most recently processed rating window. A new window
//! `[last_update, last_update + RATING_PERIOD)` is processed only while
//! `now - last_update > RATING_PERIOD + FEED_GUARD_SECS`; the guard keeps
//! the updater from racing the feed on freshly arrived games.

use vstd::prelude::*;

verus! {

/// Length of one rating window, in seconds.
pub const RATING_PERIOD: i64 = 3600;

/// Extra delay before a window is processed, in seconds.
pub const FEED_GUARD_SECS: i64 = 60;

/// A window starting at `last_update` may be processed at time `now`.
pub open spec fn window_due(now: int, last_update: int) -> bool {
    now - last_update > RATING_PERIOD + FEED_GUARD_SECS
}

/// Decides whether another rating window should run.
pub fn window_is_due(now: i64, last_update: i64) -> (due: bool)
    requires
        0 <= now,
        0 <= last_update,
    ensures
        due == window_due(now as int, last_update as int),
{
    now - last_update > RATING_PERIOD + FEED_GUARD_SECS
}

/// The cursor value after one window has been processed.
pub fn advance_cursor(last_update: i64) -> (next: i64)
    requires
        last_update <= i64::MAX - RATING_PERIOD,
    ensures
        next == last_update + RATING_PERIOD,
{
    last_update + RATING_PERIOD
}

/// The cursor never moves backwards: advancing it by one window strictly
/// increases it.
pub proof fn lemma_cursor_monotonic(last_update: int)
    ensures
        last_update + RATING_PERIOD > last_update,
{
}

/// Once the cursor has caught up (the gap to `now` is at most one window
/// plus the guard), the updater does not run again: re-running on an
/// already-advanced cursor is a no-op.
pub proof fn lemma_caught_up_not_due(now: int, last_update: int)
    requires
        now - last_update <= RATING_PERIOD + FEED_GUARD_SECS,
    ensures
        !window_due(now, last_update),
{
}

/// Advancing the cursor only makes the updater less eager: whatever is
/// not due before an advance is not due after it.
pub proof fn lemma_advance_preserves_not_due(now: int, last_update: int)
    requires
        !window_due(now, last_update),
    ensures
        !window_due(now, last_update + RATING_PERIOD),
{
}

} // verus!
