use rater_core::distribution::update_player_distribution;
use rater_core::game::{make_game, timestamp_from_civil, DataError, Game};
use rater_core::glicko::RatingNums;
use rater_core::ingest::{grab_report, new_games};
use rater_core::ratings::{
    update_ratings, Amount, CounterUpdate, ProbSide, RatedPlayer, Target,
};
use rater_core::schedule::{advance_cursor, window_is_due, RATING_PERIOD};
use rater_core::versus::{calc_versus_matchups, mirror_rows};
use chrono::TimeZone;

fn game(
    timestamp: i64,
    id_a: i64,
    char_a: i64,
    id_b: i64,
    char_b: i64,
    winner: i64,
    floor: i64,
) -> Game {
    Game {
        timestamp,
        id_a,
        name_a: format!("P{}", id_a),
        char_a,
        id_b,
        name_b: format!("P{}", id_b),
        char_b,
        winner,
        game_floor: floor,
    }
}

fn nums(value: f64, deviation: f64, volatility: f64) -> RatingNums {
    RatingNums {
        value: format!("{:?}", value),
        deviation: format!("{:?}", deviation),
        volatility: format!("{:?}", volatility),
    }
}

fn established_player(id: i64, char_id: i64, value: f64, high: bool) -> RatedPlayer {
    RatedPlayer {
        id,
        char_id,
        win_count: 10,
        loss_count: 10,
        rating: nums(value, 0.5, 0.06),
        established: true,
        high_rated: high,
    }
}

#[test]
fn cursor_due_and_advance() {
    assert!(window_is_due(10000, 0));
    assert!(!window_is_due(9000, 5400));
    // exactly at the guard boundary: not yet due
    assert!(!window_is_due(RATING_PERIOD + 60, 0));
    assert!(window_is_due(RATING_PERIOD + 61, 0));
    assert_eq!(advance_cursor(0), RATING_PERIOD);
    assert_eq!(advance_cursor(7200), 7200 + RATING_PERIOD);
}

#[test]
fn make_game_validation() {
    let ok = make_game(5, 1, "a".to_string(), 2, 7, "b".to_string(), 3, 1, 99).unwrap();
    assert_eq!(ok.timestamp, 5);
    assert_eq!(ok.winner, 1);
    assert_eq!(ok.game_floor, 99);
    assert_eq!(
        make_game(5, 1, "a".to_string(), 2, 7, "b".to_string(), 3, 3, 99).unwrap_err(),
        DataError::BadWinner
    );
    assert_eq!(
        make_game(5, 1, "a".to_string(), 30, 7, "b".to_string(), 3, 1, 99).unwrap_err(),
        DataError::BadCharacter
    );
    assert_eq!(
        make_game(5, 1, "a".to_string(), 2, 7, "b".to_string(), 3, 1, 11).unwrap_err(),
        DataError::BadFloor
    );
}

#[test]
fn civil_timestamps_match_calendar() {
    assert_eq!(timestamp_from_civil(1970, 1, 1, 0, 0, 0), Some(0));
    assert_eq!(timestamp_from_civil(2021, 6, 11, 0, 0, 0), Some(1623369600));
    // leap day exists in 2024, not in 2023
    assert!(timestamp_from_civil(2024, 2, 29, 12, 30, 5).is_some());
    assert_eq!(timestamp_from_civil(2023, 2, 29, 0, 0, 0), None);
    assert_eq!(timestamp_from_civil(2021, 6, 11, 24, 0, 0), None);
    assert_eq!(timestamp_from_civil(2021, 13, 1, 0, 0, 0), None);
}

#[test]
fn civil_timestamps_match_chrono() {
    for &(y, m, d, h, mi, s) in [
        (2021i64, 6i64, 11i64, 13i64, 59i64, 58i64),
        (2024, 2, 29, 0, 0, 1),
        (1999, 12, 31, 23, 59, 59),
        (2038, 1, 19, 3, 14, 7),
    ]
    .iter()
    {
        let expected = chrono::Utc
            .with_ymd_and_hms(y as i32, m as u32, d as u32, h as u32, mi as u32, s as u32)
            .unwrap()
            .timestamp();
        assert_eq!(timestamp_from_civil(y, m, d, h, mi, s), Some(expected));
    }
}

#[test]
fn grab_report_no_warning_when_all_seen() {
    // ten fetched games, all previously seen: no page-count warnings
    let r = grab_report(10, 0, 100, 100);
    assert_eq!(r.new_games, 0);
    assert!(!r.page_count_too_low);
    assert!(!r.over_half_new);
    assert!(!r.parse_failures);
}

#[test]
fn grab_report_warnings() {
    let all_new = grab_report(5, 0, 100, 105);
    assert!(all_new.page_count_too_low);
    assert!(!all_new.over_half_new);
    let over_half = grab_report(10, 0, 100, 106);
    assert!(!over_half.page_count_too_low);
    assert!(over_half.over_half_new);
    let parse = grab_report(10, 3, 100, 101);
    assert!(parse.parse_failures);
}

#[test]
fn refeeding_a_batch_adds_nothing() {
    let batch = || {
        vec![
            game(100, 1, 0, 2, 1, 1, 5),
            game(200, 1, 0, 2, 1, 2, 5),
            game(100, 1, 0, 2, 1, 1, 5), // duplicate key inside the batch
        ]
    };
    let existing: Vec<Game> = Vec::new();
    let first = new_games(&existing, batch());
    assert_eq!(first.len(), 2);
    let second = new_games(&first, batch());
    assert_eq!(second.len(), 0);
}

#[test]
fn two_unrated_players_one_game() {
    // S-style scenario: both unrated, player 1 wins
    let games = vec![game(100, 1, 0, 2, 1, 1, 7)];
    let out = update_ratings(0, &games, Vec::new());
    assert_eq!(out.next_last_update, RATING_PERIOD);
    assert_eq!(out.new_ratings.len(), 2);
    let a = out.new_ratings.iter().find(|r| r.id == 1).unwrap();
    let b = out.new_ratings.iter().find(|r| r.id == 2).unwrap();
    assert_eq!(a.win_count + a.loss_count, 1);
    assert_eq!(b.win_count + b.loss_count, 1);
    assert_eq!(a.win_count, 1);
    assert_eq!(b.loss_count, 1);
    // winner above 0, loser below 0 on the internal scale
    let va: f64 = a.rating.value.parse().unwrap();
    let vb: f64 = b.rating.value.parse().unwrap();
    assert!(va > 0.0);
    assert!(vb < 0.0);
    // deviation and volatility stay legal
    for r in &out.new_ratings {
        let dev: f64 = r.rating.deviation.parse().unwrap();
        let vol: f64 = r.rating.volatility.parse().unwrap();
        assert!(dev >= 0.0);
        assert!(vol > 0.0);
        assert!(r.win_count >= 0 && r.loss_count >= 0);
    }
    // real player counters moved, nothing adjusted: fresh ratings are not
    // established
    assert!(out
        .counter_updates
        .iter()
        .all(|u| matches!(u.amount, Amount::One)));
    assert!(out
        .counter_updates
        .iter()
        .all(|u| matches!(u.target, Target::Player { .. })));
    assert_eq!(out.counter_updates.len(), 2);
    // the numbers equal one direct Glicko-2 update over the same outcomes
    let expected_a = glicko2::new_rating(
        glicko2::Glicko2Rating::unrated(),
        &[glicko2::GameResult::win(glicko2::Glicko2Rating::unrated())],
        0.1,
    );
    assert_eq!(a.rating.value, format!("{:?}", expected_a.value));
    assert_eq!(a.rating.deviation, format!("{:?}", expected_a.deviation));
    assert_eq!(a.rating.volatility, format!("{:?}", expected_a.volatility));
}

#[test]
fn established_high_rated_game_hits_all_tables() {
    // both established and high-rated with equal values; player A wins
    let high = 1.8f64;
    let ratings = vec![
        established_player(1, 0, high, true),
        established_player(2, 1, high, true),
    ];
    let games = vec![game(100, 1, 0, 2, 1, 1, 7)];
    let out = update_ratings(0, &games, ratings);
    let expect = |target: Target, char_id: i64, opp: i64, is_win: bool, amount: Amount| {
        let want = CounterUpdate {
            game_index: 0,
            target,
            char_id,
            opp_char_id: opp,
            is_win,
            amount,
        };
        assert!(
            out.counter_updates.contains(&want),
            "missing update {:?}",
            want
        );
    };
    let prob_b = Amount::Probability {
        side: ProbSide::PlayerB,
    };
    expect(Target::Player { id: 1 }, 0, 1, true, Amount::One);
    expect(Target::Player { id: 2 }, 1, 0, false, Amount::One);
    expect(Target::Player { id: 1 }, 0, 1, true, prob_b);
    expect(Target::Player { id: 2 }, 1, 0, false, prob_b);
    expect(Target::Global, 0, 1, true, Amount::One);
    expect(Target::Global, 0, 1, true, prob_b);
    expect(Target::Global, 1, 0, false, Amount::One);
    expect(Target::Global, 1, 0, false, prob_b);
    expect(Target::HighRated, 0, 1, true, Amount::One);
    expect(Target::HighRated, 0, 1, true, prob_b);
    expect(Target::HighRated, 1, 0, false, Amount::One);
    expect(Target::HighRated, 1, 0, false, prob_b);
    assert_eq!(out.counter_updates.len(), 12);
    // with equal values the adjusted weight is the logistic 0.5
    let va: f64 = out.game_ratings[0].value_a.parse().unwrap();
    let vb: f64 = out.game_ratings[0].value_b.parse().unwrap();
    let p_b = 1.0 - va.exp() / (va.exp() + vb.exp());
    assert!((p_b - 0.5).abs() < 1e-12);
}

#[test]
fn player_two_win_uses_source_weighting() {
    // the stored aggregates weigh high-rated rows with player B's
    // probability on a player-2 win, unlike the player/global rows
    let ratings = vec![
        established_player(1, 0, 1.9, true),
        established_player(2, 1, 1.8, true),
    ];
    let games = vec![game(100, 1, 0, 2, 1, 2, 7)];
    let out = update_ratings(0, &games, ratings);
    let prob_a = Amount::Probability {
        side: ProbSide::PlayerA,
    };
    let prob_b = Amount::Probability {
        side: ProbSide::PlayerB,
    };
    assert!(out.counter_updates.contains(&CounterUpdate {
        game_index: 0,
        target: Target::Global,
        char_id: 1,
        opp_char_id: 0,
        is_win: true,
        amount: prob_a,
    }));
    assert!(out.counter_updates.contains(&CounterUpdate {
        game_index: 0,
        target: Target::HighRated,
        char_id: 1,
        opp_char_id: 0,
        is_win: true,
        amount: prob_b,
    }));
}

#[test]
fn one_window_aggregates_both_games() {
    // player 1 plays two games against two opponents in one window; the
    // update equals one Glicko-2 call over both outcomes
    let games = vec![game(100, 1, 0, 2, 1, 1, 7), game(200, 1, 0, 3, 2, 2, 7)];
    let out = update_ratings(0, &games, Vec::new());
    let p1 = out
        .new_ratings
        .iter()
        .find(|r| r.id == 1 && r.char_id == 0)
        .unwrap();
    assert_eq!(p1.win_count, 1);
    assert_eq!(p1.loss_count, 1);
    let u = glicko2::Glicko2Rating::unrated();
    let expected = glicko2::new_rating(
        u,
        &[glicko2::GameResult::win(u), glicko2::GameResult::loss(u)],
        0.1,
    );
    assert_eq!(p1.rating.value, format!("{:?}", expected.value));
    assert_eq!(p1.rating.deviation, format!("{:?}", expected.deviation));
    assert_eq!(p1.rating.volatility, format!("{:?}", expected.volatility));
}

#[test]
fn empty_window_still_ages_ratings() {
    // a window with no games advances the cursor and grows the deviation
    let ratings = vec![established_player(1, 0, 1.0, false)];
    let out = update_ratings(7200, &Vec::<Game>::new(), ratings);
    assert_eq!(out.next_last_update, 7200 + RATING_PERIOD);
    assert!(out.player_updates.is_empty());
    assert!(out.counter_updates.is_empty());
    assert!(out.game_ratings.is_empty());
    assert_eq!(out.new_ratings.len(), 1);
    let expected = glicko2::new_rating(
        glicko2::Glicko2Rating {
            value: 1.0,
            deviation: 0.5,
            volatility: 0.06,
        },
        &[],
        0.1,
    );
    assert_eq!(out.new_ratings[0].rating.deviation, format!("{:?}", expected.deviation));
    let dev: f64 = out.new_ratings[0].rating.deviation.parse().unwrap();
    assert!(dev > 0.5);
}

#[test]
fn counts_account_for_every_game_twice() {
    let ratings = vec![
        established_player(1, 0, 1.0, false),
        established_player(2, 1, 1.0, false),
    ];
    let before: i64 = ratings.iter().map(|r| r.win_count + r.loss_count).sum();
    let games = vec![
        game(100, 1, 0, 2, 1, 1, 7),
        game(200, 1, 0, 3, 2, 2, 7),
        game(300, 4, 3, 2, 1, 1, 7),
    ];
    let out = update_ratings(0, &games, ratings);
    let after: i64 = out
        .new_ratings
        .iter()
        .map(|r| r.win_count + r.loss_count)
        .sum();
    assert_eq!(after, before + 2 * games.len() as i64);
    // every (player, character) of the window has a rating row
    for g in &games {
        assert!(out
            .new_ratings
            .iter()
            .any(|r| r.id == g.id_a && r.char_id == g.char_a));
        assert!(out
            .new_ratings
            .iter()
            .any(|r| r.id == g.id_b && r.char_id == g.char_b));
    }
}

#[test]
fn snapshots_record_pre_update_ratings() {
    let ratings = vec![established_player(1, 0, 1.25, false)];
    let games = vec![game(100, 1, 0, 2, 1, 1, 7)];
    let out = update_ratings(0, &games, ratings);
    assert_eq!(out.game_ratings.len(), 1);
    let row = &out.game_ratings[0];
    assert_eq!(row.timestamp, 100);
    assert_eq!(row.id_a, 1);
    assert_eq!(row.id_b, 2);
    assert_eq!(row.value_a, format!("{:?}", 1.25f64));
    assert_eq!(row.deviation_a, format!("{:?}", 0.5f64));
    assert!(row.established_a);
    assert!(!row.established_b); // fresh opponent
    assert_eq!(out.player_updates.len(), 2);
    assert_eq!(out.player_updates[0].id, 1);
    assert_eq!(out.player_updates[1].id, 2);
    assert_eq!(out.player_updates[0].floor, 7);
    // six idempotent matchup inserts per game
    assert_eq!(out.matchup_inserts.len(), 6);
}

#[test]
fn distribution_skips_sparse_bins() {
    let player_floors = vec![1, 1, 2, 99];
    let game_floors = vec![1, 99, 99];
    let mut bins: Vec<i64> = Vec::new();
    for _ in 0..12 {
        bins.push(3);
    }
    for _ in 0..5 {
        bins.push(7);
    }
    let (floor_rows, rating_rows) = update_player_distribution(&player_floors, &game_floors, &bins);
    assert_eq!(floor_rows.len(), 11);
    assert_eq!(floor_rows[0].floor, 1);
    assert_eq!(floor_rows[0].player_count, 2);
    assert_eq!(floor_rows[0].game_count, 1);
    assert_eq!(floor_rows[10].floor, 99);
    assert_eq!(floor_rows[10].player_count, 1);
    assert_eq!(floor_rows[10].game_count, 2);
    // bin 3 has twelve players and is published; bin 7 has five and is not
    assert_eq!(rating_rows.len(), 1);
    assert_eq!(rating_rows[0].min_rating, 150);
    assert_eq!(rating_rows[0].max_rating, 200);
    assert_eq!(rating_rows[0].player_count, 12);
    assert_eq!(rating_rows[0].player_count_cum, 12);
    for row in &rating_rows {
        assert!(row.player_count >= 10);
    }
}

fn snapshot_row(
    timestamp: i64,
    id_a: i64,
    id_b: i64,
    qualifies: bool,
) -> rater_core::ratings::GameRatingRow {
    rater_core::ratings::GameRatingRow {
        timestamp,
        id_a,
        value_a: format!("{:?}", 1.8f64),
        deviation_a: format!("{:?}", 0.3f64),
        id_b,
        value_b: format!("{:?}", 1.9f64),
        deviation_b: format!("{:?}", 0.3f64),
        established_a: qualifies,
        high_rated_a: qualifies,
        established_b: qualifies,
        high_rated_b: qualifies,
    }
}

#[test]
fn versus_ignores_mirrors_and_buckets_pairs() {
    // same pair plays a mirror and two cross-character games; one other
    // pair plays the same characters once; one game does not qualify
    let games = vec![
        game(100, 1, 0, 2, 1, 1, 7),  // cross, qualifies
        game(200, 1, 3, 2, 3, 2, 7),  // mirror: dropped
        game(300, 1, 0, 2, 1, 2, 7),  // cross, qualifies, same bucket
        game(400, 5, 1, 6, 0, 1, 7),  // cross, reversed orientation, new bucket
        game(500, 7, 0, 8, 1, 1, 7),  // would qualify, but snapshot does not
    ];
    let snapshots = vec![
        snapshot_row(100, 1, 2, true),
        snapshot_row(200, 1, 2, true),
        snapshot_row(300, 1, 2, true),
        snapshot_row(400, 5, 6, true),
        snapshot_row(500, 7, 8, false),
    ];
    let table = calc_versus_matchups(&games, &snapshots);
    assert_eq!(table.contributions.len(), 3);
    // the reversed game is canonicalized: low character first, winner
    // flipped with it
    let rev = table
        .contributions
        .iter()
        .find(|c| c.snapshot_index == 3)
        .unwrap();
    assert_eq!(rev.char_low, 0);
    assert_eq!(rev.char_high, 1);
    assert_eq!(rev.id_low, 6);
    assert_eq!(rev.id_high, 5);
    assert!(!rev.a_is_low);
    assert!(!rev.low_won); // A (high side) won, so the low side lost
    assert_eq!(table.buckets.len(), 2);
    assert_eq!(table.rows.len(), 1);
    assert_eq!(table.rows[0].char_low, 0);
    assert_eq!(table.rows[0].char_high, 1);
    assert_eq!(table.rows[0].game_count, 3);
    assert_eq!(table.rows[0].pair_count, 2);
}

#[test]
fn versus_rows_come_in_mirrored_pairs() {
    let games = vec![game(100, 1, 0, 2, 1, 1, 7)];
    let snapshots = vec![snapshot_row(100, 1, 2, true)];
    let table = calc_versus_matchups(&games, &snapshots);
    let mirrored = mirror_rows(&table.rows);
    assert_eq!(mirrored.len(), 2 * table.rows.len());
    for (i, row) in table.rows.iter().enumerate() {
        let fwd = &mirrored[2 * i];
        let rev = &mirrored[2 * i + 1];
        assert_eq!(fwd.char_a, row.char_low);
        assert_eq!(fwd.char_b, row.char_high);
        assert_eq!(rev.char_a, row.char_high);
        assert_eq!(rev.char_b, row.char_low);
        assert_eq!(fwd.game_count, rev.game_count);
        assert_eq!(fwd.pair_count, rev.pair_count);
        assert_eq!(fwd.source, rev.source);
        assert!(!fwd.flipped);
        assert!(rev.flipped);
        // the two orientations carry complementary win rates by
        // construction: rate(rev) = 1 - rate(fwd)
        let p = 0.25f64; // whatever the caller computes for the source row
        let complement = if rev.flipped { 1.0 - p } else { p };
        assert!((p + complement - 1.0).abs() < 1e-12);
    }
}

#[test]
fn unrated_defaults() {
    let p = RatedPlayer::new(42, 7);
    assert_eq!(p.id, 42);
    assert_eq!(p.char_id, 7);
    assert_eq!(p.win_count, 0);
    assert_eq!(p.loss_count, 0);
    assert!(!p.established);
    assert!(!p.high_rated);
    assert_eq!(p.rating.value, "0.0");
    assert_eq!(p.rating.volatility, "0.06");
    let u = glicko2::Glicko2Rating::unrated();
    assert_eq!(p.rating.deviation, format!("{:?}", u.deviation));
}

#[test]
fn empty_feed_changes_nothing() {
    // an empty batch inserts nothing, and a caught-up cursor stays put
    let fresh = new_games(&Vec::new(), Vec::<Game>::new());
    assert!(fresh.is_empty());
    let now = 1_000_000;
    assert!(!window_is_due(now, now - RATING_PERIOD));
}
