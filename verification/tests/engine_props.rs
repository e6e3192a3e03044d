use quick_mmr::MMRApp;
use quick_mmr::calculate_match;
use quick_mmr::mmr::Match;
use quick_mmr::mmr::MatchError;
use quick_mmr::mmr::Player;

#[test]
fn mismatched_count_reports_error_and_mutates_nothing() {
    let mut m = Match::new(3);
    let a = Player::new(String::from("a"), Some(vec![1000, 1040]));
    let b = Player::new(String::from("b"), None);
    m.add_player(&a, 1);
    m.add_player(&b, 2);

    let r = m.update_mmr();

    assert_eq!(r, Err(MatchError::MismatchedParticipantCount));
    assert_eq!(m.player_ranks[0].0.mmr_history, [1000, 1040]);
    assert_eq!(m.player_ranks[1].0.mmr_history, [1000]);
    assert_eq!(m.player_ranks.len(), 2);
}

#[test]
fn degenerate_field_size_reports_error_and_mutates_nothing() {
    let mut m = Match::new(1);
    let solo = Player::new(String::from("solo"), None);
    m.add_player(&solo, 1);

    let r = m.update_mmr();

    assert_eq!(r, Err(MatchError::DegenerateFieldSize));
    assert_eq!(m.player_ranks[0].0.mmr_history, [1000]);
}

#[test]
fn empty_degenerate_match_reports_degenerate_field_size() {
    let mut m = Match::new(0);

    assert_eq!(m.update_mmr(), Err(MatchError::DegenerateFieldSize));
}

#[test]
fn two_player_swing_is_sixteen_at_any_equal_rating() {
    let mut m = Match::new(2);
    let a = Player::new(String::from("a"), Some(vec![1200]));
    let b = Player::new(String::from("b"), Some(vec![1200]));
    m.add_player(&a, 1);
    m.add_player(&b, 2);

    assert!(m.update_mmr().is_ok());

    assert_eq!(m.player_ranks[0].0.mmr_history, [1200, 1216]);
    assert_eq!(m.player_ranks[1].0.mmr_history, [1200, 1184]);
}

#[test]
fn unequal_ratings_round_the_logistic_expectation() {
    // At a 200-point gap the expectation is 1 / (1 + sqrt(10)), and
    // 32 * (1 - E) = 24.31... rounds to 24 for the winner (-24 for the
    // loser).
    let mut m = Match::new(2);
    let low = Player::new(String::from("low"), Some(vec![1000]));
    let high = Player::new(String::from("high"), Some(vec![1200]));
    m.add_player(&low, 1);
    m.add_player(&high, 2);

    assert!(m.update_mmr().is_ok());

    assert_eq!(m.player_ranks[0].0.mmr_history, [1000, 1024]);
    assert_eq!(m.player_ranks[1].0.mmr_history, [1200, 1176]);
}

#[test]
fn repeated_update_reapplies_from_current_ratings() {
    // A second update on the same match is not idempotent: it reads the
    // already-updated ratings as its new snapshot and appends again, with
    // the winner now favoured (a smaller swing than the first 16).
    let mut m = Match::new(2);
    for i in 1_i32..=2 {
        let p = Player::new(format!("test {i}"), None);
        m.add_player(&p, i);
    }

    assert!(m.update_mmr().is_ok());
    let first_winner = m.player_ranks[0].0.mmr_history.clone();
    let first_loser = m.player_ranks[1].0.mmr_history.clone();
    assert!(m.update_mmr().is_ok());

    assert_ne!(m.player_ranks[0].0.mmr_history, first_winner);
    assert_ne!(m.player_ranks[1].0.mmr_history, first_loser);
    assert_eq!(m.player_ranks[0].0.mmr_history, [1000, 1016, 1031]);
    assert_eq!(m.player_ranks[1].0.mmr_history, [1000, 984, 969]);
    let top = *m.player_ranks[0].0.mmr_history.last().unwrap();
    let bottom = *m.player_ranks[1].0.mmr_history.last().unwrap();
    assert!(top > 1016 && bottom < 984);
}

#[test]
fn current_rating_is_last_history_entry() {
    let p = Player::new(String::from("p"), Some(vec![1000, 1016, 984]));
    assert_eq!(p.current_rating(), 984);
    let q = Player::new(String::from("q"), None);
    assert_eq!(q.current_rating(), 1000);
}

#[test]
fn calculate_match_updates_prepared_pairs() {
    let pairs = vec![
        (Player::new(String::from("first"), None), 1),
        (Player::new(String::from("second"), None), 2),
    ];

    let r = calculate_match(2, pairs).unwrap();

    assert_eq!(r[0].0.mmr_history, [1000, 1016]);
    assert_eq!(r[0].1, 1);
    assert_eq!(r[1].0.mmr_history, [1000, 984]);
    assert_eq!(r[1].1, 2);
}

#[test]
fn calculate_match_refuses_bad_input() {
    let pairs = vec![(Player::new(String::from("only"), None), 1)];
    assert!(calculate_match(2, pairs).is_none());

    let solo = vec![(Player::new(String::from("solo"), None), 1)];
    assert!(calculate_match(1, solo).is_none());
}

#[test]
fn roster_sorts_by_current_rating() {
    let mut app = MMRApp::default();
    app.players = vec![
        Player::new(String::from("c"), Some(vec![1300])),
        Player::new(String::from("a"), Some(vec![1000, 900])),
        Player::new(String::from("b"), Some(vec![1100])),
    ];

    app.sort_by_rating();

    let names: Vec<&str> = app.players.iter().map(|p| p.name.as_str()).collect();
    assert_eq!(names, ["a", "b", "c"]);
}

#[test]
fn roster_add_and_remove() {
    let mut app = MMRApp::default();
    let extra = Player::new(String::from("extra"), None);

    app.add_player(extra);
    assert_eq!(app.players.len(), 5);
    assert_eq!(app.players[4].name, "extra");

    app.remove_player(0);
    assert_eq!(app.players.len(), 4);
    assert_eq!(app.players[0].name, "Player 2");
}

#[test]
fn default_state_has_four_seeded_players() {
    let app = MMRApp::default();

    assert_eq!(app.num_players, 4);
    assert_eq!(app.players.len(), 4);
    for (i, p) in app.players.iter().enumerate() {
        assert_eq!(p.name, format!("Player {}", i + 1));
        assert_eq!(p.mmr_history, [1000]);
    }
}
