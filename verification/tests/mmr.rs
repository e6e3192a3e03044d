use quick_mmr::mmr::Match;
use quick_mmr::mmr::Player;

#[test]
fn create_new_player() {
    let p = Player::new(String::from("test"), None);
    assert_eq!(p.mmr_history, vec![1000]);
}

#[test]
fn create_player_with_history() {
    let h = Some(vec![1000, 1020, 1010]);
    let p = Player::new(String::from("test"), h);
    assert_eq!(p.mmr_history, vec![1000, 1020, 1010]);
}

#[test]
fn create_blank_match() {
    let m = Match::new(4);
    assert_eq!(m.num_players, 4);
    assert_eq!(m.player_ranks, vec![]);
}

#[test]
fn add_player() {
    let mut m = Match::new(4);
    let h = Some(vec![1000, 1020, 1010]);
    let p = Player::new(String::from("test"), h);

    m.add_player(&p, 1_i32);
    assert_eq!(m.player_ranks.last(), Some((p, 1_i32)).as_ref());
}

#[test]
fn run_match_without_data() {
    let mut m = Match::new(4);
    for i in 1_i32..=2 {
        let p = Player::new(format!("test {i}"), None);
        m.add_player(&p, i);
    }

    assert!(m.update_mmr().is_err());
}

#[test]
fn run_match_2player() {
    let mut m = Match::new(2);
    for i in 1_i32..=2 {
        let p = Player::new(format!("test {i}"), None);
        m.add_player(&p, i);
    }

    let _ = m.update_mmr();

    assert_eq!(m.player_ranks[0].0.mmr_history, [1000, 1016]);
    assert_eq!(m.player_ranks[1].0.mmr_history, [1000, 984]);
}

#[test]
fn run_match_3player() {
    let mut m = Match::new(3);
    for i in 1_i32..=3 {
        let p = Player::new(format!("test {i}"), None);
        m.add_player(&p, i);
    }

    let _ = m.update_mmr();

    assert_eq!(m.player_ranks[0].0.mmr_history, [1000, 1016]);
    assert_eq!(m.player_ranks[1].0.mmr_history, [1000, 1000]);
    assert_eq!(m.player_ranks[2].0.mmr_history, [1000, 984]);
}

#[test]
fn run_match_4player_tie() {
    let mut m = Match::new(4);
    for i in 1_i32..=3 {
        let p = Player::new(format!("test {i}"), None);
        m.add_player(&p, i);
    }

    let p2 = Player::new(String::from("test tie"), None);
    m.add_player(&p2, 2_i32);

    let _ = m.update_mmr();

    assert_eq!(m.player_ranks[0].0.mmr_history, [1000, 1015]);
    assert_eq!(m.player_ranks[1].0.mmr_history, [1000, 1000]);
    assert_eq!(m.player_ranks[2].0.mmr_history, [1000, 985]);
    assert_eq!(m.player_ranks[3].0.mmr_history, [1000, 1000]);
}
