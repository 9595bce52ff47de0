use codeball::player::Player;
use codeball::world::{get_micro_ticks_limit, is_micro_ticks_limit_reached, next_reset_ticks_left, players_total_score};

#[test]
fn test_total_score() {
    let players = vec![
        Player { id: 1, me: true, strategy_crashed: false, score: 2 },
        Player { id: 2, me: false, strategy_crashed: false, score: 5 },
    ];
    assert_eq!(players_total_score(&players), 7);
    assert_eq!(players_total_score(&Vec::new()), 0);
}

#[test]
fn test_reset_ticks() {
    assert_eq!(next_reset_ticks_left(0, 1, 0, 120), 119);
    assert_eq!(next_reset_ticks_left(1, 1, 119, 120), 118);
    assert_eq!(next_reset_ticks_left(1, 1, 0, 120), 0);
    assert_eq!(next_reset_ticks_left(3, 1, 5, 120), 4);
}

#[test]
fn test_micro_ticks_limit() {
    assert_eq!(get_micro_ticks_limit(0, 15000), 30000);
    assert_eq!(get_micro_ticks_limit(10, 15000), 180000);
    assert!(!is_micro_ticks_limit_reached(30000, 0, 15000));
    assert!(is_micro_ticks_limit_reached(30001, 0, 15000));
}
