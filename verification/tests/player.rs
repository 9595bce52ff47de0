use codeball::player::Player;

#[test]
fn test_player_opposite() {
    let player = Player { id: 1, me: true, strategy_crashed: false, score: 3 };
    let other = player.opposite();
    assert_eq!(other, Player { id: 1, me: false, strategy_crashed: false, score: 3 });
    assert_eq!(other.opposite(), player);
}
