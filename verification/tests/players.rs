use crapette::game::players::Player;

#[test]
fn test_player_values() {
    assert_eq!(Player::Player0 as usize, 0);
    assert_eq!(Player::Player1 as usize, 1);
}

#[test]
fn test_player_other_is_an_involution() {
    assert_eq!(Player::Player0.other(), Player::Player1);
    assert_eq!(Player::Player1.other(), Player::Player0);
    assert_eq!(Player::Player0.other().other(), Player::Player0);
    assert_eq!(Player::from(1), Player::Player1);
    assert_eq!(Player::Player1.index(), 1);
}
