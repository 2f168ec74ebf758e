use crapette::game::cards::rank_suit_to_id;
use crapette::game::cards::Card;
use crapette::game::players::Player;
use crapette::game::ranks::Rank;
use crapette::game::suits::Color;
use crapette::game::suits::Suit;

#[test]
fn test_new_card() {
    Card::new(Rank::from(1), Suit::Diamond, Player::Player0);
}

#[test]
fn test_card_faces() {
    let mut card = Card::new(Rank::from(7), Suit::Heart, Player::Player1);
    assert!(!card.face_up);
    card.set_face_up();
    assert!(card.face_up);
    card.set_face_down();
    assert!(!card.face_up);
    assert!(Card::new_up(Rank::from(7), Suit::Heart, Player::Player1).face_up);
    assert_eq!(*card.rank(), Rank(7));
    assert_eq!(*card.suit(), Suit::Heart);
    assert_eq!(*card.player(), Player::Player1);
    assert_eq!(card.color(), Color::Red);
    assert_eq!(card.suit_symbol(), '\u{2665}');
}

#[test]
fn test_card_id_formula() {
    // rank in the low four bits, suit in the two bits above
    assert_eq!(rank_suit_to_id(&Rank::from(5), &Suit::Diamond), 21);
    assert_eq!(rank_suit_to_id(&Rank::from(6), &Suit::Club), 6);
    assert_eq!(rank_suit_to_id(&Rank::from(13), &Suit::Spade), 61);
    assert_eq!(Card::new(Rank::from(1), Suit::Heart, Player::Player0).id(), 33);
}

#[test]
fn test_card_equality_ignores_owner_and_face() {
    let a = Card::new(Rank::from(1), Suit::Diamond, Player::Player0);
    let b = Card::new_up(Rank::from(1), Suit::Diamond, Player::Player1);
    let c = Card::new(Rank::from(2), Suit::Spade, Player::Player1);
    assert_eq!(a, b);
    assert_ne!(a, c);
    assert!(a < c);
    assert!(a <= b);
    assert!(a >= b);
    assert!(!(a < b));
    let d = Card::new(Rank::from(1), Suit::Spade, Player::Player0);
    assert!(a < d);
    assert!(a.is_before(&d));
    assert!(!d.is_before(&a));
}

#[test]
fn test_card_colors_and_neighbours() {
    let five_d = Card::new_up(Rank::from(5), Suit::Diamond, Player::Player0);
    let six_c = Card::new_up(Rank::from(6), Suit::Club, Player::Player0);
    let six_h = Card::new_up(Rank::from(6), Suit::Heart, Player::Player0);
    assert!(!five_d.is_same_color(&six_c));
    assert!(five_d.is_same_color(&six_h));
    assert!(five_d.is_above_or_below(&six_c));
    assert!(!six_c.is_above_or_below(&six_h));
}
