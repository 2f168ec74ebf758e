use crapette::game::suits::Color;
use crapette::game::suits::Suit;

#[test]
fn test_suit_from_char() {
    assert_eq!(Suit::from('d'), Suit::Diamond);
}

#[test]
fn test_suit_symbol() {
    assert_eq!(Suit::Diamond.symbol(), '\u{2666}');
}

#[test]
fn suits_test_ord() {
    assert_eq!(Suit::Club < Suit::Diamond, true);
    assert_eq!(Suit::Diamond < Suit::Heart, true);
    assert_eq!(Suit::Heart < Suit::Spade, true);
}

#[test]
fn test_suit_letters_and_colors() {
    assert_eq!(Suit::from_letter('c'), Some(Suit::Club));
    assert_eq!(Suit::from_letter('h'), Some(Suit::Heart));
    assert_eq!(Suit::from_letter('s'), Some(Suit::Spade));
    assert_eq!(Suit::from_letter('x'), None);
    assert_eq!(Suit::Spade.letter(), 's');
    assert_eq!(Suit::Club.color(), Color::Black);
    assert_eq!(Suit::Diamond.color(), Color::Red);
    assert_eq!(Suit::Heart.color(), Color::Red);
    assert_eq!(Suit::Spade.color(), Color::Black);
    assert_eq!(Suit::Club.order(), 0);
    assert_eq!(Suit::Spade.order(), 3);
    assert_eq!(
        Suit::into_iter(),
        [Suit::Club, Suit::Diamond, Suit::Heart, Suit::Spade]
    );
}
