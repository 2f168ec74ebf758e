use crapette::game::board::Board;
use crapette::game::cards::Card;
use crapette::game::custom_test_games::call_custom;
use crapette::game::custom_test_games::foundation_to_fill;
use crapette::game::custom_test_games::massive_moves;
use crapette::game::custom_test_games::multiple_moves;
use crapette::game::custom_test_games::trivial_move;
use crapette::game::players::Player;
use crapette::game::ranks::Rank;
use crapette::game::suits::Suit;

#[test]
fn test_foundation_to_fill() {
    // Direct call
    let mut board = Board::new();
    foundation_to_fill(&mut board);

    // Dispatched call
    board = Board::new();
    call_custom("foundation_to_fill", &mut board);
}

#[test]
fn test_foundation_to_fill_layout() {
    let mut board = Board::new();
    call_custom("foundation_to_fill", &mut board);
    assert_eq!(board.foundation[0].nb_cards(), 12);
    for (i, card) in board.foundation[0].cards.iter().enumerate() {
        assert_eq!(*card, Card::new(Rank::from(i as u8 + 1), Suit::Diamond, Player::Player0));
        assert!(card.face_up);
    }
    assert_eq!(board.tableau[0].cards, vec![Card::new(Rank::from(13), Suit::Diamond, Player::Player0)]);
    assert!(board.is_valid());
}

#[test]
fn test_trivial_and_multiple_layouts() {
    let mut board = Board::new();
    trivial_move(&mut board);
    assert_eq!(board.tableau[0].cards, vec![Card::new(Rank::from(5), Suit::Diamond, Player::Player0)]);
    assert_eq!(board.tableau[1].cards, vec![Card::new(Rank::from(6), Suit::Club, Player::Player0)]);
    assert_eq!(board.tableau[2].nb_cards(), 0);

    let mut board = Board::new();
    call_custom("multiple_moves", &mut board);
    assert_eq!(board.tableau[2].cards, vec![Card::new(Rank::from(5), Suit::Heart, Player::Player0)]);
    assert_eq!(board.tableau[3].cards, vec![Card::new(Rank::from(6), Suit::Spade, Player::Player0)]);
    let mut direct = Board::new();
    multiple_moves(&mut direct);
    assert!(board.eq(&direct));
}

#[test]
fn test_massive_moves_layout() {
    let mut board = Board::new();
    massive_moves(&mut board);
    assert_eq!(board.tableau[0].cards, vec![Card::new(Rank::from(13), Suit::Spade, Player::Player0)]);
    let second: Vec<(u8, Suit)> = board.tableau[1].cards.iter().map(|c| (c.rank.0, c.suit)).collect();
    assert_eq!(
        second,
        vec![
            (12, Suit::Heart),
            (11, Suit::Spade),
            (10, Suit::Heart),
            (9, Suit::Spade),
            (8, Suit::Heart),
            (7, Suit::Spade),
            (6, Suit::Heart),
            (5, Suit::Spade),
            (4, Suit::Heart),
            (3, Suit::Spade),
            (2, Suit::Heart),
            (1, Suit::Spade),
        ]
    );
    let third: Vec<(u8, Suit)> = board.tableau[2].cards.iter().map(|c| (c.rank.0, c.suit)).collect();
    assert_eq!(
        third,
        vec![(5, Suit::Club), (4, Suit::Diamond), (3, Suit::Club), (2, Suit::Diamond)]
    );
    let mut dispatched = Board::new();
    call_custom("massive_moves", &mut dispatched);
    assert!(board.eq(&dispatched));
    assert!(board.is_valid());
}
