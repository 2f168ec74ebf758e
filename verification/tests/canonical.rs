use crapette::brain::board_score::board_score;
use crapette::brain::board_score::score_gt;
use crapette::brain::board_score::worse_score;
use crapette::game::board::Board;
use crapette::game::canonical::sorted_cmp;
use crapette::game::canonical::sorted_eq;
use crapette::game::cards::Card;
use crapette::game::custom_test_games::trivial_move;
use crapette::game::players::Player;
use crapette::game::ranks::Rank;
use crapette::game::sorting::sorted_order;
use crapette::game::suits::Suit;
use std::cmp::Ordering;

fn up(rank: u8, suit: Suit) -> Card {
    Card::new_up(Rank::from(rank), suit, Player::Player0)
}

#[test]
fn test_encode_trivial_board() {
    let mut board = Board::new();
    assert_eq!(board.encode(), vec![0u8; 22]);
    trivial_move(&mut board);
    // stocks, wastes, crapes; the sorted tableau: six empty piles, the 5d, the 6c; the foundation
    let mut expected = vec![0u8; 12];
    expected.extend([1, 5 | (1 << 4), 1, 6]);
    expected.extend([0u8; 8]);
    assert_eq!(board.encode(), expected);
}

#[test]
fn test_encode_player_piles_keep_their_places() {
    let mut board = Board::new();
    board.stock[1].add(up(2, Suit::Spade));
    board.crape[0].add(up(3, Suit::Heart));
    board.crape[0].add(up(4, Suit::Heart));
    board.foundation[5].add(up(1, Suit::Heart));
    let mut expected = vec![0u8, 1, 2 | (3 << 4), 0, 0, 2, 3 | (2 << 4), 4 | (2 << 4), 0];
    expected.extend([0u8; 8]);
    expected.extend([0u8; 7]);
    expected.extend([1, 1 | (2 << 4)]);
    assert_eq!(board.encode(), expected);

    let mut other = Board::new();
    other.stock[0].add(up(2, Suit::Spade));
    other.crape[0].add(up(3, Suit::Heart));
    other.crape[0].add(up(4, Suit::Heart));
    other.foundation[5].add(up(1, Suit::Heart));
    assert!(!board.eq(&other));
    assert_ne!(board.encode(), other.encode());
}

#[test]
fn test_boards_equal_up_to_arrangement() {
    let mut a = Board::new();
    a.tableau[0].add(up(5, Suit::Diamond));
    a.tableau[1].add(up(6, Suit::Club));
    a.foundation[0].add(up(1, Suit::Diamond));
    let mut b = Board::new();
    b.tableau[6].add(up(5, Suit::Diamond));
    b.tableau[3].add(up(6, Suit::Club));
    b.foundation[7].add(up(1, Suit::Diamond));
    assert!(a.eq(&b));
    assert_eq!(a.cmp(&b), Ordering::Equal);
    assert_eq!(a.partial_cmp(&b), Some(Ordering::Equal));
    assert_eq!(a.encode(), b.encode());
    assert!(sorted_eq(&a.tableau, &b.tableau));
    assert_eq!(sorted_cmp(&a.foundation, &b.foundation), Ordering::Equal);

    b.tableau[3].add(up(5, Suit::Heart));
    assert!(!a.eq(&b));
    assert_eq!(a.cmp(&b), Ordering::Less);
    assert_eq!(b.cmp(&a), Ordering::Greater);
    assert!(!sorted_eq(&a.tableau, &b.tableau));
    assert_eq!(sorted_cmp(&a.tableau, &b.tableau), Ordering::Less);
}

#[test]
fn test_board_order_priority() {
    // the crapes are compared before the wastes, the stocks and the centre
    let mut a = Board::new();
    a.crape[1].add(up(2, Suit::Club));
    let mut b = Board::new();
    b.waste[0].add(up(9, Suit::Club));
    b.waste[0].add(up(9, Suit::Club));
    b.tableau[0].add(up(9, Suit::Club));
    assert_eq!(a.cmp(&b), Ordering::Greater);
    let mut c = Board::new();
    c.crape[0].add(up(1, Suit::Club));
    assert_eq!(a.cmp(&c), Ordering::Less);
    // the wastes before the stocks
    let mut d = Board::new();
    d.waste[1].add(up(1, Suit::Club));
    let mut e = Board::new();
    e.stock[0].add(up(13, Suit::Club));
    assert_eq!(d.cmp(&e), Ordering::Greater);
}

#[test]
fn test_sorted_order() {
    let mut board = Board::new();
    board.tableau[0].add(up(9, Suit::Club));
    board.tableau[0].add(up(8, Suit::Heart));
    board.tableau[2].add(up(7, Suit::Club));
    board.tableau[5].add(up(3, Suit::Club));
    board.tableau[6].add(up(3, Suit::Club));
    // empty piles first, in the order of their slots; equal piles keep their order
    assert_eq!(sorted_order(&board.tableau), vec![1, 3, 4, 7, 5, 6, 2, 0]);
}

#[test]
fn test_board_score_values() {
    let mut board = Board::new();
    trivial_move(&mut board);
    assert_eq!(board_score(&board, Player::Player0), [0, 0, 0, 6, 1, 1, 0, 0, 0, 0, 0, 0]);

    let mut board = Board::new();
    board.foundation[0].add(up(1, Suit::Diamond));
    board.foundation[0].add(up(2, Suit::Diamond));
    board.foundation[4].add(up(1, Suit::Spade));
    board.crape[0].add(up(5, Suit::Club));
    board.crape[1].add(up(5, Suit::Club));
    board.crape[1].add(up(6, Suit::Club));
    board.stock[0].add(up(5, Suit::Club));
    board.stock[0].add(up(5, Suit::Club));
    board.stock[0].add(up(5, Suit::Club));
    board.tableau[3].add(up(9, Suit::Club));
    board.tableau[3].add(up(8, Suit::Heart));
    board.tableau[3].add(up(7, Suit::Club));
    board.tableau[1].add(up(4, Suit::Club));
    assert_eq!(board_score(&board, Player::Player0), [3, -1, -3, 6, 3, 1, 0, 0, 0, 0, 0, 0]);
    assert_eq!(board_score(&board, Player::Player1), [3, -2, 0, 6, 3, 1, 0, 0, 0, 0, 0, 0]);
}

#[test]
fn test_score_order() {
    assert_eq!(worse_score(), [i32::MIN; 12]);
    let low = [1, -5, 0, 0, 0, 0, 0, 0, 0, 0, 0, 0];
    let high = [1, -4, 0, 0, 0, 0, 0, 0, 0, 0, 0, 0];
    let last = [1, -5, 0, 0, 0, 0, 0, 0, 0, 0, 0, 1];
    assert!(score_gt(&high, &low));
    assert!(!score_gt(&low, &high));
    assert!(!score_gt(&low, &low));
    assert!(score_gt(&last, &low));
    assert!(score_gt(&high, &last));
    assert!(score_gt(&low, &worse_score()));
}

#[test]
fn test_encoding_of_the_sorted_board_is_the_same() {
    let mut board = Board::new();
    board.tableau[0].add(up(9, Suit::Club));
    board.tableau[0].add(up(8, Suit::Heart));
    board.tableau[2].add(up(7, Suit::Club));
    board.tableau[5].add(up(3, Suit::Club));
    board.foundation[3].add(up(1, Suit::Spade));
    board.foundation[3].add(up(2, Suit::Spade));
    board.foundation[1].add(up(1, Suit::Club));
    // the same piles, laid out in increasing order
    let mut sorted = Board::new();
    for (slot, from) in sorted_order(&board.tableau).into_iter().enumerate() {
        for card in board.tableau[from].cards.iter() {
            sorted.tableau[slot].add(*card);
        }
    }
    for (slot, from) in sorted_order(&board.foundation).into_iter().enumerate() {
        for card in board.foundation[from].cards.iter() {
            sorted.foundation[slot].add(*card);
        }
    }
    assert_eq!(sorted_order(&sorted.tableau), vec![0, 1, 2, 3, 4, 5, 6, 7]);
    assert_eq!(sorted_order(&sorted.foundation), vec![0, 1, 2, 3, 4, 5, 6, 7]);
    assert!(board.eq(&sorted));
    assert_eq!(board.encode(), sorted.encode());
    // another position has another encoding
    sorted.tableau[7].add(up(7, Suit::Diamond));
    assert!(!board.eq(&sorted));
    assert_ne!(board.encode(), sorted.encode());
}
