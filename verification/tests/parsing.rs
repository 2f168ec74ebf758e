use crapette::game::board::Board;
use crapette::game::cards::Card;
use crapette::game::custom_test_games::foundation_to_fill;
use crapette::game::custom_test_games::massive_moves;
use crapette::game::custom_test_games::multiple_moves;
use crapette::game::custom_test_games::trivial_move;
use crapette::game::parsing::parse_cards;
use crapette::game::parsing::parse_layout;
use crapette::game::parsing::parse_small_number;
use crapette::game::piles::Pile;
use crapette::game::piles::PileType;
use crapette::game::players::Player;
use crapette::game::ranks::Rank;
use crapette::game::suits::Suit;

#[test]
fn test_quick() {
    Card::quick("1d0");
    Card::quick("2s1");
    Card::quick("10h0");
    Card::quick("13c1");
}

#[test]
fn test_eq() {
    let c = Card::quick("1d0");
    assert_eq!(c, c);
    let cc = Card::quick("1d0");
    assert_eq!(c, cc);
    let cc = Card::quick("1d1");
    assert_eq!(c, cc);
    let cc = Card::quick("2s1");
    assert_ne!(c, cc);
}

#[test]
fn cards_test_ord() {
    let c = Card::quick("1d0");
    assert_eq!(c < c, false);
    assert_eq!(c > c, false);
    assert_eq!(c <= c, true);
    assert_eq!(c >= c, true);
    let cc = Card::quick("1d0");
    assert_eq!(c < cc, false);
    assert_eq!(c > cc, false);
    assert_eq!(c <= cc, true);
    assert_eq!(c >= cc, true);
    let cc = Card::quick("1d1");
    assert_eq!(c < cc, false);
    assert_eq!(c > cc, false);
    assert_eq!(c <= cc, true);
    assert_eq!(c >= cc, true);
    let cc = Card::quick("2d0");
    assert_eq!(c < cc, true);
    assert_eq!(c > cc, false);
    assert_eq!(c <= cc, true);
    assert_eq!(c >= cc, false);
    let cc = Card::quick("1s0");
    assert_eq!(c < cc, true);
    assert_eq!(c > cc, false);
    assert_eq!(c <= cc, true);
    assert_eq!(c >= cc, false);
}

fn fields(card: Card) -> (u8, Suit, Player, bool) {
    (card.rank.0, card.suit, card.player, card.face_up)
}

#[test]
fn test_quick_card_fields() {
    assert_eq!(fields(Card::quick("1d0")), (1, Suit::Diamond, Player::Player0, true));
    assert_eq!(fields(Card::quick("2s1")), (2, Suit::Spade, Player::Player1, true));
    assert_eq!(fields(Card::quick("10h0")), (10, Suit::Heart, Player::Player0, true));
    assert_eq!(fields(Card::quick("13c1")), (13, Suit::Club, Player::Player1, true));
    assert_eq!(fields(Card::quick("Kd")), (13, Suit::Diamond, Player::Player0, true));
    assert_eq!(fields(Card::quick("0h")), (10, Suit::Heart, Player::Player0, true));
    assert_eq!(fields(Card::quick("As1")), (1, Suit::Spade, Player::Player1, true));
    assert_eq!(fields(Card::quick("Jc")), (11, Suit::Club, Player::Player0, true));
    assert_eq!(fields(Card::quick("Queenh")), (12, Suit::Heart, Player::Player0, true));
}

#[test]
fn test_try_quick_refuses() {
    assert!(Card::try_quick("5d").is_some());
    assert!(Card::try_quick("").is_none());
    assert!(Card::try_quick("d").is_none());
    assert!(Card::try_quick("5x").is_none());
    assert!(Card::try_quick("14d").is_none());
    assert!(Card::try_quick("5d2").is_none());
    assert!(Card::try_quick("5 d").is_none());
    assert!(Card::try_quick("Zd").is_none());
    assert!(Card::try_quick("Kingd1").is_some());
}

#[test]
fn test_card_from_parts() {
    assert_eq!(
        Card::from_parts("10", "h", "1").map(fields),
        Some((10, Suit::Heart, Player::Player1, true))
    );
    assert_eq!(
        Card::from_parts("Ace", "s", "").map(fields),
        Some((1, Suit::Spade, Player::Player0, true))
    );
    assert!(Card::from_parts("10", "", "1").is_none());
    assert!(Card::from_parts("10", "h", "2").is_none());
    assert!(Card::from_parts("10", "h", "x").is_none());
    assert!(Card::from_parts("", "h", "").is_none());
    assert!(Card::from_parts("256", "h", "").is_none());
}

#[test]
fn test_rank_parse() {
    assert_eq!(Rank::parse("1"), Some(Rank(1)));
    assert_eq!(Rank::parse("13"), Some(Rank(13)));
    assert_eq!(Rank::parse("0"), Some(Rank(10)));
    assert_eq!(Rank::parse("+7"), Some(Rank(7)));
    assert_eq!(Rank::parse("007"), Some(Rank(7)));
    assert_eq!(Rank::parse("14"), None);
    assert_eq!(Rank::parse("300"), None);
    assert_eq!(Rank::parse("A"), Some(Rank(1)));
    assert_eq!(Rank::parse("J"), Some(Rank(11)));
    assert_eq!(Rank::parse("Q"), Some(Rank(12)));
    assert_eq!(Rank::parse("K"), Some(Rank(13)));
    assert_eq!(Rank::parse("Ace"), Some(Rank(1)));
    assert_eq!(Rank::parse("Jack"), Some(Rank(11)));
    assert_eq!(Rank::parse("Queen"), Some(Rank(12)));
    assert_eq!(Rank::parse("King"), Some(Rank(13)));
    assert_eq!(Rank::parse("Knight"), None);
    assert_eq!(Rank::parse(""), None);
    assert_eq!(Rank::parse("+"), None);
    assert_eq!(Rank::parse("1a"), None);
}

#[test]
fn test_parse_small_number() {
    assert_eq!(parse_small_number("0"), Some(0));
    assert_eq!(parse_small_number("255"), Some(255));
    assert_eq!(parse_small_number("256"), None);
    assert_eq!(parse_small_number("260"), None);
    assert_eq!(parse_small_number("1000"), None);
    assert_eq!(parse_small_number("+12"), Some(12));
    assert_eq!(parse_small_number("-1"), None);
    assert_eq!(parse_small_number("12x"), None);
    assert_eq!(parse_small_number("999999999999999999999x"), None);
}

#[test]
fn test_pile_quick() {
    let mut pile = Pile::new_tableau(0);
    pile.add(Card::quick("Kd"));
    pile.quick("  Qs Jh1\t10c ");
    let cards: Vec<(u8, Suit, Player, bool)> = pile.cards.iter().map(|c| fields(*c)).collect();
    assert_eq!(
        cards,
        vec![
            (13, Suit::Diamond, Player::Player0, true),
            (12, Suit::Spade, Player::Player0, true),
            (11, Suit::Heart, Player::Player1, true),
            (10, Suit::Club, Player::Player0, true),
        ]
    );
    assert!(!pile.try_quick("9h 8x 7h"));
    assert_eq!(pile.nb_cards(), 4);
    assert!(pile.try_quick("9h"));
    assert_eq!(pile.nb_cards(), 5);
    assert!(pile.try_quick(""));
    assert_eq!(pile.nb_cards(), 5);
    assert_eq!(parse_cards("5d 6c").map(|cards| cards.len()), Some(2));
    assert!(parse_cards("5d 6").is_none());
}

fn same_cards(a: &Board, b: &Board) -> bool {
    let piles = |board: &Board| -> Vec<Vec<(u8, Suit, Player, bool)>> {
        board
            .stock
            .iter()
            .chain(board.waste.iter())
            .chain(board.crape.iter())
            .chain(board.foundation.iter())
            .chain(board.tableau.iter())
            .map(|pile| pile.cards.iter().map(|c| fields(*c)).collect())
            .collect()
    };
    piles(a) == piles(b)
}

#[test]
fn test_board_quick_gives_the_custom_games() {
    let mut board = Board::new();
    board.quick(
        r#"
        F0: Ad 2d 3d 4d 5d 6d 7d 8d 9d 10d Jd Qd
        T0: Kd
    "#,
    );
    let mut expected = Board::new();
    foundation_to_fill(&mut expected);
    assert!(same_cards(&board, &expected));

    let mut board = Board::new();
    board.quick(
        r#"
        T0: 5d
        T1: 6c
    "#,
    );
    let mut expected = Board::new();
    trivial_move(&mut expected);
    assert!(same_cards(&board, &expected));

    let mut board = Board::new();
    board.quick(
        r#"
        T0: 5d
        T1: 6c
        T2: 5h
        T3: 6s
    "#,
    );
    let mut expected = Board::new();
    multiple_moves(&mut expected);
    assert!(same_cards(&board, &expected));

    let mut board = Board::new();
    board.quick(
        r#"
        T0: Ks
        T1: Qh Js 0h 9s 8h 7s 6h 5s 4h 3s 2h As
        T2: 5c 4d 3c 2d
    "#,
    );
    let mut expected = Board::new();
    massive_moves(&mut expected);
    assert!(same_cards(&board, &expected));
}

#[test]
fn test_board_quick_player_piles() {
    let mut board = Board::new();
    board.quick("X1: 4c 5c\nC0: 9h1\nS1 : Kd\n\n  F7:Ad\nT0: 2s\nT0: As");
    assert_eq!(board.waste[1].nb_cards(), 2);
    assert_eq!(board.waste[0].nb_cards(), 0);
    assert_eq!(fields(board.crape[0].cards[0]), (9, Suit::Heart, Player::Player1, true));
    assert_eq!(board.stock[1].nb_cards(), 1);
    assert_eq!(board.foundation[7].nb_cards(), 1);
    assert_eq!(board.tableau[0].cards, vec![Card::quick("2s"), Card::quick("As")]);
    assert!(board.is_valid());
}

#[test]
fn test_board_try_quick_refuses() {
    for text in ["T0 5d", "T8: 5d", "X2: 5d", "Q0: 5d", "T: 5d", "Tx: 5d", "T0: 5d\nT1: 5", ":"] {
        let mut board = Board::new();
        board.tableau[3].add(Card::quick("Kd"));
        assert!(!board.try_quick(text), "{}", text);
        assert_eq!(board.tableau[3].nb_cards(), 1);
        assert_eq!(board.tableau[0].nb_cards(), 0);
        assert!(parse_layout(text).is_none());
    }
    let mut board = Board::new();
    assert!(board.try_quick("T0: 5d\n\n   \nT1:"));
    assert_eq!(board.tableau[0].nb_cards(), 1);
    assert_eq!(board.tableau[1].nb_cards(), 0);
    let layout = parse_layout("T0: 5d\n\nF3: As 2s").unwrap();
    assert_eq!(layout.len(), 2);
    assert!(layout[1].kind.is_same(&PileType::Foundation { id: 3, suit: Suit::Spade }));
    assert_eq!(layout[1].cards.len(), 2);
}
