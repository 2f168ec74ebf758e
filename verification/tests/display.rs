use crapette::game::board::Board;
use crapette::game::cards::Card;
use crapette::game::custom_test_games::call_custom;
use crapette::game::moves::CardAction;
use crapette::game::moves::CardActions;
use crapette::game::piles::Pile;
use crapette::game::piles::PileType;
use crapette::game::players::Player;
use crapette::game::ranks::Rank;
use crapette::game::suits::Suit;
use crapette::game::text::decimal_text;
use crapette::game::text::repeat_text;
use crapette::game::text::same_text;

fn up(rank: u8, suit: Suit) -> Card {
    Card::new_up(Rank::from(rank), suit, Player::Player0)
}

fn down(rank: u8, suit: Suit) -> Card {
    Card::new(Rank::from(rank), suit, Player::Player1)
}

#[test]
fn test_text_helpers() {
    assert_eq!(decimal_text(0), "0");
    assert_eq!(decimal_text(7), "7");
    assert_eq!(decimal_text(10), "10");
    assert_eq!(decimal_text(1905), "1905");
    assert_eq!(repeat_text("ab", 3), "ababab");
    assert_eq!(repeat_text("ab", 0), "");
    assert!(same_text("trivial_move", "trivial_move"));
    assert!(!same_text("trivial_move", "trivial_moves"));
    assert!(!same_text("abc", "abd"));
}

#[test]
fn test_card_text() {
    assert_eq!(up(1, Suit::Diamond).str_rank_suit(false), "A\u{2666}");
    assert_eq!(up(10, Suit::Spade).to_string(), "0\u{2660}");
    assert_eq!(up(13, Suit::Club).str_display(false), "K\u{2663}");
    assert_eq!(down(13, Suit::Club).str_display(false), "\u{2592}\u{2592}");
    // with colours the text is there, whatever surrounds it
    assert!(up(12, Suit::Heart).str_rank_suit(true).contains("Q\u{2665}"));
    assert!(down(12, Suit::Heart).str_display(true).contains("\u{2592}\u{2592}"));
    assert!(Card::new(Rank::from(2), Suit::Heart, Player::Player0).str_display(true).contains("\u{2592}"));
}

#[test]
fn test_pile_text() {
    assert_eq!(Pile::new_stock(Player::Player0).str_display(false), "[]");
    let mut crape = Pile::new_crape(Player::Player0);
    crape.add(up(3, Suit::Heart));
    crape.add(up(4, Suit::Club));
    assert_eq!(crape.str_display(false), "4\u{2663}");
    let mut right = Pile::new_tableau(1);
    right.add(up(9, Suit::Heart));
    right.add(up(8, Suit::Club));
    right.add(down(7, Suit::Heart));
    assert_eq!(right.str_display(false), "9\u{2665} 8\u{2663} \u{2592}\u{2592}");
    let mut left = Pile::new_tableau(6);
    left.add(up(9, Suit::Heart));
    left.add(up(8, Suit::Club));
    assert_eq!(left.str_display(false), "8\u{2663} 9\u{2665}");
    assert_eq!(Pile::new_tableau(0).str_display(false), "");
    assert!(left.str_display(true).contains("9\u{2665}"));
}

#[test]
fn test_board_text() {
    let mut board = Board::new();
    call_custom("trivial_move", &mut board);
    board.tableau[5].add(up(2, Suit::Spade));
    board.tableau[5].add(up(1, Suit::Heart));
    board.foundation[3].add(up(1, Suit::Spade));
    board.crape[1].add(down(4, Suit::Club));
    let space = " ".repeat(39);
    let expected = [
        format!("{}\u{2592}\u{2592}  [] []", space),
        format!("{}\u{2502} [] A\u{2660} \u{2502} ", "   ".repeat(13)),
        format!("{}A\u{2665} 2\u{2660} \u{2502} [] [] \u{2502} ", "   ".repeat(11)),
        format!("{}\u{2502} [] [] \u{2502} 6\u{2663}", "   ".repeat(13)),
        format!("{}\u{2502} [] [] \u{2502} 5\u{2666}", "   ".repeat(13)),
        format!("{}[] []  []", space),
    ]
    .join("\n");
    assert_eq!(board.to_string(false), expected);
    assert_eq!(board.to_string(true).lines().count(), 6);
}

#[test]
fn test_names_of_piles_and_players() {
    assert_eq!(Player::Player0.to_string(), "0");
    assert_eq!(Player::Player1.to_string(), "1");
    assert_eq!(PileType::Foundation { id: 7, suit: Suit::Diamond }.to_string(), "Foundation7\u{2666}");
    assert_eq!(PileType::Tableau { id: 3 }.to_string(), "Tableau3");
    assert_eq!(PileType::Stock { player: Player::Player1 }.to_string(), "Stock1");
    assert_eq!(PileType::Waste { player: Player::Player0 }.to_string(), "Waste0");
    assert_eq!(PileType::Crape { player: Player::Player0 }.to_string(), "Crape0");
}

#[test]
fn test_action_text() {
    let a_move = CardAction::Move {
        card: up(5, Suit::Diamond),
        origin: PileType::Tableau { id: 0 },
        destination: PileType::Foundation { id: 0, suit: Suit::Diamond },
    };
    let a_flip = CardAction::Flip { pile: PileType::Crape { player: Player::Player1 } };
    assert_eq!(a_move.to_string(), "Move 5\u{2666} from Tableau0 to Foundation0\u{2666}");
    assert_eq!(a_flip.to_string(), "Flip Crape1");
    assert_eq!(CardAction::FlipWaste.to_string(), "FlipWaste");

    let mut actions = CardActions::new();
    assert_eq!(actions.to_string(), "No action");
    assert_eq!(actions.listing(), "No action\n");
    actions.push(a_flip);
    assert_eq!(actions.to_string(), "1 action: Flip Crape1");
    assert_eq!(actions.listing(), "1 action:\n  Flip Crape1\n");
    actions.push(CardAction::FlipWaste);
    actions.push(a_move);
    assert_eq!(actions.to_string(), "3 actions: Flip Crape1, ...");
    assert_eq!(
        actions.listing(),
        "3 actions:\n  Flip Crape1\n  FlipWaste\n  Move 5\u{2666} from Tableau0 to Foundation0\u{2666}\n"
    );
    assert_eq!(actions.len(), 3);
    assert!(matches!(actions.last(), Some(CardAction::Move { .. })));
    assert!(matches!(actions.get(1), Some(CardAction::FlipWaste)));
    assert!(actions.get(3).is_none());
    assert!(!actions.is_empty());
    assert_eq!(actions.clone().len(), 3);
}

#[test]
fn test_a_board_that_breaks_the_rules_is_written_all_the_same() {
    let mut board = Board::new();
    // a club on the foundation pile of the diamonds
    board.foundation[0].add(up(7, Suit::Club));
    board.tableau[0].add(up(2, Suit::Spade));
    assert!(!board.is_valid());
    assert!(board.can_show());
    let text = board.to_string(false);
    assert_eq!(text.lines().count(), 6);
    assert!(text.contains("7\u{2663}"));
    // fourteen cards do not fit on the left side
    for _ in 0..14 {
        board.tableau[6].add(up(2, Suit::Spade));
    }
    assert!(!board.can_show());
    let mut board = Board::new();
    board.stock[0].add(Card::new(Rank(0), Suit::Club, Player::Player0));
    assert!(!board.can_show());
    let mut pile = Pile::new_tableau(9);
    assert!(!pile.can_show());
    pile.kind = PileType::Tableau { id: 7 };
    assert!(pile.can_show());
}
