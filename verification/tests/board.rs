use crapette::game::board::Board;
use crapette::game::cards::Card;
use crapette::game::decks::new_deck;
use crapette::game::decks::new_rng;
use crapette::game::moves::CardAction;
use crapette::game::piles::PileType;
use crapette::game::players::Player;
use crapette::game::ranks::Rank;
use crapette::game::suits::Suit;

fn up(rank: u8, suit: Suit, player: Player) -> Card {
    Card::new_up(Rank::from(rank), suit, player)
}

fn down(rank: u8, suit: Suit, player: Player) -> Card {
    Card::new(Rank::from(rank), suit, player)
}

#[test]
fn test_new_game() {
    let mut board = Board::new();
    let mut rng = new_rng("test".to_string());
    board.new_game(&mut rng);
    for p in 0..=1 {
        assert_eq!(board.stock[p].nb_cards(), 52 - 13 - 4);
        assert_eq!(board.waste[p].nb_cards(), 0);
        assert_eq!(board.crape[p].nb_cards(), 13);
        assert_eq!(board.crape[p].top_card().unwrap().face_up, true);
    }
    for tp in board.tableau.iter() {
        assert_eq!(tp.nb_cards(), 1);
    }
    for tp in board.foundation.iter() {
        assert_eq!(tp.nb_cards(), 0);
    }
}

#[test]
fn test_new_game_clear() {
    let mut board = Board::new();
    let mut rng = new_rng("test".to_string());
    board.new_game(&mut rng);
    board.new_game(&mut rng);
    for p in 0..=1 {
        assert_eq!(board.crape[p].nb_cards(), 13);
        assert_eq!(board.stock[p].nb_cards(), 52 - 13 - 4);
        assert_eq!(board.waste[p].nb_cards(), 0);
    }
    for tp in board.tableau.iter() {
        assert_eq!(tp.nb_cards(), 1);
    }
    for tp in board.foundation.iter() {
        assert_eq!(tp.nb_cards(), 0);
    }
}

#[test]
fn test_check_win() {
    let mut board = Board::new();
    assert_eq!(board.check_win(Player::Player0), true);
    assert_eq!(board.check_win(Player::Player1), true);
    let mut rng = new_rng("test".to_string());
    board.new_game(&mut rng);
    assert_eq!(board.check_win(Player::Player0), false);
    assert_eq!(board.check_win(Player::Player1), false);
}

#[test]
fn test_new_game_deals_each_deck_once() {
    let mut board = Board::new();
    board.foundation[3].add(up(1, Suit::Spade, Player::Player0));
    board.waste[1].add(up(2, Suit::Spade, Player::Player0));
    let mut rng = new_rng("deal".to_string());
    board.new_game(&mut rng);
    assert!(board.is_valid());
    for (p, player) in [Player::Player0, Player::Player1].into_iter().enumerate() {
        let mut ids: Vec<u8> = Vec::new();
        ids.extend(board.crape[p].cards.iter().map(|c| c.id()));
        ids.extend(board.stock[p].cards.iter().map(|c| c.id()));
        for pile in board.tableau[4 * p..4 * p + 4].iter() {
            assert!(pile.cards[0].face_up);
            ids.extend(pile.cards.iter().map(|c| c.id()));
        }
        ids.sort();
        let mut expected: Vec<u8> = new_deck(player).iter().map(|c| c.id()).collect();
        expected.sort();
        assert_eq!(ids, expected);
        assert!(board.stock[p].cards.iter().all(|c| !c.face_up && *c.player() == player));
        assert!(board.crape[p].cards.iter().rev().skip(1).all(|c| !c.face_up));
    }
}

#[test]
fn test_deal_takes_the_cards_from_the_end() {
    let mut board = Board::new();
    let deck = new_deck(Player::Player1);
    board.deal(Player::Player1, deck.clone());
    assert_eq!(board.crape[1].cards, deck[39..52].to_vec());
    assert!(board.crape[1].cards[12].face_up);
    assert!(!board.crape[1].cards[11].face_up);
    assert_eq!(board.tableau[4].cards, vec![deck[38]]);
    assert_eq!(board.tableau[5].cards, vec![deck[37]]);
    assert_eq!(board.tableau[6].cards, vec![deck[36]]);
    assert_eq!(board.tableau[7].cards, vec![deck[35]]);
    assert_eq!(board.stock[1].cards, deck[0..35].to_vec());
    assert_eq!(board.tableau[0].nb_cards(), 0);
    assert_eq!(board.crape[0].nb_cards(), 0);
}

#[test]
fn test_compute_first_player_without_tableau() {
    let mut board = Board::new();
    board.crape[0].add(up(9, Suit::Club, Player::Player0));
    board.crape[1].add(up(8, Suit::Club, Player::Player1));
    assert_eq!(board.compute_first_player(), Player::Player0);
    board.crape[1].add(up(10, Suit::Club, Player::Player1));
    assert_eq!(board.compute_first_player(), Player::Player1);
}

#[test]
fn test_compute_first_player() {
    let mut board = Board::new();
    for i in 0..8 {
        board.tableau[i].add(up(3, Suit::Club, Player::Player0));
    }
    board.crape[0].add(up(9, Suit::Club, Player::Player0));
    board.crape[1].add(up(8, Suit::Club, Player::Player1));
    assert_eq!(board.compute_first_player(), Player::Player0);
    board.crape[1].add(up(10, Suit::Club, Player::Player1));
    assert_eq!(board.compute_first_player(), Player::Player1);
    board.crape[0].add(up(10, Suit::Heart, Player::Player0));
    // same crape rank, same tableau: the second player starts
    assert_eq!(board.compute_first_player(), Player::Player1);
    board.tableau[2].add(up(12, Suit::Heart, Player::Player0));
    assert_eq!(board.compute_first_player(), Player::Player0);
    board.tableau[6].add(up(13, Suit::Heart, Player::Player0));
    assert_eq!(board.compute_first_player(), Player::Player1);
}

#[test]
fn test_move_card_checked_moves_and_refuses() {
    let player = Player::Player0;
    let t0 = PileType::Tableau { id: 0 };
    let t1 = PileType::Tableau { id: 1 };
    let t2 = PileType::Tableau { id: 2 };
    let mut board = Board::new();
    board.tableau[0].add(up(5, Suit::Diamond, player));
    board.tableau[1].add(up(6, Suit::Club, player));

    assert_eq!(
        board.move_card_checked(&t2, &t1, player).err(),
        Some("Unable to take a card from empty pile")
    );
    assert_eq!(
        board.move_card_checked(&t1, &t0, player).err(),
        Some("Unable to move card from origin to destination")
    );
    let other_crape = PileType::Crape { player: Player::Player1 };
    board.crape[1].add(up(5, Suit::Diamond, Player::Player1));
    assert_eq!(
        board.move_card_checked(&other_crape, &t1, player).err(),
        Some("Unable to take card from origin")
    );
    board.tableau[2].add(down(5, Suit::Heart, player));
    assert_eq!(
        board.move_card_checked(&t2, &t1, player).err(),
        Some("Unable to move a card which faces down")
    );
    assert_eq!(board.tableau[0].nb_cards(), 1);
    assert_eq!(board.tableau[1].nb_cards(), 1);

    let action = board.move_card_checked(&t0, &t1, player).unwrap();
    match action {
        CardAction::Move { card, origin, destination } => {
            assert_eq!(card, up(5, Suit::Diamond, player));
            assert!(origin.is_same(&t0));
            assert!(destination.is_same(&t1));
        }
        _ => panic!("a move was expected"),
    }
    assert_eq!(board.tableau[0].nb_cards(), 0);
    assert_eq!(board.tableau[1].cards, vec![up(6, Suit::Club, player), up(5, Suit::Diamond, player)]);
}

#[test]
fn test_flip_card_up_only_for_the_owner() {
    let crape0 = PileType::Crape { player: Player::Player0 };
    let mut board = Board::new();
    board.crape[0].add(down(5, Suit::Diamond, Player::Player0));
    board.flip_card_up(&crape0, &Player::Player1);
    assert!(!board.crape[0].top_card().unwrap().face_up);
    board.flip_card_up(&crape0, &Player::Player0);
    assert!(board.crape[0].top_card().unwrap().face_up);
    // a tableau pile is never flipped, an empty pile neither
    board.tableau[0].add(down(5, Suit::Diamond, Player::Player0));
    board.flip_card_up(&PileType::Tableau { id: 0 }, &Player::Player0);
    assert!(!board.tableau[0].top_card().unwrap().face_up);
    board.flip_card_up(&PileType::Stock { player: Player::Player0 }, &Player::Player0);
    assert_eq!(board.stock[0].nb_cards(), 0);
}

#[test]
fn test_flip_waste_to_stock() {
    let player = Player::Player1;
    let mut board = Board::new();
    board.stock[1].add(down(9, Suit::Spade, player));
    board.waste[1].add(up(1, Suit::Club, player));
    board.waste[1].add(up(2, Suit::Club, player));
    board.waste[1].add(up(3, Suit::Club, player));
    board.waste[0].add(up(4, Suit::Club, Player::Player0));
    board.flip_waste_to_stock(&player);
    assert_eq!(board.waste[1].nb_cards(), 0);
    assert_eq!(board.waste[0].nb_cards(), 1);
    assert_eq!(
        board.stock[1].cards,
        vec![
            down(9, Suit::Spade, player),
            down(3, Suit::Club, player),
            down(2, Suit::Club, player),
            down(1, Suit::Club, player)
        ]
    );
    assert!(board.stock[1].cards.iter().all(|c| !c.face_up));
}

#[test]
fn test_apply_action_and_copy() {
    let mut board = Board::new();
    board.tableau[0].add(up(13, Suit::Diamond, Player::Player0));
    board.crape[0].add(down(2, Suit::Club, Player::Player0));
    board.waste[0].add(up(7, Suit::Club, Player::Player0));
    let action = CardAction::Move {
        card: up(13, Suit::Diamond, Player::Player0),
        origin: PileType::Tableau { id: 0 },
        destination: PileType::Tableau { id: 5 },
    };
    let copy = board.copy_with_action(&action, Player::Player1);
    assert_eq!(board.tableau[0].nb_cards(), 1);
    assert_eq!(copy.tableau[0].nb_cards(), 0);
    assert_eq!(copy.tableau[5].cards, vec![up(13, Suit::Diamond, Player::Player0)]);
    // the two boards hold the same piles, in another arrangement
    assert!(copy.eq(&board));

    board.apply_action(
        &CardAction::Flip { pile: PileType::Crape { player: Player::Player0 } },
        Player::Player0,
    );
    assert!(board.crape[0].top_card().unwrap().face_up);
    board.apply_action(&CardAction::FlipWaste, Player::Player0);
    assert_eq!(board.waste[0].nb_cards(), 0);
    assert_eq!(board.stock[0].cards, vec![down(7, Suit::Club, Player::Player0)]);
    assert!(!board.stock[0].cards[0].face_up);
}

#[test]
fn test_apply_flip_turns_the_top_card_of_any_owner() {
    let mut board = Board::new();
    board.crape[1].add(down(3, Suit::Heart, Player::Player1));
    let flip = CardAction::Flip { pile: PileType::Crape { player: Player::Player1 } };
    // whoever's turn it is, the card is turned
    let copy = board.copy_with_action(&flip, Player::Player0);
    assert!(copy.crape[1].top_card().unwrap().face_up);
    assert!(!board.crape[1].top_card().unwrap().face_up);
    board.apply_action(&flip, Player::Player0);
    assert!(board.crape[1].top_card().unwrap().face_up);
    assert_eq!(board.crape[1].nb_cards(), 1);
    assert_eq!(board.crape[0].nb_cards(), 0);
    // a card that faces up stays as it is, and an empty pile stays empty
    board.apply_action(&flip, Player::Player1);
    assert!(board.crape[1].top_card().unwrap().face_up);
    board.apply_action(
        &CardAction::Flip { pile: PileType::Stock { player: Player::Player0 } },
        Player::Player1,
    );
    assert_eq!(board.stock[0].nb_cards(), 0);
    board.stock[1].add(down(9, Suit::Club, Player::Player1));
    board.flip_top(&PileType::Stock { player: Player::Player1 });
    assert!(board.stock[1].top_card().unwrap().face_up);
}

#[test]
fn test_apply_flip_waste_is_for_the_active_player() {
    let mut board = Board::new();
    board.waste[0].add(up(4, Suit::Club, Player::Player0));
    board.waste[1].add(up(5, Suit::Club, Player::Player1));
    board.waste[1].add(up(6, Suit::Club, Player::Player1));
    board.apply_action(&CardAction::FlipWaste, Player::Player1);
    assert_eq!(board.waste[0].nb_cards(), 1);
    assert_eq!(board.waste[1].nb_cards(), 0);
    assert_eq!(
        board.stock[1].cards,
        vec![down(6, Suit::Club, Player::Player1), down(5, Suit::Club, Player::Player1)]
    );
    assert!(board.stock[1].cards.iter().all(|c| !c.face_up));
    assert_eq!(board.stock[0].nb_cards(), 0);
}

#[test]
fn test_is_valid() {
    let mut board = Board::new();
    assert!(board.is_valid());
    board.foundation[2].add(up(1, Suit::Heart, Player::Player0));
    board.foundation[2].add(up(2, Suit::Heart, Player::Player0));
    assert!(board.is_valid());
    board.foundation[2].add(up(4, Suit::Heart, Player::Player0));
    assert!(!board.is_valid());
    let mut board = Board::new();
    board.tableau[0].add(Card::new(Rank(14), Suit::Heart, Player::Player0));
    assert!(!board.is_valid());
    let mut board = Board::new();
    board.tableau[0].kind = PileType::Tableau { id: 1 };
    assert!(!board.is_valid());
    let mut board = Board::new();
    for _ in 0..105 {
        board.tableau[0].add(up(4, Suit::Heart, Player::Player0));
    }
    assert!(!board.is_valid());
}
