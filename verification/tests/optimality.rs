use crapette::brain::board_score::board_score;
use crapette::brain::board_score::score_gt;
use crapette::brain::board_score::BoardScore;
use crapette::brain::djikstra::Search;
use crapette::game::board::Board;
use crapette::game::cards::Card;
use crapette::game::custom_test_games::multiple_moves;
use crapette::game::moves::CardAction;
use crapette::game::piles::PileType;
use crapette::game::players::Player;
use crapette::game::ranks::Rank;
use crapette::game::suits::Suit;
use std::collections::HashSet;

fn up(rank: u8, suit: Suit, player: Player) -> Card {
    Card::new_up(Rank::from(rank), suit, player)
}

fn foundation_suit(slot: u8) -> Suit {
    [
        Suit::Diamond,
        Suit::Club,
        Suit::Heart,
        Suit::Spade,
        Suit::Spade,
        Suit::Heart,
        Suit::Club,
        Suit::Diamond,
    ][slot as usize]
}

// every pile that a card may come from, and every pile that it may go to
fn all_moves(player: Player) -> Vec<(PileType, PileType)> {
    let mut origins: Vec<PileType> = (0..8).map(|id| PileType::Tableau { id }).collect();
    origins.push(PileType::Crape { player });
    origins.push(PileType::Stock { player });
    let mut destinations: Vec<PileType> = (0..8).map(|id| PileType::Tableau { id }).collect();
    destinations.extend((0..8).map(|id| PileType::Foundation { id, suit: foundation_suit(id) }));
    destinations.push(PileType::Crape { player: player.other() });
    destinations.push(PileType::Waste { player: player.other() });
    let mut moves = Vec::new();
    for origin in origins.iter() {
        for destination in destinations.iter() {
            moves.push((*origin, *destination));
        }
    }
    moves
}

// the exact content of a board, slot by slot
fn fingerprint(board: &Board) -> Vec<Vec<(u8, Suit, bool)>> {
    board
        .stock
        .iter()
        .chain(board.waste.iter())
        .chain(board.crape.iter())
        .chain(board.foundation.iter())
        .chain(board.tableau.iter())
        .map(|pile| pile.cards.iter().map(|c| (c.rank.0, c.suit, c.face_up)).collect())
        .collect()
}

// the highest score of the boards that the plans of one turn lead to, found by trying them all
fn best_by_trying_all(
    board: &Board,
    player: Player,
    seen: &mut HashSet<Vec<Vec<(u8, Suit, bool)>>>,
    best: &mut BoardScore,
    moves: &Vec<(PileType, PileType)>,
) {
    let mut open: Vec<Board> = vec![board.clone()];
    seen.insert(fingerprint(board));
    while let Some(current) = open.pop() {
        let score = board_score(&current, player);
        if score_gt(&score, best) {
            *best = score;
        }
        for (origin, destination) in moves.iter() {
            if origin.is_same(destination) {
                continue;
            }
            let from = current.pile_from_type(origin);
            let card = match from.top_card() {
                Some(card) => *card,
                None => continue,
            };
            let from_player_pile = !matches!(origin, PileType::Tableau { .. });
            if from_player_pile && !card.face_up {
                continue;
            }
            if !current.pile_from_type(destination).can_add_card(&card, origin, &player) {
                continue;
            }
            let next = current.copy_with_action(
                &CardAction::Move { card, origin: *origin, destination: *destination },
                player,
            );
            if !seen.insert(fingerprint(&next)) {
                continue;
            }
            if from_player_pile {
                // the turn ends here
                let score = board_score(&next, player);
                if score_gt(&score, best) {
                    *best = score;
                }
            } else {
                open.push(next);
            }
        }
    }
}

fn check_search_finds_the_best(board: &Board, player: Player) {
    assert!(board.is_valid());
    let mut search = Search::new(board, player);
    while search.step() {}
    assert_eq!(search.known_unvisited_nodes.len(), 0);
    let found = board_score(&search.best_node.board, player);
    assert_eq!(found, search.max_score);

    let mut seen = HashSet::new();
    let mut best = board_score(board, player);
    best_by_trying_all(board, player, &mut seen, &mut best, &all_moves(player));
    assert_eq!(found, best);
    // the search knows one node for each position, however many boards are arranged like it
    assert!(search.known_nodes.len() <= seen.len());
}

#[test]
fn test_search_finds_the_best_of_all_plans_small() {
    let mut board = Board::new();
    multiple_moves(&mut board);
    check_search_finds_the_best(&board, Player::Player0);

    let mut board = Board::new();
    board.tableau[0].add(up(6, Suit::Club, Player::Player0));
    board.tableau[0].add(up(5, Suit::Diamond, Player::Player0));
    board.tableau[1].add(up(6, Suit::Spade, Player::Player0));
    board.tableau[2].add(up(7, Suit::Diamond, Player::Player0));
    board.tableau[3].add(up(1, Suit::Heart, Player::Player0));
    board.tableau[4].add(up(2, Suit::Heart, Player::Player1));
    board.crape[0].add(up(4, Suit::Spade, Player::Player0));
    board.stock[0].add(up(3, Suit::Heart, Player::Player0));
    board.crape[1].add(up(8, Suit::Diamond, Player::Player1));
    board.waste[1].add(up(7, Suit::Club, Player::Player1));
    check_search_finds_the_best(&board, Player::Player0);
    check_search_finds_the_best(&board, Player::Player1);
}

#[test]
fn test_search_finds_the_best_of_all_plans_with_foundation() {
    let mut board = Board::new();
    board.foundation[0].add(up(1, Suit::Diamond, Player::Player0));
    board.foundation[3].add(up(1, Suit::Spade, Player::Player1));
    board.tableau[0].add(up(3, Suit::Diamond, Player::Player0));
    board.tableau[0].add(up(2, Suit::Spade, Player::Player0));
    board.tableau[1].add(up(2, Suit::Diamond, Player::Player0));
    board.tableau[2].add(up(1, Suit::Diamond, Player::Player1));
    board.tableau[5].add(up(4, Suit::Club, Player::Player1));
    board.crape[1].add(up(5, Suit::Club, Player::Player1));
    board.stock[1].add(up(3, Suit::Spade, Player::Player1));
    board.crape[0].add(up(4, Suit::Diamond, Player::Player0));
    check_search_finds_the_best(&board, Player::Player1);
    check_search_finds_the_best(&board, Player::Player0);
}
