use crapette::brain::board_node::BoardNode;
use crapette::brain::djikstra::brain_djikstra;
use crapette::brain::djikstra::compute_turn;
use crapette::brain::djikstra::finalize_moves;
use crapette::brain::djikstra::Search;
use crapette::brain::djikstra::SearchError;
use crapette::game::board::Board;
use crapette::game::cards::Card;
use crapette::game::custom_test_games::foundation_to_fill;
use crapette::game::custom_test_games::multiple_moves;
use crapette::game::custom_test_games::trivial_move;
use crapette::game::moves::CardAction;
use crapette::game::moves::CardActions;
use crapette::game::piles::PileType;
use crapette::game::players::Player;
use crapette::game::ranks::Rank;
use crapette::game::suits::Suit;

fn up(rank: u8, suit: Suit, player: Player) -> Card {
    Card::new_up(Rank::from(rank), suit, player)
}

fn down(rank: u8, suit: Suit, player: Player) -> Card {
    Card::new(Rank::from(rank), suit, player)
}

fn tableau(id: u8) -> PileType {
    PileType::Tableau { id }
}

fn is_tableau(kind: &PileType) -> bool {
    matches!(kind, PileType::Tableau { .. })
}

fn apply_all(board: &Board, moves: &CardActions, player: Player) -> Board {
    let mut board = board.clone();
    for action in moves.iter() {
        board.apply_action(action, player);
    }
    board
}

#[test]
fn test_search_trivial_move() {
    let mut board = Board::new();
    trivial_move(&mut board);
    let (moves, nb_nodes_visited) = brain_djikstra(&board, Player::Player0);
    assert_eq!(moves.len(), 1);
    match moves[0] {
        CardAction::Move { card, origin, destination } => {
            assert_eq!(card, up(5, Suit::Diamond, Player::Player0));
            assert!(origin.is_same(&tableau(0)));
            assert!(destination.is_same(&tableau(1)));
        }
        _ => panic!("a move was expected"),
    }
    assert_eq!(nb_nodes_visited, 2);
    let after = apply_all(&board, &moves, Player::Player0);
    assert_eq!(after.tableau[0].nb_cards(), 0);
    assert_eq!(
        after.tableau[1].cards,
        vec![up(6, Suit::Club, Player::Player0), up(5, Suit::Diamond, Player::Player0)]
    );
}

#[test]
fn test_search_foundation_to_fill() {
    let mut board = Board::new();
    foundation_to_fill(&mut board);
    let (moves, _) = brain_djikstra(&board, Player::Player0);
    assert_eq!(moves.len(), 1);
    match moves[0] {
        CardAction::Move { card, origin, destination } => {
            assert_eq!(card, up(13, Suit::Diamond, Player::Player0));
            assert!(origin.is_same(&tableau(0)));
            assert!(destination.is_same(&PileType::Foundation { id: 0, suit: Suit::Diamond }));
        }
        _ => panic!("a move was expected"),
    }
    let after = apply_all(&board, &moves, Player::Player0);
    assert_eq!(after.foundation[0].nb_cards(), 13);
    assert!(after.foundation[0].is_full());
    assert_eq!(after.tableau[0].nb_cards(), 0);
}

#[test]
fn test_search_multiple_moves() {
    let mut board = Board::new();
    multiple_moves(&mut board);
    let (moves, _) = brain_djikstra(&board, Player::Player0);
    assert_eq!(moves.len(), 2);
    for action in moves.iter() {
        match action {
            CardAction::Move { card, origin, destination } => {
                assert_eq!(card.rank.0, 5);
                assert!(is_tableau(origin));
                assert!(is_tableau(destination));
            }
            _ => panic!("a move was expected"),
        }
    }
    let after = apply_all(&board, &moves, Player::Player0);
    let mut sizes: Vec<usize> = after.tableau.iter().map(|pile| pile.nb_cards()).collect();
    sizes.sort();
    assert_eq!(sizes, vec![0, 0, 0, 0, 0, 0, 2, 2]);
    for pile in after.tableau.iter() {
        if pile.nb_cards() == 2 {
            assert_eq!(pile.cards[0].rank.0, 6);
            assert_eq!(pile.cards[1].rank.0, 5);
            assert!(!pile.cards[0].is_same_color(&pile.cards[1]));
        }
    }
}

#[test]
fn test_search_symmetric_empty_prune() {
    let mut board = Board::new();
    board.tableau[0].add(up(5, Suit::Diamond, Player::Player0));
    let (moves, nb_nodes_visited) = brain_djikstra(&board, Player::Player0);
    assert_eq!(moves.len(), 0);
    assert_eq!(nb_nodes_visited, 1);

    // With a waste and no stock, the turn closes by turning the waste over.
    board.waste[0].add(up(9, Suit::Club, Player::Player0));
    let (moves, _) = brain_djikstra(&board, Player::Player0);
    assert_eq!(moves.len(), 1);
    assert!(matches!(moves[0], CardAction::FlipWaste));
}

#[test]
fn test_search_no_undo() {
    // Parent: T0 = [6c, 5d], T1 = [6s]. Child: the 5d has gone from T0 to T1.
    let mut parent = Board::new();
    parent.tableau[0].add(up(6, Suit::Club, Player::Player0));
    parent.tableau[0].add(up(5, Suit::Diamond, Player::Player0));
    parent.tableau[1].add(up(6, Suit::Spade, Player::Player0));
    let parent_node = BoardNode::new(parent.clone(), Player::Player0, &CardActions::new());
    let action = CardAction::Move {
        card: up(5, Suit::Diamond, Player::Player0),
        origin: tableau(0),
        destination: tableau(1),
    };
    let child_board = parent.copy_with_action(&action, Player::Player0);
    let mut moves = CardActions::new();
    moves.push(action);
    let mut child = BoardNode::new(child_board, Player::Player0, &moves);
    child.cost = parent_node.compute_move_cost(&action);

    let mut known: Vec<BoardNode> = Vec::new();
    let mut unvisited: Vec<BoardNode> = Vec::new();
    child.search_neighbors(&mut known, &mut unvisited);
    assert_eq!(known.len(), 1);
    assert_eq!(unvisited.len(), 1);
    for node in known.iter() {
        assert!(!node.board.eq(&parent));
        assert_eq!(node.moves.len(), 2);
    }
    // Without the last move the way back is a neighbour like any other.
    let free = BoardNode::new(child.board.clone(), Player::Player0, &CardActions::new());
    let mut known: Vec<BoardNode> = Vec::new();
    let mut unvisited: Vec<BoardNode> = Vec::new();
    free.search_neighbors(&mut known, &mut unvisited);
    assert!(known.iter().any(|node| node.board.eq(&parent)));
}

#[test]
fn test_search_mirror_foundation_dedup() {
    let mut board = Board::new();
    board.tableau[0].add(up(1, Suit::Diamond, Player::Player0));
    let node = BoardNode::new(board.clone(), Player::Player0, &CardActions::new());
    let dest = node.get_piles_dest();
    let first = PileType::Foundation { id: 0, suit: Suit::Diamond };
    let second = PileType::Foundation { id: 7, suit: Suit::Diamond };
    assert_eq!(dest.iter().filter(|kind| kind.is_same(&first)).count(), 1);
    assert_eq!(dest.iter().filter(|kind| kind.is_same(&second)).count(), 0);
    // tableau: one pile with a card and one of the empty ones; foundation: the first four
    assert_eq!(dest.len(), 2 + 4);

    // Once the first pile of diamonds holds a card, the second is a destination of its own.
    let mut board = Board::new();
    board.foundation[0].add(up(1, Suit::Diamond, Player::Player0));
    let node = BoardNode::new(board, Player::Player0, &CardActions::new());
    let dest = node.get_piles_dest();
    assert_eq!(dest.iter().filter(|kind| kind.is_same(&first)).count(), 1);
    assert_eq!(dest.iter().filter(|kind| kind.is_same(&second)).count(), 1);
}

#[test]
fn test_origin_candidates() {
    let mut board = Board::new();
    board.tableau[1].add(up(5, Suit::Diamond, Player::Player0));
    board.tableau[3].add(up(5, Suit::Diamond, Player::Player1));
    board.tableau[4].add(up(9, Suit::Club, Player::Player0));
    board.crape[0].add(down(2, Suit::Club, Player::Player0));
    board.stock[0].add(up(3, Suit::Club, Player::Player0));
    board.crape[1].add(up(4, Suit::Club, Player::Player1));
    board.stock[1].add(up(4, Suit::Heart, Player::Player1));
    let node = BoardNode::new(board, Player::Player0, &CardActions::new());
    let orig = node.get_piles_orig();
    // T3 holds the same card as T1; the crape faces down; the piles of the opponent do not count
    assert_eq!(orig.len(), 3);
    assert!(orig[0].is_same(&tableau(1)));
    assert!(orig[1].is_same(&tableau(4)));
    assert!(orig[2].is_same(&PileType::Stock { player: Player::Player0 }));
}

#[test]
fn test_search_terminal_origin() {
    // The crape card can go on the tableau; after that no other move is made in the turn.
    let mut board = Board::new();
    board.tableau[0].add(up(6, Suit::Club, Player::Player0));
    board.tableau[1].add(up(4, Suit::Club, Player::Player0));
    board.crape[0].add(down(9, Suit::Spade, Player::Player0));
    board.crape[0].add(up(5, Suit::Diamond, Player::Player0));
    board.stock[0].add(down(2, Suit::Heart, Player::Player0));
    let (moves, _) = brain_djikstra(&board, Player::Player0);
    // the crape card goes onto the six, which ends the search; the crape is then turned up
    assert_eq!(moves.len(), 2);
    match moves[0] {
        CardAction::Move { card, origin, destination } => {
            assert_eq!(card, up(5, Suit::Diamond, Player::Player0));
            assert!(origin.is_same(&PileType::Crape { player: Player::Player0 }));
            assert!(destination.is_same(&tableau(0)));
        }
        _ => panic!("a move was expected"),
    }
    match moves[1] {
        CardAction::Flip { pile } => {
            assert!(pile.is_same(&PileType::Crape { player: Player::Player0 }));
        }
        _ => panic!("a flip was expected"),
    }
    let from_player_piles = moves
        .iter()
        .take(1)
        .filter(|action| match action {
            CardAction::Move { origin, .. } => !is_tableau(origin),
            _ => false,
        })
        .count();
    assert_eq!(from_player_piles, 1);
}

#[test]
fn test_finalize_moves_rules() {
    let player = Player::Player0;
    // nothing to draw: nothing is appended
    let board = Board::new();
    assert_eq!(finalize_moves(CardActions::new(), &board, player).len(), 0);

    // crape face down: it is turned up, whatever the stock holds
    let mut board = Board::new();
    board.crape[0].add(down(3, Suit::Club, player));
    board.stock[0].add(up(4, Suit::Club, player));
    let moves = finalize_moves(CardActions::new(), &board, player);
    assert_eq!(moves.len(), 1);
    assert!(matches!(moves[0], CardAction::Flip { pile: PileType::Crape { player: Player::Player0 } }));

    // crape face up, stock face down: the stock is turned up
    let mut board = Board::new();
    board.crape[0].add(up(3, Suit::Club, player));
    board.stock[0].add(down(4, Suit::Club, player));
    let moves = finalize_moves(CardActions::new(), &board, player);
    assert_eq!(moves.len(), 1);
    assert!(matches!(moves[0], CardAction::Flip { pile: PileType::Stock { player: Player::Player0 } }));

    // stock face up: its top card goes to the waste
    let mut board = Board::new();
    board.stock[0].add(up(4, Suit::Club, player));
    board.waste[0].add(up(8, Suit::Club, player));
    let moves = finalize_moves(CardActions::new(), &board, player);
    assert_eq!(moves.len(), 1);
    match moves[0] {
        CardAction::Move { card, origin, destination } => {
            assert_eq!(card, up(4, Suit::Club, player));
            assert!(origin.is_same(&PileType::Stock { player }));
            assert!(destination.is_same(&PileType::Waste { player }));
        }
        _ => panic!("a move was expected"),
    }

    // stock empty, waste not: the waste is turned over
    let mut board = Board::new();
    board.waste[0].add(up(8, Suit::Club, player));
    let mut before = CardActions::new();
    before.push(CardAction::Flip { pile: tableau(0) });
    let moves = finalize_moves(before, &board, player);
    assert_eq!(moves.len(), 2);
    assert!(matches!(moves[0], CardAction::Flip { .. }));
    assert!(matches!(moves[1], CardAction::FlipWaste));

    // the piles of the other player do not count
    let mut board = Board::new();
    board.waste[0].add(up(8, Suit::Club, player));
    assert_eq!(finalize_moves(CardActions::new(), &board, Player::Player1).len(), 0);
}

#[test]
fn test_search_is_the_same_for_rearranged_boards() {
    let mut first = Board::new();
    first.tableau[0].add(up(5, Suit::Diamond, Player::Player0));
    first.tableau[1].add(up(6, Suit::Club, Player::Player0));
    first.tableau[2].add(up(5, Suit::Heart, Player::Player0));
    first.tableau[3].add(up(6, Suit::Spade, Player::Player0));
    let mut second = Board::new();
    second.tableau[7].add(up(5, Suit::Diamond, Player::Player0));
    second.tableau[2].add(up(6, Suit::Club, Player::Player0));
    second.tableau[5].add(up(5, Suit::Heart, Player::Player0));
    second.tableau[0].add(up(6, Suit::Spade, Player::Player0));
    assert!(first.eq(&second));
    assert_eq!(first.encode(), second.encode());
    let (moves1, _) = brain_djikstra(&first, Player::Player0);
    let (moves2, _) = brain_djikstra(&second, Player::Player0);
    let end1 = apply_all(&first, &moves1, Player::Player0);
    let end2 = apply_all(&second, &moves2, Player::Player0);
    assert!(end1.eq(&end2));
    assert_eq!(end1.encode(), end2.encode());
}

#[test]
fn test_search_is_the_same_for_rearranged_boards_with_a_card_face_down() {
    let mut first = Board::new();
    first.tableau[0].add(down(9, Suit::Spade, Player::Player1));
    first.tableau[0].add(up(5, Suit::Diamond, Player::Player0));
    first.tableau[1].add(up(6, Suit::Club, Player::Player0));
    first.tableau[3].add(up(4, Suit::Spade, Player::Player0));
    let mut second = Board::new();
    second.tableau[6].add(down(9, Suit::Spade, Player::Player1));
    second.tableau[6].add(up(5, Suit::Diamond, Player::Player0));
    second.tableau[4].add(up(6, Suit::Club, Player::Player0));
    second.tableau[1].add(up(4, Suit::Spade, Player::Player0));
    assert!(first.is_valid());
    assert!(second.is_valid());
    assert!(first.eq(&second));
    let (moves1, _) = brain_djikstra(&first, Player::Player0);
    let (moves2, _) = brain_djikstra(&second, Player::Player0);
    let end1 = apply_all(&first, &moves1, Player::Player0);
    let end2 = apply_all(&second, &moves2, Player::Player0);
    assert!(end1.eq(&end2));
    assert_eq!(end1.encode(), end2.encode());
}

#[test]
fn test_search_steps_never_lower_the_best_score() {
    let mut board = Board::new();
    multiple_moves(&mut board);
    let mut search = Search::new(&board, Player::Player0);
    let mut last = search.max_score;
    let mut steps = 0;
    while search.step() {
        assert!(search.max_score >= last);
        last = search.max_score;
        steps += 1;
        assert_eq!(search.nb_nodes_visited, steps);
    }
    assert!(steps >= 3);
    assert_eq!(search.known_unvisited_nodes.len(), 0);
    assert_eq!(search.best_node.score, search.max_score);
    // one node for each position, however many plans lead to it
    for (i, a) in search.known_nodes.iter().enumerate() {
        for b in search.known_nodes.iter().skip(i + 1) {
            assert!(!a.board.eq(&b.board));
        }
    }
}

#[test]
fn test_compute_turn_refuses_a_bad_board() {
    let mut board = Board::new();
    // a club on the foundation pile of the diamonds
    board.foundation[0].add(up(1, Suit::Club, Player::Player0));
    assert_eq!(compute_turn(&board, Player::Player0).err(), Some(SearchError::InputViolation));

    let mut board = Board::new();
    trivial_move(&mut board);
    let moves = compute_turn(&board, Player::Player0).unwrap();
    assert_eq!(moves.len(), 1);
}

#[test]
fn test_returned_actions_are_legal_in_turn() {
    let mut board = Board::new();
    board.tableau[0].add(up(6, Suit::Club, Player::Player1));
    board.tableau[1].add(up(5, Suit::Diamond, Player::Player1));
    board.tableau[2].add(up(4, Suit::Spade, Player::Player1));
    board.foundation[1].add(up(1, Suit::Club, Player::Player1));
    board.stock[1].add(up(2, Suit::Club, Player::Player1));
    board.waste[0].add(up(3, Suit::Club, Player::Player0));
    let player = Player::Player1;
    let (moves, _) = brain_djikstra(&board, player);
    assert!(moves.len() >= 2);
    let mut current = board.clone();
    for action in moves.iter() {
        match action {
            CardAction::Move { card, origin, destination } => {
                let from = current.pile_from_type(origin);
                let to = current.pile_from_type(destination);
                assert_eq!(from.top_card(), Some(card));
                assert!(from.can_pop_card(&player));
                assert!(to.can_add_card(card, origin, &player));
            }
            CardAction::Flip { pile } => {
                assert!(current.pile_from_type(pile).can_flip_card_up(&player));
            }
            CardAction::FlipWaste => {
                assert!(current.stock[1].is_empty());
                assert!(!current.waste[1].is_empty());
            }
        }
        current.apply_action(action, player);
    }
    assert!(current.is_valid());
}

#[test]
fn test_search_plan_never_takes_a_move_back() {
    // T0 = [6c, 5d], T1 = [6s], T2 = [7d]: the five can wander, the six can go on the seven
    let mut board = Board::new();
    board.tableau[0].add(up(6, Suit::Club, Player::Player0));
    board.tableau[0].add(up(5, Suit::Diamond, Player::Player0));
    board.tableau[1].add(up(6, Suit::Spade, Player::Player0));
    board.tableau[2].add(up(7, Suit::Diamond, Player::Player0));
    let mut search = Search::new(&board, Player::Player0);
    while search.step() {}
    assert!(search.known_nodes.len() > 3);
    for node in search.known_nodes.iter() {
        let moves: Vec<&CardAction> = node.moves.iter().collect();
        for pair in moves.windows(2) {
            match (pair[0], pair[1]) {
                (
                    CardAction::Move { origin: a, destination: b, .. },
                    CardAction::Move { origin: from, destination: to, .. },
                ) => {
                    assert!(!(b.is_same(from) && a.is_same(to)));
                }
                _ => panic!("only moves are expected"),
            }
        }
        // the plan of the node leads to its board
        let reached = apply_all(&board, &node.moves, Player::Player0);
        assert!(reached.eq(&node.board));
        assert_eq!(node.cost.nb_moves, node.moves.len());
    }
    let (moves, visited) = brain_djikstra(&board, Player::Player0);
    assert_eq!(visited, search.nb_nodes_visited);
    assert_eq!(moves.len(), search.best_node.moves.len());
    // a six ends on the seven with the five on it, and the other six stays alone
    let end = apply_all(&board, &moves, Player::Player0);
    let mut sizes: Vec<usize> = end.tableau.iter().map(|pile| pile.nb_cards()).collect();
    sizes.sort();
    assert_eq!(sizes, vec![0, 0, 0, 0, 0, 0, 1, 3]);
}
