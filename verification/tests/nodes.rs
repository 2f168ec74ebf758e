use crapette::brain::board_node::BoardNode;
use crapette::brain::cost::Cost;
use crapette::brain::tables::find_position;
use crapette::brain::tables::pop_first;
use crapette::game::board::Board;
use crapette::game::cards::Card;
use crapette::game::moves::CardAction;
use crapette::game::moves::CardActions;
use crapette::game::piles::PileType;
use crapette::game::players::Player;
use crapette::game::ranks::Rank;
use crapette::game::suits::Suit;
use std::cmp::Ordering;

fn up(rank: u8, suit: Suit) -> Card {
    Card::new_up(Rank::from(rank), suit, Player::Player0)
}

fn a_move(origin: PileType, destination: PileType) -> CardAction {
    CardAction::Move { card: up(5, Suit::Diamond), origin, destination }
}

const T0: PileType = PileType::Tableau { id: 0 };
const T1: PileType = PileType::Tableau { id: 1 };
const F0: PileType = PileType::Foundation { id: 0, suit: Suit::Diamond };
const C0: PileType = PileType::Crape { player: Player::Player0 };
const C1: PileType = PileType::Crape { player: Player::Player1 };
const S0: PileType = PileType::Stock { player: Player::Player0 };
const W1: PileType = PileType::Waste { player: Player::Player1 };

#[test]
fn test_compute_move_cost() {
    let node = BoardNode::new(Board::new(), Player::Player0, &CardActions::new());
    assert_eq!(node.cost.nb_moves, 0);
    assert_eq!(node.cost.move_costs.len(), 0);
    let cost = node.compute_move_cost(&a_move(T0, T1));
    assert_eq!(cost.nb_moves, 1);
    assert_eq!(cost.move_costs, vec![[3, 0]]);
    assert_eq!(node.compute_move_cost(&a_move(T0, F0)).move_costs, vec![[0, 0]]);
    assert_eq!(node.compute_move_cost(&a_move(C0, C1)).move_costs, vec![[1, 1]]);
    assert_eq!(node.compute_move_cost(&a_move(S0, W1)).move_costs, vec![[2, 2]]);
    assert_eq!(node.compute_move_cost(&a_move(C0, T1)).move_costs, vec![[3, 1]]);
    let mut longer = BoardNode::new(Board::new(), Player::Player0, &CardActions::new());
    longer.cost = cost;
    let two = longer.compute_move_cost(&a_move(S0, F0));
    assert_eq!(two.nb_moves, 2);
    assert_eq!(two.move_costs, vec![[3, 0], [0, 2]]);
}

#[test]
fn test_cost_order() {
    let none = Cost::new();
    let to_foundation = none.extended(0, 0);
    let to_tableau = none.extended(3, 0);
    let from_crape = none.extended(0, 1);
    let two_cheap = to_foundation.extended(0, 0);
    // a shorter plan is cheaper, whatever its moves
    assert!(none.is_lower(&to_foundation));
    assert!(to_tableau.is_lower(&two_cheap));
    assert!(!two_cheap.is_lower(&to_tableau));
    // of two plans of one length the first differing move decides
    assert!(to_foundation.is_lower(&to_tableau));
    assert!(to_foundation.is_lower(&from_crape));
    assert!(from_crape.is_lower(&to_tableau));
    assert!(!to_tableau.is_lower(&to_tableau));
    assert!(to_tableau.is_same(&none.extended(3, 0)));
    assert!(!to_tableau.is_same(&from_crape));
    assert!(to_tableau.extended(0, 0).is_lower(&to_tableau.extended(0, 1)));
}

fn node_with(board: Board, cost: Cost) -> BoardNode {
    let mut node = BoardNode::new(board, Player::Player0, &CardActions::new());
    node.cost = cost;
    node
}

#[test]
fn test_node_order_and_pop_first() {
    let mut rich = Board::new();
    rich.foundation[0].add(up(1, Suit::Diamond));
    let mut plain = Board::new();
    plain.tableau[0].add(up(1, Suit::Diamond));
    let mut other = Board::new();
    other.tableau[0].add(up(1, Suit::Heart));

    let cheap = Cost::new().extended(0, 0);
    let dear = Cost::new().extended(3, 0);
    let a = node_with(rich.clone(), dear.clone());
    let b = node_with(plain.clone(), cheap.clone());
    let c = node_with(other.clone(), cheap.clone());
    // the cost first
    assert_eq!(b.cmp(&a), Ordering::Less);
    assert_eq!(a.cmp(&b), Ordering::Greater);
    assert!(b.is_before(&a));
    // same cost and same score: the boards decide
    assert_eq!(b.score, c.score);
    assert_eq!(b.cmp(&c), Ordering::Less);
    assert_eq!(c.cmp(&b), Ordering::Greater);
    // same cost: the lower score comes first
    let d = node_with(rich.clone(), cheap.clone());
    assert_eq!(b.cmp(&d), Ordering::Less);
    assert_eq!(d.cmp(&b), Ordering::Greater);
    assert_eq!(a.partial_cmp(&a), Some(Ordering::Equal));
    assert!(a.eq(&d));
    assert!(!a.eq(&b));

    let mut frontier = vec![a.clone(), c.clone(), b.clone(), d.clone()];
    assert_eq!(find_position(&frontier, &other), 1);
    assert_eq!(find_position(&frontier, &rich), 0);
    assert_eq!(find_position(&frontier, &Board::new()), 4);
    let first = pop_first(&mut frontier).unwrap();
    assert!(first.board.eq(&plain));
    assert_eq!(frontier.len(), 3);
    let second = pop_first(&mut frontier).unwrap();
    assert!(second.board.eq(&other));
    let third = pop_first(&mut frontier).unwrap();
    assert!(third.board.eq(&rich));
    assert!(third.cost.is_same(&cheap));
    let fourth = pop_first(&mut frontier).unwrap();
    assert!(fourth.cost.is_same(&dear));
    assert!(pop_first(&mut frontier).is_none());
}

#[test]
fn test_register_keeps_the_cheapest_plan() {
    // T0 = [5d], T1 = [6c], T2 = [6s]: the 5d can go on either six
    let mut board = Board::new();
    board.tableau[0].add(up(5, Suit::Diamond));
    board.tableau[1].add(up(6, Suit::Club));
    let parent = BoardNode::new(board.clone(), Player::Player0, &CardActions::new());
    let action = a_move(T0, T1);
    let child_board = board.copy_with_action(&action, Player::Player0);

    let mut known: Vec<BoardNode> = Vec::new();
    let mut unvisited: Vec<BoardNode> = Vec::new();
    parent.register_next_board(action, &mut known, &mut unvisited);
    assert_eq!(known.len(), 1);
    assert_eq!(unvisited.len(), 1);
    assert!(known[0].board.eq(&child_board));
    assert_eq!(known[0].moves.len(), 1);
    assert_eq!(known[0].cost.move_costs, vec![[3, 0]]);
    assert_eq!(known[0].score, [0, 0, 0, 7, 2, 0, 0, 0, 0, 0, 0, 0]);

    // the same board by a plan that costs as much: nothing changes
    parent.register_next_board(action, &mut known, &mut unvisited);
    assert_eq!(known.len(), 1);
    assert_eq!(unvisited.len(), 1);

    // the same board by a longer plan: nothing changes
    let mut longer = BoardNode::new(board.clone(), Player::Player0, &CardActions::new());
    longer.cost = Cost::new().extended(0, 0);
    longer.register_next_board(action, &mut known, &mut unvisited);
    assert_eq!(known.len(), 1);
    assert_eq!(known[0].cost.nb_moves, 1);

    // a dearer plan is known: the cheaper one takes its place in both tables
    let mut dear = known[0].clone();
    dear.cost = Cost::new().extended(3, 2);
    let mut known = vec![dear.clone()];
    let mut unvisited = vec![dear];
    parent.register_next_board(action, &mut known, &mut unvisited);
    assert_eq!(known.len(), 1);
    assert_eq!(unvisited.len(), 1);
    assert_eq!(known[0].cost.move_costs, vec![[3, 0]]);
    assert_eq!(unvisited[0].cost.move_costs, vec![[3, 0]]);
}
