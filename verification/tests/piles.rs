use crapette::game::cards::Card;
use crapette::game::piles::Pile;
use crapette::game::piles::PileType;
use crapette::game::players::Player;
use crapette::game::ranks::Rank;
use crapette::game::suits::Suit;
use std::cmp::Ordering;

fn up(rank: u8, suit: Suit) -> Card {
    Card::new_up(Rank::from(rank), suit, Player::Player0)
}

fn down(rank: u8, suit: Suit) -> Card {
    Card::new(Rank::from(rank), suit, Player::Player0)
}

const FIRST: Player = Player::Player0;
const SECOND: Player = Player::Player1;

#[test]
fn test_pile_type_is_same() {
    let f0 = PileType::Foundation { id: 0, suit: Suit::Diamond };
    let f0_other_suit = PileType::Foundation { id: 0, suit: Suit::Club };
    let f7 = PileType::Foundation { id: 7, suit: Suit::Diamond };
    assert!(f0.is_same(&f0_other_suit));
    assert!(!f0.is_same(&f7));
    assert!(PileType::Tableau { id: 3 }.is_same(&PileType::Tableau { id: 3 }));
    assert!(!PileType::Tableau { id: 3 }.is_same(&PileType::Tableau { id: 4 }));
    assert!(!PileType::Tableau { id: 0 }.is_same(&f0));
    assert!(PileType::Crape { player: FIRST }.is_same(&PileType::Crape { player: FIRST }));
    assert!(!PileType::Crape { player: FIRST }.is_same(&PileType::Crape { player: SECOND }));
    assert!(!PileType::Crape { player: FIRST }.is_same(&PileType::Stock { player: FIRST }));
    assert!(PileType::Waste { player: SECOND }.is_same(&PileType::Waste { player: SECOND }));
    assert!(f0.is_same_variant(&f7));
    assert!(!f0.is_same_variant(&PileType::Tableau { id: 0 }));
}

#[test]
fn test_can_add_card_foundation() {
    let mut pile = Pile::new_foundation(0, Suit::Diamond);
    let origin = PileType::Tableau { id: 0 };
    assert!(pile.can_add_card(&up(1, Suit::Diamond), &origin, &FIRST));
    assert!(!pile.can_add_card(&up(1, Suit::Heart), &origin, &FIRST));
    assert!(!pile.can_add_card(&up(2, Suit::Diamond), &origin, &FIRST));
    pile.add(up(1, Suit::Diamond));
    assert!(pile.can_add_card(&up(2, Suit::Diamond), &origin, &SECOND));
    assert!(!pile.can_add_card(&up(1, Suit::Diamond), &origin, &SECOND));
    assert!(!pile.is_full());
    for rank in 2..=13 {
        pile.add(up(rank, Suit::Diamond));
    }
    assert!(pile.is_full());
    assert!(pile.is_valid());
}

#[test]
fn test_can_add_card_tableau() {
    let mut pile = Pile::new_tableau(2);
    let origin = PileType::Tableau { id: 0 };
    assert!(pile.can_add_card(&up(9, Suit::Club), &origin, &FIRST));
    pile.add(up(6, Suit::Club));
    assert!(pile.can_add_card(&up(5, Suit::Diamond), &origin, &FIRST));
    assert!(pile.can_add_card(&up(5, Suit::Heart), &origin, &FIRST));
    assert!(!pile.can_add_card(&up(5, Suit::Spade), &origin, &FIRST));
    assert!(!pile.can_add_card(&up(5, Suit::Club), &origin, &FIRST));
    assert!(!pile.can_add_card(&up(7, Suit::Diamond), &origin, &FIRST));
    assert!(!pile.can_add_card(&up(4, Suit::Diamond), &origin, &FIRST));
}

#[test]
fn test_can_add_card_stock_waste_crape() {
    let from_tableau = PileType::Tableau { id: 0 };
    let from_stock0 = PileType::Stock { player: FIRST };
    let from_stock1 = PileType::Stock { player: SECOND };

    let stock = Pile::new_stock(FIRST);
    assert!(!stock.can_add_card(&up(5, Suit::Club), &from_tableau, &FIRST));
    assert!(!stock.can_add_card(&up(5, Suit::Club), &from_tableau, &SECOND));

    let mut waste = Pile::new_waste(FIRST);
    // the owner only plays from their own stock
    assert!(waste.can_add_card(&up(5, Suit::Club), &from_stock0, &FIRST));
    assert!(!waste.can_add_card(&up(5, Suit::Club), &from_stock1, &FIRST));
    assert!(!waste.can_add_card(&up(5, Suit::Club), &from_tableau, &FIRST));
    // the opponent needs a card to build on
    assert!(!waste.can_add_card(&up(5, Suit::Club), &from_tableau, &SECOND));
    waste.add(up(6, Suit::Club));
    assert!(waste.can_add_card(&up(5, Suit::Club), &from_tableau, &SECOND));
    assert!(waste.can_add_card(&up(7, Suit::Club), &from_tableau, &SECOND));
    assert!(!waste.can_add_card(&up(5, Suit::Spade), &from_tableau, &SECOND));
    assert!(!waste.can_add_card(&up(8, Suit::Club), &from_tableau, &SECOND));

    let mut crape = Pile::new_crape(FIRST);
    assert!(!crape.can_add_card(&up(5, Suit::Club), &from_tableau, &SECOND));
    crape.add(up(6, Suit::Club));
    assert!(crape.can_add_card(&up(5, Suit::Club), &from_tableau, &SECOND));
    assert!(crape.can_add_card(&up(7, Suit::Club), &from_tableau, &SECOND));
    // same suit is needed, and the owner never adds to their own crape
    assert!(!crape.can_add_card(&up(5, Suit::Spade), &from_tableau, &SECOND));
    assert!(!crape.can_add_card(&up(5, Suit::Club), &from_tableau, &FIRST));
    let mut hidden = Pile::new_crape(FIRST);
    hidden.add(down(6, Suit::Club));
    assert!(!hidden.can_add_card(&up(5, Suit::Club), &from_tableau, &SECOND));
}

#[test]
fn test_can_pop_and_flip() {
    assert!(!Pile::new_foundation(0, Suit::Diamond).can_pop_card(&FIRST));
    assert!(!Pile::new_waste(FIRST).can_pop_card(&FIRST));
    assert!(Pile::new_tableau(0).can_pop_card(&SECOND));
    assert!(Pile::new_stock(FIRST).can_pop_card(&FIRST));
    assert!(!Pile::new_stock(FIRST).can_pop_card(&SECOND));
    assert!(Pile::new_crape(SECOND).can_pop_card(&SECOND));
    assert!(!Pile::new_crape(SECOND).can_pop_card(&FIRST));

    let mut stock = Pile::new_stock(FIRST);
    assert!(!stock.can_flip_card_up(&FIRST));
    stock.add(down(3, Suit::Heart));
    assert!(stock.can_flip_card_up(&FIRST));
    assert!(!stock.can_flip_card_up(&SECOND));
    stock.flip_top_up();
    assert!(!stock.can_flip_card_up(&FIRST));
    let mut tableau = Pile::new_tableau(0);
    tableau.add(down(3, Suit::Heart));
    assert!(!tableau.can_flip_card_up(&FIRST));
}

#[test]
fn test_pile_contents() {
    let mut pile = Pile::new_tableau(0);
    assert!(pile.is_empty());
    assert_eq!(pile.top_card(), None);
    assert_eq!(pile.top_rank(), None);
    assert_eq!(pile.pop(), None);
    pile.add(up(3, Suit::Heart));
    pile.add(down(9, Suit::Spade));
    assert_eq!(pile.nb_cards(), 2);
    assert_eq!(pile.top_rank(), Some(&Rank(9)));
    pile.top_card_mut().unwrap().set_face_up();
    assert!(pile.top_card().unwrap().face_up);
    assert!(pile.cards[0].face_up);
    assert_eq!(pile.pop(), Some(up(9, Suit::Spade)));
    assert_eq!(pile.nb_cards(), 1);
    pile.set(vec![up(1, Suit::Club), up(2, Suit::Club), up(3, Suit::Club)]);
    assert_eq!(pile.nb_cards(), 3);
    assert_eq!(pile.top_rank(), Some(&Rank(3)));
    let copy = pile.clone();
    pile.clear();
    assert!(pile.is_empty());
    assert_eq!(copy.nb_cards(), 3);
    assert!(pile.is_same(&copy));
    assert!(!pile.is_same(&Pile::new_tableau(1)));
}

#[test]
fn test_pile_order() {
    let mut small = Pile::new_tableau(0);
    small.add(up(13, Suit::Spade));
    let mut big = Pile::new_tableau(1);
    big.add(up(1, Suit::Club));
    big.add(up(1, Suit::Club));
    // the number of cards comes first
    assert_eq!(small.cmp(&big), Ordering::Less);
    assert_eq!(big.cmp(&small), Ordering::Greater);
    assert!(big.comes_after(&small));
    assert!(!small.comes_after(&big));
    // then the cards from the bottom up, by rank and then by suit
    let mut a = Pile::new_tableau(2);
    a.add(up(5, Suit::Club));
    a.add(up(9, Suit::Club));
    let mut b = Pile::new_tableau(3);
    b.add(up(5, Suit::Diamond));
    b.add(up(2, Suit::Club));
    assert_eq!(a.cmp(&b), Ordering::Less);
    let mut c = Pile::new_tableau(4);
    c.add(down(5, Suit::Club));
    c.add(down(9, Suit::Club));
    assert_eq!(a.cmp(&c), Ordering::Equal);
    assert!(a.eq(&c));
    assert!(!a.eq(&b));
    assert_eq!(a.partial_cmp(&c), Some(Ordering::Equal));
    assert_eq!(a.partial_cmp(&Pile::new_stock(FIRST)), None);
}
