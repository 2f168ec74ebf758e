use crapette::game::cards::Card;
use crapette::game::decks::generate_seed;
use crapette::game::decks::new_deck;
use crapette::game::decks::new_rng;
use crapette::game::decks::shuffle;
use crapette::game::decks::NB_CARDS;
use crapette::game::players::Player;
use crapette::game::ranks::Rank;
use crapette::game::suits::Suit;

#[test]
fn test_nb_cards() {
    assert_eq!(NB_CARDS, 52);
}

#[test]
fn test_new_shuffled_deck() {
    let deck1 = new_deck(Player::Player0);
    let mut deck2 = new_deck(Player::Player0);
    let mut rng = new_rng("test".to_string());
    shuffle(&mut deck2, &mut rng);
    assert_ne!(deck1, deck2);
    assert_eq!(deck2.len(), NB_CARDS);
}

#[test]
fn test_new_deck_order() {
    let deck = new_deck(Player::Player1);
    assert_eq!(deck.len(), NB_CARDS);
    assert_eq!(deck[0], Card::new(Rank::from(1), Suit::Club, Player::Player1));
    assert_eq!(deck[12], Card::new(Rank::from(13), Suit::Club, Player::Player1));
    assert_eq!(deck[13], Card::new(Rank::from(1), Suit::Diamond, Player::Player1));
    assert_eq!(deck[51], Card::new(Rank::from(13), Suit::Spade, Player::Player1));
    for card in deck.iter() {
        assert!(!card.face_up);
        assert_eq!(*card.player(), Player::Player1);
    }
}

#[test]
fn test_shuffle_keeps_the_cards() {
    let mut deck = new_deck(Player::Player0);
    let mut rng = new_rng("another seed".to_string());
    shuffle(&mut deck, &mut rng);
    let mut ids: Vec<u8> = deck.iter().map(|card| card.id()).collect();
    ids.sort();
    let mut expected: Vec<u8> = new_deck(Player::Player0).iter().map(|card| card.id()).collect();
    expected.sort();
    assert_eq!(ids, expected);
}

#[test]
fn test_same_seed_same_shuffle() {
    let mut deck1 = new_deck(Player::Player0);
    let mut deck2 = new_deck(Player::Player0);
    shuffle(&mut deck1, &mut new_rng("seed".to_string()));
    shuffle(&mut deck2, &mut new_rng("seed".to_string()));
    assert_eq!(deck1, deck2);
}

#[test]
fn test_generate_seed() {
    let seed = generate_seed();
    assert_eq!(seed.chars().count(), 20);
    assert!(seed.chars().all(|c| c.is_ascii_alphanumeric()));
}
