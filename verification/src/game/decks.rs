//! Decks of cards: a fresh deck, and what shuffles it.

use rand::distributions::Alphanumeric;
use rand::seq::SliceRandom;
use rand::Rng;
use rand_pcg::Pcg64;
use rand_seeder::Seeder;
use vstd::prelude::*;

use super::cards::Card;
use super::players::Player;
use super::ranks::Rank;
use super::suits::Suit;

verus! {

/// Number of cards in a deck.
pub const NB_CARDS: usize = 52;

/// Number of characters of a seed that the library draws.
pub const SEED_LENGTH: usize = 20;

/// The random generator of `rand_pcg`. Nothing is known of what it holds.
#[verifier::external_type_specification]
#[verifier::external_body]
pub struct ExPcg64(rand_pcg::Lcg128Xsl64);

/// The suit of the cards of a fresh deck from position `13 * k` on.
pub open spec fn suit_at(k: int) -> Suit {
    if k == 0 {
        Suit::Club
    } else if k == 1 {
        Suit::Diamond
    } else if k == 2 {
        Suit::Heart
    } else {
        Suit::Spade
    }
}

/// The fresh deck of `player`: suit by suit, each suit from the ace to the
/// king, every card face down.
pub open spec fn spec_new_deck(player: Player) -> Seq<Card> {
    Seq::new(
        52,
        |i: int|
            Card { rank: Rank((i % 13 + 1) as u8), suit: suit_at(i / 13), player, face_up: false },
    )
}

/// Whether `c` is a letter of the English alphabet or a digit.
pub open spec fn is_alphanumeric(c: char) -> bool {
    ||| 'A' as u32 <= c as u32 <= 'Z' as u32
    ||| 'a' as u32 <= c as u32 <= 'z' as u32
    ||| '0' as u32 <= c as u32 <= '9' as u32
}

/// Creates a fresh, sorted, deck of cards.
///
/// Use `shuffle` to shuffle the deck.
pub fn new_deck(player: Player) -> (deck: Vec<Card>)
    ensures
        deck@ == spec_new_deck(player),
{
    let suits = Suit::into_iter();
    let mut deck: Vec<Card> = Vec::new();
    let mut s: usize = 0;
    while s < 4
        invariant
            s <= 4,
            suits@ == seq![Suit::Club, Suit::Diamond, Suit::Heart, Suit::Spade],
            deck@.len() == 13 * s,
            forall|i: int| 0 <= i < deck@.len() ==> deck@[i] == spec_new_deck(player)[i],
        decreases 4 - s,
    {
        let suit = suits[s];
        let mut rank: u8 = 1;
        while rank <= 13
            invariant
                1 <= rank <= 14,
                s < 4,
                suit == suit_at(s as int),
                deck@.len() == 13 * s + rank - 1,
                forall|i: int| 0 <= i < deck@.len() ==> deck@[i] == spec_new_deck(player)[i],
            decreases 14 - rank,
        {
            deck.push(Card::new(Rank::from(rank), suit, player));
            rank += 1;
        }
        s += 1;
    }
    assert(deck@ =~= spec_new_deck(player));
    deck
}

/// Shuffles a deck of cards with a given random generator, by the method
/// `shuffle` that `rand` gives to slices. It puts the cards in another order
/// by swapping them: the deck holds the same cards afterwards, each as many
/// times as before. Which order comes out is not stated.
#[verifier::external_body]
pub fn shuffle(deck: &mut Vec<Card>, rng: &mut Pcg64)
    ensures
        final(deck)@.to_multiset() == old(deck)@.to_multiset(),
{
    deck.shuffle(rng);
}

/// Creates a random generator from a seed, by `Seeder::from` and
/// `Seeder::make_rng` of `rand_seeder`. Nothing is stated of the generator.
#[verifier::external_body]
pub fn new_rng(seed: String) -> (rng: Pcg64) {
    Seeder::from(seed).make_rng()
}

/// Draws `len` characters with `thread_rng` and `Alphanumeric` of `rand`,
/// which picks each character among the letters of the English alphabet
/// and the digits. Which characters come out is not stated.
#[verifier::external_body]
fn random_alphanumeric(len: usize) -> (r: String)
    ensures
        r@.len() == len,
        forall|i: int| 0 <= i < r@.len() ==> is_alphanumeric(#[trigger] r@[i]),
{
    rand::thread_rng().sample_iter(&Alphanumeric).take(len).map(char::from).collect()
}

/// Generates a random string to be used as a seed in `new_rng`: twenty
/// letters or digits, enough to tell apart all the deals of two decks.
pub fn generate_seed() -> (r: String)
    ensures
        r@.len() == SEED_LENGTH,
        forall|i: int| 0 <= i < r@.len() ==> is_alphanumeric(#[trigger] r@[i]),
{
    random_alphanumeric(SEED_LENGTH)
}

} // verus!
