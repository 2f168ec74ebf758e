//! Dealing the cards at the start of a game.
//!
//! Each player deals from their own shuffled deck: the last thirteen cards
//! make the crape, with its top card face up; the four cards before them go
//! face up on the four tableau piles of the player's side; the rest is the
//! stock.

use rand_pcg::Pcg64;
use vstd::prelude::*;

use super::board::Board;
use super::board::BoardView;
use super::cards::Card;
use super::decks::new_deck;
use super::decks::shuffle;
use super::decks::spec_new_deck;
use super::piles::PileView;
use super::piles::NB_CRAPE_START;
use super::players::Player;

verus! {

/// The cards `cards` with the last one face up.
pub open spec fn top_up(cards: Seq<Card>) -> Seq<Card> {
    if cards.len() > 0 {
        cards.update(cards.len() - 1, cards.last().facing(true))
    } else {
        cards
    }
}

/// Whether `deck` holds the cards of the fresh deck of `player`, in
/// whatever order.
pub open spec fn is_shuffled_deck(deck: Seq<Card>, player: Player) -> bool {
    deck.to_multiset() == spec_new_deck(player).to_multiset()
}

impl BoardView {
    /// The board with the last thirteen cards of `deck` as the crape of
    /// `player`, the top card face up.
    pub open spec fn deal_crape(self, player: Player, deck: Seq<Card>) -> BoardView {
        let p = player.spec_index();
        BoardView {
            crape: self.crape.update(
                p,
                PileView { cards: top_up(deck.skip(deck.len() - 13)), kind: self.crape[p].kind },
            ),
            ..self
        }
    }

    /// The board with the last four cards of `deck` dealt face up, from the
    /// last one on, to the four tableau piles of the side of `player`.
    pub open spec fn deal_tableau(self, player: Player, deck: Seq<Card>) -> BoardView {
        let first = 4 * player.spec_index();
        BoardView {
            tableau: Seq::new(
                8,
                |i: int|
                    if first <= i < first + 4 {
                        PileView {
                            cards: seq![deck[deck.len() - 1 - (i - first)].facing(true)],
                            kind: self.tableau[i].kind,
                        }
                    } else {
                        self.tableau[i]
                    },
            ),
            ..self
        }
    }

    /// The board with `deck` as the stock of `player`.
    pub open spec fn deal_stock(self, player: Player, deck: Seq<Card>) -> BoardView {
        let p = player.spec_index();
        BoardView {
            stock: self.stock.update(p, PileView { cards: deck, kind: self.stock[p].kind }),
            ..self
        }
    }

    /// The board with the waste of `player` empty.
    pub open spec fn clear_waste(self, player: Player) -> BoardView {
        let p = player.spec_index();
        BoardView {
            waste: self.waste.update(
                p,
                PileView { cards: Seq::<Card>::empty(), kind: self.waste[p].kind },
            ),
            ..self
        }
    }

    /// The board with every foundation pile empty.
    pub open spec fn clear_foundation(self) -> BoardView {
        BoardView {
            foundation: Seq::new(
                8,
                |i: int| PileView { cards: Seq::<Card>::empty(), kind: self.foundation[i].kind },
            ),
            ..self
        }
    }

    /// The board after `player` has dealt `deck`: the crape from the last
    /// thirteen cards, the tableau from the four cards before them, the
    /// stock from the rest, and an empty waste.
    pub open spec fn deal(self, player: Player, deck: Seq<Card>) -> BoardView {
        self.deal_crape(player, deck).deal_tableau(player, deck.take(deck.len() - 13)).deal_stock(
            player,
            deck.take(deck.len() - 17),
        ).clear_waste(player)
    }

    /// The player who starts: the one with the higher card on their crape;
    /// if they are of one rank, the first player if the highest card on their
    /// side of the tableau is higher than on the other side, else the second.
    pub open spec fn first_player(self) -> Player {
        let crape0 = self.crape[0].cards.last().rank.0;
        let crape1 = self.crape[1].cards.last().rank.0;
        if crape0 > crape1 {
            Player::Player0
        } else if crape0 < crape1 {
            Player::Player1
        } else if highest_top(self.tableau, 0, 4) > highest_top(self.tableau, 4, 4) {
            Player::Player0
        } else {
            Player::Player1
        }
    }

    /// Whether the tableau piles all hold a card.
    pub open spec fn tableau_dealt(self) -> bool {
        forall|i: int| 0 <= i < 8 ==> (#[trigger] self.tableau[i]).cards.len() > 0
    }

    /// Whether the crapes and the tableau piles all hold a card.
    pub open spec fn is_dealt(self) -> bool {
        &&& self.crape[0].cards.len() > 0
        &&& self.crape[1].cards.len() > 0
        &&& self.tableau_dealt()
    }

    /// Whether the board names the player who starts: both crapes hold a
    /// card and, if the cards on top of them are of one rank, the tableau
    /// piles all hold a card.
    pub open spec fn names_first_player(self) -> bool {
        &&& self.crape[0].cards.len() > 0
        &&& self.crape[1].cards.len() > 0
        &&& self.crape[0].cards.last().rank.0 == self.crape[1].cards.last().rank.0
            ==> self.tableau_dealt()
    }
}

/// The highest rank on top of the `n` piles of `row` from slot `first` on.
pub open spec fn highest_top(row: Seq<PileView>, first: int, n: int) -> int
    decreases n,
{
    if n <= 0 {
        0
    } else {
        let rest = highest_top(row, first, n - 1);
        let top = row[first + n - 1].cards.last().rank.0 as int;
        if top > rest {
            top
        } else {
            rest
        }
    }
}

/// A shuffled deck holds fifty-two cards, each with a valid rank.
pub proof fn lemma_shuffled_deck(deck: Seq<Card>, player: Player)
    requires
        is_shuffled_deck(deck, player),
    ensures
        deck.len() == 52,
        forall|i: int| 0 <= i < deck.len() ==> (#[trigger] deck[i]).wf(),
{
    let fresh = spec_new_deck(player);
    vstd::seq_lib::to_multiset_len(deck);
    vstd::seq_lib::to_multiset_len(fresh);
    assert forall|i: int| 0 <= i < deck.len() implies (#[trigger] deck[i]).wf() by {
        vstd::seq_lib::to_multiset_contains(deck, deck[i]);
        vstd::seq_lib::to_multiset_contains(fresh, deck[i]);
        assert(deck.contains(deck[i]));
        let k = choose|k: int| 0 <= k < fresh.len() && fresh[k] == deck[i];
        assert(fresh[k].rank.0 == (k % 13 + 1) as u8);
    }
}

/// What a deal leaves on the board: thirteen cards on the crape of the
/// player, the top one face up; one card face up on each tableau pile of
/// their side; the other cards of the deck on their stock; an empty waste.
/// The piles of the other player and the foundation are as they were.
pub proof fn lemma_deal(board: BoardView, player: Player, deck: Seq<Card>)
    requires
        board.shape(),
        deck.len() == 52,
    ensures
        ({
            let after = board.deal(player, deck);
            let p = player.spec_index();
            let q = 1 - p;
            &&& after.shape()
            &&& after.crape[p].cards.len() == 13
            &&& after.crape[p].cards.last().face_up
            &&& after.stock[p].cards.len() == 35
            &&& after.waste[p].cards.len() == 0
            &&& forall|i: int|
                4 * p <= i < 4 * p + 4 ==> (#[trigger] after.tableau[i]).cards.len() == 1
                    && after.tableau[i].cards[0].face_up
            &&& forall|i: int| 4 * q <= i < 4 * q + 4 ==> after.tableau[i] == board.tableau[i]
            &&& after.crape[q] == board.crape[q]
            &&& after.stock[q] == board.stock[q]
            &&& after.waste[q] == board.waste[q]
            &&& after.foundation == board.foundation
            &&& (forall|i: int| 0 <= i < deck.len() ==> (#[trigger] deck[i]).wf()) ==> {
                &&& after.crape[p].wf()
                &&& after.stock[p].wf()
                &&& after.waste[p].wf()
                &&& forall|i: int| 4 * p <= i < 4 * p + 4 ==> (#[trigger] after.tableau[i]).wf()
            }
        }),
{
    let after = board.deal(player, deck);
    let p = player.spec_index();
    if forall|i: int| 0 <= i < deck.len() ==> (#[trigger] deck[i]).wf() {
        assert forall|j: int| 0 <= j < after.crape[p].cards.len() implies (
        #[trigger] after.crape[p].cards[j]).wf() by {
            assert(deck[39 + j].wf());
        }
        assert forall|j: int| 0 <= j < after.stock[p].cards.len() implies (
        #[trigger] after.stock[p].cards[j]).wf() by {
            assert(deck[j].wf());
        }
        assert forall|i: int| 4 * p <= i < 4 * p + 4 implies (#[trigger] after.tableau[i]).wf() by {
            assert(deck[38 - (i - 4 * p)].wf());
        }
    }
}

/// A new game leaves a board that meets its invariant, with every crape
/// and tableau pile dealt, the two decks on the board and nothing on the
/// foundation and the wastes.
pub proof fn lemma_new_game(board: BoardView, deck0: Seq<Card>, deck1: Seq<Card>)
    requires
        board.shape(),
        is_shuffled_deck(deck0, Player::Player0),
        is_shuffled_deck(deck1, Player::Player1),
    ensures
        ({
            let after = board.deal(Player::Player0, deck0).deal(
                Player::Player1,
                deck1,
            ).clear_foundation();
            &&& after.wf()
            &&& after.is_dealt()
            &&& after.nb_cards() == 104
            &&& forall|p: int|
                0 <= p < 2 ==> {
                    &&& (#[trigger] after.crape[p]).cards.len() == 13
                    &&& after.crape[p].cards.last().face_up
                    &&& after.stock[p].cards.len() == 35
                    &&& after.waste[p].cards.len() == 0
                }
            &&& forall|i: int| 0 <= i < 8 ==> (#[trigger] after.tableau[i]).cards.len() == 1
            &&& forall|i: int| 0 <= i < 8 ==> (#[trigger] after.foundation[i]).cards.len() == 0
        }),
{
    lemma_shuffled_deck(deck0, Player::Player0);
    lemma_shuffled_deck(deck1, Player::Player1);
    let first = board.deal(Player::Player0, deck0);
    lemma_deal(board, Player::Player0, deck0);
    let second = first.deal(Player::Player1, deck1);
    lemma_deal(first, Player::Player1, deck1);
    let after = second.clear_foundation();
    assert(after.tableau == second.tableau);
    assert forall|i: int| 0 <= i < 8 implies (#[trigger] after.tableau[i]).cards.len() == 1
        && after.tableau[i].wf() by {
        if i < 4 {
            assert(second.tableau[i] == first.tableau[i]);
        }
    }
    assert forall|i: int| 0 <= i < 8 implies (#[trigger] after.foundation[i]).wf()
        && after.foundation[i].cards.len() == 0 && after.foundation[i].kind
        == board.foundation[i].kind by {}
    assert(after.crape[0] == first.crape[0]);
    assert(after.stock[0] == first.stock[0]);
    assert(after.waste[0] == first.waste[0]);
    assert(after.shape());
    assert(after.piles_wf());
}

impl Board {
    /// Shuffles a fresh deck for `player`.
    pub fn prepare_deck(&self, player: Player, rng: &mut Pcg64) -> (deck: Vec<Card>)
        ensures
            is_shuffled_deck(deck@, player),
            deck@.len() == 52,
    {
        let mut deck = new_deck(player);
        shuffle(&mut deck, rng);
        proof {
            vstd::seq_lib::to_multiset_len(deck@);
            vstd::seq_lib::to_multiset_len(spec_new_deck(player));
        }
        deck
    }

    /// Makes the crape of `player` of the last thirteen cards of `deck`, and
    /// turns its top card face up.
    pub fn fill_crape(&mut self, player: Player, deck: &mut Vec<Card>)
        requires
            old(deck)@.len() >= NB_CRAPE_START,
        ensures
            final(deck)@ == old(deck)@.take(old(deck)@.len() - 13),
            final(self)@ == old(self)@.deal_crape(player, old(deck)@),
    {
        let p: usize = player.index();
        let n: usize = deck.len();
        let crape = deck.split_off(n - NB_CRAPE_START);
        self.crape[p].set(crape);
        self.crape[p].flip_top_up();
        proof {
            let target = old(self)@.deal_crape(player, old(deck)@);
            assert(self@.crape[p as int].cards =~= target.crape[p as int].cards);
            assert(self@.crape =~= target.crape);
            assert(self@.stock =~= target.stock);
            assert(self@.waste =~= target.waste);
            assert(self@.foundation =~= target.foundation);
            assert(self@.tableau =~= target.tableau);
        }
    }

    /// Deals the last four cards of `deck` face up, from the last one on, to
    /// the four tableau piles of the side of `player`.
    pub fn fill_tableau(&mut self, player: Player, deck: &mut Vec<Card>)
        requires
            old(deck)@.len() >= 4,
        ensures
            final(deck)@ == old(deck)@.take(old(deck)@.len() - 4),
            final(self)@ == old(self)@.deal_tableau(player, old(deck)@),
    {
        let first: usize = 4 * player.index();
        let ghost before = *self;
        let ghost cards = deck@;
        let mut k: usize = 0;
        while k < 4
            invariant
                k <= 4,
                first == 4 * player.spec_index(),
                cards.len() >= 4,
                deck@ == cards.take(cards.len() - k),
                self.stock == before.stock,
                self.waste == before.waste,
                self.crape == before.crape,
                self.foundation == before.foundation,
                forall|i: int|
                    0 <= i < 8 && !(first <= i < first + k) ==> self.tableau@[i]
                        == before.tableau@[i],
                forall|i: int|
                    first <= i < first + k ==> (#[trigger] self.tableau@[i])@ == (PileView {
                        cards: seq![cards[cards.len() - 1 - (i - first)].facing(true)],
                        kind: before.tableau@[i].kind,
                    }),
            decreases 4 - k,
        {
            let slot: usize = first + k;
            self.tableau[slot].clear();
            let mut card = deck.pop().unwrap();
            card.set_face_up();
            self.tableau[slot].add(card);
            proof {
                assert(deck@ =~= cards.take(cards.len() - (k + 1)));
                assert(self.tableau@[slot as int]@.cards =~= seq![
                    cards[cards.len() - 1 - k].facing(true),
                ]);
            }
            k += 1;
        }
        proof {
            let target = before@.deal_tableau(player, cards);
            assert(self@.tableau =~= target.tableau);
        }
    }

    /// Makes the stock of `player` of the cards of `deck`.
    pub fn fill_stock(&mut self, player: Player, deck: Vec<Card>)
        ensures
            final(self)@ == old(self)@.deal_stock(player, deck@),
    {
        let p: usize = player.index();
        self.stock[p].set(deck);
        proof {
            let target = old(self)@.deal_stock(player, deck@);
            assert(self@.stock =~= target.stock);
            assert(self@.crape =~= target.crape);
            assert(self@.waste =~= target.waste);
            assert(self@.foundation =~= target.foundation);
            assert(self@.tableau =~= target.tableau);
        }
    }

    /// Empties every foundation pile.
    pub fn clear_foundation(&mut self)
        ensures
            final(self)@ == old(self)@.clear_foundation(),
    {
        let ghost before = *self;
        let mut i: usize = 0;
        while i < 8
            invariant
                i <= 8,
                self.stock == before.stock,
                self.waste == before.waste,
                self.crape == before.crape,
                self.tableau == before.tableau,
                forall|j: int| i <= j < 8 ==> self.foundation@[j] == before.foundation@[j],
                forall|j: int|
                    0 <= j < i ==> (#[trigger] self.foundation@[j])@ == (PileView {
                        cards: Seq::<Card>::empty(),
                        kind: before.foundation@[j].kind,
                    }),
            decreases 8 - i,
        {
            self.foundation[i].clear();
            i += 1;
        }
        proof {
            let target = before@.clear_foundation();
            assert(self@.foundation =~= target.foundation);
        }
    }

    /// Deals `deck` for `player`: the crape, the tableau piles of their side
    /// and the stock are filled from it, and their waste is emptied.
    pub fn deal(&mut self, player: Player, deck: Vec<Card>)
        requires
            deck@.len() >= 17,
        ensures
            final(self)@ == old(self)@.deal(player, deck@),
    {
        let mut deck = deck;
        let ghost cards = deck@;
        self.fill_crape(player, &mut deck);
        self.fill_tableau(player, &mut deck);
        assert(deck@ =~= cards.take(cards.len() - 17));
        self.fill_stock(player, deck);
        let p: usize = player.index();
        let ghost filled = *self;
        self.waste[p].clear();
        proof {
            let target = filled@.clear_waste(player);
            assert(self@.waste =~= target.waste);
            assert(self@.stock =~= target.stock);
            assert(self@.crape =~= target.crape);
            assert(self@.foundation =~= target.foundation);
            assert(self@.tableau =~= target.tableau);
        }
    }

    /// Creates a new game with a standard card deal: each player deals their
    /// own shuffled deck, and the foundation is emptied.
    pub fn new_game(&mut self, rng: &mut Pcg64)
        ensures
            exists|deck0: Seq<Card>, deck1: Seq<Card>|
                {
                    &&& is_shuffled_deck(deck0, Player::Player0)
                    &&& is_shuffled_deck(deck1, Player::Player1)
                    &&& final(self)@ == #[trigger] old(self)@.deal(Player::Player0, deck0).deal(
                        Player::Player1,
                        deck1,
                    ).clear_foundation()
                },
    {
        let deck0 = self.prepare_deck(Player::Player0, rng);
        let ghost cards0 = deck0@;
        self.deal(Player::Player0, deck0);
        let deck1 = self.prepare_deck(Player::Player1, rng);
        let ghost cards1 = deck1@;
        self.deal(Player::Player1, deck1);
        self.clear_foundation();
        proof {
            assert(self@ == old(self)@.deal(Player::Player0, cards0).deal(
                Player::Player1,
                cards1,
            ).clear_foundation());
        }
    }

    /// Returns the highest rank on top of the four tableau piles from slot
    /// `first` on.
    fn highest_tableau_top(&self, first: usize) -> (r: u8)
        requires
            first <= 4,
            self@.tableau_dealt(),
        ensures
            r == highest_top(self@.tableau, first as int, 4),
    {
        let mut best: u8 = 0;
        let mut k: usize = 0;
        while k < 4
            invariant
                k <= 4,
                first <= 4,
                self@.tableau_dealt(),
                best == highest_top(self@.tableau, first as int, k as int),
            decreases 4 - k,
        {
            let pile = &self.tableau[first + k];
            assert(pile@ == self@.tableau[first + k]);
            let top: u8 = match pile.top_rank() {
                Some(rank) => rank.as_u8(),
                None => 0,
            };
            if top > best {
                best = top;
            }
            k += 1;
        }
        best
    }

    /// Computes the first player at the start of the game.
    ///
    /// It is the player with the highest card on top of their crape pile. In
    /// case of equality, it is the player with the highest card dealt on the
    /// tableau, and the second player if those are equal too. The tableau is
    /// looked at only in case of equality.
    pub fn compute_first_player(&self) -> (r: Player)
        requires
            self@.names_first_player(),
        ensures
            r == self@.first_player(),
    {
        assert(self.crape@[0]@ == self@.crape[0]);
        assert(self.crape@[1]@ == self@.crape[1]);
        let crape_rank_p0: u8 = match self.crape[0].top_rank() {
            Some(rank) => rank.as_u8(),
            None => 0,
        };
        let crape_rank_p1: u8 = match self.crape[1].top_rank() {
            Some(rank) => rank.as_u8(),
            None => 0,
        };
        if crape_rank_p0 > crape_rank_p1 {
            Player::Player0
        } else if crape_rank_p0 < crape_rank_p1 {
            Player::Player1
        } else {
            let max_p0: u8 = self.highest_tableau_top(0);
            let max_p1: u8 = self.highest_tableau_top(4);
            if max_p0 > max_p1 {
                Player::Player0
            } else {
                Player::Player1
            }
        }
    }
}

} // verus!
