//! Boards made for trying the search: a few cards laid out by hand.

use vstd::prelude::*;

use super::board::lemma_set_pile;
use super::board::Board;
use super::board::BoardView;
use super::cards::Card;
use super::piles::PileType;
use super::piles::PileView;
use super::players::Player;
use super::ranks::Rank;
use super::suits::Suit;
use super::text::same_text;

verus! {

/// The card of rank `rank` and suit `suit` of the first player, face up.
pub open spec fn up(rank: u8, suit: Suit) -> Card {
    Card { rank: Rank(rank), suit, player: Player::Player0, face_up: true }
}

/// The cards of `suit` from the rank `first` on, one for each step of
/// `count`, each one rank above the one before, face up.
pub open spec fn run_up(first: u8, count: nat, suit: Suit) -> Seq<Card> {
    Seq::new(count, |i: int| up((first + i) as u8, suit))
}

/// The cards from the rank `first` down, one for each step of `count`, each
/// one rank below the one before and of the other of the two suits, starting
/// with `suit`, face up.
pub open spec fn run_down(first: u8, count: nat, suit: Suit, other: Suit) -> Seq<Card> {
    Seq::new(
        count,
        |i: int|
            up(
                (first - i) as u8,
                if i % 2 == 0 {
                    suit
                } else {
                    other
                },
            ),
    )
}

impl BoardView {
    /// The board with the cards `cards` put on the pile of kind `kind`, the
    /// first one lowest.
    pub open spec fn with_cards(self, kind: PileType, cards: Seq<Card>) -> BoardView {
        self.set_pile(
            kind,
            PileView { cards: self.pile(kind).cards + cards, kind: self.pile(kind).kind },
        )
    }

    /// The board `foundation_to_fill`: the diamonds from the ace to the queen
    /// on the first foundation pile, and the king of diamonds on the first
    /// tableau pile.
    pub open spec fn foundation_to_fill(self) -> BoardView {
        self.with_cards(
            PileType::Foundation { id: 0, suit: Suit::Diamond },
            run_up(1, 12, Suit::Diamond),
        ).with_cards(PileType::Tableau { id: 0 }, seq![up(13, Suit::Diamond)])
    }

    /// The board `trivial_move`: the five of diamonds on the first tableau
    /// pile and the six of clubs on the second.
    pub open spec fn trivial_move(self) -> BoardView {
        self.with_cards(PileType::Tableau { id: 0 }, seq![up(5, Suit::Diamond)]).with_cards(
            PileType::Tableau { id: 1 },
            seq![up(6, Suit::Club)],
        )
    }

    /// The board `multiple_moves`: the five of diamonds, the six of clubs,
    /// the five of hearts and the six of spades on the first four tableau
    /// piles.
    pub open spec fn multiple_moves(self) -> BoardView {
        self.with_cards(PileType::Tableau { id: 0 }, seq![up(5, Suit::Diamond)]).with_cards(
            PileType::Tableau { id: 1 },
            seq![up(6, Suit::Club)],
        ).with_cards(PileType::Tableau { id: 2 }, seq![up(5, Suit::Heart)]).with_cards(
            PileType::Tableau { id: 3 },
            seq![up(6, Suit::Spade)],
        )
    }

    /// The board `massive_moves`: the king of spades on the first tableau
    /// pile, the hearts and spades in turn from the queen of hearts down to
    /// the ace of spades on the second, and the five of clubs, the four of
    /// diamonds, the three of clubs and the two of diamonds on the third.
    pub open spec fn massive_moves(self) -> BoardView {
        self.with_cards(PileType::Tableau { id: 0 }, seq![up(13, Suit::Spade)]).with_cards(
            PileType::Tableau { id: 1 },
            run_down(12, 12, Suit::Heart, Suit::Spade),
        ).with_cards(PileType::Tableau { id: 2 }, run_down(5, 4, Suit::Club, Suit::Diamond))
    }

    /// The board that the custom game `name` makes of this one.
    pub open spec fn custom(self, name: Seq<char>) -> BoardView {
        if name == "foundation_to_fill"@ {
            self.foundation_to_fill()
        } else if name == "trivial_move"@ {
            self.trivial_move()
        } else if name == "multiple_moves"@ {
            self.multiple_moves()
        } else {
            self.massive_moves()
        }
    }
}

/// Whether `name` is the name of a custom game.
pub open spec fn is_custom_game(name: Seq<char>) -> bool {
    ||| name == "foundation_to_fill"@
    ||| name == "trivial_move"@
    ||| name == "multiple_moves"@
    ||| name == "massive_moves"@
}

/// Putting valid cards on a tableau pile, or on an empty foundation pile the
/// cards of its suit from the ace up, keeps the invariant of a board if it
/// still holds no more cards than two decks.
pub proof fn lemma_with_cards_wf(board: BoardView, kind: PileType, cards: Seq<Card>)
    requires
        board.wf(),
        board.has_pile(kind),
        board.nb_cards() + cards.len() <= 104,
        forall|i: int| 0 <= i < cards.len() ==> (#[trigger] cards[i]).wf(),
        kind is Tableau || (kind is Foundation && board.pile(kind).cards.len() == 0 && forall|
            i: int,
        |
            0 <= i < cards.len() ==> (#[trigger] cards[i]).suit == board.pile(kind).kind->suit
                && cards[i].rank.0 == i + 1),
    ensures
        board.with_cards(kind, cards).wf(),
        board.with_cards(kind, cards).nb_cards() == board.nb_cards() + cards.len(),
{
    let pile = PileView { cards: board.pile(kind).cards + cards, kind: board.pile(kind).kind };
    super::board::lemma_pile_of_wf(board, kind);
    assert(pile.wf());
    lemma_set_pile(board, kind, pile);
}

/// Each custom game, laid out on an empty board, gives a board that meets
/// its invariant.
pub proof fn lemma_custom_wf(name: Seq<char>)
    ensures
        Board::spec_new().custom(name).wf(),
{
    let empty = Board::spec_new();
    assert(empty.wf());
    assert(empty.nb_cards() == 0);
    let f0 = PileType::Foundation { id: 0, suit: Suit::Diamond };
    let t0 = PileType::Tableau { id: 0 };
    let t1 = PileType::Tableau { id: 1 };
    let t2 = PileType::Tableau { id: 2 };
    let t3 = PileType::Tableau { id: 3 };
    if name == "foundation_to_fill"@ {
        assert(empty.pile(f0).kind == f0);
        lemma_with_cards_wf(empty, f0, run_up(1, 12, Suit::Diamond));
        lemma_with_cards_wf(
            empty.with_cards(f0, run_up(1, 12, Suit::Diamond)),
            t0,
            seq![up(13, Suit::Diamond)],
        );
    } else if name == "trivial_move"@ {
        lemma_with_cards_wf(empty, t0, seq![up(5, Suit::Diamond)]);
        lemma_with_cards_wf(
            empty.with_cards(t0, seq![up(5, Suit::Diamond)]),
            t1,
            seq![up(6, Suit::Club)],
        );
    } else if name == "multiple_moves"@ {
        let b1 = empty.with_cards(t0, seq![up(5, Suit::Diamond)]);
        lemma_with_cards_wf(empty, t0, seq![up(5, Suit::Diamond)]);
        let b2 = b1.with_cards(t1, seq![up(6, Suit::Club)]);
        lemma_with_cards_wf(b1, t1, seq![up(6, Suit::Club)]);
        let b3 = b2.with_cards(t2, seq![up(5, Suit::Heart)]);
        lemma_with_cards_wf(b2, t2, seq![up(5, Suit::Heart)]);
        lemma_with_cards_wf(b3, t3, seq![up(6, Suit::Spade)]);
    } else {
        let b1 = empty.with_cards(t0, seq![up(13, Suit::Spade)]);
        lemma_with_cards_wf(empty, t0, seq![up(13, Suit::Spade)]);
        let b2 = b1.with_cards(t1, run_down(12, 12, Suit::Heart, Suit::Spade));
        lemma_with_cards_wf(b1, t1, run_down(12, 12, Suit::Heart, Suit::Spade));
        lemma_with_cards_wf(b2, t2, run_down(5, 4, Suit::Club, Suit::Diamond));
    }
}

/// Puts the cards `cards` on the pile of kind `kind`, the first one lowest.
fn add_cards(board: &mut Board, kind: PileType, cards: Vec<Card>)
    requires
        old(board)@.has_pile(kind),
    ensures
        final(board)@ == old(board)@.with_cards(kind, cards@),
{
    let ghost before = *board;
    let pile = board.pile_from_type_mut(&kind);
    let ghost start = pile@;
    let mut i: usize = 0;
    while i < cards.len()
        invariant
            i <= cards@.len(),
            pile@ == (PileView { cards: start.cards + cards@.take(i as int), kind: start.kind }),
        decreases cards@.len() - i,
    {
        pile.add(cards[i]);
        assert(start.cards + cards@.take(i + 1) =~= (start.cards + cards@.take(i as int)).push(
            cards@[i as int],
        ));
        i += 1;
    }
    proof {
        assert(cards@.take(cards@.len() as int) =~= cards@);
        board.lemma_replaces_view(before, kind, board.spec_pile(kind));
    }
}

/// Returns the cards of `suit` from the rank `first` on, `count` of them,
/// each one rank above the one before, face up.
fn cards_up(first: u8, count: u8, suit: Suit) -> (r: Vec<Card>)
    requires
        first + count <= 255,
    ensures
        r@ == run_up(first, count as nat, suit),
{
    let mut cards: Vec<Card> = Vec::new();
    let mut i: u8 = 0;
    while i < count
        invariant
            i <= count,
            first + count <= 255,
            cards@.len() == i,
            forall|j: int| 0 <= j < i ==> cards@[j] == up((first + j) as u8, suit),
        decreases count - i,
    {
        cards.push(Card::new_up(Rank(first + i), suit, Player::Player0));
        i += 1;
    }
    assert(cards@ =~= run_up(first, count as nat, suit));
    cards
}

/// Returns the cards from the rank `first` down, `count` of them, each one
/// rank below the one before and of the other of the two suits, starting
/// with `suit`, face up.
fn cards_down(first: u8, count: u8, suit: Suit, other: Suit) -> (r: Vec<Card>)
    requires
        count <= first + 1,
    ensures
        r@ == run_down(first, count as nat, suit, other),
{
    let mut cards: Vec<Card> = Vec::new();
    let mut i: u8 = 0;
    while i < count
        invariant
            i <= count,
            count <= first + 1,
            cards@.len() == i,
            forall|j: int|
                0 <= j < i ==> cards@[j] == up(
                    (first - j) as u8,
                    if j % 2 == 0 {
                        suit
                    } else {
                        other
                    },
                ),
        decreases count - i,
    {
        let s = if i % 2 == 0 {
            suit
        } else {
            other
        };
        cards.push(Card::new_up(Rank(first - i), s, Player::Player0));
        i += 1;
    }
    assert(cards@ =~= run_down(first, count as nat, suit, other));
    cards
}

/// Returns one card, face up.
fn one_card(rank: u8, suit: Suit) -> (r: Vec<Card>)
    ensures
        r@ == seq![up(rank, suit)],
{
    let mut cards: Vec<Card> = Vec::new();
    cards.push(Card::new_up(Rank(rank), suit, Player::Player0));
    assert(cards@ =~= seq![up(rank, suit)]);
    cards
}

/// Lays out on `board` the custom game `name`.
pub fn call_custom(name: &str, board: &mut Board)
    requires
        is_custom_game(name@),
    ensures
        final(board)@ == old(board)@.custom(name@),
{
    if same_text(name, "foundation_to_fill") {
        foundation_to_fill(board)
    } else if same_text(name, "trivial_move") {
        trivial_move(board)
    } else if same_text(name, "multiple_moves") {
        multiple_moves(board)
    } else {
        massive_moves(board)
    }
}

/// Lays out a foundation pile that one move fills.
pub fn foundation_to_fill(board: &mut Board)
    ensures
        final(board)@ == old(board)@.foundation_to_fill(),
{
    add_cards(
        board,
        PileType::Foundation { id: 0, suit: Suit::Diamond },
        cards_up(1, 12, Suit::Diamond),
    );
    add_cards(board, PileType::Tableau { id: 0 }, one_card(13, Suit::Diamond));
}

/// Lays out two cards of which one goes on the other.
pub fn trivial_move(board: &mut Board)
    ensures
        final(board)@ == old(board)@.trivial_move(),
{
    add_cards(board, PileType::Tableau { id: 0 }, one_card(5, Suit::Diamond));
    add_cards(board, PileType::Tableau { id: 1 }, one_card(6, Suit::Club));
}

/// Lays out four cards that make two piles.
pub fn multiple_moves(board: &mut Board)
    ensures
        final(board)@ == old(board)@.multiple_moves(),
{
    add_cards(board, PileType::Tableau { id: 0 }, one_card(5, Suit::Diamond));
    add_cards(board, PileType::Tableau { id: 1 }, one_card(6, Suit::Club));
    add_cards(board, PileType::Tableau { id: 2 }, one_card(5, Suit::Heart));
    add_cards(board, PileType::Tableau { id: 3 }, one_card(6, Suit::Spade));
}

/// Lays out three piles that many moves can rearrange.
pub fn massive_moves(board: &mut Board)
    ensures
        final(board)@ == old(board)@.massive_moves(),
{
    add_cards(board, PileType::Tableau { id: 0 }, one_card(13, Suit::Spade));
    add_cards(board, PileType::Tableau { id: 1 }, cards_down(12, 12, Suit::Heart, Suit::Spade));
    add_cards(board, PileType::Tableau { id: 2 }, cards_down(5, 4, Suit::Club, Suit::Diamond));
}

} // verus!
