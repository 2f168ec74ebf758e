//! Writing cards, piles and boards out as text.
//!
//! A card is written as the symbol of its rank and the symbol of its suit,
//! or as two blocks if it faces down. Without colours the text is the same
//! everywhere, and is stated here; with colours it is not.

use vstd::prelude::*;
use vstd::string::StringExecFns;

use super::board::Board;
use super::board::BoardView;
use super::cards::Card;
use super::colors::black;
use super::colors::bright_blue;
use super::colors::bright_green;
use super::colors::on_blue;
use super::colors::on_green;
use super::colors::on_white;
use super::colors::red;
use super::colors::written;
use super::moves::CardAction;
use super::moves::CardActions;
use super::piles::Pile;
use super::piles::PileType;
use super::piles::PileView;
use super::players::Player;
use super::ranks::Rank;
use super::suits::Color;
use super::text::decimal;
use super::text::decimal_text;
use super::text::repeat_text;
use super::text::repeated;

verus! {

/// The rank and the suit of a card, as text.
pub open spec fn card_text(card: Card) -> Seq<char> {
    seq![Rank::spec_symbol(card.rank.0), card.suit.spec_symbol()]
}

/// A card as it shows on the board: its rank and suit if it faces up, two
/// blocks if it faces down.
pub open spec fn card_face(card: Card) -> Seq<char> {
    if card.face_up {
        card_text(card)
    } else {
        "▒▒"@
    }
}

/// The first `n` of the cards `cards` as they show on the board, with a
/// space between two cards.
pub open spec fn joined(cards: Seq<Card>, n: int) -> Seq<char>
    decreases n,
{
    if n <= 0 {
        Seq::empty()
    } else if n == 1 {
        card_face(cards[0])
    } else {
        joined(cards, n - 1) + " "@ + card_face(cards[n - 1])
    }
}

/// A pile as it shows on the board. A tableau pile shows all its cards,
/// from the bottom on the right side of the board (slots 0 to 3) and from
/// the top on the left side (slots 4 to 7); any other pile shows its top
/// card, or a pair of brackets if it is empty.
pub open spec fn pile_text(pile: PileView) -> Seq<char> {
    match pile.kind {
        PileType::Tableau { id } => if id < 4 {
            joined(pile.cards, pile.cards.len() as int)
        } else {
            joined(pile.cards.reverse(), pile.cards.len() as int)
        },
        _ => match pile.top() {
            None => "[]"@,
            Some(card) => card_face(card),
        },
    }
}

impl PileView {
    /// Whether the pile can be written out: each of its cards has a valid
    /// rank, and a tableau pile is named by a slot from 0 to 7.
    pub open spec fn shows(self) -> bool {
        &&& forall|i: int| 0 <= i < self.cards.len() ==> (#[trigger] self.cards[i]).wf()
        &&& self.kind matches PileType::Tableau { id } ==> id < 8
    }
}

impl BoardView {
    /// Whether the board can be written out: each of its piles can, and no
    /// tableau pile of the left side holds more cards than a suit has ranks.
    pub open spec fn shows(self) -> bool {
        &&& forall|i: int| 0 <= i < 2 ==> (#[trigger] self.stock[i]).shows()
        &&& forall|i: int| 0 <= i < 2 ==> (#[trigger] self.waste[i]).shows()
        &&& forall|i: int| 0 <= i < 2 ==> (#[trigger] self.crape[i]).shows()
        &&& forall|i: int| 0 <= i < 8 ==> (#[trigger] self.foundation[i]).shows()
        &&& forall|i: int| 0 <= i < 8 ==> (#[trigger] self.tableau[i]).shows()
        &&& forall|i: int| 4 <= i < 8 ==> (#[trigger] self.tableau[i]).cards.len() <= 13
    }
}

/// The row `row` of the centre of the board, from 0 to 3: the tableau pile
/// of the left side, pushed to the right, the two foundation piles between
/// two bars, and the tableau pile of the right side.
pub open spec fn row_text(board: BoardView, row: int) -> Seq<char> {
    let left = board.tableau[row + 4];
    let right = board.tableau[3 - row];
    repeated("   "@, (13 - left.cards.len()) as nat) + pile_text(left) + (if left.cards.len()
        == 0 {
        ""@
    } else {
        " "@
    }) + "│ "@ + pile_text(board.foundation[row + 4]) + " "@ + pile_text(
        board.foundation[3 - row],
    ) + " │ "@ + pile_text(right)
}

/// The board as text, without colours: the piles of the second player on
/// the first line, the four rows of the centre, and the piles of the first
/// player on the last line.
pub open spec fn board_text(board: BoardView) -> Seq<char> {
    repeated(" "@, 39) + pile_text(board.crape[1]) + "  "@ + pile_text(board.waste[1]) + " "@
        + pile_text(board.stock[1]) + "\n"@ + row_text(board, 0) + "\n"@ + row_text(board, 1)
        + "\n"@ + row_text(board, 2) + "\n"@ + row_text(board, 3) + "\n"@ + repeated(" "@, 39)
        + pile_text(board.stock[0]) + " "@ + pile_text(board.waste[0]) + "  "@ + pile_text(
        board.crape[0],
    )
}

/// The name of a player: the number of their slot.
pub open spec fn player_text(player: Player) -> Seq<char> {
    match player {
        Player::Player0 => "0"@,
        Player::Player1 => "1"@,
    }
}

/// The name of a pile: its kind, then its slot and the symbol of its suit
/// for a foundation pile, its slot for a tableau pile, its player for the
/// others.
pub open spec fn kind_text(kind: PileType) -> Seq<char> {
    match kind {
        PileType::Foundation { id, suit } => ("Foundation"@ + decimal(id as nat)).push(
            suit.spec_symbol(),
        ),
        PileType::Tableau { id } => "Tableau"@ + decimal(id as nat),
        PileType::Stock { player } => "Stock"@ + player_text(player),
        PileType::Waste { player } => "Waste"@ + player_text(player),
        PileType::Crape { player } => "Crape"@ + player_text(player),
    }
}

/// An action, as text.
pub open spec fn action_text(action: CardAction) -> Seq<char> {
    match action {
        CardAction::Move { card, origin, destination } => "Move "@ + card_text(card) + " from "@
            + kind_text(origin) + " to "@ + kind_text(destination),
        CardAction::Flip { pile } => "Flip "@ + kind_text(pile),
        CardAction::FlipWaste => "FlipWaste"@,
    }
}

/// A list of actions in short: how many there are, and the first one.
pub open spec fn actions_text(actions: Seq<CardAction>) -> Seq<char> {
    if actions.len() == 0 {
        "No action"@
    } else if actions.len() == 1 {
        "1 action: "@ + action_text(actions[0])
    } else {
        decimal(actions.len()) + " actions: "@ + action_text(actions[0]) + ", ..."@
    }
}

/// The first `n` of the actions `actions`, each on a line of its own.
pub open spec fn action_lines(actions: Seq<CardAction>, n: int) -> Seq<char>
    decreases n,
{
    if n <= 0 {
        Seq::empty()
    } else {
        action_lines(actions, n - 1) + "  "@ + action_text(actions[n - 1]) + "\n"@
    }
}

/// A list of actions in full: how many there are, then each on a line of
/// its own.
pub open spec fn actions_listing(actions: Seq<CardAction>) -> Seq<char> {
    if actions.len() == 0 {
        "No action\n"@
    } else if actions.len() == 1 {
        "1 action:\n"@ + action_lines(actions, 1)
    } else {
        decimal(actions.len()) + " actions:\n"@ + action_lines(actions, actions.len() as int)
    }
}

impl Player {
    /// Returns the name of the player.
    pub fn to_string(&self) -> (r: String)
        ensures
            r@ == player_text(*self),
    {
        match self {
            Player::Player0 => String::from_str("0"),
            Player::Player1 => String::from_str("1"),
        }
    }
}

impl PileType {
    /// Returns the name of the pile.
    pub fn to_string(&self) -> (r: String)
        ensures
            r@ == kind_text(*self),
    {
        match self {
            PileType::Foundation { id, suit } => {
                let mut text = String::from_str("Foundation");
                text.append(decimal_text(*id as usize).as_str());
                text.push(suit.symbol());
                text
            },
            PileType::Tableau { id } => {
                let mut text = String::from_str("Tableau");
                text.append(decimal_text(*id as usize).as_str());
                text
            },
            PileType::Stock { player } => {
                let mut text = String::from_str("Stock");
                text.append(player.to_string().as_str());
                text
            },
            PileType::Waste { player } => {
                let mut text = String::from_str("Waste");
                text.append(player.to_string().as_str());
                text
            },
            PileType::Crape { player } => {
                let mut text = String::from_str("Crape");
                text.append(player.to_string().as_str());
                text
            },
        }
    }
}

impl Card {
    /// Returns the rank and the suit of the card as text: red or black on
    /// white if `colored` is set.
    pub fn str_rank_suit(&self, colored: bool) -> (r: String)
        requires
            self.wf(),
        ensures
            !colored ==> r@ == card_text(*self),
    {
        let mut text = String::new();
        text.push(self.rank.symbol());
        text.push(self.suit.symbol());
        assert(text@ =~= card_text(*self));
        if colored {
            let painted = match self.suit.color() {
                Color::Red => red(text.as_str()),
                Color::Black => black(text.as_str()),
            };
            written(&on_white(painted))
        } else {
            text
        }
    }

    /// Returns the card as it shows on the board: its rank and suit if it
    /// faces up, two blocks in the colours of its owner if it faces down.
    pub fn str_display(&self, colored: bool) -> (r: String)
        requires
            self.wf(),
        ensures
            !colored ==> r@ == card_face(*self),
    {
        if self.face_up {
            self.str_rank_suit(colored)
        } else {
            let base = "▒▒";
            if colored {
                let painted = match self.player {
                    Player::Player0 => on_green(bright_green(base)),
                    Player::Player1 => on_blue(bright_blue(base)),
                };
                written(&painted)
            } else {
                String::from_str(base)
            }
        }
    }

    /// Returns the rank and the suit of the card as text.
    pub fn to_string(&self) -> (r: String)
        requires
            self.wf(),
        ensures
            r@ == card_text(*self),
    {
        self.str_rank_suit(false)
    }
}

impl Pile {
    /// Returns the cards `cards` as they show on the board, with a space
    /// between two cards.
    pub fn join_cards(&self, cards: &Vec<Card>, colored: bool) -> (r: String)
        requires
            forall|i: int| 0 <= i < cards@.len() ==> (#[trigger] cards@[i]).wf(),
        ensures
            !colored ==> r@ == joined(cards@, cards@.len() as int),
    {
        let mut text = String::new();
        let mut i: usize = 0;
        while i < cards.len()
            invariant
                i <= cards@.len(),
                forall|j: int| 0 <= j < cards@.len() ==> (#[trigger] cards@[j]).wf(),
                !colored ==> text@ == joined(cards@, i as int),
            decreases cards@.len() - i,
        {
            if i > 0 {
                text.append(" ");
            }
            text.append(cards[i].str_display(colored).as_str());
            proof {
                if !colored && i == 0 {
                    assert(text@ =~= joined(cards@, 1));
                }
            }
            i += 1;
        }
        text
    }

    /// Returns the pile as it shows on the board.
    pub fn str_display(&self, colored: bool) -> (r: String)
        requires
            self@.shows(),
        ensures
            !colored ==> r@ == pile_text(self@),
    {
        match &self.kind {
            PileType::Tableau { id } => {
                if *id < 4 {
                    self.join_cards(&self.cards, colored)
                } else {
                    let mut cards: Vec<Card> = Vec::new();
                    let n: usize = self.cards.len();
                    let mut i: usize = 0;
                    while i < n
                        invariant
                            i <= n,
                            n == self.cards@.len(),
                            cards@.len() == i,
                            forall|j: int| 0 <= j < i ==> cards@[j] == self.cards@[n - 1 - j],
                        decreases n - i,
                    {
                        cards.push(self.cards[n - 1 - i]);
                        i += 1;
                    }
                    assert(cards@ =~= self.cards@.reverse());
                    self.join_cards(&cards, colored)
                }
            },
            _ => match self.top_card() {
                None => String::from_str("[]"),
                Some(top_card) => top_card.str_display(colored),
            },
        }
    }
}

impl Board {
    /// Returns one row of the centre of the board as text.
    fn row_to_string(&self, row: usize, colored: bool) -> (r: String)
        requires
            row < 4,
            self@.shows(),
        ensures
            !colored ==> r@ == row_text(self@, row as int),
    {
        let index_left: usize = row + 4;
        let index_right: usize = 3 - row;
        let tableau_pile_left = &self.tableau[index_left];
        let tableau_pile_right = &self.tableau[index_right];
        let foundation_pile_left = &self.foundation[index_left];
        let foundation_pile_right = &self.foundation[index_right];
        proof {
            assert(tableau_pile_left@ == self@.tableau[index_left as int]);
            assert(tableau_pile_right@ == self@.tableau[index_right as int]);
            assert(foundation_pile_left@ == self@.foundation[index_left as int]);
            assert(foundation_pile_right@ == self@.foundation[index_right as int]);
            assert(self@.tableau[index_left as int].cards.len() <= 13);
        }
        let mut text = repeat_text("   ", 13 - tableau_pile_left.nb_cards());
        text.append(tableau_pile_left.str_display(colored).as_str());
        text.append(
            if tableau_pile_left.is_empty() {
                ""
            } else {
                " "
            },
        );
        text.append("│ ");
        text.append(foundation_pile_left.str_display(colored).as_str());
        text.append(" ");
        text.append(foundation_pile_right.str_display(colored).as_str());
        text.append(" │ ");
        text.append(tableau_pile_right.str_display(colored).as_str());
        text
    }

    /// Displays the board as a multiline text.
    pub fn to_string(&self, colored: bool) -> (r: String)
        requires
            self@.shows(),
        ensures
            !colored ==> r@ == board_text(self@),
    {
        proof {
            assert(self.crape@[0]@ == self@.crape[0]);
            assert(self.crape@[1]@ == self@.crape[1]);
            assert(self.waste@[0]@ == self@.waste[0]);
            assert(self.waste@[1]@ == self@.waste[1]);
            assert(self.stock@[0]@ == self@.stock[0]);
            assert(self.stock@[1]@ == self@.stock[1]);
        }
        let mut text = repeat_text(" ", 39);
        text.append(self.crape[1].str_display(colored).as_str());
        text.append("  ");
        text.append(self.waste[1].str_display(colored).as_str());
        text.append(" ");
        text.append(self.stock[1].str_display(colored).as_str());
        text.append("\n");
        text.append(self.row_to_string(0, colored).as_str());
        text.append("\n");
        text.append(self.row_to_string(1, colored).as_str());
        text.append("\n");
        text.append(self.row_to_string(2, colored).as_str());
        text.append("\n");
        text.append(self.row_to_string(3, colored).as_str());
        text.append("\n");
        text.append(repeat_text(" ", 39).as_str());
        text.append(self.stock[0].str_display(colored).as_str());
        text.append(" ");
        text.append(self.waste[0].str_display(colored).as_str());
        text.append("  ");
        text.append(self.crape[0].str_display(colored).as_str());
        text
    }
}

impl CardAction {
    /// Returns the action as text.
    pub fn to_string(&self) -> (r: String)
        requires
            self matches CardAction::Move { card, .. } ==> card.wf(),
        ensures
            r@ == action_text(*self),
    {
        match self {
            CardAction::Move { card, origin, destination } => {
                let mut text = String::from_str("Move ");
                text.append(card.to_string().as_str());
                text.append(" from ");
                text.append(origin.to_string().as_str());
                text.append(" to ");
                text.append(destination.to_string().as_str());
                text
            },
            CardAction::Flip { pile } => {
                let mut text = String::from_str("Flip ");
                text.append(pile.to_string().as_str());
                text
            },
            CardAction::FlipWaste => String::from_str("FlipWaste"),
        }
    }
}

impl CardActions {
    /// Whether each move of the list names a card with a valid rank.
    pub open spec fn cards_wf(self) -> bool {
        forall|i: int|
            0 <= i < self@.len() ==> ((#[trigger] self@[i]) matches CardAction::Move {
                card,
                ..
            } ==> card.wf())
    }

    /// Returns the list in short: how many actions there are, and the
    /// first one.
    pub fn to_string(&self) -> (r: String)
        requires
            self.cards_wf(),
        ensures
            r@ == actions_text(self@),
    {
        let n: usize = self.actions.len();
        if n == 0 {
            String::from_str("No action")
        } else if n == 1 {
            let mut text = String::from_str("1 action: ");
            text.append(self.actions[0].to_string().as_str());
            text
        } else {
            let mut text = decimal_text(n);
            text.append(" actions: ");
            text.append(self.actions[0].to_string().as_str());
            text.append(", ...");
            text
        }
    }

    /// Returns the list in full: how many actions there are, then each on a
    /// line of its own.
    pub fn listing(&self) -> (r: String)
        requires
            self.cards_wf(),
        ensures
            r@ == actions_listing(self@),
    {
        let n: usize = self.actions.len();
        if n == 0 {
            return String::from_str("No action\n");
        }
        let mut text = if n == 1 {
            String::from_str("1 action:\n")
        } else {
            let mut head = decimal_text(n);
            head.append(" actions:\n");
            head
        };
        let ghost head = text@;
        let mut i: usize = 0;
        while i < n
            invariant
                i <= n,
                n == self@.len(),
                self.cards_wf(),
                text@ == head + action_lines(self@, i as int),
            decreases n - i,
        {
            text.append("  ");
            text.append(self.actions[i].to_string().as_str());
            text.append("\n");
            assert(text@ =~= head + action_lines(self@, i + 1));
            i += 1;
        }
        text
    }
}

} // verus!
