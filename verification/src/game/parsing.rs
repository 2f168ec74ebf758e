//! Reading cards, piles and boards from short descriptions.
//!
//! A card is written as its rank, the letter of its suit and, if wanted, the
//! number of its owner: `5d`, `10h0`, `Ks1`. The cards of a pile are
//! separated by blanks. A board is written pile by pile, one line for each:
//! the code of the pile, a colon, and its cards from the bottom up.
//!
//! The pattern of a card is matched by the crate `regex`, and texts are cut
//! into lines and words by the standard library; what they give is named
//! here, and the rest is stated over those names.

use regex::Regex;
use vstd::prelude::*;
use vstd::string::StrSliceExecFns;

use super::board::Board;
use super::board::BoardView;
use super::cards::Card;
use super::piles::Pile;
use super::piles::PileType;
use super::piles::PileView;
use super::players::Player;
use super::ranks::Rank;
use super::suits::Suit;
use super::text::same_text;
use super::validity::suit_of_slot;

verus! {

/// The pattern of a card: a rank of one or more letters or digits, as short
/// as can be, the letter of a suit, and at most one digit for the owner.
pub const CARD_PATTERN: &'static str = r"^(?<rank>\w+?)(?<suit>\w)(?<player>\d?)$";

/// What the first three groups of the pattern `pattern` capture in `text`,
/// as `regex` finds them, or `None` if the pattern does not compile, does
/// not match, or one of the groups takes no part in the match.
pub uninterp spec fn spec_captures(pattern: Seq<char>, text: Seq<char>) -> Option<
    (Seq<char>, Seq<char>, Seq<char>),
>;

/// The words of `text`: its pieces between blanks, as `str::split_whitespace`
/// gives them.
pub uninterp spec fn spec_words(text: Seq<char>) -> Seq<Seq<char>>;

/// The lines of `text`, as `str::lines` gives them.
pub uninterp spec fn spec_lines(text: Seq<char>) -> Seq<Seq<char>>;

/// The text `text` without the blanks at its start and at its end, as
/// `str::trim` gives it.
pub uninterp spec fn spec_trim(text: Seq<char>) -> Seq<char>;

/// The views of the texts `texts`.
pub open spec fn texts_view(texts: Seq<String>) -> Seq<Seq<char>> {
    texts.map_values(|t: String| t@)
}

/// Matches `text` against `pattern` with `Regex::new` and `Regex::captures`
/// of `regex`, and hands out what the groups 1, 2 and 3 have captured, read
/// with `Captures::get` and `Match::as_str`. The result is the named one:
/// `regex` finds the same match for the same pattern and text.
#[verifier::external_body]
fn captures(pattern: &str, text: &str) -> (r: Option<(String, String, String)>)
    ensures
        r is Some <==> spec_captures(pattern@, text@) is Some,
        r matches Some(parts) ==> spec_captures(pattern@, text@) == Some(
            (parts.0@, parts.1@, parts.2@),
        ),
{
    let re = Regex::new(pattern).ok()?;
    let caps = re.captures(text)?;
    let first = caps.get(1)?.as_str().to_string();
    let second = caps.get(2)?.as_str().to_string();
    let third = caps.get(3)?.as_str().to_string();
    Some((first, second, third))
}

/// Cuts `text` into its words with `str::split_whitespace` of the standard
/// library. The result is the named one.
#[verifier::external_body]
fn words(text: &str) -> (r: Vec<String>)
    ensures
        texts_view(r@) == spec_words(text@),
{
    text.split_whitespace().map(|word| word.to_string()).collect()
}

/// Cuts `text` into its lines with `str::lines` of the standard library.
/// The result is the named one.
#[verifier::external_body]
fn lines(text: &str) -> (r: Vec<String>)
    ensures
        texts_view(r@) == spec_lines(text@),
{
    text.lines().map(|line| line.to_string()).collect()
}

/// Takes the blanks off both ends of `text` with `str::trim` of the standard
/// library. The result is the named one.
#[verifier::external_body]
fn trimmed(text: &str) -> (r: &str)
    ensures
        r@ == spec_trim(text@),
{
    text.trim()
}

/// The value of the digit `c`, if it is one of the ten digits.
pub open spec fn digit_value(c: char) -> Option<nat> {
    if '0' as u32 <= c as u32 <= '9' as u32 {
        Some((c as u32 - '0' as u32) as nat)
    } else {
        None
    }
}

/// The number that the digits `text` write in decimal, if `text` is made of
/// digits and is not empty.
pub open spec fn decimal_value(text: Seq<char>) -> Option<nat>
    decreases text.len(),
{
    if text.len() == 0 {
        None
    } else if text.len() == 1 {
        digit_value(text[0])
    } else {
        match (decimal_value(text.drop_last()), digit_value(text.last())) {
            (Some(value), Some(digit)) => Some(10 * value + digit),
            _ => None,
        }
    }
}

/// The number below 256 that `text` writes in decimal, with a plus sign
/// before it or without one.
pub open spec fn small_number(text: Seq<char>) -> Option<u8> {
    let digits = if text.len() > 0 && text[0] == '+' {
        text.skip(1)
    } else {
        text
    };
    match decimal_value(digits) {
        Some(value) => if value <= 255 {
            Some(value as u8)
        } else {
            None
        },
        None => None,
    }
}

/// The rank that the symbol `c` stands for.
pub open spec fn symbol_rank(c: char) -> Option<u8> {
    if c == 'A' {
        Some(1u8)
    } else if c == 'J' {
        Some(11u8)
    } else if c == 'Q' {
        Some(12u8)
    } else if c == 'K' {
        Some(13u8)
    } else {
        None
    }
}

/// The rank that the name `text` stands for.
pub open spec fn name_rank(text: Seq<char>) -> Option<u8> {
    if text == "Ace"@ {
        Some(1u8)
    } else if text == "Jack"@ {
        Some(11u8)
    } else if text == "Queen"@ {
        Some(12u8)
    } else if text == "King"@ {
        Some(13u8)
    } else {
        None
    }
}

/// The rank that `text` stands for: a number from 1 to 13, 0 for the ten,
/// the symbol of a rank, or its name.
pub open spec fn rank_of_text(text: Seq<char>) -> Option<Rank> {
    match small_number(text) {
        Some(value) => if value == 0 {
            Some(Rank(10))
        } else if value <= 13 {
            Some(Rank(value))
        } else {
            None
        },
        None => {
            let found = if text.len() == 1 {
                symbol_rank(text[0])
            } else {
                name_rank(text)
            };
            match found {
                Some(value) => Some(Rank(value)),
                None => None,
            }
        },
    }
}

/// The suit whose letter is `c`.
pub open spec fn suit_of_letter(c: char) -> Suit {
    if c == 'c' {
        Suit::Club
    } else if c == 'd' {
        Suit::Diamond
    } else if c == 'h' {
        Suit::Heart
    } else {
        Suit::Spade
    }
}

/// The owner that `text` stands for: the first player if it is empty, else
/// the player of that number.
pub open spec fn player_of_text(text: Seq<char>) -> Option<Player> {
    if text.len() == 0 {
        Some(Player::Player0)
    } else {
        match small_number(text) {
            Some(value) => if value == 0 {
                Some(Player::Player0)
            } else if value == 1 {
                Some(Player::Player1)
            } else {
                None
            },
            None => None,
        }
    }
}

/// The card that the three parts of a description stand for, face up, if
/// each part stands for something.
pub open spec fn card_of_parts(rank: Seq<char>, suit: Seq<char>, player: Seq<char>) -> Option<
    Card,
> {
    match (rank_of_text(rank), player_of_text(player)) {
        (Some(r), Some(p)) => if suit.len() > 0 && Suit::is_letter(suit[0]) {
            Some(Card { rank: r, suit: suit_of_letter(suit[0]), player: p, face_up: true })
        } else {
            None
        },
        _ => None,
    }
}

/// The card that `text` describes, if it describes one.
pub open spec fn quick_card(text: Seq<char>) -> Option<Card> {
    match spec_captures(CARD_PATTERN@, text) {
        Some(parts) => card_of_parts(parts.0, parts.1, parts.2),
        None => None,
    }
}

/// The cards that the first `n` of the words `words` describe, if each
/// describes one.
pub open spec fn quick_cards(words: Seq<Seq<char>>, n: int) -> Option<Seq<Card>>
    decreases n,
{
    if n <= 0 {
        Some(Seq::empty())
    } else {
        match (quick_cards(words, n - 1), quick_card(words[n - 1])) {
            (Some(cards), Some(card)) => Some(cards.push(card)),
            _ => None,
        }
    }
}

/// The cards that `text` describes, if each of its words describes one.
pub open spec fn quick_pile(text: Seq<char>) -> Option<Seq<Card>> {
    quick_cards(spec_words(text), spec_words(text).len() as int)
}

/// The pile that the code `code` names: a letter for the kind, `X` for a
/// waste, `C` for a crape, `S` for a stock, `T` for a tableau pile and `F`
/// for a foundation pile, then the digit of the player or of the slot.
pub open spec fn pile_of_code(code: Seq<char>) -> Option<PileType> {
    if code.len() < 2 {
        None
    } else {
        match digit_value(code[1]) {
            None => None,
            Some(number) => if code[0] == 'X' && number < 2 {
                Some(PileType::Waste { player: super::board::player_of(number as int) })
            } else if code[0] == 'C' && number < 2 {
                Some(PileType::Crape { player: super::board::player_of(number as int) })
            } else if code[0] == 'S' && number < 2 {
                Some(PileType::Stock { player: super::board::player_of(number as int) })
            } else if code[0] == 'T' && number < 8 {
                Some(PileType::Tableau { id: number as u8 })
            } else if code[0] == 'F' && number < 8 {
                Some(
                    PileType::Foundation {
                        id: number as u8,
                        suit: super::board::foundation_suit(number as int),
                    },
                )
            } else {
                None
            },
        }
    }
}

/// The first place at which `text` holds the character `c` from `k` on, or
/// the length of `text` if there is none.
pub open spec fn first_index_from(text: Seq<char>, c: char, k: int) -> int
    decreases text.len() - k,
{
    if k < 0 || k >= text.len() {
        text.len() as int
    } else if text[k] == c {
        k
    } else {
        first_index_from(text, c, k + 1)
    }
}

/// The cards that a line of the description of a board puts on a pile.
pub struct PileLayout {
    pub kind: PileType,
    pub cards: Vec<Card>,
}

impl View for PileLayout {
    type V = (PileType, Seq<Card>);

    open spec fn view(&self) -> (PileType, Seq<Card>) {
        (self.kind, self.cards@)
    }
}

/// What the line `line` of the description of a board says: nothing if
/// it is blank, else the pile that the code before the colon names and the
/// cards that the text after the colon describes. `None` if the line says
/// nothing that can be read.
pub open spec fn quick_line(line: Seq<char>) -> Option<Option<(PileType, Seq<Card>)>> {
    let text = spec_trim(line);
    let colon = first_index_from(text, ':', 0);
    if text.len() == 0 {
        Some(None)
    } else if colon >= text.len() {
        None
    } else {
        match (
            pile_of_code(spec_trim(text.take(colon))),
            quick_pile(spec_trim(text.skip(colon + 1))),
        ) {
            (Some(kind), Some(cards)) => Some(Some((kind, cards))),
            _ => None,
        }
    }
}

/// What the first `n` of the lines `lines` say, in their order, if each
/// can be read.
pub open spec fn quick_lines(lines: Seq<Seq<char>>, n: int) -> Option<Seq<(PileType, Seq<Card>)>>
    decreases n,
{
    if n <= 0 {
        Some(Seq::empty())
    } else {
        match (quick_lines(lines, n - 1), quick_line(lines[n - 1])) {
            (Some(layout), Some(Some(entry))) => Some(layout.push(entry)),
            (Some(layout), Some(None)) => Some(layout),
            _ => None,
        }
    }
}

/// What the description `text` of a board says, if each of its lines can
/// be read.
pub open spec fn quick_layout(text: Seq<char>) -> Option<Seq<(PileType, Seq<Card>)>> {
    quick_lines(spec_lines(text), spec_lines(text).len() as int)
}

impl BoardView {
    /// The board with the cards of the first `n` entries of `layout` put on
    /// their piles, entry after entry.
    pub open spec fn with_layout(self, layout: Seq<(PileType, Seq<Card>)>, n: int) -> BoardView
        decreases n,
    {
        if n <= 0 {
            self
        } else {
            self.with_layout(layout, n - 1).with_cards(layout[n - 1].0, layout[n - 1].1)
        }
    }
}

/// A longer run of digits does not write a smaller number.
proof fn lemma_decimal_grows(text: Seq<char>, k: int)
    requires
        1 <= k <= text.len(),
        decimal_value(text) is Some,
    ensures
        decimal_value(text.take(k)) is Some,
        decimal_value(text.take(k))->0 <= decimal_value(text)->0,
    decreases text.len() - k,
{
    if k == text.len() {
        assert(text.take(k) =~= text);
    } else {
        assert(text.len() >= 2);
        let shorter = text.drop_last();
        lemma_decimal_grows(shorter, k);
        assert(shorter.take(k) =~= text.take(k));
    }
}

/// Returns the value of the digit `c`, if it is one of the ten digits.
fn digit_of(c: char) -> (r: Option<u8>)
    ensures
        r is Some <==> digit_value(c) is Some,
        r matches Some(d) ==> digit_value(c) == Some(d as nat) && d < 10,
{
    let code: u32 = c as u32;
    if code >= 48 && code <= 57 {
        Some((code - 48) as u8)
    } else {
        None
    }
}

/// Returns the number below 256 that `text` writes in decimal, with a plus
/// sign before it or without one.
pub fn parse_small_number(text: &str) -> (r: Option<u8>)
    ensures
        r == small_number(text@),
{
    let n: usize = text.unicode_len();
    let start: usize = if n > 0 && text.get_char(0) == '+' {
        1
    } else {
        0
    };
    let ghost digits = if start == 1 {
        text@.skip(1)
    } else {
        text@
    };
    if start == n {
        assert(digits.len() == 0);
        return None;
    }
    let mut value: u8 = 0;
    let mut i: usize = start;
    while i < n
        invariant
            start <= i <= n,
            start < n,
            n == text@.len(),
            digits == if text@.len() > 0 && text@[0] == '+' {
                text@.skip(1)
            } else {
                text@
            },
            digits.len() == n - start,
            forall|j: int| 0 <= j < digits.len() ==> digits[j] == text@[j + start],
            i > start ==> decimal_value(digits.take(i - start)) == Some(value as nat),
            i == start ==> value == 0,
        decreases n - i,
    {
        let c = text.get_char(i);
        let ghost k = i - start;
        proof {
            assert(digits[k] == text@[i as int]);
            assert(digits.take(k + 1).drop_last() =~= digits.take(k));
            assert(digits.take(k + 1).last() == digits[k]);
        }
        match digit_of(c) {
            None => {
                proof {
                    assert(decimal_value(digits.take(k + 1)) is None);
                    if decimal_value(digits) is Some {
                        lemma_decimal_grows(digits, k + 1);
                    }
                }
                return None;
            },
            Some(d) => {
                proof {
                    assert(decimal_value(digits.take(k + 1)) == Some((10 * value + d) as nat));
                }
                if value > 25 || (value == 25 && d > 5) {
                    proof {
                        if decimal_value(digits) is Some {
                            lemma_decimal_grows(digits, k + 1);
                        }
                    }
                    return None;
                }
                value = value * 10 + d;
            },
        }
        i += 1;
    }
    proof {
        assert(digits.take(n - start) =~= digits);
    }
    Some(value)
}

impl Rank {
    /// Returns the rank that `item` stands for: a number from 1 to 13, 0
    /// for the ten, the symbol of a rank, or its name.
    pub fn parse(item: &str) -> (r: Option<Rank>)
        ensures
            r == rank_of_text(item@),
            r matches Some(rank) ==> rank.wf(),
    {
        match parse_small_number(item) {
            Some(value) => {
                if value == 0 {
                    Some(Rank(10))
                } else if value <= 13 {
                    Some(Rank(value))
                } else {
                    None
                }
            },
            None => {
                if item.unicode_len() == 1 {
                    let c = item.get_char(0);
                    if c == 'A' {
                        Some(Rank(1))
                    } else if c == 'J' {
                        Some(Rank(11))
                    } else if c == 'Q' {
                        Some(Rank(12))
                    } else if c == 'K' {
                        Some(Rank(13))
                    } else {
                        None
                    }
                } else if same_text(item, "Ace") {
                    Some(Rank(1))
                } else if same_text(item, "Jack") {
                    Some(Rank(11))
                } else if same_text(item, "Queen") {
                    Some(Rank(12))
                } else if same_text(item, "King") {
                    Some(Rank(13))
                } else {
                    None
                }
            },
        }
    }
}

impl Card {
    /// Returns the card that the three parts of a description stand for,
    /// face up, if each part stands for something.
    pub fn from_parts(rank: &str, suit: &str, player: &str) -> (r: Option<Card>)
        ensures
            r == card_of_parts(rank@, suit@, player@),
            r matches Some(card) ==> card.wf(),
    {
        let rank = match Rank::parse(rank) {
            Some(rank) => rank,
            None => {
                return None;
            },
        };
        let player = if player.unicode_len() == 0 {
            Player::Player0
        } else {
            match parse_small_number(player) {
                Some(value) => {
                    if value < 2 {
                        Player::from(value)
                    } else {
                        return None;
                    }
                },
                None => {
                    return None;
                },
            }
        };
        if suit.unicode_len() == 0 {
            return None;
        }
        match Suit::from_letter(suit.get_char(0)) {
            Some(suit) => Some(Card::new_up(rank, suit, player)),
            None => None,
        }
    }

    /// Returns the card of rank `rank`, of the suit whose letter is `suit`
    /// and of the player of number `player`, with the given side up, if
    /// there is such a card.
    pub fn from_values(rank: u8, suit: char, player: u8, face_up: bool) -> (r: Option<Card>)
        ensures
            r is Some <==> 1 <= rank <= 13 && Suit::is_letter(suit) && player < 2,
            r matches Some(card) ==> card == (Card {
                rank: Rank(rank),
                suit: suit_of_letter(suit),
                player: super::board::player_of(player as int),
                face_up,
            }),
    {
        if rank < 1 || rank > 13 || player >= 2 {
            return None;
        }
        match Suit::from_letter(suit) {
            Some(suit) => {
                let mut card = Card::new(Rank::from(rank), suit, Player::from(player));
                card.face_up = face_up;
                Some(card)
            },
            None => None,
        }
    }

    /// Returns the card that `card_str` describes: its rank, the letter of
    /// its suit and, if wanted, the number of its owner. The card faces up.
    pub fn quick(card_str: &str) -> (r: Self)
        requires
            quick_card(card_str@) is Some,
        ensures
            Some(r) == quick_card(card_str@),
            r.wf(),
    {
        let fallback = Card::new(Rank(1), Suit::Club, Player::Player0);
        match captures(CARD_PATTERN, card_str) {
            Some((rank, suit, player)) => match Card::from_parts(
                rank.as_str(),
                suit.as_str(),
                player.as_str(),
            ) {
                Some(card) => card,
                None => fallback,
            },
            None => fallback,
        }
    }

    /// Returns the card that `card_str` describes, if it describes one.
    pub fn try_quick(card_str: &str) -> (r: Option<Self>)
        ensures
            r == quick_card(card_str@),
            r matches Some(card) ==> card.wf(),
    {
        let readable = match captures(CARD_PATTERN, card_str) {
            Some((rank, suit, player)) => Card::from_parts(
                rank.as_str(),
                suit.as_str(),
                player.as_str(),
            ).is_some(),
            None => false,
        };
        if readable {
            Some(Card::quick(card_str))
        } else {
            None
        }
    }
}

/// Returns the cards that `text` describes, if each of its words describes
/// one.
pub fn parse_cards(text: &str) -> (r: Option<Vec<Card>>)
    ensures
        r is Some <==> quick_pile(text@) is Some,
        r matches Some(cards) ==> Some(cards@) == quick_pile(text@),
{
    let pieces = words(text);
    let ghost all = spec_words(text@);
    let mut cards: Vec<Card> = Vec::new();
    let mut i: usize = 0;
    while i < pieces.len()
        invariant
            i <= pieces@.len(),
            texts_view(pieces@) == all,
            all == spec_words(text@),
            quick_cards(all, i as int) == Some(cards@),
        decreases pieces@.len() - i,
    {
        assert(all[i as int] == pieces@[i as int]@);
        match Card::try_quick(pieces[i].as_str()) {
            Some(card) => {
                cards.push(card);
            },
            None => {
                proof {
                    assert(quick_cards(all, i + 1) is None);
                    lemma_quick_cards_stay_none(all, i + 1, all.len() as int);
                }
                return None;
            },
        }
        i += 1;
    }
    Some(cards)
}

/// Once a word cannot be read, no longer run of the words can.
proof fn lemma_quick_cards_stay_none(words: Seq<Seq<char>>, n: int, m: int)
    requires
        n <= m,
        quick_cards(words, n) is None,
    ensures
        quick_cards(words, m) is None,
    decreases m - n,
{
    if n < m {
        lemma_quick_cards_stay_none(words, n, m - 1);
    }
}

/// Once a line cannot be read, no longer run of the lines can.
proof fn lemma_quick_lines_stay_none(lines: Seq<Seq<char>>, n: int, m: int)
    requires
        n <= m,
        quick_lines(lines, n) is None,
    ensures
        quick_lines(lines, m) is None,
    decreases m - n,
{
    if n < m {
        lemma_quick_lines_stay_none(lines, n, m - 1);
    }
}

/// Returns the first place at which `text` holds the character `c`, or the
/// length of `text` if there is none.
fn first_index(text: &str, c: char) -> (r: usize)
    ensures
        r == first_index_from(text@, c, 0),
        r <= text@.len(),
{
    let n: usize = text.unicode_len();
    let mut k: usize = 0;
    while k < n
        invariant
            k <= n,
            n == text@.len(),
            first_index_from(text@, c, 0) == first_index_from(text@, c, k as int),
        decreases n - k,
    {
        if text.get_char(k) == c {
            return k;
        }
        k += 1;
    }
    k
}

/// Returns the pile that the code `code` names.
fn parse_code(code: &str) -> (r: Option<PileType>)
    ensures
        r == pile_of_code(code@),
{
    if code.unicode_len() < 2 {
        return None;
    }
    let letter = code.get_char(0);
    let number: u8 = match digit_of(code.get_char(1)) {
        Some(number) => number,
        None => {
            return None;
        },
    };
    if letter == 'X' && number < 2 {
        Some(PileType::Waste { player: Player::from(number) })
    } else if letter == 'C' && number < 2 {
        Some(PileType::Crape { player: Player::from(number) })
    } else if letter == 'S' && number < 2 {
        Some(PileType::Stock { player: Player::from(number) })
    } else if letter == 'T' && number < 8 {
        Some(PileType::Tableau { id: number })
    } else if letter == 'F' && number < 8 {
        Some(PileType::Foundation { id: number, suit: suit_of_slot(number as usize) })
    } else {
        None
    }
}

/// Returns what a line of the description of a board says.
fn parse_line(line: &str) -> (r: Option<Option<PileLayout>>)
    ensures
        r is Some <==> quick_line(line@) is Some,
        r matches Some(entry) ==> {
            &&& entry is Some <==> quick_line(line@)->0 is Some
            &&& entry matches Some(layout) ==> Some(layout@) == quick_line(line@)->0
        },
{
    let text = trimmed(line);
    let n: usize = text.unicode_len();
    if n == 0 {
        return Some(None);
    }
    let colon: usize = first_index(text, ':');
    if colon >= n {
        return None;
    }
    let code = trimmed(text.substring_char(0, colon));
    let cards = trimmed(text.substring_char(colon + 1, n));
    proof {
        assert(text@.subrange(0, colon as int) =~= text@.take(colon as int));
        assert(text@.subrange(colon + 1, n as int) =~= text@.skip(colon + 1));
    }
    match parse_code(code) {
        None => None,
        Some(kind) => match parse_cards(cards) {
            None => None,
            Some(cards) => Some(Some(PileLayout { kind, cards })),
        },
    }
}

/// The views of the entries of a layout.
pub open spec fn layout_view(layout: Seq<PileLayout>) -> Seq<(PileType, Seq<Card>)> {
    layout.map_values(|entry: PileLayout| entry@)
}

/// Returns what the description `text` of a board says, line by line, if
/// each of its lines can be read.
pub fn parse_layout(text: &str) -> (r: Option<Vec<PileLayout>>)
    ensures
        r is Some <==> quick_layout(text@) is Some,
        r matches Some(layout) ==> Some(layout_view(layout@)) == quick_layout(text@),
{
    let pieces = lines(text);
    let ghost all = spec_lines(text@);
    let mut layout: Vec<PileLayout> = Vec::new();
    let mut i: usize = 0;
    proof {
        assert(layout_view(layout@) =~= Seq::<(PileType, Seq<Card>)>::empty());
    }
    while i < pieces.len()
        invariant
            i <= pieces@.len(),
            texts_view(pieces@) == all,
            all == spec_lines(text@),
            quick_lines(all, i as int) == Some(layout_view(layout@)),
        decreases pieces@.len() - i,
    {
        assert(all[i as int] == pieces@[i as int]@);
        let ghost before = layout_view(layout@);
        match parse_line(pieces[i].as_str()) {
            Some(Some(entry)) => {
                let ghost view = entry@;
                layout.push(entry);
                assert(layout_view(layout@) =~= before.push(view));
            },
            Some(None) => {},
            None => {
                proof {
                    assert(quick_lines(all, i + 1) is None);
                    lemma_quick_lines_stay_none(all, i + 1, all.len() as int);
                }
                return None;
            },
        }
        i += 1;
    }
    Some(layout)
}

/// Whether each entry of a layout names a pile of the board.
pub open spec fn layout_on_board(layout: Seq<(PileType, Seq<Card>)>) -> bool {
    forall|i: int|
        0 <= i < layout.len() ==> match (#[trigger] layout[i]).0 {
            PileType::Foundation { id, .. } => id < 8,
            PileType::Tableau { id } => id < 8,
            _ => true,
        }
}

/// Each pile that a description names is a pile of the board.
proof fn lemma_quick_lines_on_board(lines: Seq<Seq<char>>, n: int)
    requires
        quick_lines(lines, n) is Some,
    ensures
        layout_on_board(quick_lines(lines, n)->0),
    decreases n,
{
    if n > 0 {
        lemma_quick_lines_on_board(lines, n - 1);
    }
}

impl Pile {
    /// Puts on the pile the cards that `cards` describes, the first one
    /// lowest.
    pub fn quick(&mut self, cards: &str)
        requires
            quick_pile(cards@) is Some,
        ensures
            final(self)@ == (PileView {
                cards: old(self)@.cards + quick_pile(cards@)->0,
                kind: old(self).kind,
            }),
    {
        match parse_cards(cards) {
            Some(cards) => {
                let mut i: usize = 0;
                while i < cards.len()
                    invariant
                        i <= cards@.len(),
                        self@ == (PileView {
                            cards: old(self)@.cards + cards@.take(i as int),
                            kind: old(self).kind,
                        }),
                    decreases cards@.len() - i,
                {
                    self.add(cards[i]);
                    assert(old(self)@.cards + cards@.take(i + 1) =~= (old(self)@.cards
                        + cards@.take(i as int)).push(cards@[i as int]));
                    i += 1;
                }
                assert(cards@.take(cards@.len() as int) =~= cards@);
            },
            None => {},
        }
    }

    /// Puts on the pile the cards that `cards` describes, if each of its
    /// words describes a card; returns whether it did. The pile is left as it
    /// is if it did not.
    pub fn try_quick(&mut self, cards: &str) -> (r: bool)
        ensures
            r == quick_pile(cards@) is Some,
            r ==> final(self)@ == (PileView {
                cards: old(self)@.cards + quick_pile(cards@)->0,
                kind: old(self).kind,
            }),
            !r ==> final(self)@ == old(self)@,
    {
        if parse_cards(cards).is_some() {
            self.quick(cards);
            true
        } else {
            false
        }
    }
}

impl Board {
    /// Puts on the board the cards that the description `text` names, pile
    /// by pile: the cards join those that the piles hold.
    pub fn quick(&mut self, text: &str)
        requires
            quick_layout(text@) is Some,
        ensures
            final(self)@ == old(self)@.with_layout(
                quick_layout(text@)->0,
                quick_layout(text@)->0.len() as int,
            ),
    {
        match parse_layout(text) {
            Some(layout) => {
                let ghost entries = layout_view(layout@);
                proof {
                    lemma_quick_lines_on_board(spec_lines(text@), spec_lines(text@).len() as int);
                }
                let mut i: usize = 0;
                while i < layout.len()
                    invariant
                        i <= layout@.len(),
                        entries == layout_view(layout@),
                        layout_on_board(entries),
                        self@ == old(self)@.with_layout(entries, i as int),
                    decreases layout@.len() - i,
                {
                    let entry = &layout[i];
                    assert(entries[i as int] == entry@);
                    let ghost before = *self;
                    let pile = self.pile_from_type_mut(&entry.kind);
                    let ghost start = pile@;
                    let mut j: usize = 0;
                    while j < entry.cards.len()
                        invariant
                            j <= entry.cards@.len(),
                            pile@ == (PileView {
                                cards: start.cards + entry.cards@.take(j as int),
                                kind: start.kind,
                            }),
                        decreases entry.cards@.len() - j,
                    {
                        pile.add(entry.cards[j]);
                        assert(start.cards + entry.cards@.take(j + 1) =~= (start.cards
                            + entry.cards@.take(j as int)).push(entry.cards@[j as int]));
                        j += 1;
                    }
                    proof {
                        assert(entry.cards@.take(entry.cards@.len() as int) =~= entry.cards@);
                        self.lemma_replaces_view(before, entry.kind, self.spec_pile(entry.kind));
                    }
                    i += 1;
                }
            },
            None => {},
        }
    }

    /// Puts on the board the cards that the description `text` names, if
    /// each of its lines can be read; returns whether it did. The board is
    /// left as it is if it did not.
    pub fn try_quick(&mut self, text: &str) -> (r: bool)
        ensures
            r == quick_layout(text@) is Some,
            r ==> final(self)@ == old(self)@.with_layout(
                quick_layout(text@)->0,
                quick_layout(text@)->0.len() as int,
            ),
            !r ==> final(self)@ == old(self)@,
    {
        if parse_layout(text).is_some() {
            self.quick(text);
            true
        } else {
            false
        }
    }
}

} // verus!
