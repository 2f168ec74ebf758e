//! The course of a game: whose turn it is, and what a move makes of it.

use rand_pcg::Pcg64;
use vstd::prelude::*;
use vstd::string::StringExecFns;

use super::board::move_refusal;
use super::board::Board;
use super::cards::Card;
use super::custom_test_games::call_custom;
use super::custom_test_games::is_custom_game;
use super::deal::is_shuffled_deck;
use super::deal::lemma_new_game;
use super::decks::generate_seed;
use super::decks::is_alphanumeric;
use super::decks::new_rng;
use super::moves::CardAction;
use super::piles::PileType;
use super::players::Player;
use super::players::PlayerType;

verus! {

/// The settings and the state of a game besides its board.
pub struct GameConfig {
    pub player_types: [PlayerType; 2],
    pub seed: String,
    pub rng: Pcg64,
    pub custom_game: Option<String>,
    pub active_player: Option<Player>,
    pub step: usize,
    pub last_move: Option<CardAction>,
    pub crapette_mode: bool,
    pub start_time: Option<String>,
    pub log_path: String,
}

impl GameConfig {
    /// Creates the settings of a game between two people, with the random
    /// generator that `seed` gives. Nobody is to play yet.
    pub fn new(seed: String) -> (r: Self)
        ensures
            r.seed@ == seed@,
            r.player_types@ == seq![PlayerType::Player, PlayerType::Player],
            r.custom_game is None,
            r.active_player is None,
            r.step == 0,
            r.last_move is None,
            !r.crapette_mode,
            r.start_time is None,
            r.log_path@.len() == 0,
    {
        let rng = new_rng(seed.clone());
        let player_types = [PlayerType::Player, PlayerType::Player];
        assert(player_types@ =~= seq![PlayerType::Player, PlayerType::Player]);
        GameConfig {
            player_types,
            seed,
            rng,
            custom_game: None,
            active_player: None,
            step: 0,
            last_move: None,
            crapette_mode: false,
            start_time: None,
            log_path: String::new(),
        }
    }

    /// Whether the player whose turn it is is played by the machine.
    pub open spec fn spec_is_player_ai(self) -> bool {
        match self.active_player {
            None => false,
            Some(player) => self.player_types@[player.spec_index()] == PlayerType::AI,
        }
    }

    /// Whether the opponent of the player whose turn it is is played by the
    /// machine.
    pub open spec fn spec_is_opponent_ai(self) -> bool {
        match self.active_player {
            None => false,
            Some(player) => self.player_types@[player.spec_other().spec_index()]
                == PlayerType::AI,
        }
    }

    /// Checks whether the player whose turn it is is played by the machine.
    pub fn is_player_ai(&self) -> (r: bool)
        ensures
            r == self.spec_is_player_ai(),
    {
        match self.active_player {
            None => false,
            Some(player) => self.player_types[player.index()] == PlayerType::AI,
        }
    }

    /// Checks whether the opponent of the player whose turn it is is played
    /// by the machine.
    pub fn is_opponent_ai(&self) -> (r: bool)
        ensures
            r == self.spec_is_opponent_ai(),
    {
        match self.active_player {
            None => false,
            Some(player) => self.player_types[player.other().index()] == PlayerType::AI,
        }
    }
}

/// Whether a move from the pile `origin` is one that the opponent may call
/// out: a move from a crape or a stock.
pub open spec fn is_player_pile(origin: PileType) -> bool {
    origin is Crape || origin is Stock
}

/// A game: its settings and its board.
pub struct GameManager {
    pub config: GameConfig,
    pub board: Board,
}

impl GameManager {
    /// Whether a move onto the pile `pile` ends the turn: the game is not in
    /// crapette mode and the pile is the waste of the player whose turn it is.
    pub open spec fn ends_turn(self, pile: PileType) -> bool {
        pile matches PileType::Waste { player } && self.config.active_player == Some(player)
    }

    /// Starts a game with the seed `seed`, or with a seed of twenty random
    /// letters and digits if none is given.
    /// - With a custom game the board of that name is laid out and the
    ///   first player is to play.
    /// - Without one each player deals their shuffled deck, and the player
    ///   that the dealt cards name is to play.
    pub fn new(seed: Option<&str>, custom: Option<&str>) -> (r: Self)
        requires
            custom matches Some(name) ==> is_custom_game(name@),
        ensures
            seed matches Some(text) ==> r.config.seed@ == text@,
            seed is None ==> r.config.seed@.len() == 20 && forall|i: int|
                0 <= i < 20 ==> is_alphanumeric(#[trigger] r.config.seed@[i]),
            r.config.last_move is None,
            !r.config.crapette_mode,
            r.board@.wf(),
            custom matches Some(name) ==> {
                &&& r.board@ == Board::spec_new().custom(name@)
                &&& r.config.active_player == Some(Player::Player0)
            },
            custom is None ==> {
                &&& exists|deck0: Seq<Card>, deck1: Seq<Card>|
                    {
                        &&& is_shuffled_deck(deck0, Player::Player0)
                        &&& is_shuffled_deck(deck1, Player::Player1)
                        &&& r.board@ == #[trigger] Board::spec_new().deal(
                            Player::Player0,
                            deck0,
                        ).deal(Player::Player1, deck1).clear_foundation()
                    }
                &&& r.board@.is_dealt()
                &&& r.config.active_player == Some(r.board@.first_player())
            },
    {
        let seed = match seed {
            Some(seed) => String::from_str(seed),
            None => generate_seed(),
        };
        let mut game_manager = GameManager { config: GameConfig::new(seed), board: Board::new() };
        match custom {
            None => {
                game_manager.board.new_game(&mut game_manager.config.rng);
                proof {
                    let before = Board::spec_new();
                    let after = game_manager.board@;
                    let (deck0, deck1) = choose|deck0: Seq<Card>, deck1: Seq<Card>|
                        {
                            &&& is_shuffled_deck(deck0, Player::Player0)
                            &&& is_shuffled_deck(deck1, Player::Player1)
                            &&& after == #[trigger] before.deal(Player::Player0, deck0).deal(
                                Player::Player1,
                                deck1,
                            ).clear_foundation()
                        };
                    lemma_new_game(before, deck0, deck1);
                }
                let first = game_manager.board.compute_first_player();
                game_manager.set_active_player(Some(first));
            },
            Some(custom) => {
                call_custom(custom, &mut game_manager.board);
                proof {
                    super::custom_test_games::lemma_custom_wf(custom@);
                }
                game_manager.set_active_player(Some(Player::Player0));
            },
        };
        game_manager
    }

    /// Changes the player whose turn it is. Outside crapette mode the move
    /// that the opponent could call out is forgotten.
    pub fn set_active_player(&mut self, player: Option<Player>)
        ensures
            final(self).board == old(self).board,
            final(self).config.active_player == player,
            final(self).config.last_move == if old(self).config.crapette_mode {
                old(self).config.last_move
            } else {
                None
            },
            final(self).config.crapette_mode == old(self).config.crapette_mode,
            final(self).config.seed == old(self).config.seed,
            final(self).config.player_types == old(self).config.player_types,
            final(self).config.step == old(self).config.step,
    {
        self.set_crapette_last_move(None);
        self.config.active_player = player;
    }

    /// Ends the turn of the player if a card has just gone to the pile
    /// `pile` and that pile is their own waste: it is then the turn of the
    /// other player. Returns whether the turn has ended.
    pub fn check_and_apply_end_of_turn(&mut self, pile: &PileType) -> (r: bool)
        requires
            !old(self).config.crapette_mode,
        ensures
            r == old(self).ends_turn(*pile),
            final(self).board == old(self).board,
            !final(self).config.crapette_mode,
            r ==> {
                &&& final(self).config.active_player == Some(
                    old(self).config.active_player->0.spec_other(),
                )
                &&& final(self).config.last_move is None
            },
            !r ==> {
                &&& final(self).config.active_player == old(self).config.active_player
                &&& final(self).config.last_move == old(self).config.last_move
            },
    {
        match pile {
            PileType::Waste { player } => {
                match self.config.active_player {
                    Some(active_player) => {
                        if *player == active_player {
                            self.set_active_player(Some(active_player.other()));
                            return true;
                        }
                    },
                    None => {},
                }
            },
            _ => {},
        }
        false
    }

    /// Ends the game if the player whose turn it is has won, that is, if
    /// their stock, waste and crape are empty: nobody is to play after that.
    /// Returns whether the game has ended.
    pub fn check_and_apply_win(&mut self) -> (r: bool)
        ensures
            r == (old(self).config.active_player matches Some(player) && old(
                self,
            ).board@.check_win(player)),
            final(self).board == old(self).board,
            r ==> final(self).config.active_player is None,
            !r ==> final(self).config.active_player == old(self).config.active_player,
    {
        match self.config.active_player {
            Some(active_player) => {
                if self.board.check_win(active_player) {
                    self.set_active_player(None);
                    true
                } else {
                    false
                }
            },
            None => false,
        }
    }

    /// Remembers `card_move` as the move that the opponent could call out.
    /// In crapette mode nothing changes.
    pub fn set_crapette_last_move(&mut self, card_move: Option<CardAction>)
        ensures
            final(self).board == old(self).board,
            final(self).config.last_move == if old(self).config.crapette_mode {
                old(self).config.last_move
            } else {
                card_move
            },
            final(self).config.active_player == old(self).config.active_player,
            final(self).config.crapette_mode == old(self).config.crapette_mode,
            final(self).config.seed == old(self).config.seed,
            final(self).config.player_types == old(self).config.player_types,
            final(self).config.step == old(self).config.step,
    {
        if self.config.crapette_mode {
            return ;
        }
        self.config.last_move = card_move;
    }

    /// Moves the top card of the pile `origin_type` onto the pile
    /// `destination_type` for the player whose turn it is, if the rules allow
    /// it and the card faces up; the error says why if they do not.
    ///
    /// Outside crapette mode a move from the crape or the stock is
    /// remembered as the move that the opponent could call out, any other
    /// move makes the last one forgotten, and a move onto the waste of the
    /// player ends their turn.
    pub fn move_card(&mut self, origin_type: &PileType, destination_type: &PileType) -> (r:
        Result<CardAction, &'static str>)
        requires
            old(self).config.active_player is Some,
            old(self).board@.has_pile(*origin_type),
            old(self).board@.has_pile(*destination_type),
        ensures
            ({
                let player = old(self).config.active_player->0;
                let refusal = move_refusal(
                    old(self).board@,
                    *origin_type,
                    *destination_type,
                    player,
                );
                &&& r is Ok <==> refusal is None
                &&& r matches Ok(action) ==> {
                    &&& action == (CardAction::Move {
                        card: old(self).board@.pile(*origin_type).cards.last(),
                        origin: *origin_type,
                        destination: *destination_type,
                    })
                    &&& final(self).board@ == old(self).board@.move_card(
                        *origin_type,
                        *destination_type,
                    )
                    &&& !old(self).config.crapette_mode ==> {
                        &&& final(self).config.active_player == if old(self).ends_turn(
                            *destination_type,
                        ) {
                            Some(player.spec_other())
                        } else {
                            Some(player)
                        }
                        &&& final(self).config.last_move == if is_player_pile(*origin_type) && !old(
                            self,
                        ).ends_turn(*destination_type) {
                            Some(action)
                        } else {
                            None
                        }
                    }
                    &&& old(self).config.crapette_mode ==> {
                        &&& final(self).config.active_player == Some(player)
                        &&& final(self).config.last_move == old(self).config.last_move
                    }
                }
                &&& r matches Err(message) ==> {
                    &&& Some(message@) == refusal
                    &&& final(self).board@ == old(self).board@
                    &&& final(self).config.active_player == Some(player)
                    &&& final(self).config.last_move == old(self).config.last_move
                }
                &&& final(self).config.crapette_mode == old(self).config.crapette_mode
            }),
    {
        let player = match self.config.active_player {
            Some(player) => player,
            None => Player::Player0,
        };
        let card_move = self.board.move_card_checked(origin_type, destination_type, player);
        match card_move {
            Ok(action) => {
                if !self.config.crapette_mode {
                    let from_player_pile = match origin_type {
                        PileType::Crape { .. } => true,
                        PileType::Stock { .. } => true,
                        _ => false,
                    };
                    self.set_crapette_last_move(
                        if from_player_pile {
                            Some(action)
                        } else {
                            None
                        },
                    );
                    let _end = self.check_and_apply_end_of_turn(destination_type);
                }
            },
            Err(_) => {},
        }
        card_move
    }

    /// Turns the top card of the pile `pile_type` face up if the player
    /// whose turn it is may turn it.
    pub fn flip_card_up(&mut self, pile_type: &PileType)
        requires
            old(self).config.active_player is Some,
            old(self).board@.has_pile(*pile_type),
        ensures
            final(self).board@ == old(self).board@.flip_card_up(
                *pile_type,
                old(self).config.active_player->0,
            ),
            final(self).config == old(self).config,
    {
        let player = match self.config.active_player {
            Some(player) => player,
            None => Player::Player0,
        };
        self.board.flip_card_up(pile_type, &player);
    }

    /// Turns the waste of the player whose turn it is over onto their stock.
    pub fn flip_waste_to_stock(&mut self)
        requires
            old(self).config.active_player is Some,
        ensures
            final(self).board@ == old(self).board@.flip_waste_to_stock(
                old(self).config.active_player->0,
            ),
            final(self).config == old(self).config,
    {
        let player = match self.config.active_player {
            Some(player) => player,
            None => Player::Player0,
        };
        self.board.flip_waste_to_stock(&player);
    }
}

} // verus!
