use crapette::game::game_manager::GameConfig;
use crapette::game::game_manager::GameManager;
use crapette::game::cards::Card;
use crapette::game::moves::CardAction;
use crapette::game::piles::PileType;
use crapette::game::players::Player;
use crapette::game::players::PlayerType;
use crapette::game::ranks::Rank;
use crapette::game::suits::Suit;

#[test]
fn test_move_card() {
    let mut game_manager = GameManager::new(None, Some("foundation_to_fill"));
    let tableau0 = PileType::Tableau { id: 0 };
    let tableau1 = PileType::Tableau { id: 1 };
    let result = game_manager.move_card(&tableau0, &tableau1);
    result.unwrap();
    assert_eq!(game_manager.board.tableau[0].nb_cards(), 0);
    assert_eq!(game_manager.board.tableau[1].nb_cards(), 1);
}

#[test]
fn test_move_card_invalid() {
    let mut game_manager = GameManager::new(None, Some("foundation_to_fill"));
    let tableau0 = PileType::Tableau { id: 2 };
    let tableau1 = PileType::Tableau { id: 1 };
    let card_move = game_manager.move_card(&tableau0, &tableau1);
    assert_eq!(card_move.is_err(), true);
}

#[test]
fn test_flip_card() {
    let mut game_manager = GameManager::new(None, Some("foundation_to_fill"));
    let crape = PileType::Crape {
        player: Player::Player0,
    };
    game_manager.flip_card_up(&crape);
}

#[test]
fn test_new_game_manager() {
    let game = GameManager::new(Some("a seed"), None);
    assert_eq!(game.config.seed, "a seed");
    assert!(game.board.is_valid());
    assert_eq!(game.config.active_player, Some(game.board.compute_first_player()));
    assert!(game.config.last_move.is_none());
    assert!(!game.config.crapette_mode);
    let again = GameManager::new(Some("a seed"), None);
    assert!(game.board.eq(&again.board));

    let random = GameManager::new(None, Some("trivial_move"));
    assert_eq!(random.config.seed.chars().count(), 20);
    assert_eq!(random.config.active_player, Some(Player::Player0));
    assert_eq!(random.board.tableau[1].nb_cards(), 1);
}

#[test]
fn test_game_config() {
    let mut config = GameConfig::new("seed".to_string());
    assert_eq!(config.seed, "seed");
    assert!(config.active_player.is_none());
    assert!(!config.is_player_ai());
    assert!(!config.is_opponent_ai());
    config.player_types = [PlayerType::Player, PlayerType::AI];
    config.active_player = Some(Player::Player0);
    assert!(!config.is_player_ai());
    assert!(config.is_opponent_ai());
    config.active_player = Some(Player::Player1);
    assert!(config.is_player_ai());
    assert!(!config.is_opponent_ai());
}

#[test]
fn test_turn_ends_on_own_waste() {
    let mut game = GameManager::new(Some("s"), Some("trivial_move"));
    let player = Player::Player0;
    game.board.stock[0].add(Card::new_up(Rank::from(4), Suit::Club, player));
    game.board.stock[0].add(Card::new_up(Rank::from(9), Suit::Club, player));
    let stock = PileType::Stock { player };
    let waste = PileType::Waste { player };
    let tableau = PileType::Tableau { id: 4 };

    // a move from the stock to the tableau is remembered, and the turn goes on
    let action = game.move_card(&stock, &tableau).unwrap();
    assert!(matches!(action, CardAction::Move { .. }));
    assert_eq!(game.config.active_player, Some(player));
    assert!(game.config.last_move.is_some());
    // a move between tableau piles makes it forgotten
    game.move_card(&PileType::Tableau { id: 0 }, &PileType::Tableau { id: 1 }).unwrap();
    assert!(game.config.last_move.is_none());
    assert!(!game.check_and_apply_end_of_turn(&tableau));
    assert_eq!(game.config.active_player, Some(player));
    // a move from the stock to the own waste ends the turn
    game.move_card(&stock, &waste).unwrap();
    assert_eq!(game.config.active_player, Some(Player::Player1));
    assert!(game.config.last_move.is_none());
    assert_eq!(game.board.waste[0].nb_cards(), 1);
    // a refused move changes nothing
    assert_eq!(game.move_card(&stock, &waste).err(), Some("Unable to take a card from empty pile"));
    assert_eq!(game.config.active_player, Some(Player::Player1));
}

#[test]
fn test_check_and_apply_win() {
    let mut game = GameManager::new(Some("s"), Some("trivial_move"));
    assert!(game.check_and_apply_win());
    assert_eq!(game.config.active_player, None);
    assert!(!game.check_and_apply_win());

    let mut game = GameManager::new(Some("s"), None);
    assert!(!game.check_and_apply_win());
    assert!(game.config.active_player.is_some());
    game.set_active_player(Some(Player::Player1));
    assert_eq!(game.config.active_player, Some(Player::Player1));
    game.board.waste[1].add(Card::new_up(Rank::from(4), Suit::Club, Player::Player1));
    game.board.stock[1].clear();
    game.flip_waste_to_stock();
    assert_eq!(game.board.waste[1].nb_cards(), 0);
    assert_eq!(game.board.stock[1].nb_cards(), 1);
}
