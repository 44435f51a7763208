use battleship::api::game_manager::{connect_possible, connect_to_game, setup, ConnectResponse};
use battleship::api::state::{GameState, Games};
use battleship::game::boat::{Boat, Direction};
use battleship::game::Player;

#[test]
fn connects_pair_up() {
    let mut games = Games::new();
    assert!(connect_possible(&games));
    let first = connect_to_game(&mut games);
    assert_eq!(first, ConnectResponse { game_id: 0, role: Player::Challenger });
    assert_eq!(games.next_game, Some(0));
    assert!(games.running_games.is_empty());
    let second = connect_to_game(&mut games);
    assert_eq!(second, ConnectResponse { game_id: 0, role: Player::Challenged });
    assert_eq!(games.next_game, None);
    assert!(matches!(
        games.running_games.get(&0),
        Some(GameState::Setup { challenger_boats, challenged_boats })
            if challenger_boats.is_empty() && challenged_boats.is_empty()
    ));
    let third = connect_to_game(&mut games);
    assert_eq!(third, ConnectResponse { game_id: 1, role: Player::Challenger });
}

#[test]
fn fresh_id_follows_largest() {
    let mut games = Games::new();
    games.running_games.insert(4, GameState::Setup { challenger_boats: vec![], challenged_boats: vec![] });
    games.running_games.insert(2, GameState::Setup { challenger_boats: vec![], challenged_boats: vec![] });
    let r = connect_to_game(&mut games);
    assert_eq!(r, ConnectResponse { game_id: 5, role: Player::Challenger });
}

#[test]
fn connect_impossible_when_ids_run_out() {
    let mut games = Games::new();
    games.running_games.insert(usize::MAX, GameState::Setup { challenger_boats: vec![], challenged_boats: vec![] });
    assert!(!connect_possible(&games));
    games.next_game = Some(3);
    assert!(connect_possible(&games));
}

#[test]
fn setup_stores_fleets_and_reports_progress() {
    let mut games = Games::new();
    connect_to_game(&mut games);
    connect_to_game(&mut games);
    let fleet = || vec![Boat::new((0, 0), Direction::North, 2)];
    assert_eq!(setup(&mut games, 0, Player::Challenger, fleet()), Ok("waiting"));
    assert_eq!(setup(&mut games, 0, Player::Challenger, fleet()), Ok("waiting"));
    assert_eq!(setup(&mut games, 0, Player::Challenged, fleet()), Ok("done"));
    assert_eq!(setup(&mut games, 0, Player::Challenger, fleet()), Ok("done"));
    match games.running_games.get(&0) {
        Some(GameState::Setup { challenger_boats, challenged_boats }) => {
            assert_eq!(challenger_boats.len(), 1);
            assert_eq!(challenged_boats.len(), 1);
        }
        _ => panic!("game 0 should still collect fleets"),
    }
}

#[test]
fn setup_with_empty_fleet_of_other_side_waits() {
    let mut games = Games::new();
    connect_to_game(&mut games);
    connect_to_game(&mut games);
    assert_eq!(setup(&mut games, 0, Player::Challenged, vec![]), Ok("waiting"));
    assert_eq!(setup(&mut games, 0, Player::Challenger, vec![Boat::new((0, 0), Direction::East, 1)]), Ok("waiting"));
}

#[test]
fn setup_refuses_unknown_and_running_games() {
    let mut games = Games::new();
    assert_eq!(setup(&mut games, 9, Player::Challenger, vec![]), Err("that game does not exist"));
    let host = battleship::game::board::Board::new(vec![]);
    let guest = battleship::game::board::Board::new(vec![]);
    games.running_games.insert(1, GameState::Playing(battleship::game::Game::new(host, guest)));
    assert_eq!(setup(&mut games, 1, Player::Challenged, vec![]), Err("that game is already going"));
    assert!(matches!(games.running_games.get(&1), Some(GameState::Playing(_))));
}
