use battleship::game::board::{fleet_fits, Board};
use battleship::game::boat::{Boat, Direction};
use battleship::game::grid::Grid;
use battleship::game::hit_result::HitResult;
use battleship::game::{Game, GameStatus, Role};

fn boat(x: usize, y: usize, direction: Direction, len: usize) -> Boat {
    Boat::new((x, y), direction, len)
}

#[test]
fn grid_new_is_default_everywhere() {
    let grid: Grid<3, 2, bool> = Grid::new();
    for x in 0..3 {
        for y in 0..2 {
            assert_eq!(grid.get(x, y), Some(&false));
        }
    }
    let opts: Grid<2, 2, Option<usize>> = Grid::new();
    assert_eq!(opts.get(1, 1), Some(&None));
}

#[test]
fn grid_get_out_of_range_is_none() {
    let grid: Grid<3, 2, bool> = Grid::new();
    assert_eq!(grid.get(3, 0), None);
    assert_eq!(grid.get(0, 2), None);
    assert_eq!(grid.get(usize::MAX, usize::MAX), None);
}

#[test]
fn grid_set_and_get_mut_touch_one_cell() {
    let mut grid: Grid<3, 2, usize> = Grid::new();
    grid.set(2, 1, 7);
    assert_eq!(*grid.at(2, 1), 7);
    assert_eq!(grid.get(1, 1), Some(&0));
    assert_eq!(grid.get(2, 0), Some(&0));
    if let Some(cell) = grid.get_mut(0, 0) {
        *cell = 5;
    }
    assert_eq!(grid.get(0, 0), Some(&5));
    assert_eq!(grid.get(2, 1), Some(&7));
    assert!(grid.get_mut(3, 3).is_none());
}

#[test]
fn boat_new_has_unhit_segments() {
    let b = boat(1, 2, Direction::East, 3);
    assert_eq!(b.len(), 3);
    assert_eq!(b.hits, vec![false, false, false]);
    assert!(b.is_safe());
}

#[test]
fn boat_hit_in_each_direction() {
    let mut north = boat(2, 2, Direction::North, 2);
    assert_eq!(north.hit((3, 2)), HitResult::Water);
    assert_eq!(north.hit((2, 3)), HitResult::Hit);
    assert_eq!(north.hits, vec![false, true]);
    assert_eq!(north.hit((2, 2)), HitResult::Sunk);

    let mut east = boat(2, 2, Direction::East, 2);
    assert_eq!(east.hit((2, 3)), HitResult::Water);
    assert_eq!(east.hit((3, 2)), HitResult::Hit);
    assert_eq!(east.hit((2, 2)), HitResult::Sunk);

    let mut south = boat(2, 2, Direction::South, 2);
    assert_eq!(south.hit((3, 1)), HitResult::Water);
    assert_eq!(south.hit((2, 1)), HitResult::Hit);
    assert_eq!(south.hits, vec![false, true]);
    assert_eq!(south.hit((2, 2)), HitResult::Sunk);

    let mut west = boat(2, 2, Direction::West, 2);
    assert_eq!(west.hit((1, 3)), HitResult::Water);
    assert_eq!(west.hit((1, 2)), HitResult::Hit);
    assert_eq!(west.hit((2, 2)), HitResult::Sunk);
    assert!(!west.is_safe());
}

#[test]
fn boat_hit_again_on_sunk_boat_reports_sunk() {
    let mut b = boat(0, 0, Direction::North, 1);
    assert_eq!(b.hit((0, 0)), HitResult::Sunk);
    assert_eq!(b.hit((0, 0)), HitResult::Sunk);
}

#[test]
fn fleet_fits_checks_every_segment() {
    assert!(fleet_fits::<8, 8>(&vec![boat(0, 0, Direction::North, 8)]));
    assert!(!fleet_fits::<8, 8>(&vec![boat(0, 1, Direction::North, 8)]));
    assert!(fleet_fits::<8, 8>(&vec![boat(7, 7, Direction::West, 8)]));
    assert!(!fleet_fits::<8, 8>(&vec![boat(7, 7, Direction::South, 9)]));
    assert!(!fleet_fits::<8, 8>(&vec![boat(8, 0, Direction::East, 1)]));
    assert!(!fleet_fits::<8, 8>(&vec![boat(0, 9, Direction::South, 3)]));
    assert!(fleet_fits::<8, 8>(&vec![boat(9, 9, Direction::South, 0)]));
    assert!(fleet_fits::<8, 8>(&vec![]));
}

#[test]
fn board_shoot_water_hit_sunk() {
    let mut board: Board<8, 8> = Board::new(vec![boat(1, 1, Direction::East, 2), boat(5, 5, Direction::North, 1)]);
    assert_eq!(board.safe_boats_count(), 2);
    assert_eq!(board.shoot((0, 0)), HitResult::Water);
    assert_eq!(board.shoot((2, 1)), HitResult::Hit);
    assert_eq!(board.safe_boats_count(), 2);
    assert_eq!(board.shoot((1, 1)), HitResult::Sunk);
    assert_eq!(board.safe_boats_count(), 1);
    assert_eq!(board.shoot((5, 5)), HitResult::Sunk);
    assert_eq!(board.safe_boats_count(), 0);
}

#[test]
fn board_repeat_shot_changes_nothing() {
    let mut board: Board<8, 8> = Board::new(vec![boat(3, 3, Direction::South, 2)]);
    assert_eq!(board.shoot((3, 3)), HitResult::Hit);
    assert_eq!(board.shoot((3, 3)), HitResult::Hit);
    assert_eq!(board.safe_boats_count(), 1);
    assert_eq!(board.shoot((4, 4)), HitResult::Water);
    assert_eq!(board.shoot((4, 4)), HitResult::Water);
    assert_eq!(board.shoot((3, 2)), HitResult::Sunk);
    assert_eq!(board.shoot((3, 2)), HitResult::Sunk);
    assert_eq!(board.safe_boats_count(), 0);
}

#[test]
fn board_later_boat_covers_earlier_one() {
    // Both boats lie on (2, 2); the cell belongs to the second.
    let mut board: Board<8, 8> = Board::new(vec![boat(2, 2, Direction::North, 1), boat(1, 2, Direction::East, 2)]);
    assert_eq!(board.shoot((2, 2)), HitResult::Hit);
    assert_eq!(board.shoot((1, 2)), HitResult::Sunk);
    // The first boat can no longer be reached.
    assert_eq!(board.safe_boats_count(), 1);
}

#[test]
fn board_hits_reports_each_cell() {
    let mut board: Board<4, 4> = Board::new(vec![boat(0, 0, Direction::North, 2), boat(3, 3, Direction::West, 1)]);
    board.shoot((0, 0));
    board.shoot((2, 2));
    board.shoot((3, 3));
    let view = board.hits();
    assert_eq!(view.get(0, 0), Some(&Some(HitResult::Hit)));
    assert_eq!(view.get(0, 1), Some(&None));
    assert_eq!(view.get(2, 2), Some(&Some(HitResult::Water)));
    assert_eq!(view.get(3, 3), Some(&Some(HitResult::Sunk)));
    assert_eq!(view.get(1, 1), Some(&None));
    board.shoot((0, 1));
    let view = board.hits();
    assert_eq!(view.get(0, 0), Some(&Some(HitResult::Sunk)));
    assert_eq!(view.get(0, 1), Some(&Some(HitResult::Sunk)));
}

fn small_game() -> Game<8, 8> {
    let host = Board::new(vec![boat(0, 0, Direction::East, 2)]);
    let guest = Board::new(vec![boat(7, 7, Direction::South, 1)]);
    Game::new(host, guest)
}

#[test]
fn game_starts_with_guest_to_shoot() {
    let game = small_game();
    assert_eq!(game.status(), GameStatus::Playing { turn: Role::Guest });
    assert_eq!(game.turn(), Role::Guest);
    assert_eq!(game.safe_boats_count(Role::Host), 1);
    assert_eq!(game.safe_boats_count(Role::Guest), 1);
}

#[test]
fn game_shooter_keeps_the_turn() {
    let mut game = small_game();
    // The guest shoots at the host's board.
    assert_eq!(game.shoot((5, 5)), HitResult::Water);
    assert_eq!(game.status(), GameStatus::Playing { turn: Role::Guest });
    assert_eq!(game.shoot((0, 0)), HitResult::Hit);
    assert_eq!(game.status(), GameStatus::Playing { turn: Role::Guest });
    assert_eq!(game.safe_boats_count(Role::Guest), 1);
}

#[test]
fn game_over_when_last_boat_sinks() {
    let mut game = small_game();
    assert_eq!(game.shoot((0, 0)), HitResult::Hit);
    assert_eq!(game.shoot((1, 0)), HitResult::Sunk);
    assert_eq!(game.status(), GameStatus::GameOver { winner: Role::Guest });
    assert_eq!(game.turn(), Role::Guest);
    assert_eq!(game.safe_boats_count(Role::Host), 0);
}

#[test]
fn game_sinking_one_of_two_boats_keeps_playing() {
    let host = Board::new(vec![boat(0, 0, Direction::East, 1), boat(4, 4, Direction::East, 1)]);
    let guest = Board::new(vec![boat(7, 7, Direction::South, 1)]);
    let mut game: Game<8, 8> = Game::new(host, guest);
    assert_eq!(game.shoot((0, 0)), HitResult::Sunk);
    assert_eq!(game.status(), GameStatus::Playing { turn: Role::Guest });
    assert_eq!(game.shoot((4, 4)), HitResult::Sunk);
    assert_eq!(game.status(), GameStatus::GameOver { winner: Role::Guest });
}

#[test]
fn game_spec_info_shows_both_boards() {
    let mut game = small_game();
    game.shoot((0, 0));
    game.shoot((3, 3));
    let info = game.spec_info();
    assert_eq!(info.status, GameStatus::Playing { turn: Role::Guest });
    assert_eq!(info.host_hits.get(0, 0), Some(&Some(HitResult::Hit)));
    assert_eq!(info.host_hits.get(3, 3), Some(&Some(HitResult::Water)));
    assert_eq!(info.host_hits.get(1, 0), Some(&None));
    assert_eq!(info.guest_hits.get(7, 7), Some(&None));
}

#[test]
fn role_text_and_parse() {
    assert_eq!(Role::Host.to_string(), "host");
    assert_eq!(Role::Guest.to_string(), "guest");
    for text in ["Host", "host", "HOST"] {
        assert_eq!(Role::parse(text), Ok(Role::Host));
    }
    for text in ["Guest", "guest", "GUEST"] {
        assert_eq!(Role::parse(text), Ok(Role::Guest));
    }
    assert_eq!(Role::parse("hOst"), Err("hOst is not a role".to_string()));
    assert_eq!(Role::parse(""), Err(" is not a role".to_string()));
    assert_eq!("guest".parse::<Role>(), Ok(Role::Guest));
    assert_eq!(Role::parse(&Role::Host.to_string()), Ok(Role::Host));
    assert_eq!(Role::parse(&Role::Guest.to_string()), Ok(Role::Guest));
}

#[test]
fn role_not_is_the_opponent() {
    assert_eq!(!Role::Host, Role::Guest);
    assert_eq!(!Role::Guest, Role::Host);
    assert_eq!(!!Role::Host, Role::Host);
    assert_eq!(Role::Guest.opponent(), Role::Host);
}
