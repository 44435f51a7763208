use battleship::game::boat::{Boat, Direction};
use battleship::game::hit_result::HitResult;
use battleship::game::Role;
use battleship::mqtt::callbacks::{Callbacks, Payload, Publication};
use battleship::mqtt::engine::{Action, EngineState, Message, Register};

fn published(callbacks: &Callbacks) -> Vec<(String, Payload)> {
    callbacks.list.iter().map(|p: &Publication| (p.topic.clone(), p.payload)).collect()
}

fn register(engine: &mut EngineState, id: &str) -> Vec<(String, Payload)> {
    let cb = engine.handle_packet("battleship/register", Some(Message::Register(Register { id: id.to_string() })));
    published(&cb)
}

fn act(engine: &mut EngineState, game: usize, role: &str, action: Action) -> Vec<(String, Payload)> {
    let topic = format!("battleship/game/{game}/{role}/action");
    published(&engine.handle_packet(&topic, Some(Message::Action(action))))
}

fn one_boat(x: usize, y: usize, len: usize) -> Vec<Boat> {
    vec![Boat::new((x, y), Direction::East, len)]
}

#[test]
fn registrations_alternate_roles_and_pair_games() {
    let mut engine = EngineState::new();
    assert_eq!(
        register(&mut engine, "aa:bb"),
        vec![("battleship/aa:bb/assign".to_string(), Payload::Assign { role: Role::Host, game_id: 0 })]
    );
    assert_eq!(
        register(&mut engine, "cc"),
        vec![("battleship/cc/assign".to_string(), Payload::Assign { role: Role::Guest, game_id: 0 })]
    );
    assert_eq!(
        register(&mut engine, "dd"),
        vec![("battleship/dd/assign".to_string(), Payload::Assign { role: Role::Host, game_id: 1 })]
    );
}

#[test]
fn game_starts_once_both_fleets_are_in() {
    let mut engine = EngineState::new();
    register(&mut engine, "a");
    register(&mut engine, "b");
    assert_eq!(act(&mut engine, 0, "host", Action::Setup(one_boat(0, 0, 2))), vec![]);
    assert_eq!(act(&mut engine, 0, "host", Action::Setup(one_boat(0, 0, 1))), vec![]);
    assert_eq!(
        act(&mut engine, 0, "GUEST", Action::Setup(one_boat(5, 5, 1))),
        vec![("battleship/game/0/state".to_string(), Payload::Turn { turn: Role::Guest })]
    );
    // The game is no longer waiting.
    assert_eq!(act(&mut engine, 0, "host", Action::Setup(one_boat(0, 0, 1))), vec![]);
}

#[test]
fn setup_for_unknown_game_is_ignored() {
    let mut engine = EngineState::new();
    assert_eq!(act(&mut engine, 3, "host", Action::Setup(one_boat(0, 0, 1))), vec![]);
}

#[test]
fn fleet_off_the_board_drops_the_waiting_game() {
    let mut engine = EngineState::new();
    register(&mut engine, "a");
    register(&mut engine, "b");
    act(&mut engine, 0, "host", Action::Setup(one_boat(7, 0, 2)));
    assert_eq!(act(&mut engine, 0, "guest", Action::Setup(one_boat(0, 0, 1))), vec![]);
    // Neither waiting nor running any more.
    assert_eq!(act(&mut engine, 0, "guest", Action::Setup(one_boat(0, 0, 1))), vec![]);
    assert_eq!(act(&mut engine, 0, "guest", Action::Shoot(0, 0)), vec![]);
}

fn started_game() -> EngineState {
    let mut engine = EngineState::new();
    register(&mut engine, "a");
    register(&mut engine, "b");
    act(&mut engine, 0, "host", Action::Setup(one_boat(0, 0, 2)));
    act(&mut engine, 0, "guest", Action::Setup(one_boat(6, 6, 1)));
    engine
}

#[test]
fn shots_are_reported_to_both_players_and_the_game() {
    let mut engine = started_game();
    let hit = Payload::Hit { attacker: Role::Guest, hit: HitResult::Water, position: (4, 4) };
    assert_eq!(
        act(&mut engine, 0, "guest", Action::Shoot(4, 4)),
        vec![
            ("battleship/game/0/guest/event".to_string(), hit),
            ("battleship/game/0/host/event".to_string(), hit),
            ("battleship/game/0/state".to_string(), Payload::Turn { turn: Role::Guest }),
        ]
    );
    let hit = Payload::Hit { attacker: Role::Guest, hit: HitResult::Hit, position: (1, 0) };
    assert_eq!(
        act(&mut engine, 0, "guest", Action::Shoot(1, 0)),
        vec![
            ("battleship/game/0/guest/event".to_string(), hit),
            ("battleship/game/0/host/event".to_string(), hit),
            ("battleship/game/0/state".to_string(), Payload::Turn { turn: Role::Guest }),
        ]
    );
}

#[test]
fn sinking_the_last_boat_ends_the_game() {
    let mut engine = started_game();
    act(&mut engine, 0, "guest", Action::Shoot(0, 0));
    let hit = Payload::Hit { attacker: Role::Guest, hit: HitResult::Sunk, position: (1, 0) };
    assert_eq!(
        act(&mut engine, 0, "guest", Action::Shoot(1, 0)),
        vec![
            ("battleship/game/0/guest/event".to_string(), hit),
            ("battleship/game/0/host/event".to_string(), hit),
            ("battleship/game/0/state".to_string(), Payload::GameOver { winner: Role::Guest }),
        ]
    );
    // A finished game takes no more shots.
    assert_eq!(act(&mut engine, 0, "host", Action::Shoot(6, 6)), vec![]);
}

#[test]
fn attacker_named_in_topic_is_reported_but_turn_decides_target() {
    let mut engine = started_game();
    // The host names itself, but it is the guest's turn: the host's board is shot.
    let hit = Payload::Hit { attacker: Role::Host, hit: HitResult::Hit, position: (0, 0) };
    assert_eq!(
        act(&mut engine, 0, "host", Action::Shoot(0, 0)),
        vec![
            ("battleship/game/0/host/event".to_string(), hit),
            ("battleship/game/0/guest/event".to_string(), hit),
            ("battleship/game/0/state".to_string(), Payload::Turn { turn: Role::Guest }),
        ]
    );
}

#[test]
fn shot_off_the_board_is_ignored() {
    let mut engine = started_game();
    assert_eq!(act(&mut engine, 0, "guest", Action::Shoot(8, 0)), vec![]);
    assert_eq!(act(&mut engine, 0, "guest", Action::Shoot(0, 8)), vec![]);
    assert_eq!(act(&mut engine, 1, "guest", Action::Shoot(0, 0)), vec![]);
}

#[test]
fn malformed_packets_are_dropped() {
    let mut engine = started_game();
    assert!(published(&engine.handle_packet("battleship/register", None)).is_empty());
    assert!(published(&engine.handle_packet("battleship/game/0/guest/action", None)).is_empty());
    assert!(published(&engine.handle_packet(
        "battleship/register",
        Some(Message::Action(Action::Shoot(0, 0)))
    ))
    .is_empty());
    assert!(published(&engine.handle_packet(
        "battleship/game/0/guest/action",
        Some(Message::Register(Register { id: "x".to_string() }))
    ))
    .is_empty());
    assert!(act(&mut engine, 0, "referee", Action::Shoot(0, 0)).is_empty());
    assert!(published(&engine.handle_packet(
        "battleship/game/zero/guest/action",
        Some(Message::Action(Action::Shoot(0, 0)))
    ))
    .is_empty());
    assert!(published(&engine.handle_packet("other/topic", Some(Message::Action(Action::Shoot(0, 0))))).is_empty());
    // The game is untouched: the next shot still finds the host's boat whole.
    let hit = Payload::Hit { attacker: Role::Guest, hit: HitResult::Hit, position: (0, 0) };
    assert_eq!(act(&mut engine, 0, "guest", Action::Shoot(0, 0))[0].1, hit);
}

#[test]
fn game_id_with_plus_sign_is_accepted() {
    let mut engine = started_game();
    let out = published(&engine.handle_packet(
        "battleship/game/+0/Guest/action",
        Some(Message::Action(Action::Shoot(3, 3))),
    ));
    assert_eq!(out.len(), 3);
    assert_eq!(out[2].0, "battleship/game/0/state");
}

#[test]
fn callbacks_collect_in_order() {
    let mut cb = Callbacks::new();
    assert!(cb.list.is_empty());
    cb.add_callback(Publication { topic: "a".to_string(), payload: Payload::Turn { turn: Role::Host } });
    cb.add_callback(Publication { topic: "b".to_string(), payload: Payload::GameOver { winner: Role::Guest } });
    assert_eq!(published(&cb), vec![
        ("a".to_string(), Payload::Turn { turn: Role::Host }),
        ("b".to_string(), Payload::GameOver { winner: Role::Guest }),
    ]);
    assert!(Callbacks::nothing().list.is_empty());
}
