use std::collections::HashMap;
use vstd::prelude::*;
use vstd::string::*;

use crate::game::board::{afloat_count, fleet_fits, fleet_fits_spec, initial_board, Board};
use crate::game::boat::{Boat, BoatModel};
use crate::game::{lemma_role_text_round_trip, parse_role, role_text, Game, GameModel, GameStatus, Role};
use crate::mqtt::callbacks::{Callbacks, Payload, Publication};
use crate::text::{
    decimal, lemma_decimal_digits, lemma_decimal_round_trip, lemma_split_concat,
    lemma_split_without_separator, parse_usize, parse_usize_spec, push_decimal, split, split_spec,
    str_eq,
};

verus! {

/// A client asking for a game; `id` names the client.
#[derive(Debug)]
pub struct Register {
    pub id: String,
}

/// What a player does in a game.
#[derive(Debug)]
pub enum Action {
    /// Shoot at cell `(x, y)` of the other side's board.
    Shoot(usize, usize),
    /// Hand in the player's fleet.
    Setup(Vec<Boat>),
}

/// The decoded payload of an incoming packet.
#[derive(Debug)]
pub enum Message {
    Register(Register),
    Action(Action),
}

/// The mathematical content of an incoming payload.
pub enum MessageModel {
    Register(Seq<char>),
    Shoot(usize, usize),
    Setup(Seq<BoatModel>),
}

impl View for Message {
    type V = MessageModel;

    open spec fn view(&self) -> MessageModel {
        match self {
            Message::Register(r) => MessageModel::Register(r.id@),
            Message::Action(Action::Shoot(x, y)) => MessageModel::Shoot(*x, *y),
            Message::Action(Action::Setup(boats)) => MessageModel::Setup(boats@.map_values(|b: Boat| b@)),
        }
    }
}

/// The payload of a packet, if it could be decoded.
pub open spec fn message_model(message: Option<Message>) -> Option<MessageModel> {
    match message {
        Some(m) => Some(m@),
        None => None,
    }
}

/// A game waiting for the fleets of its two players.
#[derive(Debug)]
pub struct WaitingGame {
    pub host_boats: Option<Vec<Boat>>,
    pub guest_boats: Option<Vec<Boat>>,
}

/// The fleets a waiting game has received so far.
pub struct WaitingModel {
    pub host: Option<Seq<BoatModel>>,
    pub guest: Option<Seq<BoatModel>>,
}

/// The model of an optional fleet.
pub open spec fn fleet_model(fleet: Option<Vec<Boat>>) -> Option<Seq<BoatModel>> {
    match fleet {
        Some(v) => Some(v@.map_values(|b: Boat| b@)),
        None => None,
    }
}

impl View for WaitingGame {
    type V = WaitingModel;

    open spec fn view(&self) -> WaitingModel {
        WaitingModel { host: fleet_model(self.host_boats), guest: fleet_model(self.guest_boats) }
    }
}

/// The topic on which client `id` learns its game.
pub open spec fn assign_topic(id: Seq<char>) -> Seq<char> {
    "battleship/"@ + id + "/assign"@
}

/// The topic on which `role` of game `game_id` receives shot outcomes.
pub open spec fn event_topic(game_id: usize, role: Role) -> Seq<char> {
    "battleship/game/"@ + decimal(game_id as nat) + "/"@ + role_text(role) + "/event"@
}

/// The topic on which `role` of game `game_id` sends its actions.
pub open spec fn action_topic(game_id: usize, role: Role) -> Seq<char> {
    "battleship/game/"@ + decimal(game_id as nat) + "/"@ + role_text(role) + "/action"@
}

/// The topic on which both players of game `game_id` learn the game's state.
pub open spec fn state_topic(game_id: usize) -> Seq<char> {
    "battleship/game/"@ + decimal(game_id as nat) + "/state"@
}

/// The side the `n`-th registration (from 0) plays: host for even `n`,
/// guest for odd.
pub open spec fn register_role(n: nat) -> Role {
    if n % 2 == 0 {
        Role::Host
    } else {
        Role::Guest
    }
}

/// The game the `n`-th registration (from 0) joins: registrations pair up.
pub open spec fn register_game(n: nat) -> nat {
    n / 2
}

/// The side to shoot next, or the winner of a finished game.
pub open spec fn status_turn(status: GameStatus) -> Role {
    match status {
        GameStatus::Playing { turn } => turn,
        GameStatus::GameOver { winner } => winner,
    }
}

/// A published message as its topic text and payload.
pub type Outgoing = (Seq<char>, Payload);

/// The mathematical content of the engine.
pub struct EngineModel {
    /// Number of registrations so far.
    pub register_id: nat,
    pub active: Map<usize, GameModel>,
    pub waiting: Map<usize, WaitingModel>,
}

impl EngineModel {
    /// A client with name `id` registers: it is told its side and game, that
    /// game starts waiting for fleets if it was not already, and the count of
    /// registrations goes up.
    pub open spec fn after_register(self, id: Seq<char>) -> (EngineModel, Seq<Outgoing>) {
        let n = self.register_id;
        let game_id = register_game(n) as usize;
        let waiting = if self.waiting.contains_key(game_id) {
            self.waiting
        } else {
            self.waiting.insert(game_id, WaitingModel { host: None, guest: None })
        };
        (
            EngineModel { register_id: n + 1, waiting, ..self },
            seq![(assign_topic(id), Payload::Assign { role: register_role(n), game_id })],
        )
    }

    /// `attacker` shoots at `position` in game `game_id`. Nothing happens for
    /// an unknown game, a finished game, or a cell off the board. Otherwise
    /// the side whose turn it is shoots; both players are told the outcome,
    /// then the game's state: its winner if the side now to move faces a
    /// board with no boat afloat, else whose turn it is.
    pub open spec fn after_shoot(self, game_id: usize, attacker: Role, position: (usize, usize)) -> (
        EngineModel,
        Seq<Outgoing>,
    ) {
        if !self.active.contains_key(game_id) {
            (self, seq![])
        } else {
            let game = self.active[game_id];
            if game.status is GameOver || !(position.0 < 8 && position.1 < 8) {
                (self, seq![])
            } else {
                let (after, hit) = game.after_shot((position.0 as int, position.1 as int));
                let turn = status_turn(after.status);
                let over = afloat_count(after.board_of(turn.opponent_spec()).boats) == 0;
                let info = Payload::Hit { attacker, hit, position };
                let state = if over {
                    Payload::GameOver { winner: turn }
                } else {
                    Payload::Turn { turn }
                };
                (
                    EngineModel { active: self.active.insert(game_id, after), ..self },
                    seq![
                        (event_topic(game_id, attacker), info),
                        (event_topic(game_id, attacker.opponent_spec()), info),
                        (state_topic(game_id), state),
                    ],
                )
            }
        }
    }

    /// `role` hands in `boats` for waiting game `game_id`, replacing an
    /// earlier fleet of that side. Once both fleets are in, the game leaves
    /// the waiting list; if both fleets lie on the board it starts, guest to
    /// shoot first, and both players are told so. Nothing happens for a game
    /// that is not waiting.
    pub open spec fn after_setup(self, game_id: usize, role: Role, boats: Seq<BoatModel>) -> (
        EngineModel,
        Seq<Outgoing>,
    ) {
        if !self.waiting.contains_key(game_id) {
            (self, seq![])
        } else {
            let w = self.waiting[game_id];
            let updated = match role {
                Role::Host => WaitingModel { host: Some(boats), ..w },
                Role::Guest => WaitingModel { guest: Some(boats), ..w },
            };
            let start = match role {
                Role::Host => w.guest is Some,
                Role::Guest => w.host is Some,
            };
            if !start {
                (EngineModel { waiting: self.waiting.insert(game_id, updated), ..self }, seq![])
            } else {
                let host = updated.host->0;
                let guest = updated.guest->0;
                let waiting = self.waiting.remove(game_id);
                if fleet_fits_spec(host, 8, 8) && fleet_fits_spec(guest, 8, 8) {
                    let game = GameModel {
                        host: initial_board(host, 8, 8),
                        guest: initial_board(guest, 8, 8),
                        status: GameStatus::Playing { turn: Role::Guest },
                    };
                    (
                        EngineModel { waiting, active: self.active.insert(game_id, game), ..self },
                        seq![(state_topic(game_id), Payload::Turn { turn: Role::Guest })],
                    )
                } else {
                    (EngineModel { waiting, ..self }, seq![])
                }
            }
        }
    }

    /// A packet on `topic` carrying `message` (`None` when the payload could
    /// not be decoded). On `battleship/register` a registration is handled;
    /// on `battleship/game/<id>/<role>/action`, with `<id>` a decimal number
    /// and `<role>` a role, a shot or a fleet. Anything else changes nothing.
    pub open spec fn after_packet(self, topic: Seq<char>, message: Option<MessageModel>) -> (
        EngineModel,
        Seq<Outgoing>,
    ) {
        let parts = split_spec(topic, '/');
        if parts.len() == 2 && parts[0] == "battleship"@ && parts[1] == "register"@ {
            match message {
                Some(MessageModel::Register(id)) => if self.register_id < usize::MAX {
                    self.after_register(id)
                } else {
                    (self, seq![])
                },
                _ => (self, seq![]),
            }
        } else if parts.len() == 5 && parts[0] == "battleship"@ && parts[1] == "game"@ && parts[4]
            == "action"@ {
            match (message, parse_usize_spec(parts[2]), parse_role(parts[3])) {
                (Some(MessageModel::Shoot(x, y)), Some(game_id), Some(role)) => self.after_shoot(
                    game_id,
                    role,
                    (x, y),
                ),
                (Some(MessageModel::Setup(boats)), Some(game_id), Some(role)) => self.after_setup(
                    game_id,
                    role,
                    boats,
                ),
                _ => (self, seq![]),
            }
        } else {
            (self, seq![])
        }
    }
}

/// The games of the MQTT front end.
pub struct EngineState {
    register_id: usize,
    active_games: HashMap<usize, Game<8, 8>>,
    waiting_games: HashMap<usize, WaitingGame>,
}

impl View for EngineState {
    type V = EngineModel;

    closed spec fn view(&self) -> EngineModel {
        EngineModel {
            register_id: self.register_id as nat,
            active: self.active_games@.map_values(|g: Game<8, 8>| g@),
            waiting: self.waiting_games@.map_values(|w: WaitingGame| w@),
        }
    }
}

fn assign_topic_text(id: &str) -> (topic: String)
    ensures
        topic@ == assign_topic(id@),
{
    let mut topic = "battleship/".to_owned();
    topic.append(id);
    topic.append("/assign");
    topic
}

fn event_topic_text(game_id: usize, role: Role) -> (topic: String)
    ensures
        topic@ == event_topic(game_id, role),
{
    let mut topic = "battleship/game/".to_owned();
    push_decimal(game_id, &mut topic);
    topic.append("/");
    let role_name = role.to_string();
    topic.append(role_name.as_str());
    topic.append("/event");
    topic
}

fn state_topic_text(game_id: usize) -> (topic: String)
    ensures
        topic@ == state_topic(game_id),
{
    let mut topic = "battleship/game/".to_owned();
    push_decimal(game_id, &mut topic);
    topic.append("/state");
    topic
}

impl EngineState {
    /// Every running game is well formed.
    pub closed spec fn wf(&self) -> bool {
        forall|k: usize| #[trigger] self.active_games@.contains_key(k) ==> self.active_games@[k].wf()
    }

    /// No registrations and no games.
    pub fn new() -> (state: Self)
        ensures
            state.wf(),
            state@ == (EngineModel {
                register_id: 0,
                active: Map::empty(),
                waiting: Map::empty(),
            }),
    {
        let state = EngineState {
            register_id: 0,
            active_games: HashMap::new(),
            waiting_games: HashMap::new(),
        };
        assert(state@.active =~= Map::empty());
        assert(state@.waiting =~= Map::empty());
        state
    }

    /// Handles a registration; see `EngineModel::after_register`.
    pub fn handle_register(&mut self, register_payload: Register, callbacks: &mut Callbacks)
        requires
            old(self).wf(),
            old(self)@.register_id < usize::MAX,
        ensures
            final(self).wf(),
            final(self)@ == old(self)@.after_register(register_payload.id@).0,
            final(callbacks)@ == old(callbacks)@ + old(self)@.after_register(register_payload.id@).1,
    {
        let n = self.register_id;
        let role = if n % 2 == 0 {
            Role::Host
        } else {
            Role::Guest
        };
        let game_id = n / 2;
        let topic = assign_topic_text(register_payload.id.as_str());
        let ghost before = callbacks@;
        callbacks.add_callback(Publication { topic, payload: Payload::Assign { role, game_id } });
        if !self.waiting_games.contains_key(&game_id) {
            self.waiting_games.insert(game_id, WaitingGame { host_boats: None, guest_boats: None });
        }
        self.register_id = n + 1;
        proof {
            let expected = old(self)@.after_register(register_payload.id@);
            assert(self@.waiting =~= expected.0.waiting);
            assert(self@.active =~= expected.0.active);
            assert(callbacks@ =~= before + expected.1);
        }
    }

    /// Handles a shot; see `EngineModel::after_shoot`.
    pub fn handle_shoot(
        &mut self,
        game_id: usize,
        attacker: Role,
        position: (usize, usize),
        callbacks: &mut Callbacks,
    )
        requires
            old(self).wf(),
        ensures
            final(self).wf(),
            final(self)@ == old(self)@.after_shoot(game_id, attacker, position).0,
            final(callbacks)@ == old(callbacks)@ + old(self)@.after_shoot(game_id, attacker, position).1,
    {
        let ghost before = callbacks@;
        let mut game = match self.active_games.remove(&game_id) {
            Some(game) => game,
            None => {
                assert(self.active_games@ =~= old(self).active_games@);
                assert(callbacks@ =~= before + seq![]);
                return;
            },
        };
        assert(old(self).active_games@.contains_key(game_id));
        let (x, y) = position;
        let finished = match game.status() {
            GameStatus::GameOver { .. } => true,
            GameStatus::Playing { .. } => false,
        };
        if finished || !(x < 8 && y < 8) {
            self.active_games.insert(game_id, game);
            assert(self.active_games@ =~= old(self).active_games@);
            assert(callbacks@ =~= before + seq![]);
            return;
        }
        let hit = game.shoot(position);
        let turn = game.turn();
        let game_over = game.safe_boats_count(turn.opponent()) == 0;
        self.active_games.insert(game_id, game);
        let info = Payload::Hit { attacker, hit, position };
        callbacks.add_callback(Publication { topic: event_topic_text(game_id, attacker), payload: info });
        callbacks.add_callback(
            Publication { topic: event_topic_text(game_id, attacker.opponent()), payload: info },
        );
        let state = if game_over {
            Payload::GameOver { winner: turn }
        } else {
            Payload::Turn { turn }
        };
        callbacks.add_callback(Publication { topic: state_topic_text(game_id), payload: state });
        proof {
            let expected = old(self)@.after_shoot(game_id, attacker, position);
            assert(self@.active =~= expected.0.active);
            assert(self@.waiting =~= expected.0.waiting);
            assert(callbacks@ =~= before + expected.1);
        }
    }

    /// Handles a fleet; see `EngineModel::after_setup`.
    pub fn handle_setup(&mut self, game_id: usize, role: Role, boats: Vec<Boat>, callbacks: &mut Callbacks)
        requires
            old(self).wf(),
        ensures
            final(self).wf(),
            final(self)@ == old(self)@.after_setup(game_id, role, boats@.map_values(|b: Boat| b@)).0,
            final(callbacks)@ == old(callbacks)@ + old(self)@.after_setup(
                game_id,
                role,
                boats@.map_values(|b: Boat| b@),
            ).1,
    {
        let ghost before = callbacks@;
        let ghost fleet = boats@.map_values(|b: Boat| b@);
        let ghost expected = old(self)@.after_setup(game_id, role, fleet);
        let mut waiting = match self.waiting_games.remove(&game_id) {
            Some(w) => w,
            None => {
                assert(self.waiting_games@ =~= old(self).waiting_games@);
                assert(callbacks@ =~= before + seq![]);
                return;
            },
        };
        let start = match role {
            Role::Host => {
                waiting.host_boats = Some(boats);
                waiting.guest_boats.is_some()
            },
            Role::Guest => {
                waiting.guest_boats = Some(boats);
                waiting.host_boats.is_some()
            },
        };
        if !start {
            self.waiting_games.insert(game_id, waiting);
            assert(self@.waiting =~= expected.0.waiting);
            assert(callbacks@ =~= before + expected.1);
            return;
        }
        let host = waiting.host_boats.unwrap();
        let guest = waiting.guest_boats.unwrap();
        assert(self@.waiting =~= expected.0.waiting);
        if fleet_fits::<8, 8>(&host) && fleet_fits::<8, 8>(&guest) {
            let game = Game::new(Board::new(host), Board::new(guest));
            let first_turn = game.turn();
            self.active_games.insert(game_id, game);
            callbacks.add_callback(
                Publication { topic: state_topic_text(game_id), payload: Payload::Turn { turn: first_turn } },
            );
            assert(self@.active =~= expected.0.active);
        } else {
            assert(self@.active =~= expected.0.active);
        }
        assert(callbacks@ =~= before + expected.1);
    }

    /// Handles an action of `role` in game `game_id`.
    pub fn handle_action(&mut self, game_id: usize, role: Role, action_payload: Action, callbacks: &mut Callbacks)
        requires
            old(self).wf(),
        ensures
            final(self).wf(),
            ({
                let expected = match action_payload {
                    Action::Shoot(x, y) => old(self)@.after_shoot(game_id, role, (x, y)),
                    Action::Setup(boats) => old(self)@.after_setup(
                        game_id,
                        role,
                        boats@.map_values(|b: Boat| b@),
                    ),
                };
                &&& final(self)@ == expected.0
                &&& final(callbacks)@ == old(callbacks)@ + expected.1
            }),
    {
        match action_payload {
            Action::Shoot(x, y) => self.handle_shoot(game_id, role, (x, y), callbacks),
            Action::Setup(boats) => self.handle_setup(game_id, role, boats, callbacks),
        }
    }

    /// Handles a packet on `topic` whose payload decoded to `message`
    /// (`None` when it did not), and returns the messages to publish; see
    /// `EngineModel::after_packet`.
    pub fn handle_packet(&mut self, topic: &str, message: Option<Message>) -> (callbacks: Callbacks)
        requires
            old(self).wf(),
        ensures
            final(self).wf(),
            (final(self)@, callbacks@) == old(self)@.after_packet(topic@, message_model(message)),
    {
        let mut result = Callbacks::new();
        let parts = split(topic, '/');
        let ghost pieces = split_spec(topic@, '/');
        assert(parts@.len() == pieces.len());
        if parts.len() == 2 && str_eq(parts[0], "battleship") && str_eq(parts[1], "register") {
            assert(pieces[0] == parts@[0]@ && pieces[1] == parts@[1]@);
            match message {
                Some(Message::Register(register_payload)) => {
                    if self.register_id < usize::MAX {
                        self.handle_register(register_payload, &mut result);
                        assert(result@ =~= Seq::<Outgoing>::empty() + result@);
                    } else {
                        return Callbacks::nothing();
                    }
                },
                _ => return Callbacks::nothing(),
            }
        } else if parts.len() == 5 && str_eq(parts[0], "battleship") && str_eq(parts[1], "game") && str_eq(
            parts[4],
            "action",
        ) {
            assert(pieces[0] == parts@[0]@ && pieces[1] == parts@[1]@ && pieces[2] == parts@[2]@);
            assert(pieces[3] == parts@[3]@ && pieces[4] == parts@[4]@);
            let action_payload = match message {
                Some(Message::Action(action)) => action,
                _ => return Callbacks::nothing(),
            };
            let game_id = match parse_usize(parts[2]) {
                Some(parsed) => parsed,
                None => return Callbacks::nothing(),
            };
            let role = match Role::parse(parts[3]) {
                Ok(parsed) => parsed,
                Err(_) => return Callbacks::nothing(),
            };
            self.handle_action(game_id, role, action_payload, &mut result);
            assert(result@ =~= Seq::<Outgoing>::empty() + result@);
        } else {
            if parts.len() == 2 {
                assert(pieces[0] == parts@[0]@ && pieces[1] == parts@[1]@);
            }
            if parts.len() == 5 {
                assert(pieces[0] == parts@[0]@ && pieces[1] == parts@[1]@ && pieces[4] == parts@[4]@);
            }
            return Callbacks::nothing();
        }
        result
    }
}

} // verus!

verus! {

/// Two registrations in a row, starting from an even count, join the same
/// game: the first as host, the second as guest, and that game waits for
/// their fleets.
pub proof fn lemma_registrations_pair_up(engine: EngineModel, first: Seq<char>, second: Seq<char>)
    requires
        engine.register_id % 2 == 0,
        engine.register_id + 1 < usize::MAX,
    ensures
        ({
            let (once, told_first) = engine.after_register(first);
            let (twice, told_second) = once.after_register(second);
            let game_id = (engine.register_id / 2) as usize;
            &&& told_first == seq![(assign_topic(first), Payload::Assign { role: Role::Host, game_id })]
            &&& told_second == seq![(assign_topic(second), Payload::Assign { role: Role::Guest, game_id })]
            &&& twice.waiting.contains_key(game_id)
            &&& twice.register_id == engine.register_id + 2
            &&& twice.active == engine.active
        }),
{
    let n = engine.register_id;
    assert((n + 1) / 2 == n / 2);
    assert((n + 1) % 2 == 1);
}

/// A packet whose payload could not be decoded changes nothing and
/// publishes nothing.
pub proof fn lemma_undecodable_packet_is_dropped(engine: EngineModel, topic: Seq<char>)
    ensures
        engine.after_packet(topic, None) == (engine, Seq::<Outgoing>::empty()),
{
}

/// A shot in a game that is not running, or that is already over, changes
/// nothing and publishes nothing.
pub proof fn lemma_shot_outside_running_game_is_dropped(
    engine: EngineModel,
    game_id: usize,
    attacker: Role,
    position: (usize, usize),
)
    requires
        !engine.active.contains_key(game_id) || engine.active[game_id].status is GameOver,
    ensures
        engine.after_shoot(game_id, attacker, position) == (engine, Seq::<Outgoing>::empty()),
{
}

/// A game starts only once both fleets are in: a fleet for a waiting game
/// whose other fleet is missing starts nothing and publishes nothing.
pub proof fn lemma_game_waits_for_both_fleets(
    engine: EngineModel,
    game_id: usize,
    role: Role,
    boats: Seq<BoatModel>,
)
    requires
        engine.waiting.contains_key(game_id),
        match role {
            Role::Host => engine.waiting[game_id].guest is None,
            Role::Guest => engine.waiting[game_id].host is None,
        },
    ensures
        ({
            let (after, told) = engine.after_setup(game_id, role, boats);
            &&& told == Seq::<Outgoing>::empty()
            &&& after.active == engine.active
            &&& after.waiting.contains_key(game_id)
        }),
{
}

} // verus!

verus! {

/// An action sent on the action topic of game `game_id` and side `role` is
/// handled as that side's action in that game.
pub proof fn lemma_action_topic_routes(engine: EngineModel, game_id: usize, role: Role, message: MessageModel)
    ensures
        ({
            let topic = action_topic(game_id, role);
            match message {
                MessageModel::Shoot(x, y) => engine.after_packet(topic, Some(message)) == engine.after_shoot(
                    game_id,
                    role,
                    (x, y),
                ),
                MessageModel::Setup(boats) => engine.after_packet(topic, Some(message)) == engine.after_setup(
                    game_id,
                    role,
                    boats,
                ),
                MessageModel::Register(_) => engine.after_packet(topic, Some(message)) == (
                    engine,
                    Seq::<Outgoing>::empty(),
                ),
            }
        }),
{
    reveal_strlit("battleship/game/");
    reveal_strlit("battleship");
    reveal_strlit("game");
    reveal_strlit("/");
    reveal_strlit("/action");
    reveal_strlit("action");
    reveal_strlit("host");
    reveal_strlit("guest");
    let b = "battleship"@;
    let g = "game"@;
    let d = decimal(game_id as nat);
    let r = role_text(role);
    let a = "action"@;
    let slash = seq!['/'];
    assert(action_topic(game_id, role) =~= (((b + slash + g) + slash + d) + slash + r) + slash + a);
    lemma_decimal_digits(game_id as nat);
    lemma_decimal_round_trip(game_id);
    lemma_role_text_round_trip(role);
    assert(!b.contains('/')) by {
        assert forall|i: int| 0 <= i < b.len() implies b[i] != '/' by {}
    }
    assert(!g.contains('/'));
    assert(!a.contains('/'));
    assert(!d.contains('/')) by {
        if d.contains('/') {
            let i = choose|i: int| 0 <= i < d.len() && d[i] == '/';
            assert(crate::text::is_digit(d[i]));
        }
    }
    assert(!r.contains('/'));
    lemma_split_without_separator(b, '/');
    lemma_split_without_separator(g, '/');
    lemma_split_without_separator(d, '/');
    lemma_split_without_separator(r, '/');
    lemma_split_without_separator(a, '/');
    lemma_split_concat(b, g, '/');
    lemma_split_concat(b + slash + g, d, '/');
    lemma_split_concat((b + slash + g) + slash + d, r, '/');
    lemma_split_concat(((b + slash + g) + slash + d) + slash + r, a, '/');
    let parts = split_spec(action_topic(game_id, role), '/');
    assert(parts =~= seq![b, g, d, r, a]);
}

} // verus!

verus! {

/// After a shot in a running game, the state message names the shooter as
/// winner exactly when the board just shot has no boat left afloat, and
/// otherwise gives the shooter the turn again; a shot that sinks a boat while
/// another is still afloat there leaves the game running.
pub proof fn lemma_state_message_follows_target_fleet(
    engine: EngineModel,
    game_id: usize,
    attacker: Role,
    position: (usize, usize),
)
    requires
        engine.active.contains_key(game_id),
        engine.active[game_id].status is Playing,
        position.0 < 8 && position.1 < 8,
    ensures
        ({
            let shooter = engine.active[game_id].status->turn;
            let target = shooter.opponent_spec();
            let (after, told) = engine.after_shoot(game_id, attacker, position);
            let left = afloat_count(after.active[game_id].board_of(target).boats);
            &&& after.active.contains_key(game_id)
            &&& told.len() == 3
            &&& told[2] == (
                state_topic(game_id),
                if left == 0 {
                    Payload::GameOver { winner: shooter }
                } else {
                    Payload::Turn { turn: shooter }
                },
            )
            &&& left > 0 ==> after.active[game_id].status == GameStatus::Playing { turn: shooter }
            &&& told[2].1 is GameOver ==> left == 0
        }),
{
}

/// A registration keeps every game already waiting exactly as it was, opens
/// its own game if that one was not waiting, and touches no running game.
pub proof fn lemma_register_keeps_waiting_games(engine: EngineModel, id: Seq<char>)
    ensures
        ({
            let (after, _) = engine.after_register(id);
            let game_id = (engine.register_id / 2) as usize;
            &&& forall|k: usize| #[trigger] engine.waiting.contains_key(k) ==> after.waiting.contains_key(k)
                && after.waiting[k] == engine.waiting[k]
            &&& after.waiting.dom() == engine.waiting.dom().insert(game_id)
            &&& after.active == engine.active
        }),
{
    let (after, _) = engine.after_register(id);
    let game_id = (engine.register_id / 2) as usize;
    assert(after.waiting.dom() =~= engine.waiting.dom().insert(game_id));
}

/// The fleet that completes a waiting game, whichever side hands it in last,
/// takes the game off the waiting list. If both fleets lie on the board the
/// game runs with the host's and the guest's fleet on their boards, no cell
/// shot, the guest to shoot first, and both players are told it is the
/// guest's turn; otherwise nothing starts and nothing is published.
pub proof fn lemma_second_fleet_starts_game(engine: EngineModel, game_id: usize, role: Role, boats: Seq<BoatModel>)
    requires
        engine.waiting.contains_key(game_id),
        match role {
            Role::Host => engine.waiting[game_id].guest is Some,
            Role::Guest => engine.waiting[game_id].host is Some,
        },
    ensures
        ({
            let (after, told) = engine.after_setup(game_id, role, boats);
            let host = match role {
                Role::Host => boats,
                Role::Guest => engine.waiting[game_id].host->0,
            };
            let guest = match role {
                Role::Host => engine.waiting[game_id].guest->0,
                Role::Guest => boats,
            };
            &&& !after.waiting.contains_key(game_id)
            &&& fleet_fits_spec(host, 8, 8) && fleet_fits_spec(guest, 8, 8) ==> {
                &&& after.active.contains_key(game_id)
                &&& after.active[game_id] == (GameModel {
                    host: initial_board(host, 8, 8),
                    guest: initial_board(guest, 8, 8),
                    status: GameStatus::Playing { turn: Role::Guest },
                })
                &&& told == seq![(state_topic(game_id), Payload::Turn { turn: Role::Guest })]
            }
            &&& !(fleet_fits_spec(host, 8, 8) && fleet_fits_spec(guest, 8, 8)) ==> {
                &&& after.active == engine.active
                &&& told.len() == 0
            }
        }),
{
}

/// The two fleets of a waiting game may come in either order: host then
/// guest leaves the engine and publishes the same as guest then host, and
/// either way the game is no longer waiting.
pub proof fn lemma_fleet_order_does_not_matter(
    engine: EngineModel,
    game_id: usize,
    host: Seq<BoatModel>,
    guest: Seq<BoatModel>,
)
    requires
        engine.waiting.contains_key(game_id),
        engine.waiting[game_id].host is None,
        engine.waiting[game_id].guest is None,
    ensures
        ({
            let (a1, t1) = engine.after_setup(game_id, Role::Host, host);
            let (a2, t2) = a1.after_setup(game_id, Role::Guest, guest);
            let (b1, u1) = engine.after_setup(game_id, Role::Guest, guest);
            let (b2, u2) = b1.after_setup(game_id, Role::Host, host);
            &&& a2 == b2
            &&& t1 + t2 == u1 + u2
            &&& !a2.waiting.contains_key(game_id)
        }),
{
    let (a1, t1) = engine.after_setup(game_id, Role::Host, host);
    let (a2, t2) = a1.after_setup(game_id, Role::Guest, guest);
    let (b1, u1) = engine.after_setup(game_id, Role::Guest, guest);
    let (b2, u2) = b1.after_setup(game_id, Role::Host, host);
    assert(a2.waiting =~= b2.waiting);
    assert(a2.active =~= b2.active);
    assert(t1 + t2 =~= u1 + u2);
}

} // verus!
