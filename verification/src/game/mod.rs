use vstd::prelude::*;
use vstd::string::*;

use crate::game::board::{afloat_count, Board, BoardModel};
use crate::game::grid::Grid;
use crate::game::hit_result::HitResult;
use crate::text::str_eq;

pub mod board;
pub mod boat;
pub mod grid;
pub mod hit_result;

verus! {

/// The two sides of an MQTT game.
#[derive(Clone, Copy, Debug, PartialEq, Eq, Structural)]
pub enum Role {
    Host,
    Guest,
}

/// The two sides of a game set up over HTTP.
#[derive(Clone, Copy, Debug, PartialEq, Eq, Structural)]
pub enum Player {
    Challenger,
    Challenged,
}

/// The text a role is written as: `host` or `guest`.
pub open spec fn role_text(role: Role) -> Seq<char> {
    match role {
        Role::Host => "host"@,
        Role::Guest => "guest"@,
    }
}

/// The role a text names, if any: `Host`, `host` and `HOST` name the host,
/// `Guest`, `guest` and `GUEST` the guest.
pub open spec fn parse_role(s: Seq<char>) -> Option<Role> {
    if s == "Host"@ || s == "host"@ || s == "HOST"@ {
        Some(Role::Host)
    } else if s == "Guest"@ || s == "guest"@ || s == "GUEST"@ {
        Some(Role::Guest)
    } else {
        None
    }
}

impl Role {
    /// The other side.
    pub open spec fn opponent_spec(self) -> Role {
        match self {
            Role::Host => Role::Guest,
            Role::Guest => Role::Host,
        }
    }

    /// The other side.
    #[verifier::when_used_as_spec(opponent_spec)]
    pub fn opponent(self) -> (other: Role)
        ensures
            other == self.opponent_spec(),
    {
        match self {
            Role::Host => Role::Guest,
            Role::Guest => Role::Host,
        }
    }

    /// The role as text, `host` or `guest`.
    pub fn to_string(&self) -> (text: String)
        ensures
            text@ == role_text(*self),
    {
        match self {
            Role::Host => "host".to_owned(),
            Role::Guest => "guest".to_owned(),
        }
    }

    /// Reads a role; any other text is refused with the message
    /// `<text> is not a role`.
    pub fn parse(s: &str) -> (role: Result<Role, String>)
        ensures
            match role {
                Ok(r) => parse_role(s@) == Some(r),
                Err(message) => parse_role(s@) is None && message@ == s@ + " is not a role"@,
            },
    {
        if str_eq(s, "Host") || str_eq(s, "host") || str_eq(s, "HOST") {
            Ok(Role::Host)
        } else if str_eq(s, "Guest") || str_eq(s, "guest") || str_eq(s, "GUEST") {
            Ok(Role::Guest)
        } else {
            let mut message = s.to_owned();
            message.append(" is not a role");
            Err(message)
        }
    }
}

impl std::ops::Not for Role {
    type Output = Role;

    fn not(self) -> (other: Role) {
        self.opponent()
    }
}

impl vstd::std_specs::ops::NotSpecImpl for Role {
    open spec fn obeys_not_spec() -> bool {
        true
    }

    open spec fn not_req(self) -> bool {
        true
    }

    open spec fn not_spec(self) -> Role {
        self.opponent_spec()
    }
}

impl std::str::FromStr for Role {
    type Err = String;

    fn from_str(s: &str) -> (role: Result<Role, String>)
        ensures
            match role {
                Ok(r) => parse_role(s@) == Some(r),
                Err(message) => parse_role(s@) is None && message@ == s@ + " is not a role"@,
            },
    {
        Role::parse(s)
    }
}

/// Whether a game is still running, and whose turn it is or who won.
#[derive(Debug, Clone, Copy, PartialEq, Eq, Structural)]
pub enum GameStatus {
    Playing { turn: Role },
    GameOver { winner: Role },
}

/// A game between a host and a guest, each with a board.
#[derive(Debug)]
pub struct Game<const BOARD_WIDTH: usize, const BOARD_HEIGHT: usize> {
    host_board: Board<BOARD_WIDTH, BOARD_HEIGHT>,
    guest_board: Board<BOARD_WIDTH, BOARD_HEIGHT>,
    status: GameStatus,
}

/// The mathematical content of a game.
pub struct GameModel {
    pub host: BoardModel,
    pub guest: BoardModel,
    pub status: GameStatus,
}

impl GameModel {
    /// The board of `role`.
    pub open spec fn board_of(self, role: Role) -> BoardModel {
        match role {
            Role::Host => self.host,
            Role::Guest => self.guest,
        }
    }

    /// The same game with the board of `role` replaced by `board`.
    pub open spec fn with_board(self, role: Role, board: BoardModel) -> GameModel {
        match role {
            Role::Host => GameModel { host: board, ..self },
            Role::Guest => GameModel { guest: board, ..self },
        }
    }

    /// A finished game's loser has no boat afloat.
    pub open spec fn status_consistent(self) -> bool {
        self.status matches GameStatus::GameOver { winner } ==> afloat_count(
            self.board_of(winner.opponent_spec()).boats,
        ) == 0
    }

    /// The game after the side whose turn it is shoots at `p` on the other
    /// side's board, and what the shot reports. The game is over, won by the
    /// shooter, when the shot sinks a boat and the target board has no boat
    /// left afloat; otherwise the same side keeps the turn.
    pub open spec fn after_shot(self, p: (int, int)) -> (GameModel, HitResult) {
        let turn = self.status->turn;
        let target = turn.opponent_spec();
        let (board, result) = self.board_of(target).after_shot(p);
        let status = if result == HitResult::Sunk && afloat_count(board.boats) == 0 {
            GameStatus::GameOver { winner: turn }
        } else {
            GameStatus::Playing { turn }
        };
        (GameModel { status, ..self.with_board(target, board) }, result)
    }
}

/// What a spectator may see of a game: where each side was shot and the status.
pub struct SpectatorInfo<const BOARD_WIDTH: usize, const BOARD_HEIGHT: usize> {
    pub host_hits: Grid<BOARD_WIDTH, BOARD_HEIGHT, Option<HitResult>>,
    pub guest_hits: Grid<BOARD_WIDTH, BOARD_HEIGHT, Option<HitResult>>,
    pub status: GameStatus,
}

impl<const BOARD_WIDTH: usize, const BOARD_HEIGHT: usize> View for Game<BOARD_WIDTH, BOARD_HEIGHT> {
    type V = GameModel;

    closed spec fn view(&self) -> GameModel {
        GameModel { host: self.host_board@, guest: self.guest_board@, status: self.status }
    }
}

impl<const BOARD_WIDTH: usize, const BOARD_HEIGHT: usize> Game<BOARD_WIDTH, BOARD_HEIGHT> {
    /// Both boards are well formed and a finished game's loser has no boat afloat.
    pub closed spec fn wf(&self) -> bool {
        &&& self.host_board.wf()
        &&& self.guest_board.wf()
        &&& self@.status_consistent()
    }

    /// A game on the two boards; the guest shoots first.
    pub fn new(
        host_board: Board<BOARD_WIDTH, BOARD_HEIGHT>,
        guest_board: Board<BOARD_WIDTH, BOARD_HEIGHT>,
    ) -> (game: Self)
        requires
            host_board.wf(),
            guest_board.wf(),
        ensures
            game.wf(),
            game@ == (GameModel {
                host: host_board@,
                guest: guest_board@,
                status: GameStatus::Playing { turn: Role::Guest },
            }),
    {
        Game { host_board, guest_board, status: GameStatus::Playing { turn: Role::Guest } }
    }

    /// The side whose turn it is shoots at `position` on the other side's board.
    pub fn shoot(&mut self, position: (usize, usize)) -> (result: HitResult)
        requires
            old(self).wf(),
            old(self)@.status is Playing,
            position.0 < BOARD_WIDTH && position.1 < BOARD_HEIGHT,
        ensures
            final(self).wf(),
            (final(self)@, result) == old(self)@.after_shot((position.0 as int, position.1 as int)),
    {
        let ghost p = (position.0 as int, position.1 as int);
        let turn = match self.status {
            GameStatus::Playing { turn } => turn,
            GameStatus::GameOver { winner } => winner,
        };
        let (hit_result, left) = match turn {
            Role::Host => {
                let r = self.guest_board.shoot(position);
                (r, self.guest_board.safe_boats_count())
            },
            Role::Guest => {
                let r = self.host_board.shoot(position);
                (r, self.host_board.safe_boats_count())
            },
        };
        if hit_result == HitResult::Sunk && left == 0 {
            self.status = GameStatus::GameOver { winner: turn };
        } else {
            self.status = GameStatus::Playing { turn };
        }
        hit_result
    }

    /// The game's status.
    pub fn status(&self) -> (status: GameStatus)
        ensures
            status == self@.status,
    {
        self.status
    }

    /// The side to shoot next, or the winner once the game is over.
    pub fn turn(&self) -> (role: Role)
        ensures
            role == match self@.status {
                GameStatus::Playing { turn } => turn,
                GameStatus::GameOver { winner } => winner,
            },
    {
        match self.status {
            GameStatus::Playing { turn } => turn,
            GameStatus::GameOver { winner } => winner,
        }
    }

    /// Number of boats of `role` with a segment still unhit.
    pub fn safe_boats_count(&self, role: Role) -> (count: usize)
        ensures
            count == afloat_count(self@.board_of(role).boats),
    {
        match role {
            Role::Host => self.host_board.safe_boats_count(),
            Role::Guest => self.guest_board.safe_boats_count(),
        }
    }

    /// What a spectator sees of both boards, and the status.
    pub fn spec_info(&self) -> (info: SpectatorInfo<BOARD_WIDTH, BOARD_HEIGHT>)
        requires
            self.wf(),
        ensures
            info.host_hits.wf(),
            info.guest_hits.wf(),
            info.status == self@.status,
            forall|p: (int, int)| #[trigger] Board::<BOARD_WIDTH, BOARD_HEIGHT>::on_board(p) ==> {
                &&& info.host_hits@[p] == self@.host.report(p)
                &&& info.guest_hits@[p] == self@.guest.report(p)
            },
    {
        SpectatorInfo {
            host_hits: self.host_board.hits(),
            guest_hits: self.guest_board.hits(),
            status: self.status,
        }
    }
}

} // verus!

verus! {

/// The opponent of the opponent is the side itself.
pub proof fn lemma_opponent_involution(role: Role)
    ensures
        role.opponent_spec().opponent_spec() == role,
        role.opponent_spec() != role,
{
}

/// Reading back the text of a role gives the role.
pub proof fn lemma_role_text_round_trip(role: Role)
    ensures
        parse_role(role_text(role)) == Some(role),
{
    reveal_strlit("host");
    reveal_strlit("guest");
    reveal_strlit("Host");
    reveal_strlit("HOST");
    reveal_strlit("Guest");
    reveal_strlit("GUEST");
    assert("guest"@.len() == 5 && "Host"@.len() == 4 && "host"@.len() == 4 && "HOST"@.len() == 4);
    assert("guest"@[0] != "Guest"@[0] && "guest"@[0] != "GUEST"@[0]);
    assert("host"@[0] != "Host"@[0]);
}

/// A shot never passes the turn: afterwards the shooter still has the turn,
/// or has won, and it wins only with a shot that sinks a boat. The
/// shooter's own board is untouched.
pub proof fn lemma_shooter_keeps_turn(game: GameModel, p: (int, int))
    requires
        game.status is Playing,
    ensures
        ({
            let turn = game.status->turn;
            let (after, result) = game.after_shot(p);
            &&& after.status == GameStatus::Playing { turn } || after.status == GameStatus::GameOver {
                winner: turn,
            }
            &&& after.status is GameOver ==> result == HitResult::Sunk
            &&& after.board_of(turn) == game.board_of(turn)
        }),
{
}

/// In every well-formed game, in particular every game reached through
/// `Game::new` and `Game::shoot`, a finished game's loser has no boat afloat.
pub proof fn lemma_finished_game_loser_sunk<const W: usize, const H: usize>(game: &Game<W, H>)
    requires
        game.wf(),
    ensures
        game@.status matches GameStatus::GameOver { winner } ==> afloat_count(
            game@.board_of(winner.opponent_spec()).boats,
        ) == 0,
{
}

} // verus!
