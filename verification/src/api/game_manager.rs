use vstd::prelude::*;

use vstd::std_specs::btree::{increasing_seq, spec_keys_iter};
use vstd::laws_cmp::obeys_cmp;
use vstd::std_specs::cmp::OrdSpec;
use vstd::std_specs::iter::IteratorSpec;

use crate::api::state::{GameState, Games};
use crate::game::{boat::Boat, Player};

verus! {

/// The answer to a player who connects: the game joined and the side taken.
#[derive(Debug, Clone, Copy, PartialEq, Eq, Structural)]
pub struct ConnectResponse {
    pub game_id: usize,
    pub role: Player,
}

/// The id a player who connects while nobody waits is offered: one past the
/// largest id in use, or 0 when there is none.
pub open spec fn fresh_game_id(ids: Set<usize>, id: int) -> bool {
    if ids.is_empty() {
        id == 0
    } else {
        &&& ids.contains((id - 1) as usize)
        &&& forall|k: usize| ids.contains(k) ==> k < id
    }
}

/// A game collecting fleets that has none yet.
pub open spec fn is_fresh_setup(state: GameState) -> bool {
    state matches GameState::Setup { challenger_boats, challenged_boats } && challenger_boats@.len()
        == 0 && challenged_boats@.len() == 0
}

/// A connect can be answered: someone is waiting, or ids are left.
pub open spec fn can_connect(games: &Games) -> bool {
    games.waiting() is Some || forall|k: usize| games.games().contains_key(k) ==> k < usize::MAX
}

/// The largest game id in use, if any.
fn largest_game_id(games: &Games) -> (largest: Option<usize>)
    ensures
        match largest {
            None => games.games().dom().is_empty(),
            Some(m) => games.games().contains_key(m) && forall|k: usize| games.games().contains_key(k) ==> k <= m,
        },
{
    let ghost keys = spec_keys_iter(&games.running_games).remaining();
    let mut largest: Option<usize> = None;
    for k in it: games.running_games.keys()
        invariant
            it.seq() == keys,
            keys.unref().to_set() == games.games().dom(),
            increasing_seq(keys),
            match largest {
                None => it.index() == 0,
                Some(m) => it.index() > 0 && m == *keys[it.index() - 1],
            },
    {
        largest = Some(*k);
    }
    proof {
        assert(obeys_cmp::<usize>());
        assert(obeys_cmp::<&usize>());
        let s = keys.unref();
        assert(increasing_seq(keys));
        vstd::std_specs::btree::axiom_increasing_seq_meaning::<&usize>(keys);
        match largest {
            None => {
                assert(s.len() == 0);
                assert(s.to_set() =~= Set::empty());
            },
            Some(m) => {
                assert(s[s.len() - 1] == m);
                assert(s.to_set().contains(m));
                assert forall|k: usize| games.games().contains_key(k) implies k <= m by {
                    assert(s.to_set().contains(k));
                    let i = choose|i: int| 0 <= i < s.len() && s[i] == k;
                    if i < s.len() - 1 {
                        assert(OrdSpec::cmp_spec(&keys[i], &keys[s.len() - 1]) is Less);
                    }
                }
            },
        }
    }
    largest
}

/// `after` and `response` are what a connect makes of `before`: if someone
/// is waiting, the player joins that game as the challenged side and the
/// game starts collecting fleets; otherwise the player becomes the
/// challenger of a fresh game id and waits.
pub open spec fn connected(before: Games, after: Games, response: ConnectResponse) -> bool {
    match before.waiting() {
        Some(id) => {
            &&& response == ConnectResponse { game_id: id, role: Player::Challenged }
            &&& after.waiting() is None
            &&& after.games().dom() == before.games().dom().insert(id)
            &&& after.games().remove(id) == before.games().remove(id)
            &&& is_fresh_setup(after.games()[id])
        },
        None => {
            &&& response.role == Player::Challenger
            &&& fresh_game_id(before.games().dom(), response.game_id as int)
            &&& after.waiting() == Some(response.game_id)
            &&& after.games() == before.games()
        },
    }
}

/// Whether a connect can be answered: someone waits, or the largest id in
/// use still has a successor.
pub fn connect_possible(games: &Games) -> (possible: bool)
    ensures
        possible == can_connect(games),
{
    if games.next_game.is_some() {
        return true;
    }
    match largest_game_id(games) {
        Some(m) => m < usize::MAX,
        None => true,
    }
}

/// A player connects; see `connected`.
pub fn connect_to_game(games: &mut Games) -> (response: ConnectResponse)
    requires
        can_connect(old(games)),
    ensures
        connected(*old(games), *final(games), response),
{
    match games.next_game {
        Some(id) => {
            games.next_game = None;
            games.running_games.insert(
                id,
                GameState::Setup { challenger_boats: Vec::new(), challenged_boats: Vec::new() },
            );
            assert(games.games().remove(id) =~= old(games).games().remove(id));
            ConnectResponse { game_id: id, role: Player::Challenged }
        },
        None => {
            let next_game = match largest_game_id(games) {
                Some(m) => m + 1,
                None => 0,
            };
            games.next_game = Some(next_game);
            ConnectResponse { game_id: next_game, role: Player::Challenger }
        },
    }
}

} // verus!

verus! {

/// The fleet that `player` hands in for a game collecting fleets is stored,
/// replacing any earlier one of that player. The answer is `done` when the
/// other player's fleet is already there (non-empty), else `waiting`. A game
/// already running is refused with `that game is already going`, an unknown
/// id with `that game does not exist`; both leave the games unchanged.
pub fn setup(games: &mut Games, id: usize, player: Player, boats: Vec<Boat>) -> (result: Result<
    &'static str,
    &'static str,
>)
    ensures
        final(games).next_game == old(games).next_game,
        !old(games).games().contains_key(id) ==> {
            &&& result == Err::<&'static str, &'static str>("that game does not exist")
            &&& final(games).games() == old(games).games()
        },
        old(games).games().contains_key(id) ==> match old(games).games()[id] {
            GameState::Playing(_) => {
                &&& result == Err::<&'static str, &'static str>("that game is already going")
                &&& final(games).games() == old(games).games()
            },
            GameState::Setup { challenger_boats, challenged_boats } => match player {
                Player::Challenger => {
                    &&& final(games).games() == old(games).games().insert(
                        id,
                        GameState::Setup { challenger_boats: boats, challenged_boats },
                    )
                    &&& result == Ok::<&'static str, &'static str>(
                        if challenged_boats@.len() > 0 {
                            "done"
                        } else {
                            "waiting"
                        },
                    )
                },
                Player::Challenged => {
                    &&& final(games).games() == old(games).games().insert(
                        id,
                        GameState::Setup { challenger_boats, challenged_boats: boats },
                    )
                    &&& result == Ok::<&'static str, &'static str>(
                        if challenger_boats@.len() > 0 {
                            "done"
                        } else {
                            "waiting"
                        },
                    )
                },
            },
        },
{
    match games.running_games.remove(&id) {
        None => {
            assert(games.games() =~= old(games).games());
            Err("that game does not exist")
        },
        Some(GameState::Playing(game)) => {
            games.running_games.insert(id, GameState::Playing(game));
            assert(games.games() =~= old(games).games());
            Err("that game is already going")
        },
        Some(GameState::Setup { challenger_boats, challenged_boats }) => {
            let setup_done = match player {
                Player::Challenger => !challenged_boats.is_empty(),
                Player::Challenged => !challenger_boats.is_empty(),
            };
            match player {
                Player::Challenger => {
                    games.running_games.insert(
                        id,
                        GameState::Setup { challenger_boats: boats, challenged_boats },
                    );
                },
                Player::Challenged => {
                    games.running_games.insert(
                        id,
                        GameState::Setup { challenger_boats, challenged_boats: boats },
                    );
                },
            }
            if setup_done {
                Ok("done")
            } else {
                Ok("waiting")
            }
        },
    }
}

} // verus!

verus! {

/// The id offered to a new challenger is not the id of any existing game.
pub proof fn lemma_fresh_id_unused(ids: Set<usize>, id: int)
    requires
        fresh_game_id(ids, id),
    ensures
        forall|k: usize| ids.contains(k) ==> k != id,
{
}

/// Two players who connect one after the other, with nobody waiting before,
/// are paired: the first becomes the challenger and the second the
/// challenged side of the same game, which then collects their fleets, and
/// nobody waits afterwards.
pub proof fn lemma_consecutive_connects_pair_up(
    g0: Games,
    g1: Games,
    g2: Games,
    first: ConnectResponse,
    second: ConnectResponse,
)
    requires
        g0.waiting() is None,
        connected(g0, g1, first),
        connected(g1, g2, second),
    ensures
        first.role == Player::Challenger,
        second.role == Player::Challenged,
        first.game_id == second.game_id,
        g2.waiting() is None,
        g2.games().contains_key(first.game_id),
        is_fresh_setup(g2.games()[first.game_id]),
        forall|k: usize| k != first.game_id ==> g2.games().contains_key(k) == g0.games().contains_key(k),
{
    assert(g2.games().dom().contains(first.game_id));
    assert forall|k: usize| k != first.game_id implies g2.games().contains_key(k) == g0.games().contains_key(k) by {
        assert(g2.games().dom() == g1.games().dom().insert(first.game_id));
    }
}

} // verus!

verus! {

/// A connect can be answered exactly when someone waits or no game uses the
/// largest id, `usize::MAX`; in particular whenever any smaller ids are in use.
pub proof fn lemma_can_connect_iff(games: Games)
    ensures
        can_connect(&games) <==> (games.waiting() is Some || !games.games().contains_key(usize::MAX)),
{
}

} // verus!
