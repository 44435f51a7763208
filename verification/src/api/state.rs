use std::collections::BTreeMap;
use vstd::prelude::*;

use crate::game::{boat::Boat, Game};

verus! {

/// A game known to the HTTP front end: still collecting fleets, or running.
#[derive(Debug)]
pub enum GameState {
    Setup { challenger_boats: Vec<Boat>, challenged_boats: Vec<Boat> },
    Playing(Game<8, 8>),
}

/// The games of the HTTP front end, and the id offered to the next player
/// who connects, if one player is already waiting for an opponent.
#[derive(Debug)]
pub struct Games {
    pub running_games: BTreeMap<usize, GameState>,
    pub next_game: Option<usize>,
}

impl Games {
    /// No games, nobody waiting.
    pub fn new() -> (games: Games)
        ensures
            games.running_games@ == Map::<usize, GameState>::empty(),
            games.next_game is None,
    {
        Games { running_games: BTreeMap::new(), next_game: None }
    }

    /// The games, by id.
    pub open spec fn games(&self) -> Map<usize, GameState> {
        self.running_games@
    }

    /// The id reserved for the opponent of a waiting player, if any.
    pub open spec fn waiting(&self) -> Option<usize> {
        self.next_game
    }
}

} // verus!
