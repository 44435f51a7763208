use vstd::prelude::*;

use crate::game::hit_result::HitResult;
use crate::game::Role;

verus! {

/// The content of a message the engine publishes.
#[derive(Debug, Clone, Copy, PartialEq, Eq)]
pub enum Payload {
    /// A registered client's side and game.
    Assign { role: Role, game_id: usize },
    /// The outcome of a shot.
    Hit { attacker: Role, hit: HitResult, position: (usize, usize) },
    /// The game is over.
    GameOver { winner: Role },
    /// Whose turn it is.
    Turn { turn: Role },
}

/// A message to publish on a topic.
#[derive(Debug)]
pub struct Publication {
    pub topic: String,
    pub payload: Payload,
}

/// The messages a handled packet asks to publish, in order.
#[derive(Debug)]
pub struct Callbacks {
    pub list: Vec<Publication>,
}

impl View for Callbacks {
    type V = Seq<(Seq<char>, Payload)>;

    /// Each message as its topic text and payload.
    open spec fn view(&self) -> Seq<(Seq<char>, Payload)> {
        self.list@.map_values(|p: Publication| (p.topic@, p.payload))
    }
}

impl Callbacks {
    /// No messages.
    pub fn new() -> (callbacks: Self)
        ensures
            callbacks@ == Seq::<(Seq<char>, Payload)>::empty(),
    {
        let callbacks = Callbacks { list: Vec::new() };
        assert(callbacks@ =~= Seq::<(Seq<char>, Payload)>::empty());
        callbacks
    }

    /// No messages, for a packet that is dropped.
    pub fn nothing() -> (callbacks: Self)
        ensures
            callbacks@ == Seq::<(Seq<char>, Payload)>::empty(),
    {
        let callbacks = Callbacks { list: Vec::with_capacity(0) };
        assert(callbacks@ =~= Seq::<(Seq<char>, Payload)>::empty());
        callbacks
    }

    /// Appends a message to publish after the ones already planned.
    pub fn add_callback(&mut self, publication: Publication)
        ensures
            final(self)@ == old(self)@.push((publication.topic@, publication.payload)),
    {
        let ghost before = self@;
        let ghost entry = (publication.topic@, publication.payload);
        self.list.push(publication);
        assert(self@ =~= before.push(entry));
    }
}

} // verus!
