use vstd::prelude::*;

use crate::game::hit_result::HitResult;

verus! {

/// The way a boat extends from its starting cell.
#[derive(Debug, Clone, Copy, PartialEq, Eq, Structural)]
pub enum Direction {
    /// Segment `i` lies at `(x, y + i)`.
    North,
    /// Segment `i` lies at `(x + i, y)`.
    East,
    /// Segment `i` lies at `(x, y - i)`.
    South,
    /// Segment `i` lies at `(x - i, y)`.
    West,
}

/// A boat: a starting cell, a direction, and one hit flag per segment.
#[derive(Debug)]
pub struct Boat {
    pub starting_position: (usize, usize),
    pub direction: Direction,
    pub hits: Vec<bool>,
}

/// The mathematical content of a boat.
pub struct BoatModel {
    pub start: (int, int),
    pub direction: Direction,
    pub hits: Seq<bool>,
}

impl View for Boat {
    type V = BoatModel;

    open spec fn view(&self) -> BoatModel {
        BoatModel {
            start: (self.starting_position.0 as int, self.starting_position.1 as int),
            direction: self.direction,
            hits: self.hits@,
        }
    }
}

impl BoatModel {
    /// Number of segments.
    pub open spec fn len(self) -> nat {
        self.hits.len()
    }

    /// The cell of segment `i`.
    pub open spec fn segment(self, i: int) -> (int, int) {
        let (x, y) = self.start;
        match self.direction {
            Direction::North => (x, y + i),
            Direction::East => (x + i, y),
            Direction::South => (x, y - i),
            Direction::West => (x - i, y),
        }
    }

    /// Where `p` falls on the boat's line: `None` when `p` is off the line the
    /// boat lies on, otherwise the (possibly out of range) segment index of `p`.
    pub open spec fn offset(self, p: (int, int)) -> Option<int> {
        let (x, y) = self.start;
        match self.direction {
            Direction::North => if p.0 == x { Some(p.1 - y) } else { None },
            Direction::East => if p.1 == y { Some(p.0 - x) } else { None },
            Direction::South => if p.0 == x { Some(y - p.1) } else { None },
            Direction::West => if p.1 == y { Some(x - p.0) } else { None },
        }
    }

    /// `p` is one of the boat's cells.
    pub open spec fn covers(self, p: (int, int)) -> bool {
        self.offset(p) matches Some(i) && 0 <= i < self.len()
    }

    /// A hit at `p` can be taken: `p` is off the boat's line or on one of its cells.
    pub open spec fn can_take_hit_at(self, p: (int, int)) -> bool {
        self.offset(p) matches Some(i) ==> 0 <= i < self.len()
    }

    /// Every segment is hit.
    pub open spec fn is_sunk(self) -> bool {
        forall|i: int| 0 <= i < self.len() ==> #[trigger] self.hits[i]
    }

    /// The boat after a hit at `p`, and what the hit reports.
    pub open spec fn after_hit(self, p: (int, int)) -> (BoatModel, HitResult) {
        match self.offset(p) {
            None => (self, HitResult::Water),
            Some(i) => {
                let next = BoatModel { hits: self.hits.update(i, true), ..self };
                (next, if next.is_sunk() { HitResult::Sunk } else { HitResult::Hit })
            },
        }
    }

    /// Every cell of the boat lies on a `w` by `h` board.
    pub open spec fn fits(self, w: int, h: int) -> bool {
        forall|i: int| 0 <= i < self.len() ==> {
            let c = #[trigger] self.segment(i);
            0 <= c.0 < w && 0 <= c.1 < h
        }
    }
}

impl Boat {
    /// A boat of `len` segments, none of them hit.
    pub fn new(starting_position: (usize, usize), direction: Direction, len: usize) -> (boat: Self)
        ensures
            boat.starting_position == starting_position,
            boat.direction == direction,
            boat.hits@ == Seq::new(len as nat, |i: int| false),
    {
        let mut hits: Vec<bool> = Vec::new();
        let mut i: usize = 0;
        while i < len
            invariant
                i <= len,
                hits@ == Seq::new(i as nat, |j: int| false),
            decreases len - i,
        {
            hits.push(false);
            i += 1;
        }
        Boat { starting_position, direction, hits }
    }

    /// Number of segments.
    pub fn len(&self) -> (n: usize)
        ensures
            n == self@.len(),
    {
        self.hits.len()
    }

    /// Whether some segment is still unhit.
    pub fn is_safe(&self) -> (safe: bool)
        ensures
            safe == !self@.is_sunk(),
    {
        let mut i: usize = 0;
        while i < self.hits.len()
            invariant
                i <= self.hits@.len(),
                forall|j: int| 0 <= j < i ==> #[trigger] self.hits@[j],
            decreases self.hits@.len() - i,
        {
            if !self.hits[i] {
                assert(!self@.hits[i as int]);
                return true;
            }
            i += 1;
        }
        false
    }

    /// Takes a shot at `position`. A cell off the boat's line is water; a cell
    /// on it marks that segment hit, and the boat is sunk once every segment
    /// is hit.
    pub fn hit(&mut self, position: (usize, usize)) -> (result: HitResult)
        requires
            old(self)@.can_take_hit_at((position.0 as int, position.1 as int)),
        ensures
            (final(self)@, result) == old(self)@.after_hit((position.0 as int, position.1 as int)),
    {
        let (sx, sy) = self.starting_position;
        let index: usize = match self.direction {
            Direction::North => {
                if position.0 != sx {
                    return HitResult::Water;
                }
                position.1 - sy
            },
            Direction::East => {
                if position.1 != sy {
                    return HitResult::Water;
                }
                position.0 - sx
            },
            Direction::South => {
                if position.0 != sx {
                    return HitResult::Water;
                }
                sy - position.1
            },
            Direction::West => {
                if position.1 != sy {
                    return HitResult::Water;
                }
                sx - position.0
            },
        };
        self.hits.set(index, true);
        if self.is_safe() {
            HitResult::Hit
        } else {
            HitResult::Sunk
        }
    }
}

} // verus!
