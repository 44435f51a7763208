use vstd::prelude::*;

use crate::game::boat::{Boat, BoatModel, Direction};
use crate::game::grid::Grid;
use crate::game::hit_result::HitResult;

verus! {

/// One player's side: which cells were shot, which boat lies on each cell,
/// and the boats themselves.
#[derive(Debug)]
pub struct Board<const W: usize, const H: usize> {
    hits: Grid<W, H, bool>,
    boat_refs: Grid<W, H, Option<usize>>,
    boats: Vec<Boat>,
}

/// The mathematical content of a board.
pub struct BoardModel {
    /// Cells that have been shot at.
    pub shots: Map<(int, int), bool>,
    /// For each cell, the index of the boat lying on it.
    pub owners: Map<(int, int), Option<usize>>,
    pub boats: Seq<BoatModel>,
}

/// Number of boats in `boats` that still have an unhit segment.
pub open spec fn afloat_count(boats: Seq<BoatModel>) -> nat
    decreases boats.len(),
{
    if boats.len() == 0 {
        0
    } else {
        afloat_count(boats.drop_last()) + if boats.last().is_sunk() { 0nat } else { 1nat }
    }
}

/// The last boat of `boats` that covers `p`: the one a board built from
/// `boats` places on that cell, later boats covering earlier ones.
pub open spec fn last_owner(boats: Seq<BoatModel>, p: (int, int)) -> Option<usize>
    decreases boats.len(),
{
    if boats.len() == 0 {
        None
    } else if boats.last().covers(p) {
        Some((boats.len() - 1) as usize)
    } else {
        last_owner(boats.drop_last(), p)
    }
}

/// A `w` by `h` board holding `boats`, no cell shot yet; each cell belongs
/// to the last boat of `boats` lying on it.
pub open spec fn initial_board(boats: Seq<BoatModel>, w: int, h: int) -> BoardModel {
    BoardModel {
        shots: Map::new(|p: (int, int)| 0 <= p.0 < w && 0 <= p.1 < h, |p: (int, int)| false),
        owners: Map::new(
            |p: (int, int)| 0 <= p.0 < w && 0 <= p.1 < h,
            |p: (int, int)| last_owner(boats, p),
        ),
        boats,
    }
}

/// Every boat of `boats` lies on a `w` by `h` board.
pub open spec fn fleet_fits_spec(boats: Seq<BoatModel>, w: int, h: int) -> bool {
    forall|k: int| 0 <= k < boats.len() ==> #[trigger] boats[k].fits(w, h)
}

impl BoardModel {
    /// Every cell's boat exists and lies on that cell.
    pub open spec fn owners_consistent(self) -> bool {
        forall|p: (int, int)| #[trigger] self.owners.contains_key(p) ==> match self.owners[p] {
            Some(k) => k < self.boats.len() && self.boats[k as int].covers(p),
            None => true,
        }
    }

    /// The board after a shot at `p`, and what the shot reports: the cell is
    /// marked shot, and the boat on it, if any, takes the hit.
    pub open spec fn after_shot(self, p: (int, int)) -> (BoardModel, HitResult) {
        let shots = self.shots.insert(p, true);
        match self.owners[p] {
            None => (BoardModel { shots, ..self }, HitResult::Water),
            Some(k) => {
                let (boat, result) = self.boats[k as int].after_hit(p);
                (BoardModel { shots, boats: self.boats.update(k as int, boat), ..self }, result)
            },
        }
    }

    /// What a spectator sees at `p`: nothing before it is shot, then water,
    /// a hit boat, or a sunk boat.
    pub open spec fn report(self, p: (int, int)) -> Option<HitResult> {
        if !self.shots[p] {
            None
        } else {
            match self.owners[p] {
                None => Some(HitResult::Water),
                Some(k) => Some(
                    if self.boats[k as int].is_sunk() {
                        HitResult::Sunk
                    } else {
                        HitResult::Hit
                    },
                ),
            }
        }
    }
}

impl<const W: usize, const H: usize> View for Board<W, H> {
    type V = BoardModel;

    closed spec fn view(&self) -> BoardModel {
        BoardModel {
            shots: self.hits@,
            owners: self.boat_refs@,
            boats: self.boats@.map_values(|b: Boat| b@),
        }
    }
}

/// Whether every boat of `boats` lies on a `W` by `H` board.
pub fn fleet_fits<const W: usize, const H: usize>(boats: &Vec<Boat>) -> (fits: bool)
    ensures
        fits == fleet_fits_spec(boats@.map_values(|b: Boat| b@), W as int, H as int),
{
    let ghost model = boats@.map_values(|b: Boat| b@);
    let mut k: usize = 0;
    while k < boats.len()
        invariant
            k <= boats@.len(),
            model == boats@.map_values(|b: Boat| b@),
            forall|j: int| 0 <= j < k ==> #[trigger] model[j].fits(W as int, H as int),
        decreases boats@.len() - k,
    {
        let boat = &boats[k];
        let (sx, sy) = boat.starting_position;
        let len = boat.hits.len();
        let fits_here = if len == 0 {
            true
        } else {
            let last = len - 1;
            match boat.direction {
                Direction::North => sx < W && sy < H && last < H - sy,
                Direction::East => sy < H && sx < W && last < W - sx,
                Direction::South => sx < W && sy < H && last <= sy,
                Direction::West => sy < H && sx < W && last <= sx,
            }
        };
        if !fits_here {
            proof {
                let b = model[k as int];
                assert(b == boat@);
                let last = len - 1;
                assert(b.start == (sx as int, sy as int));
                assert(b.direction == boat.direction);
                assert(b.len() == len);
                let c0 = b.segment(0);
                let c = b.segment(last);
                if sx < W && sy < H {
                    assert(!(0 <= c.0 < W && 0 <= c.1 < H));
                } else {
                    assert(!(0 <= c0.0 < W && 0 <= c0.1 < H));
                }
                assert(!model[k as int].fits(W as int, H as int));
            }
            return false;
        }
        proof {
            let b = model[k as int];
            assert(b == boat@);
            assert forall|i: int| 0 <= i < b.len() implies {
                let c = #[trigger] b.segment(i);
                0 <= c.0 < W && 0 <= c.1 < H
            } by {}
        }
        k += 1;
    }
    true
}

/// The boat that `last_owner` names exists and covers the cell.
pub proof fn lemma_last_owner_covers(boats: Seq<BoatModel>, p: (int, int))
    requires
        boats.len() <= usize::MAX,
    ensures
        last_owner(boats, p) matches Some(k) ==> k < boats.len() && boats[k as int].covers(p),
    decreases boats.len(),
{
    if boats.len() > 0 && !boats.last().covers(p) {
        lemma_last_owner_covers(boats.drop_last(), p);
        if let Some(k) = last_owner(boats.drop_last(), p) {
            assert(boats.drop_last()[k as int] == boats[k as int]);
        }
    }
}

/// Counting the boats afloat in a prefix one boat longer adds that boat.
proof fn lemma_afloat_count_step(boats: Seq<BoatModel>, i: int)
    requires
        0 <= i < boats.len(),
    ensures
        afloat_count(boats.take(i + 1)) == afloat_count(boats.take(i)) + if boats[i].is_sunk() {
            0nat
        } else {
            1nat
        },
{
    assert(boats.take(i + 1).drop_last() =~= boats.take(i));
}

impl<const W: usize, const H: usize> Board<W, H> {
    /// The grids have the board's size and each cell's boat lies on that cell.
    pub closed spec fn wf(&self) -> bool {
        &&& self.hits.wf()
        &&& self.boat_refs.wf()
        &&& self@.owners_consistent()
    }

    /// `(x, y)` names a cell of the board.
    pub open spec fn on_board(p: (int, int)) -> bool {
        0 <= p.0 < W && 0 <= p.1 < H
    }

    /// A board holding `boats`, no cell shot yet; each cell belongs to the
    /// last boat of `boats` that lies on it. Every boat must lie on the board.
    pub fn new(boats: Vec<Boat>) -> (board: Self)
        requires
            fleet_fits_spec(boats@.map_values(|b: Boat| b@), W as int, H as int),
        ensures
            board.wf(),
            board@ == initial_board(boats@.map_values(|b: Boat| b@), W as int, H as int),
    {
        let ghost model = boats@.map_values(|b: Boat| b@);
        let mut boat_refs: Grid<W, H, Option<usize>> = Grid::new();
        let mut k: usize = 0;
        while k < boats.len()
            invariant
                k <= boats@.len(),
                model == boats@.map_values(|b: Boat| b@),
                fleet_fits_spec(model, W as int, H as int),
                boat_refs.wf(),
                forall|x: int, y: int| 0 <= x < W && 0 <= y < H ==>
                    #[trigger] boat_refs.cell(x, y) == last_owner(model.take(k as int), (x, y)),
            decreases boats@.len() - k,
        {
            let boat = &boats[k];
            let (sx, sy) = boat.starting_position;
            let len = boat.hits.len();
            let ghost b = model[k as int];
            assert(b == boat@);
            assert(b.fits(W as int, H as int));
            let mut i: usize = 0;
            while i < len
                invariant
                    i <= len,
                    len == b.len(),
                    b == boat@,
                    (sx, sy) == boat.starting_position,
                    b.fits(W as int, H as int),
                    boat_refs.wf(),
                    forall|x: int, y: int| 0 <= x < W && 0 <= y < H ==>
                        #[trigger] boat_refs.cell(x, y) == if (b.offset((x, y)) matches Some(j) && 0 <= j < i) {
                            Some(k)
                        } else {
                            last_owner(model.take(k as int), (x, y))
                        },
                decreases len - i,
            {
                let ghost c = b.segment(i as int);
                assert(0 <= c.0 < W && 0 <= c.1 < H);
                let pos: (usize, usize) = match boat.direction {
                    Direction::North => (sx, sy + i),
                    Direction::East => (sx + i, sy),
                    Direction::South => (sx, sy - i),
                    Direction::West => (sx - i, sy),
                };
                assert(pos.0 == c.0 && pos.1 == c.1);
                boat_refs.set(pos.0, pos.1, Some(k));
                i += 1;
            }
            proof {
                assert(model.take(k + 1).drop_last() =~= model.take(k as int));
                assert(model.take(k + 1).last() == b);
            }
            k += 1;
        }
        let board = Board { hits: Grid::new(), boat_refs, boats };
        proof {
            assert(model.take(model.len() as int) =~= model);
            let init = initial_board(model, W as int, H as int);
            assert(board@.shots =~= init.shots);
            assert(board@.owners =~= init.owners);
            assert forall|p: (int, int)| #[trigger] board@.owners.contains_key(p) implies match board@.owners[p] {
                Some(j) => j < board@.boats.len() && board@.boats[j as int].covers(p),
                None => true,
            } by {
                lemma_last_owner_covers(model, p);
            }
        }
        board
    }

    /// Shoots at `position`: the cell is marked shot and the boat on it, if
    /// any, takes the hit.
    pub fn shoot(&mut self, position: (usize, usize)) -> (result: HitResult)
        requires
            old(self).wf(),
            Self::on_board((position.0 as int, position.1 as int)),
        ensures
            final(self).wf(),
            (final(self)@, result) == old(self)@.after_shot((position.0 as int, position.1 as int)),
    {
        let ghost p = (position.0 as int, position.1 as int);
        let (x, y) = position;
        self.hits.set(x, y, true);
        assert(self.hits@ =~= old(self).hits@.insert(p, true));
        match *self.boat_refs.at(x, y) {
            Some(k) => {
                let ghost before = self.boats@;
                assert(old(self)@.owners.contains_key(p));
                assert(old(self)@.owners[p] == Some(k));
                assert(old(self)@.boats[k as int] == self.boats@[k as int]@);
                assert(self.boats@[k as int]@.covers(p));
                let result = self.boats[k].hit(position);
                proof {
                    assert(self.boats@.map_values(|b: Boat| b@) =~= before.map_values(|b: Boat| b@).update(
                        k as int,
                        self.boats@[k as int]@,
                    ));
                    assert forall|q: (int, int)| #[trigger] self@.owners.contains_key(q) implies match self@.owners[q] {
                        Some(j) => j < self@.boats.len() && self@.boats[j as int].covers(q),
                        None => true,
                    } by {
                        assert(old(self)@.owners.contains_key(q));
                    }
                }
                result
            },
            None => HitResult::Water,
        }
    }

    /// Number of boats with a segment still unhit.
    pub fn safe_boats_count(&self) -> (count: usize)
        ensures
            count == afloat_count(self@.boats),
    {
        let ghost model = self.boats@.map_values(|b: Boat| b@);
        let mut count: usize = 0;
        let mut i: usize = 0;
        while i < self.boats.len()
            invariant
                i <= self.boats@.len(),
                model == self.boats@.map_values(|b: Boat| b@),
                count == afloat_count(model.take(i as int)),
                count <= i,
            decreases self.boats@.len() - i,
        {
            proof {
                lemma_afloat_count_step(model, i as int);
            }
            if self.boats[i].is_safe() {
                count += 1;
            }
            i += 1;
        }
        assert(model.take(model.len() as int) =~= model);
        count
    }

    /// What a spectator sees on each cell: `None` where no shot landed yet,
    /// otherwise water, a hit boat, or a sunk boat.
    pub fn hits(&self) -> (view: Grid<W, H, Option<HitResult>>)
        requires
            self.wf(),
        ensures
            view.wf(),
            forall|p: (int, int)| #[trigger] Self::on_board(p) ==> view@.contains_key(p) && view@[p]
                == self@.report(p),
    {
        let mut view: Grid<W, H, Option<HitResult>> = Grid::new();
        let mut y: usize = 0;
        while y < H
            invariant
                y <= H,
                self.wf(),
                view.wf(),
                forall|a: int, b: int| 0 <= a < W && 0 <= b < H ==> #[trigger] view.cell(a, b) == if b < y {
                    self@.report((a, b))
                } else {
                    None
                },
            decreases H - y,
        {
            let mut x: usize = 0;
            while x < W
                invariant
                    x <= W,
                    y < H,
                    self.wf(),
                    view.wf(),
                    forall|a: int, b: int| 0 <= a < W && 0 <= b < H ==> #[trigger] view.cell(a, b) == if b < y || (b == y && a < x) {
                        self@.report((a, b))
                    } else {
                        None
                    },
                decreases W - x,
            {
                let ghost p = (x as int, y as int);
                let cell: Option<HitResult> = if !*self.hits.at(x, y) {
                    None
                } else {
                    match *self.boat_refs.at(x, y) {
                        None => Some(HitResult::Water),
                        Some(k) => {
                            assert(self@.owners.contains_key(p));
                            if self.boats[k].is_safe() {
                                Some(HitResult::Hit)
                            } else {
                                Some(HitResult::Sunk)
                            }
                        },
                    }
                };
                assert(cell == self@.report(p));
                view.set(x, y, cell);
                x += 1;
            }
            y += 1;
        }
        view
    }
}

} // verus!

verus! {

/// Replacing one boat changes the number afloat by the difference between
/// the old and the new boat.
proof fn lemma_afloat_count_update(boats: Seq<BoatModel>, k: int, boat: BoatModel)
    requires
        0 <= k < boats.len(),
    ensures
        afloat_count(boats.update(k, boat)) + (if boats[k].is_sunk() { 0int } else { 1int })
            == afloat_count(boats) + (if boat.is_sunk() { 0int } else { 1int }),
    decreases boats.len(),
{
    let updated = boats.update(k, boat);
    if k == boats.len() - 1 {
        assert(updated.drop_last() =~= boats.drop_last());
    } else {
        assert(updated.drop_last() =~= boats.drop_last().update(k, boat));
        lemma_afloat_count_update(boats.drop_last(), k, boat);
    }
}

/// Shooting a cell a second time leaves the board as the first shot left
/// it, and reports the same result.
pub proof fn lemma_repeat_shot_changes_nothing(board: BoardModel, p: (int, int))
    requires
        board.owners_consistent(),
        board.owners.contains_key(p),
    ensures
        ({
            let (once, first) = board.after_shot(p);
            let (twice, second) = once.after_shot(p);
            twice == once && second == first
        }),
{
    let (once, first) = board.after_shot(p);
    let (twice, second) = once.after_shot(p);
    assert(once.shots.insert(p, true) =~= once.shots);
    if let Some(k) = board.owners[p] {
        let (hit_boat, r) = board.boats[k as int].after_hit(p);
        assert(once.boats[k as int] == hit_boat);
        let (again, r2) = hit_boat.after_hit(p);
        assert(again.hits =~= hit_boat.hits);
        assert(once.boats.update(k as int, again) =~= once.boats);
    }
}

/// A shot lowers the number of boats afloat by at most one, and only a
/// shot that reports `Sunk` lowers it.
pub proof fn lemma_shot_sinks_at_most_one_boat(board: BoardModel, p: (int, int))
    requires
        board.owners_consistent(),
        board.owners.contains_key(p),
    ensures
        ({
            let (after, result) = board.after_shot(p);
            &&& afloat_count(after.boats) <= afloat_count(board.boats)
            &&& afloat_count(board.boats) <= afloat_count(after.boats) + 1
            &&& result != HitResult::Sunk ==> afloat_count(after.boats) == afloat_count(board.boats)
            &&& result == HitResult::Water ==> after.boats == board.boats
        }),
{
    if let Some(k) = board.owners[p] {
        let (hit_boat, r) = board.boats[k as int].after_hit(p);
        lemma_afloat_count_update(board.boats, k as int, hit_boat);
        let old_boat = board.boats[k as int];
        if old_boat.is_sunk() {
            assert forall|j: int| 0 <= j < hit_boat.len() implies #[trigger] hit_boat.hits[j] by {
                assert(old_boat.hits[j]);
            }
        }
    }
}

/// A cell of a board built from `boats` belongs to a boat exactly when
/// some boat lies on it.
pub proof fn lemma_owned_iff_covered(boats: Seq<BoatModel>, p: (int, int))
    requires
        boats.len() <= usize::MAX,
    ensures
        last_owner(boats, p) is Some <==> exists|k: int| 0 <= k < boats.len() && #[trigger] boats[k].covers(p),
    decreases boats.len(),
{
    if boats.len() > 0 {
        if boats.last().covers(p) {
            assert(boats[boats.len() - 1].covers(p));
        } else {
            lemma_owned_iff_covered(boats.drop_last(), p);
            if exists|k: int| 0 <= k < boats.len() && #[trigger] boats[k].covers(p) {
                let k = choose|k: int| 0 <= k < boats.len() && #[trigger] boats[k].covers(p);
                assert(boats.drop_last()[k] == boats[k]);
            }
            if exists|k: int| 0 <= k < boats.drop_last().len() && #[trigger] boats.drop_last()[k].covers(p) {
                let k = choose|k: int| 0 <= k < boats.drop_last().len() && #[trigger] boats.drop_last()[k].covers(p);
                assert(boats[k] == boats.drop_last()[k]);
            }
        }
    }
}

} // verus!

verus! {

/// What a spectator sees on a cell agrees with the boat lying there: `Sunk`
/// only when every segment of that boat is hit, `Hit` only when one of its
/// segments is still unhit, `Water` only when no boat lies there, and
/// nothing exactly while the cell has not been shot.
pub proof fn lemma_report_agrees_with_boat(board: BoardModel, p: (int, int))
    requires
        board.owners_consistent(),
        board.owners.contains_key(p),
    ensures
        board.report(p) == Some(HitResult::Sunk) ==> (board.owners[p] matches Some(k) && forall|i: int|
            0 <= i < board.boats[k as int].hits.len() ==> #[trigger] board.boats[k as int].hits[i]),
        board.report(p) == Some(HitResult::Hit) ==> (board.owners[p] matches Some(k) && exists|i: int|
            0 <= i < board.boats[k as int].hits.len() && !#[trigger] board.boats[k as int].hits[i]),
        board.report(p) == Some(HitResult::Water) ==> board.owners[p] is None,
        board.report(p) is None <==> !board.shots[p],
        board.shots[p] ==> match board.owners[p] {
            None => board.report(p) == Some(HitResult::Water),
            Some(k) => board.report(p) == Some(HitResult::Hit) || board.report(p) == Some(HitResult::Sunk),
        },
{
}

} // verus!
