use vstd::prelude::*;

verus! {

/// A `W` by `H` grid of cells. Cell `(x, y)` has `x` growing to the east and
/// `y` growing to the north; rows are stored from the top (`y == H - 1`) down.
#[derive(Debug)]
pub struct Grid<const W: usize, const H: usize, T> {
    matrix: Vec<Vec<T>>,
}

impl<const W: usize, const H: usize, T> View for Grid<W, H, T> {
    type V = Map<(int, int), T>;

    /// The cells of the grid, keyed by `(x, y)`.
    open spec fn view(&self) -> Map<(int, int), T> {
        Map::new(|p: (int, int)| Self::in_bounds(p.0, p.1), |p: (int, int)| self.cell(p.0, p.1))
    }
}

impl<const W: usize, const H: usize, T> Grid<W, H, T> {
    /// The grid has `H` rows of `W` cells each.
    pub closed spec fn wf(&self) -> bool {
        &&& self.matrix@.len() == H
        &&& forall|r: int| 0 <= r < H ==> #[trigger] self.matrix@[r]@.len() == W
    }

    /// The value of cell `(x, y)`.
    pub closed spec fn cell(&self, x: int, y: int) -> T {
        self.matrix@[H - 1 - y]@[x]
    }

    /// `(x, y)` names a cell of the grid.
    pub open spec fn in_bounds(x: int, y: int) -> bool {
        0 <= x < W && 0 <= y < H
    }

    /// Builds a grid whose every cell holds `T::default()`.
    pub fn new() -> (grid: Self)
        where T: Default,
        ensures
            grid.wf(),
            forall|x: int, y: int| 0 <= x < W && 0 <= y < H ==>
                call_ensures(T::default, (), #[trigger] grid.cell(x, y)),
    {
        let mut matrix: Vec<Vec<T>> = Vec::new();
        let mut r: usize = 0;
        while r < H
            invariant
                r <= H,
                matrix@.len() == r,
                forall|i: int| 0 <= i < r ==> #[trigger] matrix@[i]@.len() == W,
                forall|i: int, j: int| 0 <= i < r && 0 <= j < W ==>
                    call_ensures(T::default, (), #[trigger] matrix@[i]@[j]),
            decreases H - r,
        {
            let mut row: Vec<T> = Vec::new();
            let mut c: usize = 0;
            while c < W
                invariant
                    c <= W,
                    row@.len() == c,
                    forall|j: int| 0 <= j < c ==> call_ensures(T::default, (), #[trigger] row@[j]),
                decreases W - c,
            {
                row.push(T::default());
                c += 1;
            }
            matrix.push(row);
            r += 1;
        }
        let grid = Grid { matrix };
        assert forall|x: int, y: int| 0 <= x < W && 0 <= y < H implies
            call_ensures(T::default, (), #[trigger] grid.cell(x, y)) by {
            assert(0 <= H - 1 - y < H);
        }
        grid
    }

    /// The cell at `(x, y)`, or `None` when `(x, y)` lies off the grid.
    pub fn get(&self, x: usize, y: usize) -> (cell: Option<&T>)
        requires
            self.wf(),
        ensures
            match cell {
                Some(v) => Self::in_bounds(x as int, y as int) && *v == self.cell(x as int, y as int),
                None => !Self::in_bounds(x as int, y as int),
            },
    {
        if x < W && y < H {
            let row: &Vec<T> = &self.matrix[H - y - 1];
            Some(&row[x])
        } else {
            None
        }
    }

    /// The cell at `(x, y)`, which must lie on the grid.
    pub fn at(&self, x: usize, y: usize) -> (cell: &T)
        requires
            self.wf(),
            Self::in_bounds(x as int, y as int),
        ensures
            *cell == self.cell(x as int, y as int),
    {
        let row: &Vec<T> = &self.matrix[H - y - 1];
        &row[x]
    }

    /// Mutable access to the cell at `(x, y)`, or `None` when `(x, y)` lies off the grid.
    pub fn get_mut(&mut self, x: usize, y: usize) -> (cell: Option<&mut T>)
        requires
            old(self).wf(),
        ensures
            cell is Some <==> Self::in_bounds(x as int, y as int),
            cell is None ==> *final(self) == *old(self),
            cell matches Some(r) ==> {
                &&& *r == old(self).cell(x as int, y as int)
                &&& final(self).wf()
                &&& final(self).cell(x as int, y as int) == *final(r)
                &&& forall|a: int, b: int| Self::in_bounds(a, b) && (a, b) != (x as int, y as int)
                    ==> #[trigger] final(self).cell(a, b) == old(self).cell(a, b)
            },
    {
        if x < W && y < H {
            let row: &mut Vec<T> = &mut self.matrix[H - y - 1];
            Some(&mut row[x])
        } else {
            None
        }
    }

    /// Replaces the cell at `(x, y)`, which must lie on the grid, by `value`.
    pub fn set(&mut self, x: usize, y: usize, value: T)
        requires
            old(self).wf(),
            Self::in_bounds(x as int, y as int),
        ensures
            final(self).wf(),
            final(self).cell(x as int, y as int) == value,
            forall|a: int, b: int| Self::in_bounds(a, b) && (a, b) != (x as int, y as int)
                ==> #[trigger] final(self).cell(a, b) == old(self).cell(a, b),
    {
        let r: usize = H - y - 1;
        let mut row: Vec<T> = Vec::new();
        std::mem::swap(&mut row, &mut self.matrix[r]);
        row.set(x, value);
        std::mem::swap(&mut row, &mut self.matrix[r]);
    }
}

} // verus!
