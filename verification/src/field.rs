//! The grid map: a rectangle of wall/empty cells with cellular-automaton
//! cave generation. Everything outside the rectangle counts as wall, so the
//! rest of the library never has to treat the border as a special case.

use vstd::prelude::*;

use crate::pos::{Pos, COORD_LIMIT};
use crate::rng::random_below;

verus! {

/// The widest and tallest a field may be. Keeps every index computation and
/// every squared coordinate far away from overflow.
pub const MAX_FIELD_SIDE: usize = 4096;

/// One cell of the field.
#[derive(Clone, Copy, PartialEq, Eq, Structural, Debug)]
pub enum FieldCell {
    Empty,
    Wall,
}

impl FieldCell {
    /// The cellular-automaton smoothing rule: a cell whose 3x3 neighbourhood
    /// (itself included) holds more than four walls becomes a wall, any other
    /// cell becomes empty, whatever it was before.
    pub open spec fn smoothed_spec(n_neighbour_walls: int) -> FieldCell {
        if n_neighbour_walls > 4 {
            FieldCell::Wall
        } else {
            FieldCell::Empty
        }
    }

    pub fn smoothed(&self, n_neighbour_walls: u32) -> (c: FieldCell)
        ensures
            c == FieldCell::smoothed_spec(n_neighbour_walls as int),
    {
        match self {
            FieldCell::Empty => {
                if n_neighbour_walls > 4 {
                    FieldCell::Wall
                } else {
                    FieldCell::Empty
                }
            }
            FieldCell::Wall => {
                if n_neighbour_walls > 4 {
                    FieldCell::Wall
                } else {
                    FieldCell::Empty
                }
            }
        }
    }
}

/// A rectangular grid of cells, stored row-major.
pub struct Field {
    pub width: usize,
    pub height: usize,
    pub cells: Vec<FieldCell>,
}

impl Field {
    /// Well-formedness: positive dimensions within the global cap, and a
    /// backing vector of exactly width * height cells.
    pub open spec fn wf(self) -> bool {
        &&& 1 <= self.width <= MAX_FIELD_SIDE
        &&& 1 <= self.height <= MAX_FIELD_SIDE
        &&& self.cells@.len() == self.width * self.height
    }

    pub open spec fn width_spec(self) -> int {
        self.width as int
    }

    pub open spec fn height_spec(self) -> int {
        self.height as int
    }

    /// Whether (x, y) lies on the grid.
    pub open spec fn on_field(self, x: int, y: int) -> bool {
        0 <= x < self.width_spec() && 0 <= y < self.height_spec()
    }

    /// The cell stored at an on-field coordinate.
    pub open spec fn cell_at(self, x: int, y: int) -> FieldCell {
        self.cells@[y * self.width_spec() + x]
    }

    /// The map-oracle view: every off-field coordinate is a wall.
    pub open spec fn wall_at(self, x: int, y: int) -> bool {
        !self.on_field(x, y) || self.cell_at(x, y) == FieldCell::Wall
    }

    /// Create a field filled with empty cells.
    pub fn new(width: usize, height: usize) -> (f: Field)
        requires
            1 <= width <= MAX_FIELD_SIDE,
            1 <= height <= MAX_FIELD_SIDE,
        ensures
            f.wf(),
            f.width_spec() == width,
            f.height_spec() == height,
            forall|x: int, y: int|
                f.on_field(x, y) ==> f.cell_at(x, y) == FieldCell::Empty,
    {
        let mut cells: Vec<FieldCell> = Vec::new();
        proof {
            assert(width * height <= MAX_FIELD_SIDE * MAX_FIELD_SIDE) by (nonlinear_arith)
                requires 1 <= width <= MAX_FIELD_SIDE, 1 <= height <= MAX_FIELD_SIDE;
        }
        let total: usize = width * height;
        let mut i: usize = 0;
        while i < total
            invariant
                i <= total,
                cells@.len() == i,
                forall|j: int| 0 <= j < i ==> cells@[j] == FieldCell::Empty,
            decreases total - i,
        {
            cells.push(FieldCell::Empty);
            i = i + 1;
        }
        let f = Field { width, height, cells };
        proof {
            assert forall|x: int, y: int| f.on_field(x, y)
                implies f.cell_at(x, y) == FieldCell::Empty by {
                lemma_row_major_index(f.width_spec(), f.height_spec(), x, y);
            }
        }
        f
    }

    pub fn width(&self) -> (w: usize)
        ensures
            w == self.width_spec(),
    {
        self.width
    }

    pub fn height(&self) -> (h: usize)
        ensures
            h == self.height_spec(),
    {
        self.height
    }

    /// Overwrite the cell at an on-field coordinate.
    pub fn set_cell(&mut self, x: usize, y: usize, c: FieldCell)
        requires
            old(self).wf(),
            old(self).on_field(x as int, y as int),
        ensures
            final(self).wf(),
            final(self).width_spec() == old(self).width_spec(),
            final(self).height_spec() == old(self).height_spec(),
            final(self).cell_at(x as int, y as int) == c,
            forall|i: int, j: int|
                old(self).on_field(i, j) && !(i == x && j == y)
                    ==> final(self).cell_at(i, j) == old(self).cell_at(i, j),
    {
        proof {
            lemma_row_major_index(self.width_spec(), self.height_spec(), x as int, y as int);
        }
        let idx: usize = y * self.width + x;
        self.cells.set(idx, c);
        proof {
            assert forall|i: int, j: int|
                old(self).on_field(i, j) && !(i == x && j == y)
                    implies self.cell_at(i, j) == old(self).cell_at(i, j) by {
                lemma_row_major_index(self.width_spec(), self.height_spec(), i, j);
                lemma_row_major_injective(self.width_spec(), i, j, x as int, y as int);
            }
        }
    }

    /// Read the cell at an on-field coordinate.
    pub fn cell(&self, x: usize, y: usize) -> (c: FieldCell)
        requires
            self.wf(),
            self.on_field(x as int, y as int),
        ensures
            c == self.cell_at(x as int, y as int),
    {
        proof {
            lemma_row_major_index(self.width_spec(), self.height_spec(), x as int, y as int);
        }
        self.cells[y * self.width + x]
    }

    /// 1 if the map oracle reports a wall at (x, y), else 0.
    pub open spec fn wall01(self, x: int, y: int) -> int {
        if self.wall_at(x, y) {
            1
        } else {
            0
        }
    }

    /// How many of the nine cells of the 3x3 block centred on (x, y) are
    /// walls, the centre itself included; off-field cells count as walls.
    pub open spec fn neighbour_walls_spec(self, x: int, y: int) -> int {
        self.wall01(x - 1, y - 1) + self.wall01(x, y - 1) + self.wall01(x + 1, y - 1)
            + self.wall01(x - 1, y) + self.wall01(x, y) + self.wall01(x + 1, y)
            + self.wall01(x - 1, y + 1) + self.wall01(x, y + 1) + self.wall01(x + 1, y + 1)
    }

    /// What a cell becomes when the whole field is smoothed once: interior
    /// cells follow the smoothing rule, cells on the field's edge stay.
    pub open spec fn smooth_target(self, x: int, y: int) -> FieldCell {
        if 1 <= x < self.width_spec() - 1 && 1 <= y < self.height_spec() - 1 {
            FieldCell::smoothed_spec(self.neighbour_walls_spec(x, y))
        } else {
            self.cell_at(x, y)
        }
    }

    /// The map-oracle query: negative and out-of-bounds coordinates count as
    /// walls, so callers need no bounds checks of their own.
    pub fn is_wall(&self, x: i32, y: i32) -> (r: bool)
        requires
            self.wf(),
        ensures
            r == self.wall_at(x as int, y as int),
    {
        if x < 0 || y < 0 {
            return true;
        }
        let xu = x as usize;
        let yu = y as usize;
        if xu >= self.width || yu >= self.height {
            return true;
        }
        match self.cell(xu, yu) {
            FieldCell::Wall => true,
            FieldCell::Empty => false,
        }
    }

    /// 1 if the oracle reports a wall at (x, y), else 0, as a run-time value.
    fn wall_count_at(&self, x: i32, y: i32) -> (r: u32)
        requires
            self.wf(),
        ensures
            r as int == self.wall01(x as int, y as int),
    {
        if self.is_wall(x, y) {
            1
        } else {
            0
        }
    }

    /// Count the walls in the 3x3 block centred on the interior cell (x, y).
    pub fn count_neighbour_walls(&self, x: usize, y: usize) -> (n: u32)
        requires
            self.wf(),
            1 <= x && x + 1 < self.width_spec(),
            1 <= y && y + 1 < self.height_spec(),
        ensures
            n as int == self.neighbour_walls_spec(x as int, y as int),
    {
        let xi: i32 = x as i32;
        let yi: i32 = y as i32;
        let mut n: u32 = 0;
        n = n + self.wall_count_at(xi - 1, yi - 1);
        n = n + self.wall_count_at(xi, yi - 1);
        n = n + self.wall_count_at(xi + 1, yi - 1);
        n = n + self.wall_count_at(xi - 1, yi);
        n = n + self.wall_count_at(xi, yi);
        n = n + self.wall_count_at(xi + 1, yi);
        n = n + self.wall_count_at(xi - 1, yi + 1);
        n = n + self.wall_count_at(xi, yi + 1);
        n = n + self.wall_count_at(xi + 1, yi + 1);
        n
    }

    /// Redraw every cell at random: empty with probability
    /// `empty_prob_milli` / 1000, wall otherwise. The draws stay internal,
    /// but at the extremes the outcome is certain: probability 1000 leaves
    /// every cell empty, probability 0 walls every cell.
    pub fn fill_rand(&mut self, empty_prob_milli: u32)
        requires
            old(self).wf(),
            empty_prob_milli <= 1000,
        ensures
            final(self).wf(),
            final(self).width_spec() == old(self).width_spec(),
            final(self).height_spec() == old(self).height_spec(),
            empty_prob_milli == 1000 ==> forall|x: int, y: int|
                final(self).on_field(x, y)
                    ==> final(self).cell_at(x, y) == FieldCell::Empty,
            empty_prob_milli == 0 ==> forall|x: int, y: int|
                final(self).on_field(x, y) ==> final(self).cell_at(x, y) == FieldCell::Wall,
    {
        let total: usize = self.cells.len();
        let mut cells: Vec<FieldCell> = Vec::new();
        let mut i: usize = 0;
        while i < total
            invariant
                i <= total,
                cells@.len() == i,
                empty_prob_milli <= 1000,
                empty_prob_milli == 1000 ==> forall|j: int|
                    0 <= j < i ==> cells@[j] == FieldCell::Empty,
                empty_prob_milli == 0 ==> forall|j: int|
                    0 <= j < i ==> cells@[j] == FieldCell::Wall,
            decreases total - i,
        {
            let r = random_below(1000);
            let c = if r < empty_prob_milli {
                FieldCell::Empty
            } else {
                FieldCell::Wall
            };
            cells.push(c);
            i = i + 1;
        }
        self.cells = cells;
        proof {
            assert forall|x: int, y: int| self.on_field(x, y)
                implies 0 <= y * self.width_spec() + x < self.cells@.len() by {
                lemma_row_major_index(self.width_spec(), self.height_spec(), x, y);
            }
        }
    }

    /// Turn the outermost ring of cells into walls; interior cells stay.
    pub fn set_borders(&mut self)
        requires
            old(self).wf(),
        ensures
            final(self).wf(),
            final(self).width_spec() == old(self).width_spec(),
            final(self).height_spec() == old(self).height_spec(),
            forall|x: int, y: int|
                old(self).on_field(x, y) ==> final(self).cell_at(x, y) == (
                    if x == 0 || y == 0 || x == old(self).width_spec() - 1
                        || y == old(self).height_spec() - 1 {
                        FieldCell::Wall
                    } else {
                        old(self).cell_at(x, y)
                    }),
    {
        let w = self.width;
        let h = self.height;
        let mut x: usize = 0;
        while x < w
            invariant
                old(self).wf(),
                self.wf(),
                self.width == w,
                self.height == h,
                w == old(self).width_spec(),
                h == old(self).height_spec(),
                x <= w,
                forall|i: int, j: int|
                    old(self).on_field(i, j) ==> self.cell_at(i, j) == (
                        if (j == 0 || j == h - 1) && i < x {
                            FieldCell::Wall
                        } else {
                            old(self).cell_at(i, j)
                        }),
            decreases w - x,
        {
            self.set_cell(x, 0, FieldCell::Wall);
            self.set_cell(x, h - 1, FieldCell::Wall);
            x = x + 1;
        }
        let mut y: usize = 1;
        while y < h - 1
            invariant
                old(self).wf(),
                self.wf(),
                self.width == w,
                self.height == h,
                w == old(self).width_spec(),
                h == old(self).height_spec(),
                1 <= y,
                h >= 2 ==> y <= h - 1,
                forall|i: int, j: int|
                    old(self).on_field(i, j) ==> self.cell_at(i, j) == (
                        if j == 0 || j == h - 1 || ((i == 0 || i == w - 1) && j < y) {
                            FieldCell::Wall
                        } else {
                            old(self).cell_at(i, j)
                        }),
            decreases h - y,
        {
            self.set_cell(0, y, FieldCell::Wall);
            self.set_cell(w - 1, y, FieldCell::Wall);
            y = y + 1;
        }
    }

    /// Smooth the whole field once: every interior cell follows the
    /// smoothing rule on its old 3x3 neighbourhood, the edge ring stays.
    pub fn smooth(&mut self)
        requires
            old(self).wf(),
        ensures
            final(self).wf(),
            final(self).width_spec() == old(self).width_spec(),
            final(self).height_spec() == old(self).height_spec(),
            forall|x: int, y: int|
                old(self).on_field(x, y)
                    ==> final(self).cell_at(x, y) == old(self).smooth_target(x, y),
    {
        let w = self.width;
        let h = self.height;
        let mut new_cells: Vec<FieldCell> = Vec::new();
        let mut y: usize = 0;
        while y < h
            invariant
                self.wf(),
                self.width == w,
                self.height == h,
                y <= h,
                new_cells@.len() == y * w,
                forall|i: int, j: int|
                    0 <= i < w && 0 <= j < y
                        ==> new_cells@[j * w + i] == self.smooth_target(i, j),
            decreases h - y,
        {
            let mut x: usize = 0;
            while x < w
                invariant
                    self.wf(),
                    self.width == w,
                    self.height == h,
                    y < h,
                    x <= w,
                    new_cells@.len() == y * w + x,
                    forall|i: int, j: int|
                        0 <= i < w && 0 <= j < y
                            ==> new_cells@[j * w + i] == self.smooth_target(i, j),
                    forall|i: int|
                        0 <= i < x ==> new_cells@[y * w + i] == self.smooth_target(i, y as int),
                decreases w - x,
            {
                let c = if 1 <= x && x + 1 < w && 1 <= y && y + 1 < h {
                    let n = self.count_neighbour_walls(x, y);
                    self.cell(x, y).smoothed(n)
                } else {
                    self.cell(x, y)
                };
                new_cells.push(c);
                proof {
                    lemma_row_major_index(w as int, h as int, x as int, y as int);
                    assert forall|i: int, j: int| 0 <= i < w && 0 <= j < y
                        implies new_cells@[j * w + i] == self.smooth_target(i, j) by {
                        lemma_row_major_index(w as int, h as int, i, j);
                        assert(j * w + i < y * w + x) by (nonlinear_arith)
                            requires 0 <= i < w, 0 <= j < y, 0 <= x;
                    }
                }
                x = x + 1;
            }
            proof {
                assert((y + 1) * w == y * w + w) by (nonlinear_arith);
            }
            y = y + 1;
        }
        proof {
            assert(h * w == w * h) by (nonlinear_arith);
        }
        self.cells = new_cells;
        proof {
            assert forall|x: int, y: int| old(self).on_field(x, y)
                implies self.cell_at(x, y) == old(self).smooth_target(x, y) by {
                lemma_row_major_index(w as int, h as int, x, y);
            }
        }
    }

    /// Generate a cave: random fill, a wall ring at the border, then the
    /// given number of smoothing passes. Every cell on the field's edge, and
    /// everything off the field, is a wall afterwards.
    pub fn cave(width: usize, height: usize, empty_prob_milli: u32, smooth_repeats: usize)
        -> (f: Field)
        requires
            1 <= width <= MAX_FIELD_SIDE,
            1 <= height <= MAX_FIELD_SIDE,
            empty_prob_milli <= 1000,
        ensures
            f.wf(),
            f.width_spec() == width,
            f.height_spec() == height,
            forall|x: int, y: int|
                !(1 <= x < width - 1 && 1 <= y < height - 1) ==> f.wall_at(x, y),
    {
        let mut f = Field::new(width, height);
        f.fill_rand(empty_prob_milli);
        f.set_borders();
        let mut k: usize = 0;
        while k < smooth_repeats
            invariant
                f.wf(),
                f.width_spec() == width,
                f.height_spec() == height,
                forall|x: int, y: int|
                    f.on_field(x, y) && (x == 0 || y == 0 || x == width - 1 || y == height - 1)
                        ==> f.cell_at(x, y) == FieldCell::Wall,
            decreases smooth_repeats - k,
        {
            f.smooth();
            k = k + 1;
        }
        f
    }

    /// How many cells of the field are empty.
    pub open spec fn empty_count_spec(self) -> nat {
        count_empty(self.cells@)
    }

    /// All empty cells of the field, in row-major order: each returned
    /// position is an empty on-field cell, every empty cell appears, the
    /// list is strictly ordered by (y, x), so it holds no duplicates, and
    /// its length is therefore exactly the field's empty-cell count.
    pub fn empty_cells(&self) -> (v: Vec<Pos>)
        requires
            self.wf(),
        ensures
            forall|k: int| 0 <= k < v@.len() ==> (#[trigger] v@[k]).in_range()
                && self.on_field(v@[k].x as int, v@[k].y as int)
                && self.cell_at(v@[k].x as int, v@[k].y as int) == FieldCell::Empty,
            forall|x: int, y: int|
                self.on_field(x, y) && self.cell_at(x, y) == FieldCell::Empty
                    ==> exists|k: int| 0 <= k < v@.len() && #[trigger] v@[k] == (Pos {
                        x: x as i32,
                        y: y as i32,
                    }),
            forall|k1: int, k2: int|
                0 <= k1 < k2 < v@.len()
                    ==> v@[k1].y < v@[k2].y || (v@[k1].y == v@[k2].y && v@[k1].x < v@[k2].x),
            v@.len() <= self.width_spec() * self.height_spec(),
            v@.len() == self.empty_count_spec(),
    {
        let w = self.width;
        let h = self.height;
        let mut v: Vec<Pos> = Vec::new();
        let mut y: usize = 0;
        while y < h
            invariant
                self.wf(),
                self.width == w,
                self.height == h,
                y <= h,
                v@.len() <= y * w,
                v@.len() == count_empty(self.cells@.take(y * w)),
                forall|k: int| 0 <= k < v@.len() ==> (#[trigger] v@[k]).in_range()
                    && self.on_field(v@[k].x as int, v@[k].y as int)
                    && self.cell_at(v@[k].x as int, v@[k].y as int) == FieldCell::Empty
                    && v@[k].y < y,
                forall|x: int, j: int|
                    self.on_field(x, j) && j < y && self.cell_at(x, j) == FieldCell::Empty
                        ==> exists|k: int| 0 <= k < v@.len() && #[trigger] v@[k] == (Pos {
                            x: x as i32,
                            y: j as i32,
                        }),
                forall|k1: int, k2: int|
                    0 <= k1 < k2 < v@.len()
                        ==> v@[k1].y < v@[k2].y || (v@[k1].y == v@[k2].y && v@[k1].x < v@[k2].x),
            decreases h - y,
        {
            let mut x: usize = 0;
            while x < w
                invariant
                    self.wf(),
                    self.width == w,
                    self.height == h,
                    y < h,
                    x <= w,
                    v@.len() <= y * w + x,
                    v@.len() == count_empty(self.cells@.take(y * w + x)),
                    forall|k: int| 0 <= k < v@.len() ==> (#[trigger] v@[k]).in_range()
                        && self.on_field(v@[k].x as int, v@[k].y as int)
                        && self.cell_at(v@[k].x as int, v@[k].y as int) == FieldCell::Empty
                        && (v@[k].y < y || (v@[k].y == y && v@[k].x < x)),
                    forall|i: int, j: int|
                        self.on_field(i, j) && (j < y || (j == y && i < x))
                            && self.cell_at(i, j) == FieldCell::Empty
                            ==> exists|k: int| 0 <= k < v@.len() && #[trigger] v@[k] == (Pos {
                                x: i as i32,
                                y: j as i32,
                            }),
                    forall|k1: int, k2: int|
                        0 <= k1 < k2 < v@.len()
                            ==> v@[k1].y < v@[k2].y
                                || (v@[k1].y == v@[k2].y && v@[k1].x < v@[k2].x),
                decreases w - x,
            {
                let ghost prev = v@;
                match self.cell(x, y) {
                    FieldCell::Empty => {
                        v.push(Pos { x: x as i32, y: y as i32 });
                    }
                    FieldCell::Wall => {}
                }
                proof {
                    lemma_row_major_index(w as int, h as int, x as int, y as int);
                    lemma_count_empty_step(self.cells@, y * w + x);
                    assert forall|i: int, j: int|
                        self.on_field(i, j) && (j < y || (j == y && i < x + 1))
                            && self.cell_at(i, j) == FieldCell::Empty
                        implies exists|k: int| 0 <= k < v@.len() && #[trigger] v@[k] == (Pos {
                            x: i as i32,
                            y: j as i32,
                        }) by {
                        let p = Pos { x: i as i32, y: j as i32 };
                        if j == y && i == x {
                            assert(v@[v@.len() - 1] == p);
                        } else {
                            let k = choose|k: int| 0 <= k < prev.len() && #[trigger] prev[k] == p;
                            assert(v@[k] == p);
                        }
                    }
                }
                x = x + 1;
            }
            proof {
                assert((y + 1) * w == y * w + w) by (nonlinear_arith);
            }
            y = y + 1;
        }
        proof {
            assert(h * w == w * h) by (nonlinear_arith);
            assert(self.cells@.take(h * w as int) =~= self.cells@);
        }
        v
    }
}

/// How many cells of a sequence are empty.
pub open spec fn count_empty(s: Seq<FieldCell>) -> nat
    decreases s.len(),
{
    if s.len() == 0 {
        0
    } else {
        (count_empty(s.drop_last()) + (if s.last() == FieldCell::Empty {
            1int
        } else {
            0int
        })) as nat
    }
}

/// The empty-cell count grows cell by cell along a prefix.
pub proof fn lemma_count_empty_step(s: Seq<FieldCell>, n: int)
    requires
        0 <= n < s.len(),
    ensures
        count_empty(s.take(n + 1)) == count_empty(s.take(n)) + (if s[n] == FieldCell::Empty {
            1int
        } else {
            0int
        }),
{
    assert(s.take(n + 1).drop_last() =~= s.take(n));
    assert(s.take(n + 1).last() == s[n]);
}

/// A row-major index of an on-field coordinate is a valid index, and stays
/// below width * height.
pub proof fn lemma_row_major_index(w: int, h: int, x: int, y: int)
    requires
        0 <= x < w,
        0 <= y < h,
        w <= MAX_FIELD_SIDE,
        h <= MAX_FIELD_SIDE,
    ensures
        0 <= y * w + x < w * h,
        w * h <= MAX_FIELD_SIDE * MAX_FIELD_SIDE,
{
    assert(y * w + x < w * h) by (nonlinear_arith)
        requires 0 <= x < w, 0 <= y < h;
    assert(0 <= y * w + x) by (nonlinear_arith)
        requires 0 <= x, 0 <= y, 0 < w;
    assert(w * h <= MAX_FIELD_SIDE * MAX_FIELD_SIDE) by (nonlinear_arith)
        requires 0 < w <= MAX_FIELD_SIDE, 0 < h <= MAX_FIELD_SIDE;
}

/// Distinct on-field coordinates have distinct row-major indices.
pub proof fn lemma_row_major_injective(w: int, x1: int, y1: int, x2: int, y2: int)
    requires
        0 <= x1 < w,
        0 <= x2 < w,
        0 <= y1,
        0 <= y2,
        !(x1 == x2 && y1 == y2),
    ensures
        y1 * w + x1 != y2 * w + x2,
{
    if y1 == y2 {
        assert(y1 * w == y2 * w);
    } else if y1 < y2 {
        assert(y1 * w + w <= y2 * w) by (nonlinear_arith)
            requires y1 < y2, 0 < w;
    } else {
        assert(y2 * w + w <= y1 * w) by (nonlinear_arith)
            requires y2 < y1, 0 < w;
    }
}

} // verus!
