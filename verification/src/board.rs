//! A life-automaton board: a rectangular grid of cells, each alive or dead,
//! stepped by the classic rule over its eight neighbors.

use vstd::prelude::*;

verus! {

/// A grid of cells in row-major order, with a staging buffer for writes
/// made between steps.
#[derive(Debug)]
pub struct Board {
    data: Vec<bool>,
    data_out: Vec<bool>,
    width: usize,
    height: usize,
}

impl Board {
    #[verifier::type_invariant]
    spec fn wf(&self) -> bool {
        &&& self.width * self.height <= usize::MAX
        &&& self.data@.len() == self.width * self.height
        &&& self.data_out@.len() == self.width * self.height
    }

    pub closed spec fn spec_width(&self) -> int {
        self.width as int
    }

    pub closed spec fn spec_height(&self) -> int {
        self.height as int
    }

    /// The live cell at column `x`, row `y`.
    pub closed spec fn spec_cell(&self, x: int, y: int) -> bool {
        self.data@[y * self.width + x]
    }

    /// The staged cell at column `x`, row `y`.
    pub closed spec fn spec_staged(&self, x: int, y: int) -> bool {
        self.data_out@[y * self.width + x]
    }

    /// Whether the cell at (`x`, `y`) exists and is alive; cells outside
    /// the grid count as dead.
    pub open spec fn alive(&self, x: int, y: int) -> bool {
        0 <= x < self.spec_width() && 0 <= y < self.spec_height() && self.spec_cell(x, y)
    }

    /// How many of the eight neighbors of (`x`, `y`) are alive.
    pub open spec fn spec_neighbors(&self, x: int, y: int) -> int {
        count(self.alive(x - 1, y - 1)) + count(self.alive(x, y - 1)) + count(
            self.alive(x + 1, y - 1),
        ) + count(self.alive(x - 1, y)) + count(self.alive(x + 1, y)) + count(
            self.alive(x - 1, y + 1),
        ) + count(self.alive(x, y + 1)) + count(self.alive(x + 1, y + 1))
    }

    /// What one step makes of the cell at (`x`, `y`): two live neighbors
    /// keep it, three make it live, anything else kills it.
    pub open spec fn spec_rule(&self, x: int, y: int) -> bool {
        if self.spec_neighbors(x, y) == 2 {
            self.spec_cell(x, y)
        } else {
            self.spec_neighbors(x, y) == 3
        }
    }

    /// An all-dead board of the given size.
    pub fn new(width: usize, height: usize) -> (r: Board)
        requires
            width * height <= usize::MAX,
        ensures
            r.spec_width() == width,
            r.spec_height() == height,
            forall|x: int, y: int|
                0 <= x < width && 0 <= y < height ==> !#[trigger] r.spec_cell(x, y),
            forall|x: int, y: int|
                0 <= x < width && 0 <= y < height ==> !#[trigger] r.spec_staged(x, y),
    {
        let n = width * height;
        let mut data: Vec<bool> = Vec::new();
        let mut data_out: Vec<bool> = Vec::new();
        let mut i: usize = 0;
        while i < n
            invariant
                i <= n,
                data@.len() == i,
                data_out@.len() == i,
                forall|j: int| 0 <= j < i ==> !data@[j],
                forall|j: int| 0 <= j < i ==> !data_out@[j],
            decreases n - i,
        {
            data.push(false);
            data_out.push(false);
            i = i + 1;
        }
        let r = Board { data, data_out, width, height };
        proof {
            assert forall|x: int, y: int|
                0 <= x < width && 0 <= y < height implies !#[trigger] r.spec_cell(x, y) by {
                mul_bound(x, y, width as int, height as int);
                assert(!r.data@[y * width + x]);
            };
            assert forall|x: int, y: int|
                0 <= x < width && 0 <= y < height implies !#[trigger] r.spec_staged(x, y) by {
                mul_bound(x, y, width as int, height as int);
                assert(!r.data_out@[y * width + x]);
            };
        }
        r
    }

    /// A board whose live cells are given row by row; how the pattern was
    /// produced (randomness, a file, a hand-written test) is the caller's
    /// business.
    pub fn from_cells(width: usize, height: usize, cells: Vec<bool>) -> (r: Board)
        requires
            width * height <= usize::MAX,
            cells@.len() == width * height,
        ensures
            r.spec_width() == width,
            r.spec_height() == height,
            forall|x: int, y: int|
                0 <= x < width && 0 <= y < height ==> #[trigger] r.spec_cell(x, y) == cells@[y
                    * width + x],
    {
        let mut blank = Board::new(width, height);
        proof {
            use_type_invariant(&blank);
        }
        blank.data = cells;
        let r = blank;
        proof {
            assert forall|x: int, y: int|
                0 <= x < width && 0 <= y < height implies #[trigger] r.spec_cell(x, y) == cells@[y
                * width + x] by {
                mul_bound(x, y, width as int, height as int);
            };
        }
        r
    }

    /// The live cell at (`x`, `y`).
    pub fn get(&self, x: usize, y: usize) -> (r: bool)
        requires
            x < self.spec_width(),
            y < self.spec_height(),
        ensures
            r == self.spec_cell(x as int, y as int),
    {
        proof {
            use_type_invariant(self);
            mul_bound(x as int, y as int, self.spec_width(), self.spec_height());
        }
        self.data[y * self.width + x]
    }

    /// Stages a cell value for (`x`, `y`); the live grid is untouched.
    pub fn set(&mut self, x: usize, y: usize, value: bool)
        requires
            x < old(self).spec_width(),
            y < old(self).spec_height(),
        ensures
            final(self).spec_width() == old(self).spec_width(),
            final(self).spec_height() == old(self).spec_height(),
            forall|a: int, b: int| final(self).spec_cell(a, b) == old(self).spec_cell(a, b),
            final(self).spec_staged(x as int, y as int) == value,
            forall|a: int, b: int|
                0 <= a < old(self).spec_width() && 0 <= b < old(self).spec_height() && !(a == x && b
                    == y) ==> final(self).spec_staged(a, b) == old(self).spec_staged(a, b),
    {
        proof {
            use_type_invariant(&*self);
            mul_bound(x as int, y as int, self.spec_width(), self.spec_height());
        }
        let idx = y * self.width + x;
        self.data_out[idx] = value;
        proof {
            assert forall|a: int, b: int|
                0 <= a < old(self).spec_width() && 0 <= b < old(self).spec_height() && !(a == x && b
                    == y) implies final(self).spec_staged(a, b) == old(self).spec_staged(a, b) by {
                mul_bound(a, b, self.spec_width(), self.spec_height());
                distinct_cells(a, b, x as int, y as int, self.spec_width(), self.spec_height());
            };
        }
    }

    /// How many of the eight neighbors of (`x`, `y`) are alive.
    pub fn count_neighbors(&self, x: usize, y: usize) -> (r: usize)
        requires
            x < self.spec_width(),
            y < self.spec_height(),
        ensures
            r == self.spec_neighbors(x as int, y as int),
    {
        let mut r: usize = 0;
        if self.probe(x, y, -1, -1) {
            r = r + 1;
        }
        if self.probe(x, y, 0, -1) {
            r = r + 1;
        }
        if self.probe(x, y, 1, -1) {
            r = r + 1;
        }
        if self.probe(x, y, -1, 0) {
            r = r + 1;
        }
        if self.probe(x, y, 1, 0) {
            r = r + 1;
        }
        if self.probe(x, y, -1, 1) {
            r = r + 1;
        }
        if self.probe(x, y, 0, 1) {
            r = r + 1;
        }
        if self.probe(x, y, 1, 1) {
            r = r + 1;
        }
        r
    }

    /// Whether the neighbor of (`x`, `y`) at the given offset is alive.
    fn probe(&self, x: usize, y: usize, dx: i8, dy: i8) -> (r: bool)
        requires
            x < self.spec_width(),
            y < self.spec_height(),
            -1 <= dx <= 1,
            -1 <= dy <= 1,
        ensures
            r == self.alive(x + dx, y + dy),
    {
        proof {
            use_type_invariant(self);
        }
        let nx: usize = if dx < 0 {
            if x == 0 {
                return false;
            }
            x - 1
        } else if dx > 0 {
            if x >= self.width - 1 {
                return false;
            }
            x + 1
        } else {
            x
        };
        let ny: usize = if dy < 0 {
            if y == 0 {
                return false;
            }
            y - 1
        } else if dy > 0 {
            if y >= self.height - 1 {
                return false;
            }
            y + 1
        } else {
            y
        };
        proof {
            mul_bound(nx as int, ny as int, self.spec_width(), self.spec_height());
        }
        self.data[ny * self.width + nx]
    }

    /// One step of the automaton: every live cell becomes what the rule
    /// says of its old neighborhood; the staging buffer is untouched.
    pub fn update(&mut self)
        ensures
            final(self).spec_width() == old(self).spec_width(),
            final(self).spec_height() == old(self).spec_height(),
            forall|x: int, y: int|
                0 <= x < old(self).spec_width() && 0 <= y < old(self).spec_height()
                    ==> final(self).spec_cell(x, y) == old(self).spec_rule(x, y),
            forall|a: int, b: int| final(self).spec_staged(a, b) == old(self).spec_staged(a, b),
    {
        proof {
            use_type_invariant(&*self);
        }
        let w = self.width;
        let h = self.height;
        let mut next: Vec<bool> = Vec::new();
        let mut y: usize = 0;
        while y < h
            invariant
                w == self.spec_width(),
                h == self.spec_height(),
                self.wf(),
                *self == *old(self),
                y <= h,
                next@.len() == y * w,
                forall|a: int, b: int|
                    0 <= a < w && 0 <= b < y ==> next@[b * w + a] == old(self).spec_rule(a, b),
            decreases h - y,
        {
            let mut x: usize = 0;
            while x < w
                invariant
                    w == self.spec_width(),
                    h == self.spec_height(),
                    self.wf(),
                    *self == *old(self),
                    y < h,
                    x <= w,
                    next@.len() == y * w + x,
                    forall|a: int, b: int|
                        0 <= a < w && 0 <= b < y ==> next@[b * w + a] == old(self).spec_rule(a, b),
                    forall|a: int| 0 <= a < x ==> next@[y * w + a] == old(self).spec_rule(a, y as int),
                decreases w - x,
            {
                let c = self.count_neighbors(x, y);
                let v = if c == 2 {
                    self.get(x, y)
                } else {
                    c == 3
                };
                next.push(v);
                x = x + 1;
                proof {
                    mul_bound(x as int - 1, y as int, w as int, h as int);
                    assert forall|a: int, b: int|
                        0 <= a < w && 0 <= b < y implies next@[b * w + a] == old(self).spec_rule(
                        a,
                        b,
                    ) by {
                        mul_bound(a, b, w as int, h as int);
                        distinct_rows(a, b, y as int, w as int);
                    };
                    assert forall|a: int| 0 <= a < x implies next@[y * w + a] == old(
                        self,
                    ).spec_rule(a, y as int) by {
                        mul_bound(a, y as int, w as int, h as int);
                    };
                }
            }
            y = y + 1;
            proof {
                assert(next@.len() == y * w) by (nonlinear_arith)
                    requires
                        next@.len() == (y - 1) * w + w,
                ;
            }
        }
        proof {
            assert(next@.len() == w * h) by (nonlinear_arith)
                requires
                    next@.len() == h * w,
            ;
        }
        self.data = next;
        proof {
            assert forall|x: int, y2: int|
                0 <= x < w && 0 <= y2 < h implies final(self).spec_cell(x, y2) == old(
                self,
            ).spec_rule(x, y2) by {
                mul_bound(x, y2, w as int, h as int);
            };
        }
    }
}

/// One where true, zero where false.
pub open spec fn count(b: bool) -> int {
    if b {
        1
    } else {
        0
    }
}

proof fn mul_bound(x: int, y: int, w: int, h: int)
    by (nonlinear_arith)
    requires
        0 <= x < w,
        0 <= y < h,
    ensures
        0 <= y * w + x < w * h,
{
}

proof fn distinct_cells(a: int, b: int, x: int, y: int, w: int, h: int)
    by (nonlinear_arith)
    requires
        0 <= a < w,
        0 <= b < h,
        0 <= x < w,
        0 <= y < h,
        !(a == x && b == y),
    ensures
        b * w + a != y * w + x,
{
}

proof fn distinct_rows(a: int, b: int, y: int, w: int)
    by (nonlinear_arith)
    requires
        0 <= a < w,
        0 <= b < y,
    ensures
        b * w + a < y * w,
{
}

} // verus!
