use vstd::prelude::*;
use vstd::arithmetic::div_mod::{
    lemma_fundamental_div_mod,
    lemma_fundamental_div_mod_converse,
};

use rand::distributions::Distribution;

use crate::BoardSize;

verus! {

/// Position of cell `(c, r)` in the row-major storage of a grid with
/// `columns` cells per row.
pub open spec fn cell_index(columns: int, c: int, r: int) -> int {
    r * columns + c
}

/// The grid line at or left of coordinate `v` when `extent` board units
/// are cut into `cells` equal cells: `floor(v * cells / extent)`.
pub open spec fn grid_line(v: int, cells: int, extent: int) -> int {
    (v * cells) / extent
}

/// Column of corner `j` (counted anticlockwise from the lower left) of the
/// quad of a cell in column `c`.
pub open spec fn corner_column(c: int, j: int) -> int {
    if j == 1 || j == 2 {
        c + 1
    } else {
        c
    }
}

/// Row of corner `j` of the quad of a cell in row `r`.
pub open spec fn corner_row(r: int, j: int) -> int {
    if j == 2 || j == 3 {
        r + 1
    } else {
        r
    }
}

/// Which corner of its quad the `j`-th index of a cell's two triangles
/// names: triangles `(0, 3, 1)` and `(3, 2, 1)`.
pub open spec fn triangle_corner(j: int) -> int {
    if j == 0 {
        0
    } else if j == 1 {
        3
    } else if j == 2 {
        1
    } else if j == 3 {
        3
    } else if j == 4 {
        2
    } else {
        1
    }
}

/// One corner of a brick's quad. `position` is a corner of the grid lattice
/// `(column, row)`; on the board it stands at
/// `(column / columns, row / rows)` of the board's extent.
#[derive(Debug, Clone, Copy, PartialEq, Eq)]
pub struct BrickVertex {
    pub position: [usize; 2],
    pub life: usize,
    pub is_active: bool,
}

/// A grid of bricks, `num_horizontal` columns by `num_vertical` rows, each
/// holding a life counter; `0` means the brick is gone.
#[derive(Debug)]
pub struct Bricks {
    num_vertical: usize,
    num_horizontal: usize,
    lifes: Vec<usize>,
}

impl Bricks {
    /// The grid has at least one column and one row, the storage holds one
    /// counter per cell, and the cell count fits in a `usize`.
    pub closed spec fn wf(&self) -> bool {
        &&& self.num_horizontal > 0
        &&& self.num_vertical > 0
        &&& self.num_horizontal * self.num_vertical <= usize::MAX
        &&& self.lifes@.len() == self.num_horizontal * self.num_vertical
    }

    /// Number of columns.
    pub closed spec fn columns(&self) -> usize {
        self.num_horizontal
    }

    /// Number of rows.
    pub closed spec fn rows(&self) -> usize {
        self.num_vertical
    }

    /// The life counters, row after row.
    pub closed spec fn lives(&self) -> Seq<usize> {
        self.lifes@
    }

    /// Whether `(c, r)` addresses a cell of the grid.
    pub open spec fn in_grid(&self, c: int, r: int) -> bool {
        0 <= c < self.columns() && 0 <= r < self.rows()
    }

    /// The life counter of cell `(c, r)`.
    pub open spec fn life(&self, c: int, r: int) -> usize {
        self.lives()[cell_index(self.columns() as int, c, r)]
    }

    /// On a well-formed grid, every cell's storage position is a valid
    /// index into the counters, and so fits in a `usize`.
    pub proof fn lemma_cell_in_range(&self, c: int, r: int)
        requires
            self.wf(),
            self.in_grid(c, r),
        ensures
            self.columns() > 0,
            self.rows() > 0,
            self.lives().len() == self.columns() * self.rows(),
            0 <= cell_index(self.columns() as int, c, r) < self.lives().len() <= usize::MAX,
    {
        lemma_cell_in_storage(self.columns() as int, self.rows() as int, c, r);
    }

    /// A grid with every brick at life `0`. A grid without columns or rows
    /// is a caller's error.
    pub fn new(num_h: usize, num_v: usize) -> (r: Self)
        requires
            num_h > 0,
            num_v > 0,
            num_h * num_v <= usize::MAX,
        ensures
            r.wf(),
            r.columns() == num_h,
            r.rows() == num_v,
            r.lives() == Seq::new((num_h * num_v) as nat, |i: int| 0usize),
    {
        let n: usize = num_h * num_v;
        let mut lifes: Vec<usize> = Vec::with_capacity(n);
        let mut i: usize = 0;
        while i < n
            invariant
                i <= n,
                lifes@ == Seq::new(i as nat, |k: int| 0usize),
            decreases n - i,
        {
            lifes.push(0);
            i += 1;
            assert(lifes@ =~= Seq::new(i as nat, |k: int| 0usize));
        }
        Bricks { num_vertical: num_v, num_horizontal: num_h, lifes }
    }

    /// A grid whose cell `(c, r)` holds `f(c, r)`. `f` is called once per
    /// cell, row after row, and from left to right within a row.
    pub fn new_with<F>(num_h: usize, num_v: usize, mut f: F) -> (r: Self)
        where
            F: FnMut(usize, usize) -> usize,
        requires
            num_h > 0,
            num_v > 0,
            num_h * num_v <= usize::MAX,
            forall|c: usize, r: usize| c < num_h && r < num_v ==> f.requires((c, r)),
        ensures
            r.wf(),
            r.columns() == num_h,
            r.rows() == num_v,
            forall|c: int, row: int|
                r.in_grid(c, row) ==> f.ensures((c as usize, row as usize), #[trigger] r.life(c, row)),
    {
        let ghost f0 = f;
        let mut lifes: Vec<usize> = Vec::with_capacity(num_h * num_v);
        let mut y: usize = 0;
        while y < num_v
            invariant
                f == f0,
                y <= num_v,
                num_h * num_v <= usize::MAX,
                forall|c: usize, r: usize| c < num_h && r < num_v ==> f.requires((c, r)),
                lifes@.len() == y * num_h,
                forall|c: int, r: int|
                    0 <= c < num_h && 0 <= r < y ==> f.ensures(
                        (c as usize, r as usize),
                        #[trigger] lifes@[cell_index(num_h as int, c, r)],
                    ),
            decreases num_v - y,
        {
            let mut x: usize = 0;
            while x < num_h
                invariant
                    f == f0,
                    x <= num_h,
                    y < num_v,
                    num_h * num_v <= usize::MAX,
                    forall|c: usize, r: usize| c < num_h && r < num_v ==> f.requires((c, r)),
                    lifes@.len() == y * num_h + x,
                    forall|c: int, r: int|
                        0 <= c < num_h && 0 <= r < y ==> f.ensures(
                            (c as usize, r as usize),
                            #[trigger] lifes@[cell_index(num_h as int, c, r)],
                        ),
                    forall|c: int|
                        0 <= c < x ==> f.ensures(
                            (c as usize, y),
                            #[trigger] lifes@[cell_index(num_h as int, c, y as int)],
                        ),
                decreases num_h - x,
            {
                let life = f(x, y);
                proof {
                    lemma_cell_in_storage(num_h as int, num_v as int, x as int, y as int);
                }
                lifes.push(life);
                proof {
                    assert forall|c: int, r: int|
                        0 <= c < num_h && 0 <= r < y implies f.ensures(
                            (c as usize, r as usize),
                            #[trigger] lifes@[cell_index(num_h as int, c, r)],
                        ) by {
                        lemma_cell_in_storage(num_h as int, y as int, c, r);
                        assert(num_h * y == y * num_h) by (nonlinear_arith);
                    }
                }
                x += 1;
            }
            proof {
                assert forall|c: int, r: int|
                    0 <= c < num_h && 0 <= r < y + 1 implies f.ensures(
                        (c as usize, r as usize),
                        #[trigger] lifes@[cell_index(num_h as int, c, r)],
                    ) by {
                    if r == y {
                        assert(lifes@[cell_index(num_h as int, c, y as int)]
                            == lifes@[cell_index(num_h as int, c, r)]);
                    }
                }
                assert((y + 1) * num_h == y * num_h + num_h) by (nonlinear_arith);
            }
            y += 1;
        }
        assert(num_v * num_h == num_h * num_v) by (nonlinear_arith);
        Bricks { num_vertical: num_v, num_horizontal: num_h, lifes }
    }

    /// Whether `v` is vertex `i` of the mesh: corner `i % 4` of the quad of
    /// cell `i / 4`, cells taken row after row.
    pub open spec fn is_mesh_vertex(&self, i: int, v: BrickVertex) -> bool {
        let k = i / 4;
        let c = k % (self.columns() as int);
        let r = k / (self.columns() as int);
        &&& v.position[0] == corner_column(c, i % 4)
        &&& v.position[1] == corner_row(r, i % 4)
        &&& v.life == self.life(c, r)
        &&& !v.is_active
    }

    /// The cell that contains the board point `(x, y)`, or `None` when the
    /// point lies off the grid.
    pub fn in_which(&self, x: i64, y: i64, board: &BoardSize) -> (r: Option<(usize, usize)>)
        requires
            board.width > 0,
            board.height > 0,
        ensures
            ({
                let gx = grid_line(x as int, self.columns() as int, board.width as int);
                let gy = grid_line(y as int, self.rows() as int, board.height as int);
                r == if self.in_grid(gx, gy) {
                    Some((gx as usize, gy as usize))
                } else {
                    None::<(usize, usize)>
                }
            }),
    {
        if x < 0 {
            proof {
                lemma_negative_grid_line(x as int, self.columns() as int, board.width as int);
            }
            return None;
        }
        if y < 0 {
            proof {
                lemma_negative_grid_line(y as int, self.rows() as int, board.height as int);
            }
            return None;
        }
        proof {
            lemma_product_fits(x as int, self.columns() as int);
            lemma_product_fits(y as int, self.rows() as int);
        }
        let gx: u128 = (x as u128) * (self.num_horizontal as u128) / (board.width as u128);
        let gy: u128 = (y as u128) * (self.num_vertical as u128) / (board.height as u128);
        if gx < self.num_horizontal as u128 && gy < self.num_vertical as u128 {
            Some((gx as usize, gy as usize))
        } else {
            None
        }
    }

    /// The drawable mesh of the grid: for each cell, row after row, the
    /// four corners of its quad and the six indices of its two triangles.
    pub fn to_vertices(&self) -> (r: (Vec<BrickVertex>, Vec<u16>))
        requires
            self.wf(),
            4 * self.columns() * self.rows() <= 65536,
        ensures
            r.0@.len() == 4 * self.columns() * self.rows(),
            r.1@.len() == 6 * self.columns() * self.rows(),
            forall|i: int| 0 <= i < r.0@.len() ==> self.is_mesh_vertex(i, #[trigger] r.0@[i]),
            forall|i: int|
                0 <= i < r.1@.len() ==> #[trigger] r.1@[i] == 4 * (i / 6) + triangle_corner(i % 6),
            forall|i: int| 0 <= i < r.1@.len() ==> #[trigger] r.1@[i] < r.0@.len(),
    {
        let n: usize = self.num_horizontal;
        let m: usize = self.num_vertical;
        let mut vs: Vec<BrickVertex> = Vec::new();
        let mut indices: Vec<u16> = Vec::new();
        let mut y: usize = 0;
        while y < m
            invariant
                n == self.columns(),
                m == self.rows(),
                self.lifes@.len() == n * m,
                4 * n * m <= 65536,
                y <= m,
                vs@.len() == 4 * (y * n),
                indices@.len() == 6 * (y * n),
                forall|i: int| 0 <= i < vs@.len() ==> self.is_mesh_vertex(i, #[trigger] vs@[i]),
                forall|i: int|
                    0 <= i < indices@.len() ==> #[trigger] indices@[i] == 4 * (i / 6)
                        + triangle_corner(i % 6),
            decreases m - y,
        {
            let mut x: usize = 0;
            while x < n
                invariant
                    n == self.columns(),
                    m == self.rows(),
                    self.lifes@.len() == n * m,
                    4 * n * m <= 65536,
                    y < m,
                    x <= n,
                    vs@.len() == 4 * (y * n + x),
                    indices@.len() == 6 * (y * n + x),
                    forall|i: int| 0 <= i < vs@.len() ==> self.is_mesh_vertex(i, #[trigger] vs@[i]),
                    forall|i: int|
                        0 <= i < indices@.len() ==> #[trigger] indices@[i] == 4 * (i / 6)
                            + triangle_corner(i % 6),
                decreases n - x,
            {
                let ghost k: int = y * n + x;
                proof {
                    lemma_cell_in_storage(n as int, m as int, x as int, y as int);
                    lemma_fundamental_div_mod_converse(k, n as int, y as int, x as int);
                    assert(4 * k + 4 <= 4 * n * m) by (nonlinear_arith)
                        requires
                            k < n * m,
                    ;
                }
                let life: usize = self.lifes[y * n + x];
                let base: u16 = (4 * (y * n + x)) as u16;
                let ghost start: int = vs@.len() as int;
                vs.push(BrickVertex { position: [x, y], life, is_active: false });
                vs.push(BrickVertex { position: [x + 1, y], life, is_active: false });
                vs.push(BrickVertex { position: [x + 1, y + 1], life, is_active: false });
                vs.push(BrickVertex { position: [x, y + 1], life, is_active: false });
                proof {
                    assert forall|i: int| 0 <= i < vs@.len() implies self.is_mesh_vertex(
                        i,
                        #[trigger] vs@[i],
                    ) by {
                        if i >= start {
                            lemma_fundamental_div_mod_converse(i, 4, k, i - start);
                        }
                    }
                }
                let ghost istart: int = indices@.len() as int;
                indices.push(base);
                indices.push(base + 3);
                indices.push(base + 1);
                indices.push(base + 3);
                indices.push(base + 2);
                indices.push(base + 1);
                proof {
                    assert forall|i: int|
                        0 <= i < indices@.len() implies #[trigger] indices@[i] == 4 * (i / 6)
                            + triangle_corner(i % 6) by {
                        if i >= istart {
                            lemma_fundamental_div_mod_converse(i, 6, k, i - istart);
                        }
                    }
                }
                x += 1;
            }
            assert((y + 1) * n == y * n + n) by (nonlinear_arith);
            y += 1;
        }
        proof {
            assert(4 * (m * n) == 4 * n * m) by (nonlinear_arith);
            assert(6 * (m * n) == 6 * n * m) by (nonlinear_arith);
            assert forall|i: int| 0 <= i < indices@.len() implies #[trigger] indices@[i] < vs@.len() by {
                let k = i / 6;
                lemma_fundamental_div_mod_converse(i, 6, k, i % 6);
                assert(k < n * m) by (nonlinear_arith)
                    requires
                        i == 6 * k + i % 6,
                        0 <= i % 6 < 6,
                        i < 6 * (n * m),
                ;
            }
        }
        (vs, indices)
    }

    /// A grid whose first `open_rows` rows are empty and whose other cells
    /// each get a life drawn at random from `[0, life_bound)`, as
    /// `life_for` states.
    pub fn new_random(num_h: usize, num_v: usize, open_rows: usize, life_bound: usize) -> (r: Self)
        requires
            num_h > 0,
            num_v > 0,
            num_h * num_v <= usize::MAX,
            life_bound > 0,
        ensures
            r.wf(),
            r.columns() == num_h,
            r.rows() == num_v,
            forall|c: int, row: int|
                r.in_grid(c, row) && row < open_rows ==> #[trigger] r.life(c, row) == 0,
            forall|c: int, row: int| r.in_grid(c, row) ==> #[trigger] r.life(c, row) < life_bound,
    {
        let draw = |c: usize, row: usize| -> (life: usize)
            requires
                life_bound > 0,
            ensures
                life < life_bound,
                row < open_rows ==> life == 0,
            {
                life_for(row, open_rows, random_below(life_bound))
            };
        Bricks::new_with(num_h, num_v, draw)
    }

    /// The life counter at `(x, y)`, or `None` when the cell is off the grid.
    pub fn get_life(&self, x: usize, y: usize) -> (r: Option<usize>)
        requires
            self.wf(),
        ensures
            r == if self.in_grid(x as int, y as int) {
                Some(self.life(x as int, y as int))
            } else {
                None::<usize>
            },
    {
        if x < self.num_horizontal && y < self.num_vertical {
            proof {
                lemma_cell_in_storage(self.num_horizontal as int, self.num_vertical as int, x as int, y as int);
            }
            Some(self.lifes[y * self.num_horizontal + x])
        } else {
            None
        }
    }

    /// Whether the ball striking cell `(c, r)` hits a brick: the cell is on
    /// the grid and its brick is still alive.
    pub open spec fn alive_at(&self, c: int, r: int) -> bool {
        self.in_grid(c, r) && self.life(c, r) > 0
    }

    /// Strikes the brick at `(x, y)`: a live brick loses one life and `true`
    /// is returned; otherwise nothing changes and `false` is returned.
    pub fn hit(&mut self, x: usize, y: usize) -> (r: bool)
        requires
            old(self).wf(),
        ensures
            final(self).wf(),
            r == old(self).alive_at(x as int, y as int),
            final(self).columns() == old(self).columns(),
            final(self).rows() == old(self).rows(),
            final(self).lives() == if r {
                old(self).lives().update(
                    cell_index(old(self).columns() as int, x as int, y as int),
                    (old(self).life(x as int, y as int) - 1) as usize,
                )
            } else {
                old(self).lives()
            },
    {
        if x < self.num_horizontal && y < self.num_vertical {
            proof {
                lemma_cell_in_storage(self.num_horizontal as int, self.num_vertical as int, x as int, y as int);
            }
            let i: usize = y * self.num_horizontal + x;
            let life: usize = self.lifes[i];
            if life > 0 {
                self.lifes.set(i, life - 1);
                return true;
            }
        }
        false
    }

    /// The storage position of `(x, y)`.
    pub fn index(&self, x: usize, y: usize) -> (r: usize)
        requires
            x + y * self.columns() <= usize::MAX,
        ensures
            r == cell_index(self.columns() as int, x as int, y as int),
    {
        x + y * self.num_horizontal
    }
}

/// A point left of (or below) the board lies left of (or below) the grid.
pub proof fn lemma_negative_grid_line(v: int, cells: int, extent: int)
    requires
        v < 0,
        cells >= 0,
        extent > 0,
    ensures
        grid_line(v, cells, extent) < 0 || cells == 0,
{
    if cells > 0 {
        assert(v * cells < 0) by (nonlinear_arith)
            requires
                v < 0,
                cells > 0,
        ;
        let q = (v * cells) / extent;
        lemma_fundamental_div_mod(v * cells, extent);
        assert(q < 0) by (nonlinear_arith)
            requires
                v * cells == extent * q + (v * cells) % extent,
                0 <= (v * cells) % extent < extent,
                v * cells < 0,
                extent > 0,
        ;
    }
}

/// The life of a brick in row `row` of a layout whose first `open_rows`
/// rows are empty and whose other bricks get the value `drawn`.
pub fn life_for(row: usize, open_rows: usize, drawn: usize) -> (r: usize)
    ensures
        r == if row < open_rows {
            0
        } else {
            drawn
        },
{
    if row < open_rows {
        0
    } else {
        drawn
    }
}

/// Relies on rand's `Uniform::from(0..bound)`, sampled with `thread_rng()`:
/// a value of the half-open range `[0, bound)`. `Uniform::new` panics on an
/// empty range.
#[verifier::external_body]
fn random_below(bound: usize) -> (r: usize)
    requires
        bound > 0,
    ensures
        r < bound,
{
    rand::distributions::Uniform::from(0..bound).sample(&mut rand::thread_rng())
}

/// A non-negative `i64` coordinate times a `usize` count fits in `u128`.
proof fn lemma_product_fits(v: int, cells: int)
    requires
        0 <= v <= i64::MAX,
        0 <= cells <= usize::MAX,
    ensures
        0 <= v * cells <= u128::MAX,
{
    assert(0 <= v * cells <= i64::MAX * usize::MAX) by (nonlinear_arith)
        requires
            0 <= v <= i64::MAX,
            0 <= cells <= usize::MAX,
    ;
}

/// A cell inside a `columns` by `rows` grid lies inside its storage.
pub proof fn lemma_cell_in_storage(columns: int, rows: int, c: int, r: int)
    requires
        0 <= c < columns,
        0 <= r < rows,
    ensures
        0 <= cell_index(columns, c, r) < columns * rows,
{
    assert(r * columns + c < columns * rows) by (nonlinear_arith)
        requires
            0 <= c < columns,
            0 <= r < rows,
    ;
    assert(0 <= r * columns) by (nonlinear_arith)
        requires
            0 <= c < columns,
            0 <= r,
    ;
}

} // verus!
