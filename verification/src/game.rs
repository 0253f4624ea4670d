//! The grid and the engine surface: bounds-safe access, the swap primitive,
//! initialisation, the per-tick scheduler, the brush, and the rasteriser.
//!
//! The grid maps positions in `[0, W) x [0, H)` to cells, stored row-major.
//! Reading out of bounds yields a synthetic wall cell and never faults;
//! writing out of bounds is a silent no-op. Walls are immovable: no rule
//! ever writes over one, which the tick's contract states.

use vstd::prelude::*;

use crate::cell::air_cell;
use crate::cell::blank_cell;
use crate::cell::create_sand;
use crate::cell::sand_cell;
use crate::cell::wall_cell;
use crate::cell::Cell;
use crate::cell::Kind;
use crate::laws::lemma_no_walls_preserved;
use crate::laws::lemma_step_preserves_walls;
use crate::laws::lemma_walls_preserved_refl;
use crate::laws::lemma_walls_preserved_trans;
use crate::rng::rng_from_seed;
use crate::rng::rng_shuffle;
use crate::rules::dispatch_outcome;
use crate::rules::lemma_tick_chain_snoc;
use crate::rules::lemma_two_idx;
use crate::rules::px_of;
use crate::rules::py_of;
use crate::rules::tick_chain;
use crate::vector::Vector;

verus! {

/// The errors of the engine surface: rejected construction, and an output
/// sink's failure during drawing (surfaced by a host, never raised by the
/// engine itself).
#[derive(Clone, Copy, PartialEq, Eq, Structural, Debug)]
pub enum GameError {
    InvalidDimensions,
    OutputError,
}

/// The engine: a fixed-size grid of cells and the random stream that the
/// rules draw from.
pub struct Game {
    pub grid_width: i32,
    pub grid_height: i32,
    pub grid: Vec<Cell>,
    pub rng: fastrand::Rng,
}

/// The cells of `s` with the values at `i` and `j` exchanged.
pub open spec fn swapped(s: Seq<Cell>, i: int, j: int) -> Seq<Cell> {
    s.update(i, s[j]).update(j, s[i])
}

/// What `initialise` leaves behind: a buffer of the same length holding
/// only the canonical air cell.
pub open spec fn initialised(s: Seq<Cell>) -> Seq<Cell> {
    Seq::new(s.len(), |i: int| air_cell())
}

/// The coordinates lie inside a `w` by `h` grid.
pub open spec fn in_grid(w: int, h: int, x: int, y: int) -> bool {
    0 <= x < w && 0 <= y < h
}

/// The cell seen at integer coordinates of a raw cell buffer with the given
/// dimensions: the stored cell in bounds, the synthetic wall outside.
pub open spec fn at_xy(w: int, h: int, s: Seq<Cell>, x: int, y: int) -> Cell {
    if in_grid(w, h, x, y) {
        s[y * w + x]
    } else {
        wall_cell()
    }
}

/// Every position of a `w` by `h` grid, row-major.
pub open spec fn grid_positions(w: int, h: int) -> Seq<Vector> {
    Seq::new((w * h) as nat, |i: int| Vector { x: (i % w) as i32, y: (i / w) as i32 })
}

/// Dimensions agree, every wall cell of either grid stands unchanged in the
/// other: walls never move, appear or disappear.
pub open spec fn walls_preserved(pre: Game, post: Game) -> bool {
    &&& post.same_dims(pre)
    &&& forall|x: int, y: int|
        #![trigger pre.cell_xy(x, y)]
        #![trigger post.cell_xy(x, y)]
        pre.in_bounds_xy(x, y) && (pre.cell_xy(x, y).kind == Kind::Wall || post.cell_xy(x, y).kind
            == Kind::Wall) ==> post.cell_xy(x, y) == pre.cell_xy(x, y)
}

/// A number bounded in magnitude has a bounded square.
pub proof fn lemma_square_bound(a: int, b: int)
    requires
        -b <= a <= b,
        0 <= b,
    ensures
        0 <= a * a <= b * b,
{
    assert(0 <= a * a <= b * b) by (nonlinear_arith)
        requires
            -b <= a <= b,
            0 <= b,
    ;
}

/// Row-major indices stay inside the grid buffer.
pub proof fn lemma_idx_bounds(w: int, h: int, x: int, y: int)
    requires
        0 <= x < w,
        0 <= y < h,
    ensures
        0 <= y * w + x < w * h,
{
    assert(0 <= y * w + x < w * h) by (nonlinear_arith)
        requires
            0 <= x < w,
            0 <= y < h,
    ;
}

/// Row-major indexing is injective over in-bounds coordinates.
pub proof fn lemma_idx_injective(w: int, x1: int, y1: int, x2: int, y2: int)
    requires
        0 <= x1 < w,
        0 <= x2 < w,
        0 <= y1,
        0 <= y2,
        y1 * w + x1 == y2 * w + x2,
    ensures
        x1 == x2,
        y1 == y2,
{
    assert(x1 == x2 && y1 == y2) by (nonlinear_arith)
        requires
            0 <= x1 < w,
            0 <= x2 < w,
            0 <= y1,
            0 <= y2,
            y1 * w + x1 == y2 * w + x2,
    ;
}

impl Game {
    /// Grid width as a mathematical integer.
    pub open spec fn w(self) -> int {
        self.grid_width as int
    }

    /// Grid height as a mathematical integer.
    pub open spec fn h(self) -> int {
        self.grid_height as int
    }

    /// Well-formedness: positive dimensions, a buffer of exactly one cell
    /// per position, and a pixel buffer of four bytes per cell that fits the
    /// machine.
    pub open spec fn wf(self) -> bool {
        &&& 0 < self.w()
        &&& 0 < self.h()
        &&& self.grid@.len() == self.w() * self.h()
        &&& 4 * (self.w() * self.h()) <= usize::MAX as int
    }

    pub open spec fn in_bounds_xy(self, x: int, y: int) -> bool {
        0 <= x < self.w() && 0 <= y < self.h()
    }

    /// The row-major buffer index of an in-bounds position.
    pub open spec fn idx(self, x: int, y: int) -> int {
        y * self.w() + x
    }

    /// The cell seen at integer coordinates: the stored cell in bounds, the
    /// synthetic wall outside.
    pub open spec fn cell_xy(self, x: int, y: int) -> Cell {
        if self.in_bounds_xy(x, y) {
            self.grid@[self.idx(x, y)]
        } else {
            wall_cell()
        }
    }

    /// The cell seen at a position.
    pub open spec fn cell_at(self, p: Vector) -> Cell {
        self.cell_xy(p.x as int, p.y as int)
    }

    pub open spec fn same_dims(self, other: Game) -> bool {
        self.grid_width == other.grid_width && self.grid_height == other.grid_height
    }

    /// No stored cell is a wall; only out-of-bounds reads see one.
    pub open spec fn no_stored_walls(self) -> bool {
        forall|x: int, y: int|
            self.in_bounds_xy(x, y) ==> (#[trigger] self.cell_xy(x, y)).kind != Kind::Wall
    }

    /// Builds an engine with the given dimensions and seed. Every cell
    /// starts as plain air; `initialise` paints the canonical sky colour.
    /// Rejects non-positive dimensions.
    pub fn new(grid_width: i32, grid_height: i32, seed: u64) -> (r: Result<Game, GameError>)
        requires
            4 * ((grid_width as int) * (grid_height as int)) <= usize::MAX as int,
        ensures
            match r {
                Ok(g) => {
                    &&& grid_width > 0
                    &&& grid_height > 0
                    &&& g.wf()
                    &&& g.grid_width == grid_width
                    &&& g.grid_height == grid_height
                    &&& g.grid@ == Seq::new(
                        ((grid_width as int) * (grid_height as int)) as nat,
                        |i: int| blank_cell(Kind::Air),
                    )
                },
                Err(e) => {
                    &&& e == GameError::InvalidDimensions
                    &&& (grid_width <= 0 || grid_height <= 0)
                },
            },
    {
        if grid_width <= 0 || grid_height <= 0 {
            return Err(GameError::InvalidDimensions);
        }
        proof {
            assert((grid_width as int) * (grid_height as int) >= 0) by (nonlinear_arith)
                requires
                    grid_width > 0,
                    grid_height > 0,
            ;
        }
        let count: usize = (grid_width as usize) * (grid_height as usize);
        let mut grid: Vec<Cell> = Vec::new();
        let mut i: usize = 0;
        while i < count
            invariant
                i <= count,
                grid@.len() == i,
                forall|j: int| 0 <= j < i ==> grid@[j] == blank_cell(Kind::Air),
            decreases count - i,
        {
            grid.push(Cell::new(Kind::Air));
            i += 1;
        }
        let g = Game { grid_width, grid_height, grid, rng: rng_from_seed(seed) };
        proof {
            assert(g.grid@ =~= Seq::new(
                ((grid_width as int) * (grid_height as int)) as nat,
                |i: int| blank_cell(Kind::Air),
            ));
        }
        Ok(g)
    }

    pub fn is_in_bounds(&self, position: &Vector) -> (r: bool)
        ensures
            r == self.in_bounds_xy(position.x as int, position.y as int),
    {
        position.x >= 0 && position.y >= 0 && position.x < self.grid_width && position.y
            < self.grid_height
    }

    /// The buffer index of an in-bounds position.
    fn index_of(&self, position: &Vector) -> (i: usize)
        requires
            self.wf(),
            self.in_bounds_xy(position.x as int, position.y as int),
        ensures
            i as int == self.idx(position.x as int, position.y as int),
            i < self.grid.len(),
    {
        proof {
            lemma_idx_bounds(self.w(), self.h(), position.x as int, position.y as int);
        }
        (position.y as usize) * (self.grid_width as usize) + (position.x as usize)
    }

    /// Bounds-safe read: a value-copy of the stored cell, or a synthetic
    /// wall for an out-of-bounds position.
    pub fn get_cell(&self, position: &Vector) -> (c: Cell)
        requires
            self.wf(),
        ensures
            c == self.cell_at(*position),
    {
        if !self.is_in_bounds(position) {
            return Cell::new(Kind::Wall);
        }
        let i = self.index_of(position);
        self.grid[i]
    }

    /// Bounds-safe write: overwrites the cell in bounds, silently ignores an
    /// out-of-bounds position.
    pub fn set_cell(&mut self, position: &Vector, value: Cell)
        requires
            old(self).wf(),
        ensures
            final(self).wf(),
            final(self).same_dims(*old(self)),
            final(self).grid@ == (if old(self).in_bounds_xy(position.x as int, position.y as int) {
                old(self).grid@.update(
                    old(self).idx(position.x as int, position.y as int),
                    value,
                )
            } else {
                old(self).grid@
            }),
    {
        if !self.is_in_bounds(position) {
            return ;
        }
        let i = self.index_of(position);
        self.grid.set(i, value);
    }

    /// The exclusive motion primitive: exchanges the cells at two in-bounds
    /// positions, and does nothing if either is out of bounds.
    pub fn swap_cells(&mut self, position1: &Vector, position2: &Vector)
        requires
            old(self).wf(),
        ensures
            final(self).wf(),
            final(self).same_dims(*old(self)),
            final(self).grid@ == (if old(self).in_bounds_xy(
                position1.x as int,
                position1.y as int,
            ) && old(self).in_bounds_xy(position2.x as int, position2.y as int) {
                swapped(
                    old(self).grid@,
                    old(self).idx(position1.x as int, position1.y as int),
                    old(self).idx(position2.x as int, position2.y as int),
                )
            } else {
                old(self).grid@
            }),
    {
        if !self.is_in_bounds(position1) || !self.is_in_bounds(position2) {
            return ;
        }
        let cell1 = self.get_cell(position1);
        let cell2 = self.get_cell(position2);
        self.set_cell(position1, cell2);
        self.set_cell(position2, cell1);
    }

    /// True iff the cell seen at the position has one of the given kinds.
    /// Out-of-bounds positions therefore match only `Wall`.
    pub fn is_type<const N: usize>(&self, position: &Vector, kinds: [Kind; N]) -> (r: bool)
        requires
            self.wf(),
        ensures
            r == kinds@.contains(self.cell_at(*position).kind),
    {
        let c = self.get_cell(position);
        let mut i: usize = 0;
        while i < N
            invariant
                i <= N,
                c.kind == self.cell_at(*position).kind,
                forall|j: int| 0 <= j < i ==> kinds@[j] != c.kind,
            decreases N - i,
        {
            if kinds[i] == c.kind {
                assert(kinds@[i as int] == c.kind);
                return true;
            }
            i += 1;
        }
        false
    }

    /// Every in-bounds position, exactly once, row-major: index `i` holds
    /// `(i mod W, i div W)`.
    fn all_positions(&self) -> (v: Vec<Vector>)
        requires
            self.wf(),
        ensures
            v@ == grid_positions(self.w(), self.h()),
            v@.len() == self.w() * self.h(),
            forall|i: int|
                0 <= i < v@.len() ==> self.in_bounds_xy(
                    (#[trigger] v@[i]).x as int,
                    v@[i].y as int,
                ),
    {
        let mut positions: Vec<Vector> = Vec::new();
        let mut y: i32 = 0;
        while y < self.grid_height
            invariant
                self.wf(),
                0 <= y <= self.grid_height,
                positions@.len() == y * self.w(),
                forall|i: int|
                    0 <= i < positions@.len() ==> (#[trigger] positions@[i]).x as int == i % self.w()
                        && positions@[i].y as int == i / self.w() && self.in_bounds_xy(
                        positions@[i].x as int,
                        positions@[i].y as int,
                    ),
            decreases self.grid_height - y,
        {
            let mut x: i32 = 0;
            while x < self.grid_width
                invariant
                    self.wf(),
                    0 <= y < self.grid_height,
                    0 <= x <= self.grid_width,
                    positions@.len() == y * self.w() + x,
                    forall|i: int|
                        0 <= i < positions@.len() ==> (#[trigger] positions@[i]).x as int == i
                            % self.w() && positions@[i].y as int == i / self.w()
                            && self.in_bounds_xy(
                            positions@[i].x as int,
                            positions@[i].y as int,
                        ),
                decreases self.grid_width - x,
            {
                positions.push(Vector::new(x, y));
                proof {
                    vstd::arithmetic::div_mod::lemma_fundamental_div_mod_converse(
                        y * self.w() + x,
                        self.w(),
                        y as int,
                        x as int,
                    );
                }
                x += 1;
            }
            proof {
                assert((y + 1) * self.w() == y * self.w() + self.w()) by (nonlinear_arith);
            }
            y += 1;
        }
        proof {
            assert(self.h() * self.w() == self.w() * self.h()) by (nonlinear_arith);
            assert forall|i: int| 0 <= i < positions@.len() implies #[trigger] positions@[i]
                == grid_positions(self.w(), self.h())[i] by {
                assert(positions@[i].x as int == i % self.w());
                assert(positions@[i].y as int == i / self.w());
            };
            assert(positions@ =~= grid_positions(self.w(), self.h()));
        }
        positions
    }

    /// Sets every cell to the canonical air cell.
    pub fn initialise(&mut self)
        requires
            old(self).wf(),
        ensures
            final(self).wf(),
            final(self).same_dims(*old(self)),
            final(self).grid@ == initialised(old(self).grid@),
            forall|x: int, y: int|
                #![trigger final(self).cell_xy(x, y)]
                final(self).in_bounds_xy(x, y) ==> final(self).cell_xy(x, y) == air_cell(),
    {
        let ghost g0 = *self;
        let n = self.grid.len();
        let mut i: usize = 0;
        while i < n
            invariant
                i <= n,
                self.wf(),
                self.same_dims(g0),
                self.grid@.len() == n,
                n == g0.grid@.len(),
                forall|j: int| 0 <= j < i ==> self.grid@[j] == air_cell(),
            decreases n - i,
        {
            let c = crate::cell::create_air();
            self.grid.set(i, c);
            i += 1;
        }
        proof {
            assert(self.grid@ =~= Seq::new(g0.grid@.len(), |i: int| air_cell()));
            assert forall|x: int, y: int| self.in_bounds_xy(x, y) implies #[trigger] self.cell_xy(
                x,
                y,
            ) == air_cell() by {
                lemma_idx_bounds(self.w(), self.h(), x, y);
            };
        }
    }

    /// One simulation step: walk every position in a freshly shuffled order
    /// and dispatch the rule of whatever cell now stands there. The contract
    /// ties the tick to the rules: the final grid is reached from the first
    /// by a chain of dispatches, one for every in-bounds position exactly
    /// once in some order, each step meeting the dispatched material's
    /// outcome relation. Whatever the stream and the order, walls are
    /// conserved exactly: none moves, appears or disappears.
    pub fn update(&mut self)
        requires
            old(self).wf(),
        ensures
            final(self).wf(),
            final(self).same_dims(*old(self)),
            walls_preserved(*old(self), *final(self)),
            old(self).no_stored_walls() ==> final(self).no_stored_walls(),
            exists|ps: Seq<Vector>|
                #[trigger] tick_chain(*old(self), ps, *final(self)) && ps.to_multiset()
                    == grid_positions(old(self).w(), old(self).h()).to_multiset(),
    {
        let ghost g0 = *self;
        let mut positions = self.all_positions();
        rng_shuffle(&mut self.rng, &mut positions);
        proof {
            lemma_walls_preserved_refl(g0);
            assert(positions@.take(0).len() == 0);
            assert(tick_chain(g0, positions@.take(0), *self));
        }
        let n = positions.len();
        let mut i: usize = 0;
        while i < n
            invariant
                self.wf(),
                self.same_dims(g0),
                walls_preserved(g0, *self),
                n == positions@.len(),
                i <= n,
                positions@.to_multiset() == grid_positions(g0.w(), g0.h()).to_multiset(),
                tick_chain(g0, positions@.take(i as int), *self),
            decreases n - i,
        {
            let p = positions[i];
            let cell = self.get_cell(&p);
            let k = cell.kind;
            let ghost pre = *self;
            k.update(&cell, &p, self);
            proof {
                lemma_step_preserves_walls(k, pre, *self);
                lemma_walls_preserved_trans(g0, pre, *self);
                assert(positions@.take(i + 1).drop_last() =~= positions@.take(i as int));
                assert(positions@.take(i + 1).last() == p);
                assert(dispatch_outcome(pre, *self, px_of(p), py_of(p)));
                assert(px_of(p) == p.x as int && py_of(p) == p.y as int);
                lemma_tick_chain_snoc(g0, positions@.take(i as int), pre, *self, p);
                assert(positions@.take(i as int).push(p) =~= positions@.take(i + 1));
                assert(tick_chain(g0, positions@.take(i + 1), *self));
            }
            i += 1;
        }
        proof {
            assert(positions@.take(n as int) =~= positions@);
            assert(tick_chain(g0, positions@, *self));
            if g0.no_stored_walls() {
                lemma_no_walls_preserved(g0, *self);
            }
        }
    }

    /// The sand brush: for every position within distance `radius` of the
    /// click (given in host coordinates, whose y-axis points down), paint a
    /// fresh sand cell over air. Non-air cells are never carved.
    pub fn click_at(&mut self, x: i32, y: i32, radius: i32, time: i32)
        requires
            old(self).wf(),
        ensures
            final(self).wf(),
            final(self).same_dims(*old(self)),
            forall|qx: int, qy: int|
                #![trigger final(self).cell_xy(qx, qy)]
                final(self).cell_xy(qx, qy) == (if old(self).in_bounds_xy(qx, qy) && brush_hits(
                    *old(self),
                    x as int,
                    y as int,
                    radius as int,
                    qx,
                    qy,
                ) && old(self).cell_xy(qx, qy).kind == Kind::Air {
                    sand_cell(time as int)
                } else {
                    old(self).cell_xy(qx, qy)
                }),
            old(self).no_stored_walls() ==> final(self).no_stored_walls(),
    {
        let ghost g0 = *self;
        let ghost cx = x as int;
        let ghost cy = y as int;
        let ghost r = radius as int;
        let mut gy: i32 = 0;
        while gy < self.grid_height
            invariant
                self.wf(),
                self.same_dims(g0),
                g0.wf(),
                cx == x as int,
                cy == y as int,
                r == radius as int,
                0 <= gy <= self.grid_height,
                forall|qx: int, qy: int|
                    #![trigger g0.cell_xy(qx, qy)]
                    self.cell_xy(qx, qy) == (if qy < gy && g0.in_bounds_xy(qx, qy) && brush_hits(
                        g0,
                        cx,
                        cy,
                        r,
                        qx,
                        qy,
                    ) && g0.cell_xy(qx, qy).kind == Kind::Air {
                        sand_cell(time as int)
                    } else {
                        g0.cell_xy(qx, qy)
                    }),
            decreases self.grid_height - gy,
        {
            let mut gx: i32 = 0;
            while gx < self.grid_width
                invariant
                    self.wf(),
                    self.same_dims(g0),
                    g0.wf(),
                    cx == x as int,
                    cy == y as int,
                    r == radius as int,
                    0 <= gy < self.grid_height,
                    0 <= gx <= self.grid_width,
                    forall|qx: int, qy: int|
                        #![trigger g0.cell_xy(qx, qy)]
                        self.cell_xy(qx, qy) == (if (qy < gy || (qy == gy && qx < gx))
                            && g0.in_bounds_xy(qx, qy) && brush_hits(g0, cx, cy, r, qx, qy)
                            && g0.cell_xy(qx, qy).kind == Kind::Air {
                            sand_cell(time as int)
                        } else {
                            g0.cell_xy(qx, qy)
                        }),
                decreases self.grid_width - gx,
            {
                let ghost sprev = *self;
                let host_y: i32 = self.grid_height - 1 - gy;
                let dx: i128 = (x as i128) - (gx as i128);
                let dy: i128 = (y as i128) - (host_y as i128);
                proof {
                    lemma_square_bound(dx as int, 0x1_0000_0000);
                    lemma_square_bound(dy as int, 0x1_0000_0000);
                    lemma_square_bound(radius as int, 0x8000_0000);
                    lemma_idx_bounds(g0.w(), g0.h(), gx as int, gy as int);
                    assert(sprev.cell_xy(gx as int, gy as int) == g0.cell_xy(gx as int, gy as int));
                }
                let rr: i128 = (radius as i128) * (radius as i128);
                let hit = dx * dx + dy * dy <= rr;
                proof {
                    assert(hit == brush_hits(g0, cx, cy, r, gx as int, gy as int));
                }
                if hit {
                    let p = Vector::new(gx, gy);
                    let c = self.get_cell(&p);
                    if c.kind == Kind::Air {
                        let sand = create_sand(time);
                        self.set_cell(&p, sand);
                    }
                }
                proof {
                    assert forall|qx: int, qy: int|
                        #![trigger g0.cell_xy(qx, qy)]
                        self.cell_xy(qx, qy) == (if (qy < gy || (qy == gy && qx < gx + 1))
                            && g0.in_bounds_xy(qx, qy) && brush_hits(g0, cx, cy, r, qx, qy)
                            && g0.cell_xy(qx, qy).kind == Kind::Air {
                            sand_cell(time as int)
                        } else {
                            g0.cell_xy(qx, qy)
                        }) by {
                        assert(sprev.cell_xy(qx, qy) == (if (qy < gy || (qy == gy && qx < gx))
                            && g0.in_bounds_xy(qx, qy) && brush_hits(g0, cx, cy, r, qx, qy)
                            && g0.cell_xy(qx, qy).kind == Kind::Air {
                            sand_cell(time as int)
                        } else {
                            g0.cell_xy(qx, qy)
                        }));
                        if g0.in_bounds_xy(qx, qy) {
                            lemma_idx_bounds(g0.w(), g0.h(), qx, qy);
                            if !(qx == gx as int && qy == gy as int) {
                                lemma_two_idx(g0, qx, qy, gx as int, gy as int);
                            }
                        }
                    };
                }
                gx += 1;
            }
            gy += 1;
        }
        proof {
            assert forall|qx: int, qy: int|
                #![trigger self.cell_xy(qx, qy)]
                self.cell_xy(qx, qy) == (if g0.in_bounds_xy(qx, qy) && brush_hits(
                    g0,
                    cx,
                    cy,
                    r,
                    qx,
                    qy,
                ) && g0.cell_xy(qx, qy).kind == Kind::Air {
                    sand_cell(time as int)
                } else {
                    g0.cell_xy(qx, qy)
                }) by {
                assert(self.cell_xy(qx, qy) == (if qy < self.h() && g0.in_bounds_xy(qx, qy)
                    && brush_hits(g0, cx, cy, r, qx, qy) && g0.cell_xy(qx, qy).kind == Kind::Air {
                    sand_cell(time as int)
                } else {
                    g0.cell_xy(qx, qy)
                }));
            };
            if g0.no_stored_walls() {
                assert forall|qx: int, qy: int| self.in_bounds_xy(qx, qy) implies (
                #[trigger] self.cell_xy(qx, qy)).kind != Kind::Wall by {
                    assert(g0.cell_xy(qx, qy).kind != Kind::Wall);
                };
            }
        }
    }

    /// Projects the grid onto a width-by-height RGBA buffer, flipping
    /// vertically so that the host's first row is the grid's top row. Every
    /// pixel carries its cell's colour and full alpha.
    pub fn draw(&self) -> (buf: Vec<u8>)
        requires
            self.wf(),
        ensures
            buf@.len() == 4 * (self.w() * self.h()),
            forall|x: int, y: int|
                #![trigger self.cell_xy(x, y)]
                self.in_bounds_xy(x, y) ==> {
                    &&& buf@[pixel_base(*self, x, y)] == self.cell_xy(x, y).color.r
                    &&& buf@[pixel_base(*self, x, y) + 1] == self.cell_xy(x, y).color.g
                    &&& buf@[pixel_base(*self, x, y) + 2] == self.cell_xy(x, y).color.b
                    &&& buf@[pixel_base(*self, x, y) + 3] == 255
                },
    {
        let total: usize = 4 * self.grid.len();
        let mut buf: Vec<u8> = Vec::new();
        while buf.len() < total
            invariant
                buf@.len() <= total,
            decreases total - buf@.len(),
        {
            buf.push(255);
        }
        let mut gy: i32 = 0;
        while gy < self.grid_height
            invariant
                self.wf(),
                buf@.len() == 4 * (self.w() * self.h()),
                0 <= gy <= self.grid_height,
                forall|x: int, y: int|
                    #![trigger self.cell_xy(x, y)]
                    self.in_bounds_xy(x, y) && y < gy ==> {
                        &&& buf@[pixel_base(*self, x, y)] == self.cell_xy(x, y).color.r
                        &&& buf@[pixel_base(*self, x, y) + 1] == self.cell_xy(x, y).color.g
                        &&& buf@[pixel_base(*self, x, y) + 2] == self.cell_xy(x, y).color.b
                        &&& buf@[pixel_base(*self, x, y) + 3] == 255
                    },
            decreases self.grid_height - gy,
        {
            let mut gx: i32 = 0;
            while gx < self.grid_width
                invariant
                    self.wf(),
                    buf@.len() == 4 * (self.w() * self.h()),
                    0 <= gy < self.grid_height,
                    0 <= gx <= self.grid_width,
                    forall|x: int, y: int|
                        #![trigger self.cell_xy(x, y)]
                        self.in_bounds_xy(x, y) && (y < gy || (y == gy && x < gx)) ==> {
                            &&& buf@[pixel_base(*self, x, y)] == self.cell_xy(x, y).color.r
                            &&& buf@[pixel_base(*self, x, y) + 1] == self.cell_xy(x, y).color.g
                            &&& buf@[pixel_base(*self, x, y) + 2] == self.cell_xy(x, y).color.b
                            &&& buf@[pixel_base(*self, x, y) + 3] == 255
                        },
                decreases self.grid_width - gx,
            {
                let p = Vector::new(gx, gy);
                let c = self.get_cell(&p);
                let row: usize = (self.grid_height - 1 - gy) as usize;
                proof {
                    lemma_idx_bounds(self.w(), self.h(), gx as int, self.h() - 1 - gy as int);
                }
                let base: usize = 4 * (row * (self.grid_width as usize) + (gx as usize));
                buf.set(base, c.color.r);
                buf.set(base + 1, c.color.g);
                buf.set(base + 2, c.color.b);
                buf.set(base + 3, 255);
                proof {
                    assert forall|x: int, y: int|
                        #![trigger self.cell_xy(x, y)]
                        self.in_bounds_xy(x, y) && (y < gy || (y == gy && x < gx + 1)) implies {
                        &&& buf@[pixel_base(*self, x, y)] == self.cell_xy(x, y).color.r
                        &&& buf@[pixel_base(*self, x, y) + 1] == self.cell_xy(x, y).color.g
                        &&& buf@[pixel_base(*self, x, y) + 2] == self.cell_xy(x, y).color.b
                        &&& buf@[pixel_base(*self, x, y) + 3] == 255
                    } by {
                        lemma_idx_bounds(self.w(), self.h(), x, self.h() - 1 - y);
                        if !(x == gx as int && y == gy as int) {
                            lemma_two_idx(
                                *self,
                                x,
                                self.h() - 1 - y,
                                gx as int,
                                self.h() - 1 - gy as int,
                            );
                        }
                    };
                }
                gx += 1;
            }
            gy += 1;
        }
        buf
    }
}

/// The brush covers a grid position iff the squared distance from the click
/// to the position's host coordinates (y-axis flipped) is at most the
/// squared radius.
pub open spec fn brush_hits(g: Game, cx: int, cy: int, r: int, px: int, py: int) -> bool {
    let hy = g.h() - 1 - py;
    (cx - px) * (cx - px) + (cy - hy) * (cy - hy) <= r * r
}

/// The first byte of a position's pixel in the RGBA buffer: the vertical
/// flip sends grid row `y` to raster row `h - 1 - y`.
pub open spec fn pixel_base(g: Game, x: int, y: int) -> int {
    4 * ((g.h() - 1 - y) * g.w() + x)
}

} // verus!
