//! The per-material update rules: one tick of local behaviour.
//!
//! Each rule carries two layers of contract. A per-position relation bounds
//! what a dispatch may do anywhere: walls always stand untouched, wood at
//! most ignites in place, and matter moves only by the exchanges the rule
//! is allowed, never outside a small ball around the dispatched position.
//! An outcome relation then pins the whole new grid: water's step is an
//! exact function of the grid; sand, fire and steam leave one of a few
//! named grids, with their deterministic parts - a spent flame dying, water
//! quenching fire, the ceiling drip, an unsupported grain falling - forced.
//! Randomised choices draw from the engine's stream; every contract holds
//! for every outcome.

use vstd::prelude::*;

use crate::cell::air_cell;
use crate::cell::create_air;
use crate::cell::create_fire;
use crate::cell::create_steam;
use crate::cell::create_water;
use crate::cell::fire_created;
use crate::cell::steam_created;
use crate::cell::water_created;
use crate::cell::Cell;
use crate::cell::Kind;
use crate::color::spec_from_hsl;
use crate::color::Color;
use crate::game::at_xy;
use crate::game::in_grid;
use crate::game::lemma_idx_bounds;
use crate::game::lemma_idx_injective;
use crate::game::swapped;
use crate::game::Game;
use crate::laws::lemma_swap_multiset;
use crate::rng::rng_bool;
use crate::rng::rng_i32;
use crate::rng::rng_u8;
use crate::vector::Vector;

verus! {

/// What one sand step may do to a single position: nothing, or take part in
/// an exchange of sand with air or water.
pub open spec fn sand_pair_ok(a: Cell, b: Cell) -> bool {
    ||| b == a
    ||| (a.kind == Kind::Sand && (b.kind == Kind::Air || b.kind == Kind::Water))
    ||| ((a.kind == Kind::Air || a.kind == Kind::Water) && b.kind == Kind::Sand)
}

/// What one water step may do to a single position: nothing, move or restyle
/// water, displace steam upward, or shuffle air cells while turning a
/// corner.
pub open spec fn water_pair_ok(a: Cell, b: Cell) -> bool {
    ||| b == a
    ||| (a.kind == Kind::Water && (b.kind == Kind::Water || b.kind == Kind::Air || b.kind
        == Kind::Steam))
    ||| ((a.kind == Kind::Air || a.kind == Kind::Steam) && b.kind == Kind::Water)
    ||| (a.kind == Kind::Air && b.kind == Kind::Air)
}

/// What one fire step may do to a single position: nothing, move or decay
/// fire through air, boil water to steam, ignite wood in place, or refresh
/// steam.
pub open spec fn fire_pair_ok(a: Cell, b: Cell) -> bool {
    ||| b == a
    ||| (a.kind == Kind::Fire && (b.kind == Kind::Fire || b.kind == Kind::Air))
    ||| (a.kind == Kind::Air && (b.kind == Kind::Fire || b.kind == Kind::Air))
    ||| (a.kind == Kind::Water && b.kind == Kind::Steam)
    ||| (a.kind == Kind::Wood && b.kind == Kind::Fire)
    ||| (a.kind == Kind::Steam && b.kind == Kind::Steam)
}

/// What one steam step may do to a single position: nothing, move, decay or
/// recondense steam, passing through air or flame.
pub open spec fn steam_pair_ok(a: Cell, b: Cell) -> bool {
    ||| b == a
    ||| (a.kind == Kind::Steam && (b.kind == Kind::Steam || b.kind == Kind::Water || b.kind
        == Kind::Air || b.kind == Kind::Fire))
    ||| ((a.kind == Kind::Air || a.kind == Kind::Fire) && b.kind == Kind::Steam)
}

/// What a single dispatch of the given material may do to a single
/// position. The inert materials (air, wall, wood) change nothing.
pub open spec fn step_ok(k: Kind, a: Cell, b: Cell) -> bool {
    match k {
        Kind::Air => b == a,
        Kind::Wall => b == a,
        Kind::Wood => b == a,
        Kind::Sand => sand_pair_ok(a, b),
        Kind::Water => water_pair_ok(a, b),
        Kind::Fire => fire_pair_ok(a, b),
        Kind::Steam => steam_pair_ok(a, b),
    }
}

/// Nothing outside the Chebyshev ball of radius `r` around `(px, py)`
/// changes between the two grids.
pub open spec fn local_to(pre: Game, post: Game, px: int, py: int, r: int) -> bool {
    forall|x: int, y: int|
        #![trigger post.cell_xy(x, y)]
        (x < px - r || x > px + r || y < py - r || y > py + r) ==> post.cell_xy(x, y)
            == pre.cell_xy(x, y)
}

/// Everything a sand dispatch at `(px, py)` can have done: nothing, an
/// exchange with the air or water cell directly below, or a diagonal slide
/// whose side and diagonal cells are both open (air or water).
pub open spec fn sand_outcome(pre: Game, post: Game, px: int, py: int) -> bool {
    ||| post.grid@ == pre.grid@
    ||| (pre.in_bounds_xy(px, py - 1) && (pre.cell_xy(px, py - 1).kind == Kind::Air || pre.cell_xy(
        px,
        py - 1,
    ).kind == Kind::Water) && post.grid@ == swapped(
        pre.grid@,
        pre.idx(px, py),
        pre.idx(px, py - 1),
    ))
    ||| exists|dx: int|
        #![trigger pre.cell_xy(px + dx, py - 1)]
        (dx == -1 || dx == 1) && (pre.cell_xy(px + dx, py).kind == Kind::Air || pre.cell_xy(
            px + dx,
            py,
        ).kind == Kind::Water) && pre.in_bounds_xy(px + dx, py - 1) && (pre.cell_xy(
            px + dx,
            py - 1,
        ).kind == Kind::Air || pre.cell_xy(px + dx, py - 1).kind == Kind::Water) && post.grid@
            == swapped(pre.grid@, pre.idx(px, py), pre.idx(px + dx, py - 1))
}

/// The grain at `(px, py)` has air below and air at both sides and both
/// lower diagonals: every draw moves such a grain.
pub open spec fn sand_unsupported(g: Game, px: int, py: int) -> bool {
    &&& g.cell_xy(px, py - 1).kind == Kind::Air
    &&& g.cell_xy(px - 1, py).kind == Kind::Air
    &&& g.cell_xy(px - 1, py - 1).kind == Kind::Air
    &&& g.cell_xy(px + 1, py).kind == Kind::Air
    &&& g.cell_xy(px + 1, py - 1).kind == Kind::Air
}

/// What a sand dispatch guarantees: one of the allowed outcomes, and never
/// the no-op when the grain is wholly unsupported.
pub open spec fn sand_step(pre: Game, post: Game, px: int, py: int) -> bool {
    &&& sand_outcome(pre, post, px, py)
    &&& (sand_unsupported(pre, px, py) ==> post.grid@ != pre.grid@)
}

/// The colour steam wears at a given remaining lifespan.
pub open spec fn steam_styling(data: u8) -> Color {
    let lf: int = if data > 100 {
        100
    } else {
        data as int
    };
    spec_from_hsl(
        195 + (lf * 10 + 50) / 100,
        10 + ((100 - lf) * 15 + 50) / 100,
        75 + (lf * 15 + 50) / 100,
    )
}

/// The steam cell decayed to the given lifespan and restyled for it.
pub open spec fn steam_styled(c: Cell, data: u8) -> Cell {
    Cell { kind: c.kind, color: steam_styling(data), data }
}

/// Where a surviving steam cell at `(px, py)` may stand after its move,
/// mirroring the rule's branch order: under a ceiling of steam or wall with
/// air below it always drips down; otherwise it may rise through air or
/// flame, move to a side of air, slip to an upper diagonal of air when that
/// side is shut, or stand still only when some direction is shut both ways.
pub open spec fn steam_move_allowed(pre: Game, px: int, py: int, dx: int, dy: int) -> bool {
    let ceiling = (pre.cell_xy(px, py + 1).kind == Kind::Steam || pre.cell_xy(px, py + 1).kind
        == Kind::Wall) && pre.cell_xy(px, py - 1).kind == Kind::Air;
    if dx == 0 && dy == -1 {
        ceiling
    } else if dx == 0 && dy == 1 {
        !ceiling && (pre.cell_xy(px, py + 1).kind == Kind::Air || pre.cell_xy(px, py + 1).kind
            == Kind::Fire)
    } else if (dx == -1 || dx == 1) && dy == 0 {
        !ceiling && pre.cell_xy(px + dx, py).kind == Kind::Air
    } else if (dx == -1 || dx == 1) && dy == 1 {
        !ceiling && pre.cell_xy(px + dx, py).kind != Kind::Air && pre.cell_xy(px + dx, py + 1).kind
            == Kind::Air
    } else if dx == 0 && dy == 0 {
        !ceiling && ((pre.cell_xy(px - 1, py).kind != Kind::Air && pre.cell_xy(px - 1, py + 1).kind
            != Kind::Air) || (pre.cell_xy(px + 1, py).kind != Kind::Air && pre.cell_xy(
            px + 1,
            py + 1,
        ).kind != Kind::Air))
    } else {
        false
    }
}

/// Everything a steam dispatch at `(px, py)` can have done, given the
/// snapshot `c` read there: recondense in place to some fresh water cell
/// (only while the lifespan is spent, and forced at zero), or decay by at
/// most one, restyle, and stand or exchange with one open neighbour as the
/// branch order allows.
pub open spec fn steam_outcome(pre: Game, post: Game, px: int, py: int, c: Cell) -> bool {
    ||| (c.data <= 1 && (exists|w: Cell|
        #[trigger] water_created(w) && post.grid@ == pre.grid@.update(pre.idx(px, py), w)))
    ||| (exists|data: u8, dx: int, dy: int|
        #![trigger steam_styled(c, data), pre.cell_xy(px + dx, py + dy)]
        {
            &&& (data == c.data || data + 1 == c.data)
            &&& 1 <= data
            &&& steam_move_allowed(pre, px, py, dx, dy)
            &&& ((dx == 0 && dy == 0 && post.grid@ == pre.grid@.update(
                pre.idx(px, py),
                steam_styled(c, data),
            )) || (!(dx == 0 && dy == 0) && pre.in_bounds_xy(px + dx, py + dy) && post.grid@
                == swapped(
                pre.grid@.update(pre.idx(px, py), steam_styled(c, data)),
                pre.idx(px, py),
                pre.idx(px + dx, py + dy),
            )))
        })
}

/// Introduces the recondensation case of `steam_outcome`.
proof fn lemma_steam_outcome_condense(pre: Game, post: Game, px: int, py: int, c: Cell, w: Cell)
    requires
        c.data <= 1,
        water_created(w),
        post.grid@ == pre.grid@.update(pre.idx(px, py), w),
    ensures
        steam_outcome(pre, post, px, py, c),
{
}

/// Introduces the decay-and-move case of `steam_outcome` from a concrete
/// lifespan and displacement.
proof fn lemma_steam_outcome_step(
    pre: Game,
    post: Game,
    px: int,
    py: int,
    c: Cell,
    data: u8,
    dx: int,
    dy: int,
)
    requires
        data == c.data || data + 1 == c.data,
        1 <= data,
        steam_move_allowed(pre, px, py, dx, dy),
        (dx == 0 && dy == 0 && post.grid@ == pre.grid@.update(
            pre.idx(px, py),
            steam_styled(c, data),
        )) || (!(dx == 0 && dy == 0) && pre.in_bounds_xy(px + dx, py + dy) && post.grid@
            == swapped(
            pre.grid@.update(pre.idx(px, py), steam_styled(c, data)),
            pre.idx(px, py),
            pre.idx(px + dx, py + dy),
        )),
    ensures
        steam_outcome(pre, post, px, py, c),
{
    let styled = steam_styled(c, data);
    let moved_into = pre.cell_xy(px + dx, py + dy);
    assert(styled == steam_styled(c, data) && moved_into == pre.cell_xy(px + dx, py + dy));
}

/// The colour fire wears at a given remaining lifespan.
pub open spec fn fire_styling(data: u8) -> Color {
    let lf: int = if data > 100 {
        100
    } else {
        data as int
    };
    spec_from_hsl(
        5 + (lf * 20 + 50) / 100,
        85 + (lf * 15 + 50) / 100,
        50 + (lf * 20 + 50) / 100,
    )
}

/// The fire cell decayed to the given lifespan and restyled for it.
pub open spec fn fire_styled(c: Cell, data: u8) -> Cell {
    Cell { kind: c.kind, color: fire_styling(data), data }
}

/// Where a surviving flame at `(px, py)` may stand after its move,
/// mirroring the rule's branch order: up through air; to a side of air only
/// when blocked above; in place only when blocked above and at some side.
pub open spec fn fire_move_allowed(pre: Game, px: int, py: int, dx: int, dy: int) -> bool {
    if dx == 0 && dy == 1 {
        pre.cell_xy(px, py + 1).kind == Kind::Air
    } else if (dx == -1 || dx == 1) && dy == 0 {
        pre.cell_xy(px, py + 1).kind != Kind::Air && pre.cell_xy(px + dx, py).kind == Kind::Air
    } else if dx == 0 && dy == 0 {
        pre.cell_xy(px, py + 1).kind != Kind::Air && (pre.cell_xy(px - 1, py).kind != Kind::Air
            || pre.cell_xy(px + 1, py).kind != Kind::Air)
    } else {
        false
    }
}

/// A chain of at most `n` sparks: each step overwrites one air cell within
/// a king's move of `(bx, by)` with a fresh fire cell.
pub open spec fn sparked(
    w: int,
    h: int,
    s: Seq<Cell>,
    t: Seq<Cell>,
    bx: int,
    by: int,
    n: nat,
) -> bool
    decreases n,
{
    ||| t == s
    ||| (n > 0 && (exists|sx: int, sy: int, f: Cell|
        #![trigger at_xy(w, h, s, sx, sy), fire_created(f)]
        bx - 1 <= sx <= bx + 1 && by - 1 <= sy <= by + 1 && in_grid(w, h, sx, sy) && at_xy(
            w,
            h,
            s,
            sx,
            sy,
        ).kind == Kind::Air && fire_created(f) && sparked(
            w,
            h,
            s.update(sy * w + sx, f),
            t,
            bx,
            by,
            (n - 1) as nat,
        )))
}

/// What burning the cell at `(bx, by)` does, with the flame at `(fx, fy)`,
/// over raw `w` by `h` cell buffers: water may boil to steam and always
/// quenches the flame; wood may ignite and scatters up to three sparks into
/// nearby air; steam is refreshed in place; anything else - air, walls,
/// sand, flame, and every out-of-bounds target - is left exactly as it was.
pub open spec fn burn_outcome(
    w: int,
    h: int,
    pre: Seq<Cell>,
    post: Seq<Cell>,
    bx: int,
    by: int,
    fx: int,
    fy: int,
) -> bool {
    let target = at_xy(w, h, pre, bx, by);
    if target.kind == Kind::Water {
        ||| post == pre.update(fy * w + fx, air_cell())
        ||| (exists|st: Cell|
            #[trigger] steam_created(st) && post == pre.update(by * w + bx, st).update(
                fy * w + fx,
                air_cell(),
            ))
    } else if target.kind == Kind::Wood {
        exists|s1: Seq<Cell>|
            #![trigger sparked(w, h, s1, post, bx, by, 3)]
            (s1 == pre || (exists|f: Cell|
                #[trigger] fire_created(f) && s1 == pre.update(by * w + bx, f))) && sparked(
                w,
                h,
                s1,
                post,
                bx,
                by,
                3,
            )
    } else if target.kind == Kind::Steam {
        exists|st: Cell| #[trigger] steam_created(st) && post == pre.update(by * w + bx, st)
    } else {
        post == pre
    }
}

/// Everything a fire dispatch at `(px, py)` can have done, given the
/// snapshot `c`: die to the canonical air cell in place (possible only
/// while the lifespan is at most the fast decay), or decay by one or five,
/// restyle, move as the branch order allows, and then burn one cell within
/// a king's move of its new position.
pub open spec fn fire_outcome(pre: Game, post: Game, px: int, py: int, c: Cell) -> bool {
    ||| (c.data <= 5 && post.grid@ == pre.grid@.update(pre.idx(px, py), air_cell()))
    ||| (exists|data: u8, dx: int, dy: int, bx: int, by: int|
        #![trigger fire_styled(c, data), pre.cell_xy(px + dx, py + dy), pre.cell_xy(bx, by)]
        {
            &&& (data + 1 == c.data || data + 5 == c.data)
            &&& 1 <= data
            &&& fire_move_allowed(pre, px, py, dx, dy)
            &&& px + dx - 1 <= bx <= px + dx + 1
            &&& py + dy - 1 <= by <= py + dy + 1
            &&& ((dx == 0 && dy == 0 && burn_outcome(
                pre.w(),
                pre.h(),
                pre.grid@.update(pre.idx(px, py), fire_styled(c, data)),
                post.grid@,
                bx,
                by,
                px + dx,
                py + dy,
            )) || (!(dx == 0 && dy == 0) && pre.in_bounds_xy(px + dx, py + dy) && burn_outcome(
                pre.w(),
                pre.h(),
                swapped(
                    pre.grid@.update(pre.idx(px, py), fire_styled(c, data)),
                    pre.idx(px, py),
                    pre.idx(px + dx, py + dy),
                ),
                post.grid@,
                bx,
                by,
                px + dx,
                py + dy,
            )))
        })
}

/// Introduces the decay-move-burn case of `fire_outcome` from concrete
/// witnesses.
proof fn lemma_fire_outcome_step(
    pre: Game,
    post: Game,
    px: int,
    py: int,
    c: Cell,
    data: u8,
    dx: int,
    dy: int,
    bx: int,
    by: int,
)
    requires
        data + 1 == c.data || data + 5 == c.data,
        1 <= data,
        fire_move_allowed(pre, px, py, dx, dy),
        px + dx - 1 <= bx <= px + dx + 1,
        py + dy - 1 <= by <= py + dy + 1,
        (dx == 0 && dy == 0 && burn_outcome(
            pre.w(),
            pre.h(),
            pre.grid@.update(pre.idx(px, py), fire_styled(c, data)),
            post.grid@,
            bx,
            by,
            px + dx,
            py + dy,
        )) || (!(dx == 0 && dy == 0) && pre.in_bounds_xy(px + dx, py + dy) && burn_outcome(
            pre.w(),
            pre.h(),
            swapped(
                pre.grid@.update(pre.idx(px, py), fire_styled(c, data)),
                pre.idx(px, py),
                pre.idx(px + dx, py + dy),
            ),
            post.grid@,
            bx,
            by,
            px + dx,
            py + dy,
        )),
    ensures
        fire_outcome(pre, post, px, py, c),
{
    let styled = fire_styled(c, data);
    let moved_into = pre.cell_xy(px + dx, py + dy);
    let burned = pre.cell_xy(bx, by);
    assert(styled == fire_styled(c, data) && moved_into == pre.cell_xy(px + dx, py + dy) && burned
        == pre.cell_xy(bx, by));
}

/// A spark chain allows one more step than it used.
proof fn lemma_sparked_mono(w: int, h: int, s: Seq<Cell>, t: Seq<Cell>, bx: int, by: int, n: nat)
    requires
        sparked(w, h, s, t, bx, by, n),
    ensures
        sparked(w, h, s, t, bx, by, n + 1),
    decreases n,
{
    if t == s {
    } else {
        let (sx, sy, f) = choose|sx: int, sy: int, f: Cell|
            #![trigger at_xy(w, h, s, sx, sy), fire_created(f)]
            bx - 1 <= sx <= bx + 1 && by - 1 <= sy <= by + 1 && in_grid(w, h, sx, sy) && at_xy(
                w,
                h,
                s,
                sx,
                sy,
            ).kind == Kind::Air && fire_created(f) && sparked(
                w,
                h,
                s.update(sy * w + sx, f),
                t,
                bx,
                by,
                (n - 1) as nat,
            );
        lemma_sparked_mono(w, h, s.update(sy * w + sx, f), t, bx, by, (n - 1) as nat);
    }
}

/// Appending one more spark at the end of a chain.
proof fn lemma_sparked_snoc(
    w: int,
    h: int,
    s: Seq<Cell>,
    t: Seq<Cell>,
    bx: int,
    by: int,
    n: nat,
    sx: int,
    sy: int,
    f: Cell,
)
    requires
        sparked(w, h, s, t, bx, by, n),
        bx - 1 <= sx <= bx + 1,
        by - 1 <= sy <= by + 1,
        in_grid(w, h, sx, sy),
        at_xy(w, h, t, sx, sy).kind == Kind::Air,
        fire_created(f),
    ensures
        sparked(w, h, s, t.update(sy * w + sx, f), bx, by, n + 1),
    decreases n,
{
    if t == s {
        assert(sparked(w, h, t.update(sy * w + sx, f), t.update(sy * w + sx, f), bx, by, n));
    } else {
        let (qx, qy, g) = choose|qx: int, qy: int, g: Cell|
            #![trigger at_xy(w, h, s, qx, qy), fire_created(g)]
            bx - 1 <= qx <= bx + 1 && by - 1 <= qy <= by + 1 && in_grid(w, h, qx, qy) && at_xy(
                w,
                h,
                s,
                qx,
                qy,
            ).kind == Kind::Air && fire_created(g) && sparked(
                w,
                h,
                s.update(qy * w + qx, g),
                t,
                bx,
                by,
                (n - 1) as nat,
            );
        lemma_sparked_snoc(w, h, s.update(qy * w + qx, g), t, bx, by, (n - 1) as nat, sx, sy, f);
    }
}

/// What one scheduler dispatch at `(px, py)` guarantees, by the material
/// standing there when it is read. Air, wall and wood are inert.
pub open spec fn dispatch_outcome(pre: Game, post: Game, px: int, py: int) -> bool {
    &&& post.same_dims(pre)
    &&& match pre.cell_xy(px, py).kind {
        Kind::Air => post.grid@ == pre.grid@,
        Kind::Wall => post.grid@ == pre.grid@,
        Kind::Wood => post.grid@ == pre.grid@,
        Kind::Sand => sand_step(pre, post, px, py),
        Kind::Water => post.grid@ == water_step(pre, px, py, pre.cell_xy(px, py)),
        Kind::Fire => fire_outcome(pre, post, px, py, pre.cell_xy(px, py)),
        Kind::Steam => steam_outcome(pre, post, px, py, pre.cell_xy(px, py)),
    }
}

/// One dispatch of the chain, at the given position.
pub open spec fn chain_step(mid: Game, post: Game, p: Vector) -> bool {
    dispatch_outcome(mid, post, p.x as int, p.y as int)
}

/// The whole tick as a chain: the final grid is reached from the first by
/// one dispatch per listed position, in order, each step meeting the
/// outcome of whatever material stands at that position at its turn.
pub open spec fn tick_chain(pre: Game, ps: Seq<Vector>, post: Game) -> bool
    decreases ps.len(),
{
    if ps.len() == 0 {
        post.same_dims(pre) && post.grid@ == pre.grid@
    } else {
        exists|mid: Game|
            #![trigger chain_step(mid, post, ps.last())]
            tick_chain(pre, ps.drop_last(), mid) && chain_step(mid, post, ps.last())
    }
}

/// Extends a tick chain by one more dispatch.
pub proof fn lemma_tick_chain_snoc(pre: Game, ps: Seq<Vector>, mid: Game, post: Game, p: Vector)
    requires
        tick_chain(pre, ps, mid),
        dispatch_outcome(mid, post, p.x as int, p.y as int),
    ensures
        tick_chain(pre, ps.push(p), post),
{
    assert(ps.push(p).drop_last() =~= ps);
    assert(ps.push(p).last() == p);
    assert(tick_chain(pre, ps.push(p).drop_last(), mid));
    assert(chain_step(mid, post, ps.push(p).last()));
    assert(tick_chain(pre, ps.push(p), post));
}

/// Distinct in-bounds positions have distinct buffer indices, both in range.
pub proof fn lemma_two_idx(g: Game, ax: int, ay: int, bx: int, by: int)
    requires
        g.wf(),
        g.in_bounds_xy(ax, ay),
        g.in_bounds_xy(bx, by),
        !(ax == bx && ay == by),
    ensures
        g.idx(ax, ay) != g.idx(bx, by),
        0 <= g.idx(ax, ay) < g.grid@.len(),
        0 <= g.idx(bx, by) < g.grid@.len(),
{
    lemma_idx_bounds(g.w(), g.h(), ax, ay);
    lemma_idx_bounds(g.w(), g.h(), bx, by);
    if g.idx(ax, ay) == g.idx(bx, by) {
        lemma_idx_injective(g.w(), ax, ay, bx, by);
    }
}

impl Kind {
    /// Runs one tick of this material's behaviour at `position`, where
    /// `cell` is the value-copy read from the grid there before the call.
    /// The contract bounds what the dispatch may do to each position.
    pub fn update(&self, cell: &Cell, position: &Vector, grid: &mut Game)
        requires
            old(grid).wf(),
            old(grid).cell_at(*position) == *cell,
            cell.kind == *self,
        ensures
            final(grid).wf(),
            final(grid).same_dims(*old(grid)),
            forall|x: int, y: int|
                #![trigger final(grid).cell_xy(x, y)]
                step_ok(*self, old(grid).cell_xy(x, y), final(grid).cell_xy(x, y)),
            local_to(*old(grid), *final(grid), px_of(*position), py_of(*position), 3),
            dispatch_outcome(*old(grid), *final(grid), px_of(*position), py_of(*position)),
    {
        match self {
            Kind::Sand => update_sand(cell, position, grid),
            Kind::Water => update_water(cell, position, grid),
            Kind::Fire => update_fire(cell, position, grid),
            Kind::Wood => {
            },
            Kind::Steam => update_steam(cell, position, grid),
            _ => {
            },
        }
    }
}

/// Sand mostly falls straight down, sinking through water half the time;
/// otherwise it tries one diagonal slide towards a random side. It only
/// ever exchanges itself with air or water, so the multiset of cells is
/// preserved exactly.
#[verifier::rlimit(100)]
pub(crate) fn update_sand(_cell: &Cell, position: &Vector, grid: &mut Game)
    requires
        old(grid).wf(),
        old(grid).cell_at(*position).kind == Kind::Sand,
    ensures
        final(grid).wf(),
        final(grid).same_dims(*old(grid)),
        forall|x: int, y: int|
            #![trigger final(grid).cell_xy(x, y)]
            step_ok(Kind::Sand, old(grid).cell_xy(x, y), final(grid).cell_xy(x, y)),
        final(grid).grid@.to_multiset() == old(grid).grid@.to_multiset(),
        sand_step(*old(grid), *final(grid), px_of(*position), py_of(*position)),
        local_to(*old(grid), *final(grid), px_of(*position), py_of(*position), 1),
{
    let ghost g0 = *grid;
    let ghost px = position.x as int;
    let ghost py = position.y as int;

    if rng_u8(&mut grid.rng, 0, 15) > 0 {
        let below_position = position.offset(0, -1);
        let mut should_fall = false;
        if grid.is_type(&below_position, [Kind::Air]) {
            should_fall = true;
        } else if grid.is_type(&below_position, [Kind::Water]) {
            should_fall = rng_bool(&mut grid.rng);
        }
        if should_fall {
            grid.swap_cells(position, &below_position);
            proof {
                lemma_two_idx(g0, px, py, px, py - 1);
                assert forall|x: int, y: int|
                    step_ok(Kind::Sand, g0.cell_xy(x, y), grid.cell_xy(x, y)) && ((x < px - 1 || x
                        > px + 1 || y < py - 1 || y > py + 1) ==> grid.cell_xy(x, y) == g0.cell_xy(
                        x,
                        y,
                    )) by {
                    if g0.in_bounds_xy(x, y) {
                        lemma_idx_bounds(g0.w(), g0.h(), x, y);
                        if x < px - 1 || x > px + 1 || y < py - 1 || y > py + 1 {
                            lemma_two_idx(g0, x, y, px, py);
                            lemma_two_idx(g0, x, y, px, py - 1);
                        }
                    }
                };
                lemma_swap_multiset(g0.grid@, g0.idx(px, py), g0.idx(px, py - 1));
                assert(grid.grid@[g0.idx(px, py)].kind != Kind::Sand);
                assert(g0.grid@[g0.idx(px, py)].kind == Kind::Sand);
                assert(grid.grid@ != g0.grid@);
            }
            return ;
        }
    }
    let direction: i32 = if rng_bool(&mut grid.rng) {
        -1
    } else {
        1
    };
    let side_position = position.offset(direction, 0);
    let below_position = position.offset(direction, -1);
    let mut should_move = false;
    if grid.is_type(&below_position, [Kind::Air]) && grid.is_type(&side_position, [Kind::Air]) {
        should_move = true;
    } else if grid.is_type(&below_position, [Kind::Water, Kind::Air]) && grid.is_type(
        &side_position,
        [Kind::Water, Kind::Air],
    ) {
        should_move = rng_bool(&mut grid.rng);
    }
    if should_move {
        grid.swap_cells(position, &below_position);
        proof {
            let d = direction as int;
            lemma_two_idx(g0, px, py, px + d, py - 1);
            assert forall|x: int, y: int|
                step_ok(Kind::Sand, g0.cell_xy(x, y), grid.cell_xy(x, y)) && ((x < px - 1 || x > px
                    + 1 || y < py - 1 || y > py + 1) ==> grid.cell_xy(x, y) == g0.cell_xy(
                    x,
                    y,
                )) by {
                if g0.in_bounds_xy(x, y) {
                    lemma_idx_bounds(g0.w(), g0.h(), x, y);
                    if x < px - 1 || x > px + 1 || y < py - 1 || y > py + 1 {
                        lemma_two_idx(g0, x, y, px, py);
                        lemma_two_idx(g0, x, y, px + d, py - 1);
                    }
                }
            };
            lemma_swap_multiset(g0.grid@, g0.idx(px, py), g0.idx(px + d, py - 1));
            assert(g0.cell_xy(px + d, py - 1).kind == Kind::Air || g0.cell_xy(px + d, py - 1).kind
                == Kind::Water);
            assert(g0.cell_xy(px + d, py).kind == Kind::Air || g0.cell_xy(px + d, py).kind
                == Kind::Water);
            assert(grid.grid@[g0.idx(px, py)].kind != Kind::Sand);
            assert(g0.grid@[g0.idx(px, py)].kind == Kind::Sand);
            assert(grid.grid@ != g0.grid@);
        }
    } else {
        proof {
            assert(!sand_unsupported(g0, px, py));
        }
    }
}

/// The x coordinate of a position, as a mathematical integer.
pub open spec fn px_of(p: Vector) -> int {
    p.x as int
}

/// The y coordinate of a position, as a mathematical integer.
pub open spec fn py_of(p: Vector) -> int {
    p.y as int
}

/// The water cell with its blue channel rotated one step in the band.
pub open spec fn rotated_water(c: Cell) -> Cell {
    Cell {
        kind: c.kind,
        color: Color { r: c.color.r, g: c.color.g, b: spec_rotate_blue(c.color.b) },
        data: c.data,
    }
}

/// The water cell with its flow-direction bit flipped.
pub open spec fn flipped_water(c: Cell) -> Cell {
    Cell { kind: c.kind, color: c.color, data: c.data ^ 1 }
}

/// The exact grid a water dispatch at `(px, py)` leaves behind, given the
/// snapshot `c` read there: water draws nothing from the random stream, so
/// its step is a function of the grid alone. Falling flips the direction
/// bit and exchanges with the cell below; flowing exchanges with the
/// preferred side and turns the corner into an open column below it; a
/// blocked cell merely flips its preference (losing that tick's blue
/// rotation, as the flip writes the snapshot back).
pub open spec fn water_step(g: Game, px: int, py: int, c: Cell) -> Seq<Cell> {
    let ip = g.idx(px, py);
    let below = g.cell_xy(px, py - 1);
    if below.kind == Kind::Air || below.kind == Kind::Steam {
        swapped(g.grid@.update(ip, flipped_water(c)), ip, g.idx(px, py - 1))
    } else {
        let d: int = if c.data == 0 {
            -1
        } else {
            1
        };
        let side = g.cell_xy(px + d, py);
        if side.kind == Kind::Air || side.kind == Kind::Water {
            let s2 = swapped(g.grid@.update(ip, rotated_water(c)), ip, g.idx(px + d, py));
            if g.cell_xy(px + d, py - 1).kind == Kind::Air {
                swapped(s2, g.idx(px + d, py), g.idx(px + d, py - 1))
            } else {
                s2
            }
        } else {
            g.grid@.update(ip, flipped_water(c))
        }
    }
}

/// Water falls through air or steam (displacing steam upward), otherwise
/// flows towards its preferred side, turning a corner downward when one
/// opens; a blocked cell flips its preference for the next tick.
#[verifier::rlimit(100)]
pub(crate) fn update_water(cell: &Cell, position: &Vector, grid: &mut Game)
    requires
        old(grid).wf(),
        old(grid).cell_at(*position) == *cell,
        cell.kind == Kind::Water,
    ensures
        final(grid).wf(),
        final(grid).same_dims(*old(grid)),
        forall|x: int, y: int|
            #![trigger final(grid).cell_xy(x, y)]
            step_ok(Kind::Water, old(grid).cell_xy(x, y), final(grid).cell_xy(x, y)),
        local_to(*old(grid), *final(grid), px_of(*position), py_of(*position), 1),
        final(grid).grid@ == water_step(
            *old(grid),
            px_of(*position),
            py_of(*position),
            *cell,
        ),
{
    let ghost g0 = *grid;
    let ghost px = position.x as int;
    let ghost py = position.y as int;

    let mut new_cell = *cell;
    new_cell.color.b = rotate_blue(new_cell.color.b);
    grid.set_cell(position, new_cell);
    proof {
        lemma_idx_bounds(g0.w(), g0.h(), px, py);
        if g0.in_bounds_xy(px, py - 1) {
            lemma_two_idx(g0, px, py, px, py - 1);
        }
    }

    let below_position = position.offset(0, -1);
    if grid.is_type(&below_position, [Kind::Air, Kind::Steam]) {
        let mut flipped = *cell;
        flipped.data = cell.data ^ 1;
        grid.set_cell(position, flipped);
        grid.swap_cells(position, &below_position);
        proof {
            lemma_two_idx(g0, px, py, px, py - 1);
            assert forall|x: int, y: int|
                step_ok(Kind::Water, g0.cell_xy(x, y), grid.cell_xy(x, y)) && ((x < px - 1 || x
                    > px + 1 || y < py - 1 || y > py + 1) ==> grid.cell_xy(x, y) == g0.cell_xy(
                    x,
                    y,
                )) by {
                if g0.in_bounds_xy(x, y) {
                    lemma_idx_bounds(g0.w(), g0.h(), x, y);
                    if x < px - 1 || x > px + 1 || y < py - 1 || y > py + 1 {
                        lemma_two_idx(g0, x, y, px, py);
                        lemma_two_idx(g0, x, y, px, py - 1);
                    }
                }
            };
        }
        return ;
    }
    let direction: i32 = if cell.data == 0 {
        -1
    } else {
        1
    };
    let side_position = position.offset(direction, 0);
    proof {
        if g0.in_bounds_xy(px + direction as int, py) {
            lemma_two_idx(g0, px, py, px + direction as int, py);
        }
    }
    if grid.is_type(&side_position, [Kind::Air, Kind::Water]) {
        grid.swap_cells(position, &side_position);
        proof {
            let d = direction as int;
            lemma_two_idx(g0, px, py, px + d, py);
            if g0.in_bounds_xy(px + d, py - 1) {
                lemma_two_idx(g0, px + d, py - 1, px, py);
                lemma_two_idx(g0, px + d, py - 1, px + d, py);
            }
        }
        let below_side = side_position.offset(0, -1);
        if grid.is_type(&below_side, [Kind::Air]) {
            grid.swap_cells(&side_position, &below_side);
            proof {
                let d = direction as int;
                lemma_two_idx(g0, px, py, px + d, py - 1);
                lemma_two_idx(g0, px + d, py, px + d, py - 1);
                assert forall|x: int, y: int|
                    step_ok(Kind::Water, g0.cell_xy(x, y), grid.cell_xy(x, y)) && ((x < px - 1
                        || x > px + 1 || y < py - 1 || y > py + 1) ==> grid.cell_xy(x, y)
                        == g0.cell_xy(x, y)) by {
                    if g0.in_bounds_xy(x, y) {
                        lemma_idx_bounds(g0.w(), g0.h(), x, y);
                        if x < px - 1 || x > px + 1 || y < py - 1 || y > py + 1 {
                            lemma_two_idx(g0, x, y, px, py);
                            lemma_two_idx(g0, x, y, px + d, py);
                            lemma_two_idx(g0, x, y, px + d, py - 1);
                        }
                    }
                };
                assert(grid.grid@ =~= water_step(g0, px, py, *cell));
            }
            return ;
        }
        proof {
            let d = direction as int;
            assert forall|x: int, y: int|
                step_ok(Kind::Water, g0.cell_xy(x, y), grid.cell_xy(x, y)) && ((x < px - 1 || x
                    > px + 1 || y < py - 1 || y > py + 1) ==> grid.cell_xy(x, y) == g0.cell_xy(
                    x,
                    y,
                )) by {
                if g0.in_bounds_xy(x, y) {
                    lemma_idx_bounds(g0.w(), g0.h(), x, y);
                    if x < px - 1 || x > px + 1 || y < py - 1 || y > py + 1 {
                        lemma_two_idx(g0, x, y, px, py);
                        lemma_two_idx(g0, x, y, px + d, py);
                    }
                }
            };
            assert(grid.grid@ =~= water_step(g0, px, py, *cell));
        }
        return ;
    } else {
        let mut flipped = *cell;
        flipped.data = cell.data ^ 1;
        grid.set_cell(position, flipped);
        proof {
            assert forall|x: int, y: int|
                step_ok(Kind::Water, g0.cell_xy(x, y), grid.cell_xy(x, y)) && ((x < px - 1 || x
                    > px + 1 || y < py - 1 || y > py + 1) ==> grid.cell_xy(x, y) == g0.cell_xy(
                    x,
                    y,
                )) by {
                if g0.in_bounds_xy(x, y) {
                    lemma_idx_bounds(g0.w(), g0.h(), x, y);
                    if x < px - 1 || x > px + 1 || y < py - 1 || y > py + 1 {
                        lemma_two_idx(g0, x, y, px, py);
                    }
                }
            };
            assert(grid.grid@ =~= water_step(g0, px, py, *cell));
        }
    }
}

/// What the move phase of one fire step may do to a single position:
/// nothing, decay the flame in place, or exchange it with air.
pub open spec fn fire_move_ok(a: Cell, b: Cell) -> bool {
    ||| b == a
    ||| (a.kind == Kind::Fire && (b.kind == Kind::Fire || b.kind == Kind::Air))
    ||| (a.kind == Kind::Air && b.kind == Kind::Fire)
}

/// Composes the move phase and the burn phase of one fire dispatch: every
/// position satisfies the fire step relation, and nothing outside the
/// radius-three ball around the dispatched position changes.
#[verifier::rlimit(100)]
proof fn lemma_fire_compose(
    pre: Game,
    mid: Game,
    post: Game,
    px: int,
    py: int,
    tx: int,
    ty: int,
    mx: int,
    my: int,
)
    requires
        forall|x: int, y: int|
            #![trigger mid.cell_xy(x, y)]
            fire_move_ok(pre.cell_xy(x, y), mid.cell_xy(x, y)),
        forall|x: int, y: int|
            #![trigger mid.cell_xy(x, y)]
            (x < px - 1 || x > px + 1 || y < py - 1 || y > py + 1) ==> mid.cell_xy(x, y)
                == pre.cell_xy(x, y),
        forall|x: int, y: int|
            #![trigger post.cell_xy(x, y)]
            fire_pair_ok(mid.cell_xy(x, y), post.cell_xy(x, y)),
        forall|x: int, y: int|
            #![trigger post.cell_xy(x, y)]
            ((x < tx - 1 || x > tx + 1 || y < ty - 1 || y > ty + 1) && !(x == mx && y == my))
                ==> post.cell_xy(x, y) == mid.cell_xy(x, y),
        px - 1 <= mx <= px + 1,
        py - 1 <= my <= py + 1,
        mx - 1 <= tx <= mx + 1,
        my - 1 <= ty <= my + 1,
    ensures
        forall|x: int, y: int|
            #![trigger post.cell_xy(x, y)]
            step_ok(Kind::Fire, pre.cell_xy(x, y), post.cell_xy(x, y)),
        local_to(pre, post, px, py, 3),
{
    assert forall|x: int, y: int|
        #![trigger post.cell_xy(x, y)]
        step_ok(Kind::Fire, pre.cell_xy(x, y), post.cell_xy(x, y)) && ((x < px - 3 || x > px + 3
            || y < py - 3 || y > py + 3) ==> post.cell_xy(x, y) == pre.cell_xy(x, y)) by {
        assert(fire_move_ok(pre.cell_xy(x, y), mid.cell_xy(x, y)));
        assert(fire_pair_ok(mid.cell_xy(x, y), post.cell_xy(x, y)));
        if x < px - 3 || x > px + 3 || y < py - 3 || y > py + 3 {
            assert(mid.cell_xy(x, y) == pre.cell_xy(x, y));
            assert(x < tx - 1 || x > tx + 1 || y < ty - 1 || y > ty + 1);
            assert(!(x == mx && y == my));
            assert(post.cell_xy(x, y) == mid.cell_xy(x, y));
        }
    };
}

/// Fire decays (fast more often than slow) and dies to air when spent;
/// otherwise it recolours by remaining lifespan, drifts up or sideways
/// through air, and then tries to burn one random neighbour of wherever it
/// now stands.
#[verifier::rlimit(100)]
pub(crate) fn update_fire(cell: &Cell, position: &Vector, grid: &mut Game)
    requires
        old(grid).wf(),
        old(grid).cell_at(*position) == *cell,
        cell.kind == Kind::Fire,
    ensures
        final(grid).wf(),
        final(grid).same_dims(*old(grid)),
        forall|x: int, y: int|
            #![trigger final(grid).cell_xy(x, y)]
            step_ok(Kind::Fire, old(grid).cell_xy(x, y), final(grid).cell_xy(x, y)),
        local_to(*old(grid), *final(grid), px_of(*position), py_of(*position), 3),
        cell.data <= 1 ==> final(grid).grid@ == old(grid).grid@.update(
            old(grid).idx(px_of(*position), py_of(*position)),
            air_cell(),
        ),
        fire_outcome(*old(grid), *final(grid), px_of(*position), py_of(*position), *cell),
{
    let ghost g0 = *grid;
    let ghost px = position.x as int;
    let ghost py = position.y as int;

    let mut new_cell = *cell;
    let decay_rate: u8 = if rng_u8(&mut grid.rng, 0, 5) < 3 {
        5
    } else {
        1
    };
    if new_cell.data > decay_rate {
        new_cell.data = new_cell.data - decay_rate;
    } else {
        let a = create_air();
        grid.set_cell(position, a);
        proof {
            lemma_idx_bounds(g0.w(), g0.h(), px, py);
            assert(grid.grid@ == g0.grid@.update(g0.idx(px, py), air_cell()));
            assert forall|x: int, y: int|
                step_ok(Kind::Fire, g0.cell_xy(x, y), grid.cell_xy(x, y)) && ((x < px - 3 || x
                    > px + 3 || y < py - 3 || y > py + 3) ==> grid.cell_xy(x, y) == g0.cell_xy(
                    x,
                    y,
                )) by {
                if g0.in_bounds_xy(x, y) {
                    lemma_idx_bounds(g0.w(), g0.h(), x, y);
                    if x < px - 3 || x > px + 3 || y < py - 3 || y > py + 3 {
                        lemma_two_idx(g0, x, y, px, py);
                    }
                }
            };
        }
        return ;
    }
    let ghost nd = new_cell.data;
    let lifespan: u32 = if new_cell.data > 100 {
        100
    } else {
        new_cell.data as u32
    };
    let hue: u16 = (5 + (lifespan * 20 + 50) / 100) as u16;
    let saturation: u8 = (85 + (lifespan * 15 + 50) / 100) as u8;
    let lightness: u8 = (50 + (lifespan * 20 + 50) / 100) as u8;
    new_cell.color = Color::from_hsl(hue, saturation, lightness);
    grid.set_cell(position, new_cell);
    proof {
        lemma_idx_bounds(g0.w(), g0.h(), px, py);
        assert(new_cell == fire_styled(*cell, nd));
        if g0.in_bounds_xy(px, py + 1) {
            lemma_two_idx(g0, px, py, px, py + 1);
        }
        if g0.in_bounds_xy(px - 1, py) {
            lemma_two_idx(g0, px, py, px - 1, py);
        }
        if g0.in_bounds_xy(px + 1, py) {
            lemma_two_idx(g0, px, py, px + 1, py);
        }
    }

    let above_position = position.offset(0, 1);
    let direction: i32 = if rng_bool(&mut grid.rng) {
        -1
    } else {
        1
    };
    let diagonal_position = position.offset(direction, 0);
    let mut fire_position = *position;
    let ghost mut mdx: int = 0;
    let ghost mut mdy: int = 0;
    if grid.is_type(&above_position, [Kind::Air]) {
        grid.swap_cells(position, &above_position);
        fire_position = above_position;
        proof {
            mdx = 0;
            mdy = 1;
            lemma_two_idx(g0, px, py, px, py + 1);
            assert(fire_move_allowed(g0, px, py, 0, 1));
            assert(grid.grid@ == swapped(
                g0.grid@.update(g0.idx(px, py), fire_styled(*cell, nd)),
                g0.idx(px, py),
                g0.idx(px + 0, py + 1),
            ));
        }
    } else if grid.is_type(&diagonal_position, [Kind::Air]) {
        grid.swap_cells(position, &diagonal_position);
        fire_position = diagonal_position;
        proof {
            mdx = direction as int;
            mdy = 0;
            lemma_two_idx(g0, px, py, px + direction as int, py);
            assert(fire_move_allowed(g0, px, py, direction as int, 0));
            assert(grid.grid@ == swapped(
                g0.grid@.update(g0.idx(px, py), fire_styled(*cell, nd)),
                g0.idx(px, py),
                g0.idx(px + direction as int, py + 0),
            ));
        }
    } else {
        proof {
            assert(fire_move_allowed(g0, px, py, 0, 0));
            assert(grid.grid@ == g0.grid@.update(g0.idx(px, py), fire_styled(*cell, nd)));
        }
    }
    let ghost g2 = *grid;
    proof {
        let d = direction as int;
        assert forall|x: int, y: int|
            #![trigger g2.cell_xy(x, y)]
            fire_move_ok(g0.cell_xy(x, y), g2.cell_xy(x, y)) && ((x < px - 1 || x > px + 1 || y
                < py - 1 || y > py + 1) ==> g2.cell_xy(x, y) == g0.cell_xy(x, y)) by {
            if g0.in_bounds_xy(x, y) {
                lemma_idx_bounds(g0.w(), g0.h(), x, y);
                if x < px - 1 || x > px + 1 || y < py - 1 || y > py + 1 {
                    lemma_two_idx(g0, x, y, px, py);
                    if g0.in_bounds_xy(px, py + 1) {
                        lemma_two_idx(g0, x, y, px, py + 1);
                    }
                    if g0.in_bounds_xy(px + d, py) {
                        lemma_two_idx(g0, x, y, px + d, py);
                    }
                }
            }
        };
        assert(g2.cell_at(fire_position).kind == Kind::Fire);
    }
    let offset = random_direction(&mut grid.rng);
    let target = fire_position.offset(offset.x, offset.y);
    burn_cell(grid, &target, &fire_position);
    proof {
        let tx = target.x as int;
        let ty = target.y as int;
        let mx = fire_position.x as int;
        let my = fire_position.y as int;
        assert(mx == px + mdx && my == py + mdy);
        assert(g2.w() == g0.w() && g2.h() == g0.h());
        assert(burn_outcome(g0.w(), g0.h(), g2.grid@, grid.grid@, tx, ty, px + mdx, py + mdy));
        lemma_fire_outcome_step(g0, *grid, px, py, *cell, nd, mdx, mdy, tx, ty);
        lemma_fire_compose(g0, g2, *grid, px, py, tx, ty, mx, my);
    }
}

/// One random offset in the nine-cell neighbourhood, the fire's own
/// position included.
pub(crate) fn random_direction(rng: &mut fastrand::Rng) -> (v: Vector)
    ensures
        -1 <= v.x <= 1,
        -1 <= v.y <= 1,
{
    let x = rng_i32(rng, -1, 1);
    let y = rng_i32(rng, -1, 1);
    Vector::new(x, y)
}

/// Fire at `fire_position` tries to burn the cell at `position`: water may
/// boil to steam and always quenches the fire, wood may ignite and scatter
/// sparks into nearby air, steam is refreshed; anything else is unharmed.
#[verifier::rlimit(100)]
pub(crate) fn burn_cell(grid: &mut Game, position: &Vector, fire_position: &Vector)
    requires
        old(grid).wf(),
        old(grid).in_bounds_xy(fire_position.x as int, fire_position.y as int),
        old(grid).cell_at(*fire_position).kind == Kind::Fire,
    ensures
        final(grid).wf(),
        final(grid).same_dims(*old(grid)),
        forall|x: int, y: int|
            #![trigger final(grid).cell_xy(x, y)]
            fire_pair_ok(old(grid).cell_xy(x, y), final(grid).cell_xy(x, y)),
        forall|x: int, y: int|
            #![trigger final(grid).cell_xy(x, y)]
            ((x < px_of(*position) - 1 || x > px_of(*position) + 1 || y < py_of(*position) - 1
                || y > py_of(*position) + 1) && !(x == px_of(*fire_position) && y == py_of(
                *fire_position,
            ))) ==> final(grid).cell_xy(x, y) == old(grid).cell_xy(x, y),
        burn_outcome(
            old(grid).w(),
            old(grid).h(),
            old(grid).grid@,
            final(grid).grid@,
            px_of(*position),
            py_of(*position),
            px_of(*fire_position),
            py_of(*fire_position),
        ),
{
    let ghost g0 = *grid;
    let ghost fx = fire_position.x as int;
    let ghost fy = fire_position.y as int;
    let ghost px = position.x as int;
    let ghost py = position.y as int;

    let cell = grid.get_cell(position);
    match cell.kind {
        Kind::Water => {
            proof {
                assert(!(px == fx && py == fy));
                lemma_two_idx(g0, px, py, fx, fy);
            }
            if rng_u8(&mut grid.rng, 0, 5) == 0 {
                let s = create_steam(&mut grid.rng);
                grid.set_cell(position, s);
                proof {
                    assert(steam_created(s));
                    assert(grid.grid@ == g0.grid@.update(g0.idx(px, py), s));
                }
            }
            let a = create_air();
            grid.set_cell(fire_position, a);
            proof {
                assert forall|x: int, y: int|
                    fire_pair_ok(g0.cell_xy(x, y), grid.cell_xy(x, y)) && (((x < px - 1 || x > px
                        + 1 || y < py - 1 || y > py + 1) && !(x == fx && y == fy))
                        ==> grid.cell_xy(x, y) == g0.cell_xy(x, y)) by {
                    if g0.in_bounds_xy(x, y) {
                        lemma_idx_bounds(g0.w(), g0.h(), x, y);
                        if !(x == px && y == py) && !(x == fx && y == fy) {
                            lemma_two_idx(g0, x, y, px, py);
                            lemma_two_idx(g0, x, y, fx, fy);
                        }
                    }
                };
                assert(burn_outcome(g0.w(), g0.h(), g0.grid@, grid.grid@, px, py, fx, fy));
            }
        },
        Kind::Wood => {
            proof {
                lemma_idx_bounds(g0.w(), g0.h(), px, py);
            }
            if rng_u8(&mut grid.rng, 0, 20) == 0 {
                let f = create_fire(&mut grid.rng);
                grid.set_cell(position, f);
                proof {
                    assert(fire_created(f));
                    assert(grid.grid@ == g0.grid@.update(g0.idx(px, py), f));
                }
            }
            let ghost s1 = grid.grid@;
            proof {
                assert forall|x: int, y: int|
                    #![trigger grid.cell_xy(x, y)]
                    fire_pair_ok(g0.cell_xy(x, y), grid.cell_xy(x, y)) && ((x < px - 1 || x > px
                        + 1 || y < py - 1 || y > py + 1) ==> grid.cell_xy(x, y) == g0.cell_xy(
                        x,
                        y,
                    )) by {
                    if g0.in_bounds_xy(x, y) {
                        lemma_idx_bounds(g0.w(), g0.h(), x, y);
                        if x < px - 1 || x > px + 1 || y < py - 1 || y > py + 1 {
                            lemma_two_idx(g0, x, y, px, py);
                        }
                    }
                };
            }
            let mut i: u8 = 0;
            while i < 3
                invariant
                    grid.wf(),
                    grid.same_dims(g0),
                    g0.wf(),
                    px == position.x as int,
                    py == position.y as int,
                    g0.in_bounds_xy(px, py),
                    i <= 3,
                    s1 == g0.grid@ || (exists|f: Cell|
                        #[trigger] fire_created(f) && s1 == g0.grid@.update(g0.idx(px, py), f)),
                    sparked(g0.w(), g0.h(), s1, grid.grid@, px, py, i as nat),
                    forall|x: int, y: int|
                        #![trigger grid.cell_xy(x, y)]
                        fire_pair_ok(g0.cell_xy(x, y), grid.cell_xy(x, y)),
                    forall|x: int, y: int|
                        #![trigger grid.cell_xy(x, y)]
                        (x < px - 1 || x > px + 1 || y < py - 1 || y > py + 1) ==> grid.cell_xy(
                            x,
                            y,
                        ) == g0.cell_xy(x, y),
                decreases 3 - i,
            {
                let ghost gprev = *grid;
                let off = random_direction(&mut grid.rng);
                let spawn_position = position.offset(off.x, off.y);
                if grid.is_type(&spawn_position, [Kind::Air]) {
                    let f2 = create_fire(&mut grid.rng);
                    grid.set_cell(&spawn_position, f2);
                    proof {
                        let sx = spawn_position.x as int;
                        let sy = spawn_position.y as int;
                        assert(gprev.cell_xy(sx, sy).kind == Kind::Air);
                        lemma_idx_bounds(g0.w(), g0.h(), sx, sy);
                        assert(at_xy(g0.w(), g0.h(), gprev.grid@, sx, sy).kind == Kind::Air);
                        lemma_sparked_snoc(
                            g0.w(),
                            g0.h(),
                            s1,
                            gprev.grid@,
                            px,
                            py,
                            i as nat,
                            sx,
                            sy,
                            f2,
                        );
                        assert(grid.grid@ == gprev.grid@.update(sy * g0.w() + sx, f2));
                        assert(sparked(g0.w(), g0.h(), s1, grid.grid@, px, py, (i + 1) as nat));
                        assert forall|x: int, y: int|
                            #![trigger grid.cell_xy(x, y)]
                            fire_pair_ok(g0.cell_xy(x, y), grid.cell_xy(x, y)) && ((x < px - 1
                                || x > px + 1 || y < py - 1 || y > py + 1) ==> grid.cell_xy(x, y)
                                == g0.cell_xy(x, y)) by {
                            if g0.in_bounds_xy(x, y) {
                                lemma_idx_bounds(g0.w(), g0.h(), x, y);
                                assert(fire_pair_ok(g0.cell_xy(x, y), gprev.cell_xy(x, y)));
                                if x < px - 1 || x > px + 1 || y < py - 1 || y > py + 1 {
                                    lemma_two_idx(g0, x, y, sx, sy);
                                }
                            }
                        };
                    }
                } else {
                    proof {
                        lemma_sparked_mono(g0.w(), g0.h(), s1, gprev.grid@, px, py, i as nat);
                        assert(grid.grid@ == gprev.grid@);
                        assert(sparked(g0.w(), g0.h(), s1, grid.grid@, px, py, (i + 1) as nat));
                        assert forall|x: int, y: int|
                            #![trigger grid.cell_xy(x, y)]
                            fire_pair_ok(g0.cell_xy(x, y), grid.cell_xy(x, y)) && ((x < px - 1
                                || x > px + 1 || y < py - 1 || y > py + 1) ==> grid.cell_xy(x, y)
                                == g0.cell_xy(x, y)) by {
                            assert(fire_pair_ok(g0.cell_xy(x, y), gprev.cell_xy(x, y)));
                            assert(grid.cell_xy(x, y) == gprev.cell_xy(x, y));
                        };
                    }
                }
                i = i + 1;
            }
            proof {
                assert(sparked(g0.w(), g0.h(), s1, grid.grid@, px, py, 3));
                assert(burn_outcome(g0.w(), g0.h(), g0.grid@, grid.grid@, px, py, fx, fy));
            }
        },
        Kind::Steam => {
            proof {
                lemma_idx_bounds(g0.w(), g0.h(), px, py);
            }
            let s = create_steam(&mut grid.rng);
            grid.set_cell(position, s);
            proof {
                assert(steam_created(s));
                assert(grid.grid@ == g0.grid@.update(g0.idx(px, py), s));
                assert forall|x: int, y: int|
                    fire_pair_ok(g0.cell_xy(x, y), grid.cell_xy(x, y)) && ((x < px - 1 || x > px
                        + 1 || y < py - 1 || y > py + 1) ==> grid.cell_xy(x, y) == g0.cell_xy(
                        x,
                        y,
                    )) by {
                    if g0.in_bounds_xy(x, y) {
                        lemma_idx_bounds(g0.w(), g0.h(), x, y);
                        if x < px - 1 || x > px + 1 || y < py - 1 || y > py + 1 {
                            lemma_two_idx(g0, x, y, px, py);
                        }
                    }
                };
                assert(burn_outcome(g0.w(), g0.h(), g0.grid@, grid.grid@, px, py, fx, fy));
            }
        },
        _ => {
        },
    }
}

/// From a steam dispatch's exact outcome, every position satisfies the
/// steam step relation and nothing outside the unit ball around the
/// dispatched position changes.
#[verifier::rlimit(100)]
proof fn lemma_steam_outcome_implies(pre: Game, post: Game, px: int, py: int, c: Cell)
    requires
        pre.wf(),
        post.wf(),
        post.same_dims(pre),
        pre.in_bounds_xy(px, py),
        pre.cell_xy(px, py) == c,
        c.kind == Kind::Steam,
        steam_outcome(pre, post, px, py, c),
    ensures
        forall|x: int, y: int|
            #![trigger post.cell_xy(x, y)]
            step_ok(Kind::Steam, pre.cell_xy(x, y), post.cell_xy(x, y)),
        local_to(pre, post, px, py, 1),
{
    lemma_idx_bounds(pre.w(), pre.h(), px, py);
    if c.data <= 1 && (exists|w: Cell|
        #[trigger] water_created(w) && post.grid@ == pre.grid@.update(pre.idx(px, py), w)) {
        let w = choose|w: Cell|
            #[trigger] water_created(w) && post.grid@ == pre.grid@.update(pre.idx(px, py), w);
        assert forall|x: int, y: int|
            step_ok(Kind::Steam, pre.cell_xy(x, y), post.cell_xy(x, y)) && ((x < px - 1 || x > px
                + 1 || y < py - 1 || y > py + 1) ==> post.cell_xy(x, y) == pre.cell_xy(x, y)) by {
            if pre.in_bounds_xy(x, y) {
                lemma_idx_bounds(pre.w(), pre.h(), x, y);
                if !(x == px && y == py) {
                    lemma_two_idx(pre, x, y, px, py);
                }
            }
        };
    } else {
        let (data, dx, dy) = choose|data: u8, dx: int, dy: int|
            #![trigger steam_styled(c, data), pre.cell_xy(px + dx, py + dy)]
            {
                &&& (data == c.data || data + 1 == c.data)
                &&& 1 <= data
                &&& ((dx == 0 && dy == 0 && post.grid@ == pre.grid@.update(
                    pre.idx(px, py),
                    steam_styled(c, data),
                )) || ((dx == 0 && dy == -1 || dx == 0 && dy == 1 || dx == -1 && dy == 0 || dx == 1
                    && dy == 0 || dx == -1 && dy == 1 || dx == 1 && dy == 1) && pre.in_bounds_xy(
                    px + dx,
                    py + dy,
                ) && (pre.cell_xy(px + dx, py + dy).kind == Kind::Air || (dx == 0 && dy == 1
                    && pre.cell_xy(px + dx, py + dy).kind == Kind::Fire)) && post.grid@ == swapped(
                    pre.grid@.update(pre.idx(px, py), steam_styled(c, data)),
                    pre.idx(px, py),
                    pre.idx(px + dx, py + dy),
                )))
            };
        if dx == 0 && dy == 0 {
            assert forall|x: int, y: int|
                step_ok(Kind::Steam, pre.cell_xy(x, y), post.cell_xy(x, y)) && ((x < px - 1 || x
                    > px + 1 || y < py - 1 || y > py + 1) ==> post.cell_xy(x, y) == pre.cell_xy(
                    x,
                    y,
                )) by {
                if pre.in_bounds_xy(x, y) {
                    lemma_idx_bounds(pre.w(), pre.h(), x, y);
                    if !(x == px && y == py) {
                        lemma_two_idx(pre, x, y, px, py);
                    }
                }
            };
        } else {
            lemma_two_idx(pre, px, py, px + dx, py + dy);
            assert forall|x: int, y: int|
                step_ok(Kind::Steam, pre.cell_xy(x, y), post.cell_xy(x, y)) && ((x < px - 1 || x
                    > px + 1 || y < py - 1 || y > py + 1) ==> post.cell_xy(x, y) == pre.cell_xy(
                    x,
                    y,
                )) by {
                if pre.in_bounds_xy(x, y) {
                    lemma_idx_bounds(pre.w(), pre.h(), x, y);
                    if x < px - 1 || x > px + 1 || y < py - 1 || y > py + 1 {
                        lemma_two_idx(pre, x, y, px, py);
                        lemma_two_idx(pre, x, y, px + dx, py + dy);
                    }
                }
            };
        }
    }
}

/// Steam slowly decays and recondenses to water when spent; trapped under a
/// ceiling of steam or wall it drips down; otherwise it mostly rises
/// through air or flame, or drifts sideways and diagonally up.
#[verifier::rlimit(100)]
pub(crate) fn update_steam(cell: &Cell, position: &Vector, grid: &mut Game)
    requires
        old(grid).wf(),
        old(grid).cell_at(*position) == *cell,
        cell.kind == Kind::Steam,
    ensures
        final(grid).wf(),
        final(grid).same_dims(*old(grid)),
        forall|x: int, y: int|
            #![trigger final(grid).cell_xy(x, y)]
            step_ok(Kind::Steam, old(grid).cell_xy(x, y), final(grid).cell_xy(x, y)),
        local_to(*old(grid), *final(grid), px_of(*position), py_of(*position), 1),
        steam_outcome(*old(grid), *final(grid), px_of(*position), py_of(*position), *cell),
{
    let ghost g0 = *grid;
    let ghost px = position.x as int;
    let ghost py = position.y as int;

    let mut new_cell = *cell;
    let decay_rate: u8 = if rng_u8(&mut grid.rng, 0, 20) == 0 {
        1
    } else {
        0
    };
    if new_cell.data > decay_rate {
        new_cell.data = new_cell.data - decay_rate;
    } else {
        let w = create_water(&mut grid.rng);
        grid.set_cell(position, w);
        proof {
            lemma_idx_bounds(g0.w(), g0.h(), px, py);
            lemma_steam_outcome_condense(g0, *grid, px, py, *cell, w);
            lemma_steam_outcome_implies(g0, *grid, px, py, *cell);
        }
        return ;
    }
    let ghost nd = new_cell.data;
    let lifespan: u32 = if new_cell.data > 100 {
        100
    } else {
        new_cell.data as u32
    };
    let hue: u16 = (195 + (lifespan * 10 + 50) / 100) as u16;
    let saturation: u8 = (10 + ((100 - lifespan) * 15 + 50) / 100) as u8;
    let lightness: u8 = (75 + (lifespan * 15 + 50) / 100) as u8;
    new_cell.color = Color::from_hsl(hue, saturation, lightness);
    grid.set_cell(position, new_cell);
    proof {
        lemma_idx_bounds(g0.w(), g0.h(), px, py);
        assert(new_cell == steam_styled(*cell, nd));
        if g0.in_bounds_xy(px, py + 1) {
            lemma_two_idx(g0, px, py, px, py + 1);
        }
        if g0.in_bounds_xy(px, py - 1) {
            lemma_two_idx(g0, px, py, px, py - 1);
        }
        if g0.in_bounds_xy(px - 1, py) {
            lemma_two_idx(g0, px, py, px - 1, py);
        }
        if g0.in_bounds_xy(px + 1, py) {
            lemma_two_idx(g0, px, py, px + 1, py);
        }
        if g0.in_bounds_xy(px - 1, py + 1) {
            lemma_two_idx(g0, px, py, px - 1, py + 1);
        }
        if g0.in_bounds_xy(px + 1, py + 1) {
            lemma_two_idx(g0, px, py, px + 1, py + 1);
        }
    }

    let above_position = position.offset(0, 1);
    let below_position = position.offset(0, -1);

    if grid.is_type(&above_position, [Kind::Steam, Kind::Wall]) && grid.is_type(
        &below_position,
        [Kind::Air],
    ) {
        grid.swap_cells(position, &below_position);
        proof {
            lemma_two_idx(g0, px, py, px, py - 1);
            assert(grid.grid@ == swapped(
                g0.grid@.update(g0.idx(px, py), steam_styled(*cell, nd)),
                g0.idx(px, py),
                g0.idx(px + 0, py + (-1)),
            ));
            assert(steam_move_allowed(g0, px, py, 0, -1));
            lemma_steam_outcome_step(g0, *grid, px, py, *cell, nd, 0, -1);
            lemma_steam_outcome_implies(g0, *grid, px, py, *cell);
        }
        return ;
    }
    if rng_u8(&mut grid.rng, 0, 10) < 8 && grid.is_type(&above_position, [Kind::Air, Kind::Fire]) {
        grid.swap_cells(position, &above_position);
        proof {
            lemma_two_idx(g0, px, py, px, py + 1);
            assert(grid.grid@ == swapped(
                g0.grid@.update(g0.idx(px, py), steam_styled(*cell, nd)),
                g0.idx(px, py),
                g0.idx(px + 0, py + 1),
            ));
            assert(steam_move_allowed(g0, px, py, 0, 1));
            lemma_steam_outcome_step(g0, *grid, px, py, *cell, nd, 0, 1);
            lemma_steam_outcome_implies(g0, *grid, px, py, *cell);
        }
    } else {
        let direction: i32 = if rng_bool(&mut grid.rng) {
            -1
        } else {
            1
        };
        let side_position = position.offset(direction, 0);
        if grid.is_type(&side_position, [Kind::Air]) {
            grid.swap_cells(position, &side_position);
            proof {
                let d = direction as int;
                lemma_two_idx(g0, px, py, px + d, py);
                assert(grid.grid@ == swapped(
                    g0.grid@.update(g0.idx(px, py), steam_styled(*cell, nd)),
                    g0.idx(px, py),
                    g0.idx(px + d, py + 0),
                ));
                assert(steam_move_allowed(g0, px, py, d, 0));
                lemma_steam_outcome_step(g0, *grid, px, py, *cell, nd, d, 0);
                lemma_steam_outcome_implies(g0, *grid, px, py, *cell);
            }
        } else {
            let diagonal_up = position.offset(direction, 1);
            if grid.is_type(&diagonal_up, [Kind::Air]) {
                grid.swap_cells(position, &diagonal_up);
                proof {
                    let d = direction as int;
                    lemma_two_idx(g0, px, py, px + d, py + 1);
                    assert(grid.grid@ == swapped(
                        g0.grid@.update(g0.idx(px, py), steam_styled(*cell, nd)),
                        g0.idx(px, py),
                        g0.idx(px + d, py + 1),
                    ));
                    assert(steam_move_allowed(g0, px, py, d, 1));
                    lemma_steam_outcome_step(g0, *grid, px, py, *cell, nd, d, 1);
                    lemma_steam_outcome_implies(g0, *grid, px, py, *cell);
                }
            } else {
                proof {
                    assert(grid.grid@ == g0.grid@.update(
                        g0.idx(px, py),
                        steam_styled(*cell, nd),
                    ));
                    assert(steam_move_allowed(g0, px, py, 0, 0));
                    lemma_steam_outcome_step(g0, *grid, px, py, *cell, nd, 0, 0);
                    lemma_steam_outcome_implies(g0, *grid, px, py, *cell);
                }
            }
        }
    }
}

/// The blue-channel animation of water: rotate within `[220, 255)` by one.
/// A blue below the band is left as it is.
fn rotate_blue(b: u8) -> (r: u8)
    ensures
        b >= 220 ==> r == 220 + (b - 219) % 35,
        b < 220 ==> r == b,
        r == spec_rotate_blue(b),
{
    if b >= 220 {
        (b - 219) % 35 + 220
    } else {
        b
    }
}

/// The rotated blue channel.
pub open spec fn spec_rotate_blue(b: u8) -> u8 {
    if b >= 220 {
        (220 + (b - 219) % 35) as u8
    } else {
        b
    }
}

} // verus!
