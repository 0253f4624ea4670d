//! The general laws of the engine, stated and proved once over the spec
//! model: what the swap primitive preserves, that initialisation is
//! idempotent, that walls are conserved, and that wood never moves.

use vstd::prelude::*;

use crate::cell::wall_cell;
use crate::cell::Cell;
use crate::cell::Kind;
use crate::game::initialised;
use crate::game::swapped;
use crate::game::walls_preserved;
use crate::game::Game;
use crate::rules::step_ok;

verus! {

/// Exchanging two in-bounds cells preserves the multiset of stored cells:
/// the swap primitive relocates matter and never creates or destroys it.
pub proof fn lemma_swap_multiset(s: Seq<Cell>, i: int, j: int)
    requires
        0 <= i < s.len(),
        0 <= j < s.len(),
    ensures
        swapped(s, i, j).to_multiset() == s.to_multiset(),
{
    broadcast use vstd::seq_lib::to_multiset_update;
    broadcast use vstd::seq_lib::to_multiset_contains;
    broadcast use vstd::multiset::group_multiset_axioms;

    let s1 = s.update(i, s[j]);
    let s2 = s1.update(j, s[i]);
    assert(s.contains(s[i]));
    assert(s.contains(s[j]));
    if i == j {
        assert(s2 =~= s);
        assert(s2.to_multiset() == s.to_multiset());
    } else {
        assert(s1[j] == s[j]);
        assert(s1.contains(s1[j]));
        assert(s1.to_multiset() == s.to_multiset().insert(s[j]).remove(s[i]));
        assert(s2.to_multiset() == s1.to_multiset().insert(s[i]).remove(s[j]));
        assert(s2.to_multiset() =~= s.to_multiset());
    }
}

/// Swapping a position with itself is a no-op.
pub proof fn lemma_swap_self(s: Seq<Cell>, i: int)
    requires
        0 <= i < s.len(),
    ensures
        swapped(s, i, i) == s,
{
    assert(swapped(s, i, i) =~= s);
}

/// Swapping the same two positions twice restores the grid.
pub proof fn lemma_swap_involutive(s: Seq<Cell>, i: int, j: int)
    requires
        0 <= i < s.len(),
        0 <= j < s.len(),
    ensures
        swapped(swapped(s, i, j), i, j) == s,
{
    assert(swapped(swapped(s, i, j), i, j) =~= s);
}

/// Initialisation writes the all-air grid whatever stood before, so running
/// it twice gives exactly what one run gives.
pub proof fn lemma_initialise_idempotent(s: Seq<Cell>)
    ensures
        initialised(initialised(s)) == initialised(s),
{
    assert(initialised(initialised(s)) =~= initialised(s));
}

/// Every out-of-bounds read sees the synthetic wall cell, never a stored
/// one and never a fault: the rules see the world boundary as an immovable
/// wall.
pub proof fn lemma_out_of_bounds_is_wall(g: Game, x: int, y: int)
    requires
        !g.in_bounds_xy(x, y),
    ensures
        g.cell_xy(x, y) == wall_cell(),
        g.cell_xy(x, y).kind == Kind::Wall,
{
}

/// A single dispatch of any material leaves every wall cell exactly where
/// and as it was.
pub proof fn lemma_step_preserves_walls(k: Kind, pre: Game, post: Game)
    requires
        post.same_dims(pre),
        forall|x: int, y: int|
            #![trigger post.cell_xy(x, y)]
            step_ok(k, pre.cell_xy(x, y), post.cell_xy(x, y)),
    ensures
        walls_preserved(pre, post),
{
    assert forall|x: int, y: int|
        #![trigger pre.cell_xy(x, y)]
        #![trigger post.cell_xy(x, y)]
        pre.in_bounds_xy(x, y) && (pre.cell_xy(x, y).kind == Kind::Wall || post.cell_xy(x, y).kind
            == Kind::Wall) implies post.cell_xy(x, y) == pre.cell_xy(x, y) by {
        assert(step_ok(k, pre.cell_xy(x, y), post.cell_xy(x, y)));
    };
}

/// Wall conservation is reflexive.
pub proof fn lemma_walls_preserved_refl(g: Game)
    ensures
        walls_preserved(g, g),
{
}

/// Wall conservation composes across successive steps.
pub proof fn lemma_walls_preserved_trans(a: Game, b: Game, c: Game)
    requires
        walls_preserved(a, b),
        walls_preserved(b, c),
    ensures
        walls_preserved(a, c),
{
    assert forall|x: int, y: int|
        #![trigger a.cell_xy(x, y)]
        #![trigger c.cell_xy(x, y)]
        a.in_bounds_xy(x, y) && (a.cell_xy(x, y).kind == Kind::Wall || c.cell_xy(x, y).kind
            == Kind::Wall) implies c.cell_xy(x, y) == a.cell_xy(x, y) by {
        assert(b.in_bounds_xy(x, y) == a.in_bounds_xy(x, y));
        if a.cell_xy(x, y).kind == Kind::Wall {
            assert(b.cell_xy(x, y) == a.cell_xy(x, y));
            assert(c.cell_xy(x, y) == b.cell_xy(x, y));
        } else {
            assert(c.cell_xy(x, y).kind == Kind::Wall);
            assert(c.cell_xy(x, y) == b.cell_xy(x, y));
            assert(b.cell_xy(x, y) == a.cell_xy(x, y));
        }
    };
}

/// A grid that stores no wall cell stores none after any wall-conserving
/// step: synthetic walls exist only outside the bounds.
pub proof fn lemma_no_walls_preserved(pre: Game, post: Game)
    requires
        walls_preserved(pre, post),
        pre.no_stored_walls(),
    ensures
        post.no_stored_walls(),
{
    assert forall|x: int, y: int| post.in_bounds_xy(x, y) implies (#[trigger] post.cell_xy(
        x,
        y,
    )).kind != Kind::Wall by {
        assert(pre.in_bounds_xy(x, y));
        assert(pre.cell_xy(x, y).kind != Kind::Wall);
        if post.cell_xy(x, y).kind == Kind::Wall {
            assert(post.cell_xy(x, y) == pre.cell_xy(x, y));
        }
    };
}

/// A wood cell never moves in a single dispatch: any rule leaves it exactly
/// in place, except fire, which may replace it in place by fire.
pub proof fn lemma_wood_in_place(k: Kind, a: Cell, b: Cell)
    requires
        step_ok(k, a, b),
        a.kind == Kind::Wood,
    ensures
        b == a || (k == Kind::Fire && b.kind == Kind::Fire),
{
}

} // verus!
