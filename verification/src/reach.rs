//! Reachability over the grid's empty cells: paths of orthogonally adjacent
//! empty cells, and the lemmas the generator uses to show that every accepted
//! room stays connected to the spawn room while carving goes on.

use crate::grid::Grid;
use crate::grid::carved_h_tunnel_rel;
use crate::grid::carved_room_rel;
use crate::grid::carved_v_tunnel_rel;
use crate::rect::Rect;
use crate::tile::Tile;
use vstd::prelude::*;

verus! {

/// The two cells are orthogonal neighbours: they differ by exactly one in
/// exactly one coordinate.
pub open spec fn adjacent(p: (int, int), q: (int, int)) -> bool {
    ||| (p.0 == q.0 && (p.1 == q.1 + 1 || p.1 + 1 == q.1))
    ||| (p.1 == q.1 && (p.0 == q.0 + 1 || p.0 + 1 == q.0))
}

/// `p` is a walk across the grid: at least one cell, every visited cell
/// in bounds and empty, every step between orthogonal neighbours.
pub open spec fn is_empty_path(g: Grid, p: Seq<(int, int)>) -> bool {
    &&& p.len() >= 1
    &&& forall|i: int| 0 <= i < p.len() ==> g.empty_at(#[trigger] p[i].0, p[i].1)
    &&& forall|i: int| 0 <= i < p.len() - 1 ==> adjacent(#[trigger] p[i], p[i + 1])
}

/// Cell `b` is reachable from cell `a` by traversing only empty cells of `g`.
pub open spec fn connected(g: Grid, a: (int, int), b: (int, int)) -> bool {
    exists|p: Seq<(int, int)>| is_empty_path(g, p) && p.first() == a && p.last() == b
}

/// `post` has the same dimensions as `pre` and every cell empty in `pre` is
/// still empty in `post`; carving can only grow the empty region.
pub open spec fn preserves_empty(pre: Grid, post: Grid) -> bool {
    &&& post.width == pre.width
    &&& post.height == pre.height
    &&& forall|x: int, y: int| pre.empty_at(x, y) ==> #[trigger] post.empty_at(x, y)
}

/// An empty cell is trivially reachable from itself.
pub proof fn lemma_connected_refl(g: Grid, a: (int, int))
    requires
        g.empty_at(a.0, a.1),
    ensures
        connected(g, a, a),
{
    let p = seq![a];
    assert(is_empty_path(g, p));
    assert(p.first() == a && p.last() == a);
}

/// Reachability is symmetric: walk the same path backwards.
pub proof fn lemma_connected_sym(g: Grid, a: (int, int), b: (int, int))
    requires
        connected(g, a, b),
    ensures
        connected(g, b, a),
{
    let p = choose|p: Seq<(int, int)>| is_empty_path(g, p) && p.first() == a && p.last() == b;
    let q = p.reverse();
    assert forall|i: int| 0 <= i < q.len() - 1 implies adjacent(#[trigger] q[i], q[i + 1]) by {
        let j = p.len() - 2 - i;
        assert(adjacent(p[j], p[j + 1]));
    }
    assert(is_empty_path(g, q));
    assert(q.first() == b && q.last() == a);
}

/// Reachability is transitive: append the second path to the first.
pub proof fn lemma_connected_trans(g: Grid, a: (int, int), b: (int, int), c: (int, int))
    requires
        connected(g, a, b),
        connected(g, b, c),
    ensures
        connected(g, a, c),
{
    let p = choose|p: Seq<(int, int)>| is_empty_path(g, p) && p.first() == a && p.last() == b;
    let q = choose|q: Seq<(int, int)>| is_empty_path(g, q) && q.first() == b && q.last() == c;
    let r = p + q.drop_first();
    assert forall|i: int| 0 <= i < r.len() implies g.empty_at(#[trigger] r[i].0, r[i].1) by {
        if i < p.len() {
            assert(g.empty_at(p[i].0, p[i].1));
        } else {
            assert(r[i] == q[i - p.len() + 1]);
            assert(g.empty_at(q[i - p.len() + 1].0, q[i - p.len() + 1].1));
        }
    }
    assert forall|i: int| 0 <= i < r.len() - 1 implies adjacent(#[trigger] r[i], r[i + 1]) by {
        if i + 1 < p.len() {
            assert(adjacent(p[i], p[i + 1]));
        } else if i + 1 == p.len() {
            assert(r[i] == p.last());
            assert(r[i + 1] == q[1]);
            assert(adjacent(q[0], q[1]));
        } else {
            assert(r[i] == q[i - p.len() + 1]);
            assert(r[i + 1] == q[i - p.len() + 2]);
            assert(adjacent(q[i - p.len() + 1], q[i - p.len() + 2]));
        }
    }
    assert(is_empty_path(g, r));
    assert(r.first() == a);
    if q.len() == 1 {
        assert(r.last() == p.last());
        assert(r.last() == c);
    } else {
        assert(r.last() == q.last());
    }
}

/// A walk across empty cells survives any carving: carving only empties
/// cells, so every path of `pre` is still a path of `post`.
pub proof fn lemma_connected_monotone(pre: Grid, post: Grid, a: (int, int), b: (int, int))
    requires
        preserves_empty(pre, post),
        connected(pre, a, b),
    ensures
        connected(post, a, b),
{
    let p = choose|p: Seq<(int, int)>|
        is_empty_path(pre, p) && p.first() == a && p.last() == b;
    assert forall|i: int| 0 <= i < p.len() implies post.empty_at(#[trigger] p[i].0, p[i].1) by {
        assert(pre.empty_at(p[i].0, p[i].1));
    }
    assert(is_empty_path(post, p));
}

/// Carving a room only empties cells.
pub proof fn lemma_carve_room_preserves_empty(pre: Grid, post: Grid, room: Rect)
    requires
        carved_room_rel(pre, post, room),
    ensures
        preserves_empty(pre, post),
{
    assert forall|x: int, y: int| pre.empty_at(x, y) implies #[trigger] post.empty_at(x, y) by {
        assert(post.tile(x, y) == (if room.interior(x, y) {
            Tile::empty_tile()
        } else {
            pre.tile(x, y)
        }));
    }
}

/// Carving a horizontal tunnel only empties cells.
pub proof fn lemma_carve_h_tunnel_preserves_empty(pre: Grid, post: Grid, xa: int, xb: int, y: int)
    requires
        carved_h_tunnel_rel(pre, post, xa, xb, y),
    ensures
        preserves_empty(pre, post),
{
    assert forall|a: int, b: int| pre.empty_at(a, b) implies #[trigger] post.empty_at(a, b) by {
        assert(post.tile(a, b) == (if b == y && vstd::math::min(xa, xb) <= a <= vstd::math::max(
            xa,
            xb,
        ) {
            Tile::empty_tile()
        } else {
            pre.tile(a, b)
        }));
    }
}

/// Carving a vertical tunnel only empties cells.
pub proof fn lemma_carve_v_tunnel_preserves_empty(pre: Grid, post: Grid, ya: int, yb: int, x: int)
    requires
        carved_v_tunnel_rel(pre, post, ya, yb, x),
    ensures
        preserves_empty(pre, post),
{
    assert forall|a: int, b: int| pre.empty_at(a, b) implies #[trigger] post.empty_at(a, b) by {
        assert(post.tile(a, b) == (if a == x && vstd::math::min(ya, yb) <= b <= vstd::math::max(
            ya,
            yb,
        ) {
            Tile::empty_tile()
        } else {
            pre.tile(a, b)
        }));
    }
}

/// After a horizontal tunnel is carved, its two endpoints are connected: the
/// run of carved cells itself is the path.
pub proof fn lemma_h_tunnel_connects(pre: Grid, post: Grid, xa: int, xb: int, y: int)
    requires
        carved_h_tunnel_rel(pre, post, xa, xb, y),
        pre.in_bounds(xa, y),
        pre.in_bounds(xb, y),
    ensures
        connected(post, (xa, y), (xb, y)),
{
    let lo = vstd::math::min(xa, xb);
    let hi = vstd::math::max(xa, xb);
    let p = Seq::new((hi + 1 - lo) as nat, |i: int| (lo + i, y));
    assert forall|i: int| 0 <= i < p.len() implies post.empty_at(#[trigger] p[i].0, p[i].1) by {
        assert(pre.in_bounds(lo + i, y));
        assert(post.tile(lo + i, y) == Tile::empty_tile());
    }
    assert(is_empty_path(post, p));
    assert(p.first() == (lo, y));
    assert(p.last() == (hi, y));
    assert(connected(post, (lo, y), (hi, y)));
    if xa <= xb {
        assert((xa, y) == (lo, y) && (xb, y) == (hi, y));
    } else {
        assert((xa, y) == (hi, y) && (xb, y) == (lo, y));
        lemma_connected_sym(post, (lo, y), (hi, y));
    }
}

/// After a vertical tunnel is carved, its two endpoints are connected.
pub proof fn lemma_v_tunnel_connects(pre: Grid, post: Grid, ya: int, yb: int, x: int)
    requires
        carved_v_tunnel_rel(pre, post, ya, yb, x),
        pre.in_bounds(x, ya),
        pre.in_bounds(x, yb),
    ensures
        connected(post, (x, ya), (x, yb)),
{
    let lo = vstd::math::min(ya, yb);
    let hi = vstd::math::max(ya, yb);
    let p = Seq::new((hi + 1 - lo) as nat, |i: int| (x, lo + i));
    assert forall|i: int| 0 <= i < p.len() implies post.empty_at(#[trigger] p[i].0, p[i].1) by {
        assert(pre.in_bounds(x, lo + i));
        assert(post.tile(x, lo + i) == Tile::empty_tile());
    }
    assert(is_empty_path(post, p));
    assert(p.first() == (x, lo));
    assert(p.last() == (x, hi));
    assert(connected(post, (x, lo), (x, hi)));
    if ya <= yb {
        assert((x, ya) == (x, lo) && (x, yb) == (x, hi));
    } else {
        assert((x, ya) == (x, hi) && (x, yb) == (x, lo));
        lemma_connected_sym(post, (x, lo), (x, hi));
    }
}

/// The integer midpoint of a room at least two tiles wide and two tiles tall
/// lies strictly inside its bounding box, so carving the room empties it.
pub proof fn lemma_center_in_interior(r: Rect)
    requires
        r.wf(),
        r.x2 - r.x1 >= 2,
        r.y2 - r.y1 >= 2,
    ensures
        r.interior(r.spec_center().0, r.spec_center().1),
{
    let cx = (r.x1 + r.x2) / 2;
    let cy = (r.y1 + r.y2) / 2;
    assert(r.x1 < cx < r.x2) by (nonlinear_arith)
        requires
            0 <= r.x1,
            r.x1 + 2 <= r.x2,
            cx == (r.x1 + r.x2) / 2,
    ;
    assert(r.y1 < cy < r.y2) by (nonlinear_arith)
        requires
            0 <= r.y1,
            r.y1 + 2 <= r.y2,
            cy == (r.y1 + r.y2) / 2,
    ;
}

} // verus!
