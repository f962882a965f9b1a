//! The world map: a fixed-size two-dimensional container of tiles with the
//! carving operations the dungeon generator uses (room fill, corridor fill)
//! and the per-cell queries that movement, rendering and the visibility
//! computation consume.

use crate::rect::Rect;
use crate::tile::Tile;
use vstd::prelude::*;

verus! {

/// A rectangular grid of tiles, `width × height`, stored in row-major order
/// by column (`tiles[x * height + y]`). The well-formedness invariant `wf`
/// ties the backing vector's length to the dimensions; every operation
/// requires and preserves it.
pub struct Grid {
    pub width: i32,
    pub height: i32,
    pub tiles: Vec<Tile>,
}

/// `0 <= x * h + y < w * h` whenever `(x, y)` is a coordinate of a `w × h`
/// grid: the flat index of an in-bounds cell is in range.
proof fn lemma_idx_in_range(w: int, h: int, x: int, y: int)
    by (nonlinear_arith)
    requires
        0 <= x < w,
        0 <= y < h,
    ensures
        0 <= x * h + y < w * h,
{
}

/// Two distinct in-bounds coordinates never share a flat index.
proof fn lemma_idx_injective(h: int, xa: int, ya: int, xb: int, yb: int)
    by (nonlinear_arith)
    requires
        0 <= ya < h,
        0 <= yb < h,
        xa * h + ya == xb * h + yb,
    ensures
        xa == xb,
        ya == yb,
{
}

/// `post` is `pre` with exactly the interior of `room` emptied: interior
/// cells hold the empty tile, every other cell is unchanged, and the
/// dimensions are the same.
pub open spec fn carved_room_rel(pre: Grid, post: Grid, room: Rect) -> bool {
    &&& post.width == pre.width
    &&& post.height == pre.height
    &&& post.tiles@.len() == pre.tiles@.len()
    &&& forall|x: int, y: int|
        pre.in_bounds(x, y) ==> #[trigger] post.tile(x, y) == (if room.interior(x, y) {
            Tile::empty_tile()
        } else {
            pre.tile(x, y)
        })
}

/// `post` is `pre` with exactly the horizontal run of cells at row `y`
/// between `xa` and `xb` (inclusive, in either order) emptied.
pub open spec fn carved_h_tunnel_rel(pre: Grid, post: Grid, xa: int, xb: int, y: int) -> bool {
    &&& post.width == pre.width
    &&& post.height == pre.height
    &&& post.tiles@.len() == pre.tiles@.len()
    &&& forall|a: int, b: int|
        pre.in_bounds(a, b) ==> #[trigger] post.tile(a, b) == (if b == y
            && vstd::math::min(xa, xb) <= a <= vstd::math::max(xa, xb) {
            Tile::empty_tile()
        } else {
            pre.tile(a, b)
        })
}

/// `post` is `pre` with exactly the vertical run of cells at column `x`
/// between `ya` and `yb` (inclusive, in either order) emptied.
pub open spec fn carved_v_tunnel_rel(pre: Grid, post: Grid, ya: int, yb: int, x: int) -> bool {
    &&& post.width == pre.width
    &&& post.height == pre.height
    &&& post.tiles@.len() == pre.tiles@.len()
    &&& forall|a: int, b: int|
        pre.in_bounds(a, b) ==> #[trigger] post.tile(a, b) == (if a == x
            && vstd::math::min(ya, yb) <= b <= vstd::math::max(ya, yb) {
            Tile::empty_tile()
        } else {
            pre.tile(a, b)
        })
}

/// Every cell of the grid holds one of the two canonical tiles: fully
/// passable and transparent, or fully solid and opaque. The generator never
/// produces a cell that blocks movement but not sight, or the reverse.
pub open spec fn canonical_tiles(g: Grid) -> bool {
    forall|x: int, y: int|
        g.in_bounds(x, y) ==> #[trigger] g.tile(x, y) == Tile::empty_tile() || g.tile(x, y)
            == Tile::wall_tile()
}

/// Carving a room keeps every tile canonical.
pub proof fn lemma_carve_room_canonical(pre: Grid, post: Grid, room: Rect)
    requires
        canonical_tiles(pre),
        carved_room_rel(pre, post, room),
    ensures
        canonical_tiles(post),
{
    assert forall|x: int, y: int|
        post.in_bounds(x, y) implies #[trigger] post.tile(x, y) == Tile::empty_tile() || post.tile(
        x,
        y,
    ) == Tile::wall_tile() by {
        assert(pre.in_bounds(x, y));
        assert(post.tile(x, y) == (if room.interior(x, y) {
            Tile::empty_tile()
        } else {
            pre.tile(x, y)
        }));
    }
}

/// Carving a horizontal tunnel keeps every tile canonical.
pub proof fn lemma_carve_h_tunnel_canonical(pre: Grid, post: Grid, xa: int, xb: int, y: int)
    requires
        canonical_tiles(pre),
        carved_h_tunnel_rel(pre, post, xa, xb, y),
    ensures
        canonical_tiles(post),
{
    assert forall|a: int, b: int|
        post.in_bounds(a, b) implies #[trigger] post.tile(a, b) == Tile::empty_tile() || post.tile(
        a,
        b,
    ) == Tile::wall_tile() by {
        assert(pre.in_bounds(a, b));
        assert(post.tile(a, b) == (if b == y && vstd::math::min(xa, xb) <= a <= vstd::math::max(
            xa,
            xb,
        ) {
            Tile::empty_tile()
        } else {
            pre.tile(a, b)
        }));
    }
}

/// Carving a vertical tunnel keeps every tile canonical.
pub proof fn lemma_carve_v_tunnel_canonical(pre: Grid, post: Grid, ya: int, yb: int, x: int)
    requires
        canonical_tiles(pre),
        carved_v_tunnel_rel(pre, post, ya, yb, x),
    ensures
        canonical_tiles(post),
{
    assert forall|a: int, b: int|
        post.in_bounds(a, b) implies #[trigger] post.tile(a, b) == Tile::empty_tile() || post.tile(
        a,
        b,
    ) == Tile::wall_tile() by {
        assert(pre.in_bounds(a, b));
        assert(post.tile(a, b) == (if a == x && vstd::math::min(ya, yb) <= b <= vstd::math::max(
            ya,
            yb,
        ) {
            Tile::empty_tile()
        } else {
            pre.tile(a, b)
        }));
    }
}

/// Every flat index of a `w × h` grid decomposes into the coordinate it
/// stores: `i / h` is in column range, `i % h` in row range, and they
/// recombine to `i`.
proof fn lemma_flat_decompose(w: int, h: int, i: int)
    requires
        h > 0,
        0 <= i < w * h,
    ensures
        0 <= i / h < w,
        0 <= i % h < h,
        i == (i / h) * h + (i % h),
{
    vstd::arithmetic::div_mod::lemma_fundamental_div_mod(i, h);
    vstd::arithmetic::div_mod::lemma_mod_bound(i, h);
    let q = i / h;
    let r = i % h;
    assert(i == h * q + r);
    assert(i == q * h + r) by (nonlinear_arith)
        requires
            i == h * q + r,
    ;
    assert(0 <= q < w) by (nonlinear_arith)
        requires
            h > 0,
            0 <= i < w * h,
            i == h * q + r,
            0 <= r < h,
    ;
}

/// Two well-formed grids of the same dimensions that agree on every cell
/// have equal tile vectors.
pub proof fn lemma_grids_pointwise_eq(ga: Grid, gb: Grid)
    requires
        ga.wf(),
        gb.wf(),
        ga.width == gb.width,
        ga.height == gb.height,
        forall|x: int, y: int| ga.in_bounds(x, y) ==> #[trigger] ga.tile(x, y) == gb.tile(x, y),
    ensures
        ga.tiles@ == gb.tiles@,
{
    let w = ga.width as int;
    let h = ga.height as int;
    assert forall|i: int| 0 <= i < ga.tiles@.len() implies ga.tiles@[i] == gb.tiles@[i] by {
        assert(h > 0) by (nonlinear_arith)
            requires
                w * h > 0,
                h >= 0,
        ;
        lemma_flat_decompose(w, h, i);
        let x = i / h;
        let y = i % h;
        assert(ga.tile(x, y) == gb.tile(x, y));
    }
    assert(ga.tiles@ =~= gb.tiles@);
}

/// Carving the same room a second time changes nothing: the grid after the
/// second carve is identical to the grid after the first.
pub proof fn lemma_carve_room_idempotent(g0: Grid, g1: Grid, g2: Grid, room: Rect)
    requires
        g0.wf(),
        carved_room_rel(g0, g1, room),
        carved_room_rel(g1, g2, room),
    ensures
        g2.width == g1.width,
        g2.height == g1.height,
        g2.tiles@ == g1.tiles@,
{
    lemma_grids_pointwise_eq(g2, g1);
}

/// Carving the same horizontal tunnel a second time changes nothing.
pub proof fn lemma_carve_h_tunnel_idempotent(
    g0: Grid,
    g1: Grid,
    g2: Grid,
    xa: int,
    xb: int,
    y: int,
)
    requires
        g0.wf(),
        carved_h_tunnel_rel(g0, g1, xa, xb, y),
        carved_h_tunnel_rel(g1, g2, xa, xb, y),
    ensures
        g2.width == g1.width,
        g2.height == g1.height,
        g2.tiles@ == g1.tiles@,
{
    lemma_grids_pointwise_eq(g2, g1);
}

/// Carving the same vertical tunnel a second time changes nothing.
pub proof fn lemma_carve_v_tunnel_idempotent(
    g0: Grid,
    g1: Grid,
    g2: Grid,
    ya: int,
    yb: int,
    x: int,
)
    requires
        g0.wf(),
        carved_v_tunnel_rel(g0, g1, ya, yb, x),
        carved_v_tunnel_rel(g1, g2, ya, yb, x),
    ensures
        g2.width == g1.width,
        g2.height == g1.height,
        g2.tiles@ == g1.tiles@,
{
    lemma_grids_pointwise_eq(g2, g1);
}

impl Grid {
    /// The backing vector holds exactly one tile per coordinate.
    pub open spec fn wf(self) -> bool {
        &&& 0 <= self.width
        &&& 0 <= self.height
        &&& self.tiles@.len() == self.width * self.height
    }

    /// `(x, y)` addresses a cell of this grid.
    pub open spec fn in_bounds(self, x: int, y: int) -> bool {
        0 <= x < self.width && 0 <= y < self.height
    }

    /// Flat index of `(x, y)` in the backing vector.
    pub open spec fn idx(self, x: int, y: int) -> int {
        x * self.height + y
    }

    /// The tile stored at `(x, y)`.
    pub open spec fn tile(self, x: int, y: int) -> Tile {
        self.tiles@[self.idx(x, y)]
    }

    /// The cell exists and its tile is fully passable and transparent.
    pub open spec fn empty_at(self, x: int, y: int) -> bool {
        self.in_bounds(x, y) && self.tile(x, y).is_empty()
    }

    /// The whole bounding box of `room`, border included, lies on the grid;
    /// carving its interior then touches only in-bounds cells.
    pub open spec fn room_in_bounds(self, room: Rect) -> bool {
        0 <= room.x1 && room.x2 <= self.width && 0 <= room.y1 && room.y2 <= self.height
    }

    /// Allocates a `width × height` grid entirely filled with wall tiles,
    /// the state the generator starts from.
    pub fn new(width: i32, height: i32) -> (g: Grid)
        requires
            0 <= width,
            0 <= height,
            width * height <= usize::MAX,
        ensures
            g.wf(),
            g.width == width,
            g.height == height,
            forall|x: int, y: int| g.in_bounds(x, y) ==> #[trigger] g.tile(x, y) == Tile::wall_tile(),
    {
        let n: usize = (width as usize) * (height as usize);
        let mut tiles: Vec<Tile> = Vec::new();
        let mut i: usize = 0;
        while i < n
            invariant
                i <= n,
                tiles@.len() == i,
                forall|j: int| 0 <= j < i ==> tiles@[j] == Tile::wall_tile(),
            decreases n - i,
        {
            tiles.push(Tile::wall());
            i = i + 1;
        }
        let g = Grid { width, height, tiles };
        proof {
            assert forall|x: int, y: int| g.in_bounds(x, y) implies #[trigger] g.tile(x, y)
                == Tile::wall_tile() by {
                lemma_idx_in_range(width as int, height as int, x, y);
            }
        }
        g
    }

    /// Writes one tile. Private: the public mutators are the carving
    /// operations, which bounds-check on behalf of their callers.
    fn set_tile(&mut self, x: i32, y: i32, t: Tile)
        requires
            old(self).wf(),
            old(self).in_bounds(x as int, y as int),
        ensures
            final(self).wf(),
            final(self).width == old(self).width,
            final(self).height == old(self).height,
            final(self).tiles@.len() == old(self).tiles@.len(),
            final(self).tile(x as int, y as int) == t,
            forall|a: int, b: int|
                old(self).in_bounds(a, b) && (a != x || b != y) ==> #[trigger] final(self).tile(a, b)
                    == old(self).tile(a, b),
    {
        let n: usize = self.tiles.len();
        proof {
            lemma_idx_in_range(self.width as int, self.height as int, x as int, y as int);
        }
        let i: usize = (x as usize) * (self.height as usize) + (y as usize);
        self.tiles[i] = t;
        proof {
            assert forall|a: int, b: int|
                old(self).in_bounds(a, b) && (a != x || b != y) implies #[trigger] self.tile(a, b)
                == old(self).tile(a, b) by {
                lemma_idx_in_range(self.width as int, self.height as int, a, b);
                if self.idx(a, b) == self.idx(x as int, y as int) {
                    lemma_idx_injective(self.height as int, a, b, x as int, y as int);
                }
            }
        }
    }

    /// Reads one tile of an in-bounds coordinate.
    pub fn get(&self, x: i32, y: i32) -> (t: Tile)
        requires
            self.wf(),
            self.in_bounds(x as int, y as int),
        ensures
            t == self.tile(x as int, y as int),
    {
        let n: usize = self.tiles.len();
        proof {
            lemma_idx_in_range(self.width as int, self.height as int, x as int, y as int);
        }
        let i: usize = (x as usize) * (self.height as usize) + (y as usize);
        self.tiles[i]
    }

    /// Reads the tile at `(x, y)`, failing fast with `None` on an
    /// out-of-bounds coordinate instead of touching memory outside the grid.
    pub fn tile_at(&self, x: i32, y: i32) -> (r: Option<Tile>)
        requires
            self.wf(),
        ensures
            self.in_bounds(x as int, y as int) ==> r == Some(self.tile(x as int, y as int)),
            !self.in_bounds(x as int, y as int) ==> r.is_none(),
    {
        if 0 <= x && x < self.width && 0 <= y && y < self.height {
            Some(self.get(x, y))
        } else {
            None
        }
    }

    /// Per-cell transparency for the external field-of-view computation:
    /// `Some(true)` iff the cell does not block sight, `None` off the grid.
    pub fn is_transparent(&self, x: i32, y: i32) -> (r: Option<bool>)
        requires
            self.wf(),
        ensures
            self.in_bounds(x as int, y as int) ==> r == Some(!self.tile(x as int, y as int).block_sight),
            !self.in_bounds(x as int, y as int) ==> r.is_none(),
    {
        match self.tile_at(x, y) {
            Some(t) => Some(!t.block_sight),
            None => None,
        }
    }

    /// Per-cell walkability, fail-closed: true iff the coordinate is on the
    /// grid and its tile does not block movement.
    pub fn is_walkable(&self, x: i32, y: i32) -> (r: bool)
        requires
            self.wf(),
        ensures
            r == (self.in_bounds(x as int, y as int) && !self.tile(x as int, y as int).blocked),
    {
        match self.tile_at(x, y) {
            Some(t) => !t.blocked,
            None => false,
        }
    }

    /// Empties the interior of `room` (`x1+1 .. x2` × `y1+1 .. y2`), leaving
    /// the one-tile border and everything else untouched. Returns false and
    /// changes nothing when the room's bounding box does not fit on the grid.
    pub fn carve_room(&mut self, room: Rect) -> (ok: bool)
        requires
            old(self).wf(),
        ensures
            final(self).wf(),
            ok == old(self).room_in_bounds(room),
            ok ==> carved_room_rel(*old(self), *final(self), room),
            !ok ==> *final(self) == *old(self),
    {
        if room.x1 >= 0 && room.x2 <= self.width && room.y1 >= 0 && room.y2 <= self.height {
            if room.x1 < room.x2 && room.y1 < room.y2 {
                let ghost pre = *self;
                let mut x: i32 = room.x1 + 1;
                while x < room.x2
                    invariant
                        self.wf(),
                        pre.wf(),
                        self.width == pre.width,
                        self.height == pre.height,
                        self.tiles@.len() == pre.tiles@.len(),
                        room.x1 < x <= room.x2,
                        pre.room_in_bounds(room),
                        room.y1 < room.y2,
                        forall|a: int, b: int|
                            pre.in_bounds(a, b) ==> #[trigger] self.tile(a, b) == (if room.interior(
                                a,
                                b,
                            ) && a < x {
                                Tile::empty_tile()
                            } else {
                                pre.tile(a, b)
                            }),
                    decreases room.x2 - x,
                {
                    let mut y: i32 = room.y1 + 1;
                    while y < room.y2
                        invariant
                            self.wf(),
                            pre.wf(),
                            self.width == pre.width,
                            self.height == pre.height,
                            self.tiles@.len() == pre.tiles@.len(),
                            room.x1 < x < room.x2,
                            room.y1 < y <= room.y2,
                            pre.room_in_bounds(room),
                            forall|a: int, b: int|
                                pre.in_bounds(a, b) ==> #[trigger] self.tile(a, b) == (if room.interior(
                                    a,
                                    b,
                                ) && (a < x || (a == x && b < y)) {
                                    Tile::empty_tile()
                                } else {
                                    pre.tile(a, b)
                                }),
                        decreases room.y2 - y,
                    {
                        self.set_tile(x, y, Tile::empty());
                        y = y + 1;
                    }
                    x = x + 1;
                }
            }
            true
        } else {
            false
        }
    }

    /// Empties the horizontal run of cells at row `y` between `xa` and `xb`,
    /// both endpoints included, whichever order they come in. Returns false
    /// and changes nothing when any cell of the run would be off the grid.
    pub fn carve_h_tunnel(&mut self, xa: i32, xb: i32, y: i32) -> (ok: bool)
        requires
            old(self).wf(),
        ensures
            final(self).wf(),
            ok == (0 <= vstd::math::min(xa as int, xb as int)
                && vstd::math::max(xa as int, xb as int) < old(self).width && 0 <= y < old(
                self,
            ).height),
            ok ==> carved_h_tunnel_rel(*old(self), *final(self), xa as int, xb as int, y as int),
            !ok ==> *final(self) == *old(self),
    {
        let lo: i32 = if xa <= xb { xa } else { xb };
        let hi: i32 = if xa <= xb { xb } else { xa };
        if 0 <= lo && hi < self.width && 0 <= y && y < self.height {
            let ghost pre = *self;
            let mut x: i32 = lo;
            while x <= hi
                invariant
                    self.wf(),
                    pre.wf(),
                    self.width == pre.width,
                    self.height == pre.height,
                    self.tiles@.len() == pre.tiles@.len(),
                    lo <= x <= hi + 1,
                    0 <= lo <= hi < pre.width,
                    0 <= y < pre.height,
                    forall|a: int, b: int|
                        pre.in_bounds(a, b) ==> #[trigger] self.tile(a, b) == (if b == y && lo <= a
                            < x {
                            Tile::empty_tile()
                        } else {
                            pre.tile(a, b)
                        }),
                decreases hi + 1 - x,
            {
                self.set_tile(x, y, Tile::empty());
                x = x + 1;
            }
            true
        } else {
            false
        }
    }

    /// Empties the vertical run of cells at column `x` between `ya` and `yb`,
    /// both endpoints included, whichever order they come in. Returns false
    /// and changes nothing when any cell of the run would be off the grid.
    pub fn carve_v_tunnel(&mut self, ya: i32, yb: i32, x: i32) -> (ok: bool)
        requires
            old(self).wf(),
        ensures
            final(self).wf(),
            ok == (0 <= vstd::math::min(ya as int, yb as int)
                && vstd::math::max(ya as int, yb as int) < old(self).height && 0 <= x < old(
                self,
            ).width),
            ok ==> carved_v_tunnel_rel(*old(self), *final(self), ya as int, yb as int, x as int),
            !ok ==> *final(self) == *old(self),
    {
        let lo: i32 = if ya <= yb { ya } else { yb };
        let hi: i32 = if ya <= yb { yb } else { ya };
        if 0 <= lo && hi < self.height && 0 <= x && x < self.width {
            let ghost pre = *self;
            let mut y: i32 = lo;
            while y <= hi
                invariant
                    self.wf(),
                    pre.wf(),
                    self.width == pre.width,
                    self.height == pre.height,
                    self.tiles@.len() == pre.tiles@.len(),
                    lo <= y <= hi + 1,
                    0 <= lo <= hi < pre.height,
                    0 <= x < pre.width,
                    forall|a: int, b: int|
                        pre.in_bounds(a, b) ==> #[trigger] self.tile(a, b) == (if a == x && lo <= b
                            < y {
                            Tile::empty_tile()
                        } else {
                            pre.tile(a, b)
                        }),
                decreases hi + 1 - y,
            {
                self.set_tile(x, y, Tile::empty());
                y = y + 1;
            }
            true
        } else {
            false
        }
    }
}

} // verus!
