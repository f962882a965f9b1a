//! The dungeon generator: greedy randomized placement of up to `max_rooms`
//! rectangular rooms with rejection of overlaps, L-shaped corridors between
//! consecutive accepted rooms, and the spawn point in the first accepted
//! room. The result is proved structurally valid: accepted rooms are
//! pairwise non-overlapping and every accepted room's centre is reachable
//! from the spawn point across empty cells.

use crate::grid::Grid;
use crate::grid::canonical_tiles;
use crate::grid::lemma_carve_h_tunnel_canonical;
use crate::grid::lemma_carve_room_canonical;
use crate::grid::lemma_carve_v_tunnel_canonical;
use crate::reach::connected;
use crate::reach::lemma_carve_h_tunnel_preserves_empty;
use crate::reach::lemma_carve_room_preserves_empty;
use crate::reach::lemma_carve_v_tunnel_preserves_empty;
use crate::reach::lemma_center_in_interior;
use crate::reach::lemma_connected_monotone;
use crate::reach::lemma_connected_refl;
use crate::reach::lemma_connected_trans;
use crate::reach::lemma_h_tunnel_connects;
use crate::reach::lemma_v_tunnel_connects;
use crate::rect::Rect;
use crate::rect::lemma_intersects_symmetric;
use crate::rng::Rng;
use vstd::prelude::*;

verus! {

/// Startup parameters of the generator: grid dimensions, how many placement
/// attempts are made, and the inclusive bounds of the random room sizes.
#[derive(Clone, Copy, Debug)]
pub struct GenConfig {
    pub width: i32,
    pub height: i32,
    pub max_rooms: i32,
    pub room_min_size: i32,
    pub room_max_size: i32,
}

impl GenConfig {
    /// A usable configuration: rooms are at least two tiles on a side (so a
    /// room has an interior and its centre lies in it), fit on the grid with
    /// room to spare for their border, and the grid itself is allocatable.
    pub open spec fn wf(self) -> bool {
        &&& 2 <= self.room_min_size <= self.room_max_size
        &&& self.room_max_size < self.width
        &&& self.room_max_size < self.height
        &&& 0 <= self.max_rooms
        &&& self.width * self.height <= usize::MAX
    }

    /// Checks `wf` at run time, for callers whose configuration is not
    /// statically known.
    pub fn is_valid(&self) -> (r: bool)
        ensures
            r == self.wf(),
    {
        if 2 <= self.room_min_size && self.room_min_size <= self.room_max_size
            && self.room_max_size < self.width && self.room_max_size < self.height
            && 0 <= self.max_rooms {
            let wu: u64 = self.width as u64;
            let hu: u64 = self.height as u64;
            proof {
                assert(wu * hu <= u64::MAX) by (nonlinear_arith)
                    requires
                        wu <= 0x7fff_ffffu64,
                        hu <= 0x7fff_ffffu64,
                ;
            }
            wu * hu <= (usize::MAX as u64)
        } else {
            false
        }
    }
}

/// What one generator run produced: the carved grid, the accepted rooms in
/// order of acceptance, and the spawn point (the first accepted room's
/// centre), absent exactly when no room was accepted.
pub struct GeneratedMap {
    pub map: Grid,
    pub rooms: Vec<Rect>,
    pub spawn: Option<(i32, i32)>,
}

/// Every accepted room is well formed, sized within the configured bounds,
/// and sits on the grid with its one-tile border.
pub open spec fn rooms_ok(cfg: GenConfig, map: Grid, rooms: Seq<Rect>) -> bool {
    forall|i: int|
        0 <= i < rooms.len() ==> {
            &&& (#[trigger] rooms[i]).wf()
            &&& map.room_in_bounds(rooms[i])
            &&& cfg.room_min_size <= rooms[i].x2 - rooms[i].x1 <= cfg.room_max_size
            &&& cfg.room_min_size <= rooms[i].y2 - rooms[i].y1 <= cfg.room_max_size
        }
}

/// No two distinct accepted rooms intersect, not even edge to edge.
pub open spec fn rooms_disjoint(rooms: Seq<Rect>) -> bool {
    forall|i: int, j: int|
        0 <= i < rooms.len() && 0 <= j < rooms.len() && i != j ==> !(
        #[trigger] rooms[i]).spec_intersects(#[trigger] rooms[j])
}

/// Every accepted room's centre is reachable from the first accepted room's
/// centre by traversing only empty cells.
pub open spec fn rooms_connected(map: Grid, rooms: Seq<Rect>) -> bool {
    forall|i: int|
        0 <= i < rooms.len() ==> connected(
            map,
            rooms[0].spec_center(),
            (#[trigger] rooms[i]).spec_center(),
        )
}

/// The spawn point exists iff a room was accepted, and is then the first
/// accepted room's centre.
pub open spec fn spawn_ok(spawn: Option<(i32, i32)>, rooms: Seq<Rect>) -> bool {
    match spawn {
        Some(c) => rooms.len() > 0 && (c.0 as int, c.1 as int) == rooms[0].spec_center(),
        None => rooms.len() == 0,
    }
}

/// Fills a fresh all-wall grid with up to `cfg.max_rooms` randomly placed,
/// randomly sized rooms, rejecting any candidate whose bounding box touches
/// an already accepted room, and connects each accepted room to the previous
/// one with an L-shaped corridor whose bend order is drawn at random.
///
/// Rejected attempts leave no trace; if every attempt after the first
/// fails, the single first room still makes the map non-degenerate, so the
/// spawn point is absent only when `cfg.max_rooms` is zero.
pub fn make_map(cfg: &GenConfig, rng: &mut Rng) -> (out: GeneratedMap)
    requires
        cfg.wf(),
    ensures
        out.map.wf(),
        out.map.width == cfg.width,
        out.map.height == cfg.height,
        out.rooms@.len() <= cfg.max_rooms,
        cfg.max_rooms > 0 ==> out.rooms@.len() >= 1,
        rooms_ok(*cfg, out.map, out.rooms@),
        rooms_disjoint(out.rooms@),
        rooms_connected(out.map, out.rooms@),
        spawn_ok(out.spawn, out.rooms@),
        canonical_tiles(out.map),
{
    let mut map = Grid::new(cfg.width, cfg.height);
    let mut rooms: Vec<Rect> = Vec::new();
    let mut spawn: Option<(i32, i32)> = None;
    let mut attempt: i32 = 0;
    while attempt < cfg.max_rooms
        invariant
            cfg.wf(),
            map.wf(),
            map.width == cfg.width,
            map.height == cfg.height,
            0 <= attempt <= cfg.max_rooms,
            rooms@.len() <= attempt,
            attempt > 0 ==> rooms@.len() >= 1,
            rooms_ok(*cfg, map, rooms@),
            rooms_disjoint(rooms@),
            rooms_connected(map, rooms@),
            spawn_ok(spawn, rooms@),
            canonical_tiles(map),
        decreases cfg.max_rooms - attempt,
    {
        let w = rng.range_inclusive(cfg.room_min_size, cfg.room_max_size);
        let h = rng.range_inclusive(cfg.room_min_size, cfg.room_max_size);
        let x = rng.range_inclusive(0, cfg.width - w - 1);
        let y = rng.range_inclusive(0, cfg.height - h - 1);
        let new_room = Rect::new(x, y, w, h);

        let mut failed = false;
        let mut i: usize = 0;
        while i < rooms.len()
            invariant
                i <= rooms@.len(),
                failed ==> rooms@.len() >= 1,
                !failed ==> forall|j: int|
                    0 <= j < i ==> !new_room.spec_intersects(#[trigger] rooms@[j]),
            decreases rooms@.len() - i,
        {
            let other = rooms[i];
            if new_room.intersects_with(&other) {
                failed = true;
            }
            i = i + 1;
        }

        if !failed {
            let ghost m0 = map;
            let ok_room = map.carve_room(new_room);
            proof {
                assert(m0.room_in_bounds(new_room));
                assert(ok_room);
                lemma_carve_room_canonical(m0, map, new_room);
                lemma_carve_room_preserves_empty(m0, map, new_room);
                assert forall|k: int| 0 <= k < rooms@.len() implies connected(
                    map,
                    rooms@[0].spec_center(),
                    (#[trigger] rooms@[k]).spec_center(),
                ) by {
                    lemma_connected_monotone(
                        m0,
                        map,
                        rooms@[0].spec_center(),
                        rooms@[k].spec_center(),
                    );
                }
                lemma_center_in_interior(new_room);
                assert(map.empty_at(new_room.spec_center().0, new_room.spec_center().1));
            }
            let center = new_room.center();
            if rooms.len() == 0 {
                spawn = Some(center);
                proof {
                    lemma_connected_refl(map, new_room.spec_center());
                }
            } else {
                let prev_room = rooms[rooms.len() - 1];
                proof {
                    lemma_center_in_interior(prev_room);
                    assert(map.empty_at(prev_room.spec_center().0, prev_room.spec_center().1));
                }
                let prev = prev_room.center();
                let ghost pc = (prev.0 as int, prev.1 as int);
                let ghost nc = (center.0 as int, center.1 as int);
                let coin = rng.range_inclusive(0, 1);
                if coin == 0 {
                    // Horizontal first: bend at (center.x, prev.y).
                    let ghost ma = map;
                    let ok_h = map.carve_h_tunnel(prev.0, center.0, prev.1);
                    proof {
                        assert(ok_h);
                        lemma_carve_h_tunnel_canonical(
                            ma,
                            map,
                            prev.0 as int,
                            center.0 as int,
                            prev.1 as int,
                        );
                        lemma_carve_h_tunnel_preserves_empty(
                            ma,
                            map,
                            prev.0 as int,
                            center.0 as int,
                            prev.1 as int,
                        );
                        lemma_h_tunnel_connects(
                            ma,
                            map,
                            prev.0 as int,
                            center.0 as int,
                            prev.1 as int,
                        );
                    }
                    let ghost mb = map;
                    let ok_v = map.carve_v_tunnel(prev.1, center.1, center.0);
                    proof {
                        assert(ok_v);
                        lemma_carve_v_tunnel_canonical(
                            mb,
                            map,
                            prev.1 as int,
                            center.1 as int,
                            center.0 as int,
                        );
                        lemma_carve_v_tunnel_preserves_empty(
                            mb,
                            map,
                            prev.1 as int,
                            center.1 as int,
                            center.0 as int,
                        );
                        lemma_v_tunnel_connects(
                            mb,
                            map,
                            prev.1 as int,
                            center.1 as int,
                            center.0 as int,
                        );
                        lemma_connected_monotone(mb, map, pc, (nc.0, pc.1));
                        lemma_connected_trans(map, pc, (nc.0, pc.1), nc);
                        assert forall|k: int| 0 <= k < rooms@.len() implies connected(
                            map,
                            rooms@[0].spec_center(),
                            (#[trigger] rooms@[k]).spec_center(),
                        ) by {
                            lemma_connected_monotone(
                                ma,
                                mb,
                                rooms@[0].spec_center(),
                                rooms@[k].spec_center(),
                            );
                            lemma_connected_monotone(
                                mb,
                                map,
                                rooms@[0].spec_center(),
                                rooms@[k].spec_center(),
                            );
                        }
                    }
                } else {
                    // Vertical first: bend at (prev.x, center.y).
                    let ghost ma = map;
                    let ok_v = map.carve_v_tunnel(prev.1, center.1, prev.0);
                    proof {
                        assert(ok_v);
                        lemma_carve_v_tunnel_canonical(
                            ma,
                            map,
                            prev.1 as int,
                            center.1 as int,
                            prev.0 as int,
                        );
                        lemma_carve_v_tunnel_preserves_empty(
                            ma,
                            map,
                            prev.1 as int,
                            center.1 as int,
                            prev.0 as int,
                        );
                        lemma_v_tunnel_connects(
                            ma,
                            map,
                            prev.1 as int,
                            center.1 as int,
                            prev.0 as int,
                        );
                    }
                    let ghost mb = map;
                    let ok_h = map.carve_h_tunnel(prev.0, center.0, center.1);
                    proof {
                        assert(ok_h);
                        lemma_carve_h_tunnel_canonical(
                            mb,
                            map,
                            prev.0 as int,
                            center.0 as int,
                            center.1 as int,
                        );
                        lemma_carve_h_tunnel_preserves_empty(
                            mb,
                            map,
                            prev.0 as int,
                            center.0 as int,
                            center.1 as int,
                        );
                        lemma_h_tunnel_connects(
                            mb,
                            map,
                            prev.0 as int,
                            center.0 as int,
                            center.1 as int,
                        );
                        lemma_connected_monotone(mb, map, pc, (pc.0, nc.1));
                        lemma_connected_trans(map, pc, (pc.0, nc.1), nc);
                        assert forall|k: int| 0 <= k < rooms@.len() implies connected(
                            map,
                            rooms@[0].spec_center(),
                            (#[trigger] rooms@[k]).spec_center(),
                        ) by {
                            lemma_connected_monotone(
                                ma,
                                mb,
                                rooms@[0].spec_center(),
                                rooms@[k].spec_center(),
                            );
                            lemma_connected_monotone(
                                mb,
                                map,
                                rooms@[0].spec_center(),
                                rooms@[k].spec_center(),
                            );
                        }
                    }
                }
                proof {
                    assert(connected(map, pc, nc));
                    assert(connected(map, rooms@[0].spec_center(), pc));
                    lemma_connected_trans(map, rooms@[0].spec_center(), pc, nc);
                }
            }
            let ghost old_rooms = rooms@;
            rooms.push(new_room);
            proof {
                assert(rooms@ == old_rooms.push(new_room));
                let n = old_rooms.len() as int;
                assert forall|a: int, b: int|
                    0 <= a < rooms@.len() && 0 <= b < rooms@.len() && a != b implies !(
                #[trigger] rooms@[a]).spec_intersects(#[trigger] rooms@[b]) by {
                    if a < n && b < n {
                        assert(!old_rooms[a].spec_intersects(old_rooms[b]));
                    } else if a == n {
                        assert(!new_room.spec_intersects(old_rooms[b]));
                    } else {
                        assert(!new_room.spec_intersects(old_rooms[a]));
                        lemma_intersects_symmetric(old_rooms[a], new_room);
                    }
                }
                assert(rooms_disjoint(rooms@));
                assert forall|k: int| 0 <= k < rooms@.len() implies connected(
                    map,
                    rooms@[0].spec_center(),
                    (#[trigger] rooms@[k]).spec_center(),
                ) by {
                    if n == 0 {
                        assert(rooms@[k] == new_room);
                    } else if k < n {
                        assert(rooms@[k] == old_rooms[k]);
                    } else {
                        assert(rooms@[k] == new_room);
                    }
                }
                assert(rooms_connected(map, rooms@));
            }
        }
        attempt = attempt + 1;
    }
    GeneratedMap { map, rooms, spawn }
}

} // verus!
