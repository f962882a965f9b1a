use dungeon_core::grid::Grid;
use dungeon_core::object::Color;
use dungeon_core::object::Object;
use dungeon_core::rect::Rect;
use dungeon_core::tile::Tile;

#[test]
fn tile_empty_is_passable_and_transparent() {
    let t = Tile::empty();
    assert!(!t.blocked);
    assert!(!t.block_sight);
}

#[test]
fn tile_wall_blocks_movement_and_sight() {
    let t = Tile::wall();
    assert!(t.blocked);
    assert!(t.block_sight);
}

#[test]
fn rect_new_spans_half_open_box() {
    let r = Rect::new(1, 2, 3, 4);
    assert_eq!(r.x1, 1);
    assert_eq!(r.y1, 2);
    assert_eq!(r.x2, 4);
    assert_eq!(r.y2, 6);
}

#[test]
fn rect_center_truncates_toward_origin() {
    let r = Rect::new(1, 1, 3, 3);
    assert_eq!(r.center(), (2, 2));
    let s = Rect::new(0, 0, 4, 4);
    assert_eq!(s.center(), (2, 2));
    let t = Rect::new(5, 5, 4, 4);
    assert_eq!(t.center(), (7, 7));
}

#[test]
fn new_grid_is_all_wall() {
    let g = Grid::new(4, 3);
    for x in 0..4 {
        for y in 0..3 {
            let t = g.tile_at(x, y).unwrap();
            assert!(t.blocked);
            assert!(t.block_sight);
        }
    }
}

#[test]
fn tile_at_rejects_out_of_bounds() {
    let g = Grid::new(4, 3);
    assert!(g.tile_at(-1, 0).is_none());
    assert!(g.tile_at(0, -1).is_none());
    assert!(g.tile_at(4, 0).is_none());
    assert!(g.tile_at(0, 3).is_none());
}

// Scenario: a 10×10 grid of all wall; carving Rect::new(1,1,3,3) empties
// (2,2) and leaves the border cell (0,0) a wall.
#[test]
fn carve_room_empties_interior_only() {
    let mut g = Grid::new(10, 10);
    assert!(g.carve_room(Rect::new(1, 1, 3, 3)));
    assert!(!g.tile_at(2, 2).unwrap().blocked);
    assert!(g.tile_at(0, 0).unwrap().blocked);
    // the one-tile border of the bounding box stays solid
    assert!(g.tile_at(1, 1).unwrap().blocked);
    assert!(g.tile_at(4, 4).unwrap().blocked);
    assert!(g.tile_at(2, 3).unwrap().blocked == false);
}

#[test]
fn carve_room_out_of_bounds_fails_and_changes_nothing() {
    let mut g = Grid::new(5, 5);
    assert!(!g.carve_room(Rect::new(2, 2, 4, 4)));
    for x in 0..5 {
        for y in 0..5 {
            assert!(g.tile_at(x, y).unwrap().blocked);
        }
    }
}

// Scenario: bounding boxes that overlap (or merely touch) intersect, so the
// generator would reject the second room.
#[test]
fn overlapping_rooms_intersect() {
    let a = Rect::new(0, 0, 4, 4);
    let b = Rect::new(3, 3, 4, 4);
    assert!(a.intersects_with(&b));
    assert!(b.intersects_with(&a));
}

// Scenario: disjoint bounding boxes do not intersect, and an L-shaped tunnel
// carve leaves the whole bent path between the two centers empty.
#[test]
fn disjoint_rooms_connected_by_l_tunnel() {
    let a = Rect::new(0, 0, 4, 4);
    let b = Rect::new(5, 5, 4, 4);
    assert!(!a.intersects_with(&b));
    let mut g = Grid::new(12, 12);
    assert!(g.carve_room(a));
    assert!(g.carve_room(b));
    let (ax, ay) = a.center();
    let (bx, by) = b.center();
    assert_eq!((ax, ay), (2, 2));
    assert_eq!((bx, by), (7, 7));
    assert!(g.carve_h_tunnel(ax, bx, ay));
    assert!(g.carve_v_tunnel(ay, by, bx));
    for x in ax..=bx {
        assert!(!g.tile_at(x, ay).unwrap().blocked);
    }
    for y in ay..=by {
        assert!(!g.tile_at(bx, y).unwrap().blocked);
    }
}

#[test]
fn h_tunnel_argument_order_is_irrelevant() {
    let mut g1 = Grid::new(8, 8);
    let mut g2 = Grid::new(8, 8);
    assert!(g1.carve_h_tunnel(1, 6, 3));
    assert!(g2.carve_h_tunnel(6, 1, 3));
    for x in 0..8 {
        for y in 0..8 {
            assert_eq!(g1.tile_at(x, y), g2.tile_at(x, y));
        }
    }
}

#[test]
fn v_tunnel_argument_order_is_irrelevant() {
    let mut g1 = Grid::new(8, 8);
    let mut g2 = Grid::new(8, 8);
    assert!(g1.carve_v_tunnel(2, 7, 4));
    assert!(g2.carve_v_tunnel(7, 2, 4));
    for x in 0..8 {
        for y in 0..8 {
            assert_eq!(g1.tile_at(x, y), g2.tile_at(x, y));
        }
    }
}

#[test]
fn tunnel_out_of_bounds_fails_and_changes_nothing() {
    let mut g = Grid::new(5, 5);
    assert!(!g.carve_h_tunnel(0, 5, 2));
    assert!(!g.carve_h_tunnel(-1, 3, 2));
    assert!(!g.carve_v_tunnel(0, 3, 5));
    for x in 0..5 {
        for y in 0..5 {
            assert!(g.tile_at(x, y).unwrap().blocked);
        }
    }
}

// Carving the same room or tunnel twice yields an identical grid to carving
// it once.
#[test]
fn carving_twice_is_carving_once() {
    let mut once = Grid::new(10, 10);
    let mut twice = Grid::new(10, 10);
    let room = Rect::new(1, 1, 5, 4);
    assert!(once.carve_room(room));
    assert!(twice.carve_room(room));
    assert!(twice.carve_room(room));
    assert!(once.carve_h_tunnel(0, 9, 8));
    assert!(twice.carve_h_tunnel(0, 9, 8));
    assert!(twice.carve_h_tunnel(0, 9, 8));
    assert!(once.carve_v_tunnel(0, 9, 9));
    assert!(twice.carve_v_tunnel(0, 9, 9));
    assert!(twice.carve_v_tunnel(0, 9, 9));
    for x in 0..10 {
        for y in 0..10 {
            assert_eq!(once.tile_at(x, y), twice.tile_at(x, y));
        }
    }
}

#[test]
fn visibility_adapter_reports_per_cell_facts() {
    let mut g = Grid::new(6, 6);
    assert!(g.carve_room(Rect::new(0, 0, 5, 5)));
    assert_eq!(g.is_transparent(2, 2), Some(true));
    assert_eq!(g.is_transparent(0, 0), Some(false));
    assert_eq!(g.is_transparent(6, 0), None);
    assert!(g.is_walkable(2, 2));
    assert!(!g.is_walkable(0, 0));
    assert!(!g.is_walkable(-1, 2));
}

#[test]
fn move_into_empty_cell_updates_position() {
    let mut g = Grid::new(10, 10);
    assert!(g.carve_room(Rect::new(0, 0, 9, 9)));
    let mut o = Object::new(2, 2, '@', Color { r: 255, g: 255, b: 255 });
    assert!(o.move_by(1, 0, &g));
    assert_eq!((o.x, o.y), (3, 2));
    assert!(o.move_by(0, 1, &g));
    assert_eq!((o.x, o.y), (3, 3));
}

#[test]
fn move_into_blocked_cell_is_a_no_op() {
    let mut g = Grid::new(10, 10);
    assert!(g.carve_room(Rect::new(0, 0, 9, 9)));
    // (1,1) is interior; (0,1) is border wall
    let mut o = Object::new(1, 1, '@', Color { r: 255, g: 255, b: 255 });
    assert!(!o.move_by(-1, 0, &g));
    assert_eq!((o.x, o.y), (1, 1));
}

#[test]
fn move_off_grid_is_rejected() {
    let g = Grid::new(10, 10);
    let mut o = Object::new(0, 0, '@', Color { r: 255, g: 255, b: 255 });
    assert!(!o.move_by(-1, 0, &g));
    assert_eq!((o.x, o.y), (0, 0));
    assert!(!o.move_by(0, -1, &g));
    assert_eq!((o.x, o.y), (0, 0));
    assert!(!o.move_by(-100, -100, &g));
    assert_eq!((o.x, o.y), (0, 0));
    let mut p = Object::new(9, 9, '@', Color { r: 0, g: 0, b: 0 });
    assert!(!p.move_by(1, 0, &g));
    assert_eq!((p.x, p.y), (9, 9));
}

#[test]
fn move_preserves_glyph_and_color() {
    let mut g = Grid::new(10, 10);
    assert!(g.carve_room(Rect::new(0, 0, 9, 9)));
    let mut o = Object::new(2, 2, '@', Color { r: 1, g: 2, b: 3 });
    assert!(o.move_by(1, 1, &g));
    assert_eq!(o.glyph, '@');
    assert_eq!(o.color, Color { r: 1, g: 2, b: 3 });
}
