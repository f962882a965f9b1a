use dungeon_core::dungeon::GenConfig;
use dungeon_core::dungeon::GeneratedMap;
use dungeon_core::dungeon::make_map;
use dungeon_core::grid::Grid;
use dungeon_core::rng::Rng;

fn demo_config() -> GenConfig {
    GenConfig { width: 40, height: 30, max_rooms: 12, room_min_size: 4, room_max_size: 8 }
}

fn generate(seed: u64) -> GeneratedMap {
    let cfg = demo_config();
    assert!(cfg.is_valid());
    let mut rng = Rng::new(seed);
    make_map(&cfg, &mut rng)
}

// Breadth-first search over empty (non-blocking) cells.
fn reachable_from(g: &Grid, start: (i32, i32), goal: (i32, i32)) -> bool {
    let mut visited: Vec<(i32, i32)> = Vec::new();
    let mut frontier: Vec<(i32, i32)> = vec![start];
    if !g.is_walkable(start.0, start.1) {
        return false;
    }
    while let Some((x, y)) = frontier.pop() {
        if (x, y) == goal {
            return true;
        }
        if visited.contains(&(x, y)) {
            continue;
        }
        visited.push((x, y));
        for (dx, dy) in [(1, 0), (-1, 0), (0, 1), (0, -1)] {
            let (nx, ny) = (x + dx, y + dy);
            if g.is_walkable(nx, ny) && !visited.contains(&(nx, ny)) {
                frontier.push((nx, ny));
            }
        }
    }
    false
}

#[test]
fn generator_accepts_at_least_one_room() {
    let out = generate(42);
    assert!(!out.rooms.is_empty());
    assert!(out.rooms.len() <= 12);
}

#[test]
fn generated_rooms_do_not_intersect_pairwise() {
    for seed in [1u64, 7, 42, 1234, 987654321] {
        let out = generate(seed);
        for i in 0..out.rooms.len() {
            for j in 0..out.rooms.len() {
                if i != j {
                    assert!(!out.rooms[i].intersects_with(&out.rooms[j]));
                }
            }
        }
    }
}

#[test]
fn generated_rooms_fit_on_the_grid_with_configured_sizes() {
    let out = generate(42);
    for r in &out.rooms {
        assert!(0 <= r.x1 && r.x2 <= 40 && 0 <= r.y1 && r.y2 <= 30);
        assert!(4 <= r.x2 - r.x1 && r.x2 - r.x1 <= 8);
        assert!(4 <= r.y2 - r.y1 && r.y2 - r.y1 <= 8);
    }
}

#[test]
fn spawn_is_first_room_center_and_walkable() {
    let out = generate(42);
    let spawn = out.spawn.unwrap();
    assert_eq!(spawn, out.rooms[0].center());
    assert!(out.map.is_walkable(spawn.0, spawn.1));
}

#[test]
fn every_room_center_is_reachable_from_spawn() {
    for seed in [1u64, 7, 42, 1234, 987654321] {
        let out = generate(seed);
        let spawn = out.spawn.unwrap();
        for r in &out.rooms {
            let c = r.center();
            assert!(out.map.is_walkable(c.0, c.1));
            assert!(reachable_from(&out.map, spawn, c));
        }
    }
}

#[test]
fn zero_attempts_leave_the_grid_all_wall_with_no_spawn() {
    let cfg = GenConfig { width: 20, height: 15, max_rooms: 0, room_min_size: 4, room_max_size: 8 };
    assert!(cfg.is_valid());
    let mut rng = Rng::new(5);
    let out = make_map(&cfg, &mut rng);
    assert!(out.rooms.is_empty());
    assert!(out.spawn.is_none());
    for x in 0..20 {
        for y in 0..15 {
            assert!(out.map.tile_at(x, y).unwrap().blocked);
        }
    }
}

#[test]
fn generation_is_reproducible_from_the_seed() {
    let a = generate(77);
    let b = generate(77);
    assert_eq!(a.rooms, b.rooms);
    assert_eq!(a.spawn, b.spawn);
    for x in 0..40 {
        for y in 0..30 {
            assert_eq!(a.map.tile_at(x, y), b.map.tile_at(x, y));
        }
    }
}

#[test]
fn invalid_configurations_are_recognized() {
    let mut cfg = demo_config();
    cfg.room_min_size = 1;
    assert!(!cfg.is_valid());
    let mut cfg = demo_config();
    cfg.room_max_size = cfg.width;
    assert!(!cfg.is_valid());
    let mut cfg = demo_config();
    cfg.max_rooms = -1;
    assert!(!cfg.is_valid());
    let mut cfg = demo_config();
    cfg.room_min_size = 9;
    assert!(!cfg.is_valid());
}

#[test]
fn every_generated_cell_is_fully_empty_or_fully_wall() {
    let out = generate(42);
    for x in 0..40 {
        for y in 0..30 {
            let t = out.map.tile_at(x, y).unwrap();
            assert_eq!(t.blocked, t.block_sight);
        }
    }
}

#[test]
fn rng_draws_stay_in_range() {
    let mut rng = Rng::new(99);
    for _ in 0..1000 {
        let v = rng.range_inclusive(3, 9);
        assert!((3..=9).contains(&v));
    }
    let mut rng = Rng::new(0);
    for _ in 0..100 {
        let v = rng.range_inclusive(-5, 5);
        assert!((-5..=5).contains(&v));
    }
    let mut rng = Rng::new(7);
    for _ in 0..100 {
        assert_eq!(rng.range_inclusive(4, 4), 4);
    }
}
