use dungeon_core::components::Color;
use dungeon_core::map::{
    GameMap, Shade, Tile, MAX_ROOMS, ROOM_MAX_SIZE, ROOM_MIN_SIZE, TORCH_RADIUS,
};
use dungeon_core::random::Rng;
use dungeon_core::rect::Rect;

fn reachable(map: &GameMap, from: (i32, i32)) -> Vec<(i32, i32)> {
    let mut seen = vec![from];
    let mut todo = vec![from];
    while let Some((x, y)) = todo.pop() {
        for next in [(x + 1, y), (x - 1, y), (x, y + 1), (x, y - 1)] {
            if map.can_walk(next.0, next.1) && !seen.contains(&next) {
                seen.push(next);
                todo.push(next);
            }
        }
    }
    seen
}

#[test]
fn tile_kinds() {
    assert_eq!(Tile::empty(), Tile { blocked: false, block_sight: false });
    assert_eq!(Tile::wall(), Tile { blocked: true, block_sight: true });
}

#[test]
fn a_new_map_is_all_wall() {
    let map = GameMap::new(7, 5);
    assert_eq!((map.width(), map.height()), (7, 5));
    assert!(map.rooms().is_empty());
    for y in 0..5 {
        for x in 0..7 {
            assert_eq!(map.get(x, y), Tile::wall());
            assert!(!map.can_walk(x, y));
            assert!(!map.is_in_fov(x, y));
            assert!(!map.is_explored(x, y));
        }
    }
}

#[test]
fn outside_the_map_nothing_can_be_walked_on() {
    let mut map = GameMap::new(4, 4);
    map.create_room(Rect::new(-1, -1, 6, 6));
    assert!(map.can_walk(0, 0));
    assert!(map.can_walk(3, 3));
    assert!(!map.can_walk(-1, 0));
    assert!(!map.can_walk(0, -1));
    assert!(!map.can_walk(4, 0));
    assert!(!map.can_walk(0, 4));
    assert!(!map.can_walk(i32::MAX, i32::MAX));
    assert_eq!(map.get(-1, 0), Tile::wall());
}

#[test]
fn set_tile_changes_one_tile() {
    let mut map = GameMap::new(3, 3);
    map.set_tile(1, 2, Tile::empty());
    assert!(map.can_walk(1, 2));
    assert!(!map.can_walk(2, 1));
    map.set_tile(1, 2, Tile::wall());
    assert!(!map.can_walk(1, 2));
    map.set_tile(5, 5, Tile::empty());
    map.set_tile(-1, 0, Tile::empty());
}

#[test]
fn create_room_carves_the_interior_only() {
    let mut map = GameMap::new(10, 10);
    let room = Rect::new(2, 3, 5, 4);
    map.create_room(room);
    for y in 0..10 {
        for x in 0..10 {
            let inside = 2 < x && x < 7 && 3 < y && y < 7;
            assert_eq!(map.can_walk(x, y), inside, "cell ({x}, {y})");
        }
    }
}

#[test]
fn tunnels_run_in_either_direction() {
    let mut map = GameMap::new(10, 10);
    map.create_h_tunnel(7, 2, 4);
    for x in 0..10 {
        assert_eq!(map.can_walk(x, 4), (2..=7).contains(&x));
    }
    map.create_v_tunnel(1, 8, 5);
    for y in 0..10 {
        assert_eq!(map.can_walk(5, y), (1..=8).contains(&y));
    }
    assert!(!map.can_walk(1, 1));
}

#[test]
fn tunnels_are_clipped_to_the_map() {
    let mut map = GameMap::new(5, 5);
    map.create_h_tunnel(-10, 20, 2);
    map.create_v_tunnel(i32::MIN, i32::MAX, 1);
    map.create_h_tunnel(0, 4, 7);
    for x in 0..5 {
        assert!(map.can_walk(x, 2));
    }
    for y in 0..5 {
        assert!(map.can_walk(1, y));
    }
    assert!(!map.can_walk(0, 0));
}

#[test]
fn generated_rooms_lie_inside_the_map_and_apart() {
    for seed in 0..20 {
        let mut map = GameMap::new(80, 35);
        let mut rng = Rng::new_with_seed(seed);
        map.generate_map(&mut rng);
        let rooms = map.rooms().clone();
        assert!(!rooms.is_empty());
        assert!(rooms.len() <= MAX_ROOMS as usize);
        for (i, r) in rooms.iter().enumerate() {
            assert!(0 <= r.x1 && r.x2 <= 80 && 0 <= r.y1 && r.y2 <= 35);
            let (w, h) = (r.x2 - r.x1, r.y2 - r.y1);
            assert!(ROOM_MIN_SIZE <= w && w <= ROOM_MAX_SIZE + 1);
            assert!(ROOM_MIN_SIZE <= h && h <= ROOM_MAX_SIZE + 1);
            for other in &rooms[i + 1..] {
                assert!(!r.intersects_with(other));
                assert!(!other.intersects_with(r));
            }
        }
    }
}

#[test]
fn generation_returns_the_center_of_the_first_room() {
    let mut map = GameMap::new(80, 35);
    let mut rng = Rng::new_with_seed(42);
    let start = map.generate_map(&mut rng);
    assert_eq!(start, map.rooms()[0].center());
    assert!(map.can_walk(start.0, start.1));
}

#[test]
fn every_room_is_reachable_from_the_start() {
    for seed in [1, 2, 3, 42, 1000] {
        let mut map = GameMap::new(80, 35);
        let mut rng = Rng::new_with_seed(seed);
        let start = map.generate_map(&mut rng);
        let reached = reachable(&map, start);
        for room in map.rooms().clone() {
            for y in room.y1 + 1..room.y2 {
                for x in room.x1 + 1..room.x2 {
                    assert!(map.can_walk(x, y));
                    assert!(reached.contains(&(x, y)), "seed {seed}: cell ({x}, {y})");
                }
            }
        }
    }
}

#[test]
fn floor_is_found_only_in_rooms_and_corridors() {
    let mut map = GameMap::new(60, 30);
    let mut rng = Rng::new_with_seed(5);
    map.generate_map(&mut rng);
    let rooms = map.rooms().clone();
    let between = |a: i32, p: i32, q: i32| (p <= a && a <= q) || (q <= a && a <= p);
    for y in 0..30 {
        for x in 0..60 {
            if !map.can_walk(x, y) {
                assert_eq!(map.get(x, y), Tile::wall());
                continue;
            }
            assert_eq!(map.get(x, y), Tile::empty());
            let in_room = rooms.iter().any(|r| r.x1 < x && x < r.x2 && r.y1 < y && y < r.y2);
            let on_corridor = rooms.windows(2).any(|pair| {
                let (p, n) = (pair[0].center(), pair[1].center());
                (y == p.1 && between(x, p.0, n.0))
                    || (x == n.0 && between(y, p.1, n.1))
                    || (x == p.0 && between(y, p.1, n.1))
                    || (y == n.1 && between(x, p.0, n.0))
            });
            assert!(in_room || on_corridor, "cell ({x}, {y})");
        }
    }
}

#[test]
fn a_map_too_small_for_rooms_falls_back_to_the_corner() {
    let mut map = GameMap::new(5, 5);
    let mut rng = Rng::new_with_seed(42);
    assert_eq!(map.generate_map(&mut rng), (0, 0));
    assert!(map.rooms().is_empty());
    for y in 0..5 {
        for x in 0..5 {
            assert!(!map.can_walk(x, y));
        }
    }
}

#[test]
fn an_empty_map_generates_nothing() {
    let mut map = GameMap::new(0, 0);
    let mut rng = Rng::new_with_seed(1);
    assert_eq!(map.generate_map(&mut rng), (0, 0));
    assert!(map.render().is_empty());
}

#[test]
fn generation_is_repeatable_for_a_seed() {
    let mut a = GameMap::new(80, 35);
    let mut b = GameMap::new(80, 35);
    let sa = a.generate_map(&mut Rng::new_with_seed(77));
    let sb = b.generate_map(&mut Rng::new_with_seed(77));
    assert_eq!(sa, sb);
    assert_eq!(a.rooms(), b.rooms());
}

#[test]
fn generation_computes_the_view_from_the_start() {
    let mut map = GameMap::new(80, 35);
    let mut rng = Rng::new_with_seed(42);
    let (sx, sy) = map.generate_map(&mut rng);
    assert!(map.is_in_fov(sx, sy));
    assert!(map.is_explored(sx, sy));
    assert!(map.is_in_fov(sx + 1, sy));
    for y in 0..35 {
        for x in 0..80 {
            if map.is_in_fov(x, y) {
                let (dx, dy) = (x - sx, y - sy);
                assert!(dx * dx + dy * dy <= TORCH_RADIUS * TORCH_RADIUS);
                assert!(map.is_explored(x, y));
            }
        }
    }
}

#[test]
fn recompute_fov_sees_through_floor_after_sync() {
    let mut map = GameMap::new(20, 5);
    map.create_h_tunnel(1, 18, 2);
    map.recompute_fov(1, 2);
    assert!(map.is_in_fov(1, 2));
    assert!(!map.is_in_fov(3, 2));
    map.sync_fov();
    assert!(!map.is_in_fov(3, 2));
    map.recompute_fov(1, 2);
    assert!(map.is_in_fov(3, 2));
    assert!(map.is_in_fov(11, 2));
    assert!(!map.is_in_fov(12, 2));
    assert!(map.is_in_fov(2, 1));
    map.recompute_fov(18, 2);
    assert!(!map.is_in_fov(3, 2));
    assert!(map.is_explored(3, 2));
}

#[test]
fn shades_have_four_distinct_colors() {
    let colors = [
        Shade::Unseen.color(),
        Shade::Remembered.color(),
        Shade::LitWall.color(),
        Shade::LitGround.color(),
    ];
    assert_eq!(colors[0], Color { r: 0, g: 0, b: 100 });
    assert_eq!(colors[1], Color { r: 50, g: 50, b: 150 });
    assert_eq!(colors[2], Color { r: 130, g: 110, b: 50 });
    assert_eq!(colors[3], Color { r: 200, g: 180, b: 50 });
    for i in 0..4 {
        for j in i + 1..4 {
            assert_ne!(colors[i], colors[j]);
        }
    }
}

#[test]
fn classify_goes_by_view_then_memory() {
    assert_eq!(Shade::classify(true, true, true), Shade::LitWall);
    assert_eq!(Shade::classify(true, true, false), Shade::LitGround);
    assert_eq!(Shade::classify(true, false, false), Shade::LitGround);
    assert_eq!(Shade::classify(false, true, true), Shade::Remembered);
    assert_eq!(Shade::classify(false, true, false), Shade::Remembered);
    assert_eq!(Shade::classify(false, false, true), Shade::Unseen);
    assert_eq!(Shade::classify(false, false, false), Shade::Unseen);
}

#[test]
fn render_paints_each_tile_by_its_shade() {
    let mut map = GameMap::new(20, 3);
    map.create_h_tunnel(1, 18, 1);
    map.sync_fov();
    map.recompute_fov(2, 1);
    map.recompute_fov(17, 1);
    let colors = map.render();
    assert_eq!(colors.len(), 60);
    let at = |x: i32, y: i32| colors[(x + y * 20) as usize];
    assert_eq!(at(17, 1), Shade::LitGround.color());
    assert_eq!(at(17, 0), Shade::LitWall.color());
    assert_eq!(at(2, 1), Shade::Remembered.color());
    assert_eq!(at(2, 0), Shade::Remembered.color());
    let mut unseen = GameMap::new(2, 2);
    unseen.recompute_fov(-5, -5);
    assert_eq!(unseen.render(), vec![Shade::Unseen.color(); 4]);
}

#[test]
fn a_room_can_be_placed_if_it_fits_and_is_apart() {
    let mut map = GameMap::new(30, 20);
    assert!(map.can_place(&Rect::new(0, 0, 6, 6)));
    assert!(map.can_place(&Rect::new(24, 14, 6, 6)));
    assert!(map.can_place(&Rect::new(3, 3, 2, 2)));
    assert!(!map.can_place(&Rect::new(25, 14, 6, 6)));
    assert!(!map.can_place(&Rect::new(24, 15, 6, 6)));
    assert!(!map.can_place(&Rect::new(-1, 0, 6, 6)));
    assert!(!map.can_place(&Rect::new(0, -1, 6, 6)));
    assert!(!map.can_place(&Rect::new(3, 3, 1, 6)));
    assert!(!map.can_place(&Rect::new(3, 3, 6, 1)));
    assert!(!map.can_place(&Rect { x1: 8, y1: 2, x2: 3, y2: 9 }));
    map.place_room(Rect::new(5, 5, 6, 6), false);
    assert!(!map.can_place(&Rect::new(5, 5, 6, 6)));
    assert!(!map.can_place(&Rect::new(11, 5, 6, 6)));
    assert!(!map.can_place(&Rect::new(0, 0, 6, 5)));
    assert!(map.can_place(&Rect::new(12, 5, 6, 6)));
    assert!(map.can_place(&Rect::new(0, 0, 4, 4)));
}

#[test]
fn the_first_room_is_carved_without_a_corridor() {
    let mut map = GameMap::new(30, 20);
    let room = Rect::new(1, 1, 6, 6);
    map.place_room(room, true);
    assert_eq!(map.rooms(), &vec![room]);
    for y in 0..20 {
        for x in 0..30 {
            assert_eq!(map.can_walk(x, y), 1 < x && x < 7 && 1 < y && y < 7);
        }
    }
}

#[test]
fn a_corridor_bends_as_asked() {
    let first = Rect::new(1, 1, 6, 6);
    let second = Rect::new(15, 10, 6, 6);
    assert_eq!((first.center(), second.center()), ((4, 4), (18, 13)));
    for horizontal_first in [true, false] {
        let mut map = GameMap::new(30, 20);
        map.place_room(first, !horizontal_first);
        map.place_room(second, horizontal_first);
        assert_eq!(map.rooms(), &vec![first, second]);
        for y in 0..20 {
            for x in 0..30 {
                let in_room = (1 < x && x < 7 && 1 < y && y < 7)
                    || (15 < x && x < 21 && 10 < y && y < 16);
                let on_bend = if horizontal_first {
                    (y == 4 && (4..=18).contains(&x)) || (x == 18 && (4..=13).contains(&y))
                } else {
                    (x == 4 && (4..=13).contains(&y)) || (y == 13 && (4..=18).contains(&x))
                };
                assert_eq!(map.can_walk(x, y), in_room || on_bend, "cell ({x}, {y})");
            }
        }
    }
}

#[test]
fn forgetting_rooms_keeps_the_tiles() {
    let mut map = GameMap::new(30, 20);
    map.place_room(Rect::new(1, 1, 6, 6), true);
    map.forget_rooms();
    assert!(map.rooms().is_empty());
    assert!(map.can_walk(3, 3));
    assert!(map.can_place(&Rect::new(1, 1, 6, 6)));
}

#[test]
fn generating_twice_forgets_the_first_rooms_but_keeps_their_floor() {
    let mut map = GameMap::new(80, 35);
    map.generate_map(&mut Rng::new_with_seed(1));
    let old_rooms = map.rooms().clone();
    let floor = |m: &GameMap| -> Vec<bool> {
        (0..35).flat_map(|y| (0..80).map(move |x| (x, y))).map(|(x, y)| m.can_walk(x, y)).collect()
    };
    let before = floor(&map);
    map.generate_map(&mut Rng::new_with_seed(2));
    assert_ne!(map.rooms(), &old_rooms);
    let after = floor(&map);
    for (was, is) in before.iter().zip(after.iter()) {
        assert!(!was || *is);
    }
}

#[test]
fn a_map_that_holds_any_room_gets_one_and_a_floor_start() {
    for (width, height) in [(11, 11), (12, 30), (80, 35)] {
        for seed in 0..50 {
            let mut map = GameMap::new(width, height);
            let start = map.generate_map(&mut Rng::new_with_seed(seed));
            assert!(!map.rooms().is_empty(), "{width}x{height}, seed {seed}");
            assert!(map.can_walk(start.0, start.1));
        }
    }
}

#[test]
fn one_bend_between_consecutive_rooms_is_all_floor() {
    let between = |a: i32, p: i32, q: i32| (p <= a && a <= q) || (q <= a && a <= p);
    for seed in 0..30 {
        let mut map = GameMap::new(80, 35);
        map.generate_map(&mut Rng::new_with_seed(seed));
        for pair in map.rooms().clone().windows(2) {
            let (p, n) = (pair[0].center(), pair[1].center());
            let mut horizontal_first = true;
            let mut vertical_first = true;
            for y in 0..35 {
                for x in 0..80 {
                    let floor = map.can_walk(x, y);
                    if (y == p.1 && between(x, p.0, n.0)) || (x == n.0 && between(y, p.1, n.1)) {
                        horizontal_first &= floor;
                    }
                    if (x == p.0 && between(y, p.1, n.1)) || (y == n.1 && between(x, p.0, n.0)) {
                        vertical_first &= floor;
                    }
                }
            }
            assert!(horizontal_first || vertical_first, "seed {seed}");
        }
    }
}
