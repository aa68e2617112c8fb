use dungeon::dungeon::{generate, Dungeon, MAX_ROOMS, ROOM_MAX_SIZE, ROOM_MIN_SIZE};
use dungeon::object::{Color, Object, MAX_ROOM_MONSTERS};
use dungeon::rect::Rect;
use dungeon::tile::Tile;
use rand::rngs::StdRng;
use rand::SeedableRng;

fn player() -> Vec<Object> {
    vec![Object::new(0, 0, '@', "player", Color { r: 255, g: 255, b: 255 }, true, true)]
}

fn build(seed: u64) -> (Dungeon, Vec<Object>) {
    let mut rng = StdRng::seed_from_u64(seed);
    let mut objects = player();
    let d = generate(80, 45, MAX_ROOMS, ROOM_MIN_SIZE, ROOM_MAX_SIZE, MAX_ROOM_MONSTERS, &mut rng, &mut objects);
    (d, objects)
}

fn interior_floor(d: &Dungeon, r: &Rect) -> bool {
    ((r.x1 + 1)..r.x2).all(|x| ((r.y1 + 1)..r.y2).all(|y| d.map.get(x, y) == Tile::empty()))
}

#[test]
fn rooms_are_pairwise_apart() {
    for seed in 0..20 {
        let (d, _) = build(seed);
        assert!(!d.rooms.is_empty());
        assert!(d.rooms.len() <= MAX_ROOMS as usize);
        for i in 0..d.rooms.len() {
            for j in 0..d.rooms.len() {
                if i != j {
                    assert!(!d.rooms[i].intersects_with(&d.rooms[j]));
                }
            }
        }
    }
}

#[test]
fn rooms_fit_and_have_drawn_sizes() {
    for seed in 0..20 {
        let (d, _) = build(seed);
        for r in &d.rooms {
            assert!(0 <= r.x1 && r.x2 < 80 && 0 <= r.y1 && r.y2 < 45);
            assert!((ROOM_MIN_SIZE..=ROOM_MAX_SIZE).contains(&(r.x2 - r.x1)));
            assert!((ROOM_MIN_SIZE..=ROOM_MAX_SIZE).contains(&(r.y2 - r.y1)));
        }
        assert_eq!(d.h_first.len(), d.rooms.len() - 1);
    }
}

#[test]
fn room_interiors_are_floor() {
    for seed in 0..20 {
        let (d, _) = build(seed);
        for r in &d.rooms {
            assert!(interior_floor(&d, r));
        }
    }
}

#[test]
fn floor_only_where_carved() {
    for seed in 0..10 {
        let (d, _) = build(seed);
        for y in 0..45 {
            for x in 0..80 {
                let in_room = d.rooms.iter().any(|r| r.x1 < x && x < r.x2 && r.y1 < y && y < r.y2);
                let on_corridor = (0..d.h_first.len()).any(|i| {
                    let (ax, ay) = d.rooms[i].center();
                    let (bx, by) = d.rooms[i + 1].center();
                    let h = |xa: i32, xb: i32, row: i32| y == row && xa.min(xb) <= x && x <= xa.max(xb);
                    let v = |ya: i32, yb: i32, col: i32| x == col && ya.min(yb) <= y && y <= ya.max(yb);
                    if d.h_first[i] {
                        h(ax, bx, ay) || v(ay, by, bx)
                    } else {
                        v(ay, by, ax) || h(ax, bx, by)
                    }
                });
                let expected = if in_room || on_corridor { Tile::empty() } else { Tile::wall() };
                assert_eq!(d.map.get(x, y), expected);
            }
        }
    }
}

#[test]
fn spawn_is_first_room_center() {
    for seed in 0..20 {
        let (d, _) = build(seed);
        assert_eq!(d.spawn, d.rooms[0].center());
        let r = d.rooms[0];
        assert_eq!(d.spawn, ((r.x1 + r.x2) / 2, (r.y1 + r.y2) / 2));
    }
}

#[test]
fn every_room_reachable_from_first() {
    for seed in 0..20 {
        let (d, _) = build(seed);
        let (w, h) = (d.map.width(), d.map.height());
        let mut seen = vec![false; (w * h) as usize];
        let start = d.rooms[0].center();
        let mut stack = vec![start];
        seen[(start.0 + start.1 * w) as usize] = true;
        while let Some((x, y)) = stack.pop() {
            for (dx, dy) in [(1, 0), (-1, 0), (0, 1), (0, -1)] {
                let (nx, ny) = (x + dx, y + dy);
                if nx >= 0 && ny >= 0 && nx < w && ny < h && !d.map.get(nx, ny).blocked {
                    let i = (nx + ny * w) as usize;
                    if !seen[i] {
                        seen[i] = true;
                        stack.push((nx, ny));
                    }
                }
            }
        }
        for r in d.rooms.iter().skip(1) {
            let (cx, cy) = r.center();
            assert!(seen[(cx + cy * w) as usize], "seed {} room {:?}", seed, r);
        }
    }
}

#[test]
fn same_seed_same_dungeon() {
    for seed in [1u64, 42, 9000] {
        let (a, oa) = build(seed);
        let (b, ob) = build(seed);
        assert_eq!(a.spawn, b.spawn);
        assert_eq!(a.rooms, b.rooms);
        assert_eq!(a.h_first, b.h_first);
        for y in 0..45 {
            for x in 0..80 {
                assert_eq!(a.map.get(x, y), b.map.get(x, y));
            }
        }
        let pa: Vec<(i32, i32)> = oa.iter().map(|o| o.pos()).collect();
        let pb: Vec<(i32, i32)> = ob.iter().map(|o| o.pos()).collect();
        assert_eq!(pa, pb);
    }
}

#[test]
fn zero_rooms_gives_solid_wall() {
    let mut rng = StdRng::seed_from_u64(3);
    let mut objects = player();
    let d = generate(80, 45, 0, ROOM_MIN_SIZE, ROOM_MAX_SIZE, MAX_ROOM_MONSTERS, &mut rng, &mut objects);
    assert!(d.rooms.is_empty());
    assert_eq!(d.spawn, (0, 0));
    for y in 0..45 {
        for x in 0..80 {
            assert_eq!(d.map.get(x, y), Tile::wall());
        }
    }
    assert_eq!(objects.len(), 1);
}

#[test]
fn rooms_wider_than_map_are_never_accepted() {
    let mut rng = StdRng::seed_from_u64(5);
    let mut objects = player();
    let d = generate(10, 45, 50, 11, 14, MAX_ROOM_MONSTERS, &mut rng, &mut objects);
    assert!(d.rooms.is_empty());
    assert_eq!(d.spawn, (0, 0));
    for y in 0..45 {
        for x in 0..10 {
            assert_eq!(d.map.get(x, y), Tile::wall());
        }
    }
    let d = generate(10, 45, 50, 10, 10, MAX_ROOM_MONSTERS, &mut rng, &mut objects);
    assert!(d.rooms.is_empty());
}

#[test]
fn monsters_block_and_stand_on_free_floor() {
    for seed in 0..20 {
        let (d, objects) = build(seed);
        assert_eq!(objects[0].name, "player");
        for i in 1..objects.len() {
            let o = &objects[i];
            assert!(o.blocks && o.alive);
            assert!(o.name == "orc" || o.name == "troll");
            assert!(d.map.get(o.x, o.y) == Tile::empty());
            assert!(d.rooms.iter().any(|r| r.x1 < o.x && o.x < r.x2 && r.y1 < o.y && o.y < r.y2));
            for j in 0..i {
                assert!(!(objects[j].blocks && objects[j].pos() == o.pos()));
            }
        }
        assert!(objects.len() - 1 <= d.rooms.len() * MAX_ROOM_MONSTERS as usize);
    }
}

#[test]
fn add_room_exact_layout() {
    let mut d = Dungeon::empty(20, 12);
    let a = Rect::new(1, 1, 4, 4); // centre (3, 3)
    let b = Rect::new(10, 6, 5, 4); // centre (12, 8)
    assert!(!d.overlaps_any(&a));
    d.add_room(a, true);
    assert_eq!(d.spawn, (3, 3));
    assert!(!d.overlaps_any(&b));
    d.add_room(b, true);
    assert_eq!(d.spawn, (3, 3));
    assert_eq!(d.h_first, vec![true]);
    assert!(d.overlaps_any(&Rect::new(0, 0, 2, 2)));
    // along row 3 from x = 3 to 12, then down column 12 to row 8
    for x in 3..=12 {
        assert_eq!(d.map.get(x, 3), Tile::empty());
    }
    for y in 3..=8 {
        assert_eq!(d.map.get(12, y), Tile::empty());
    }
    assert_eq!(d.map.get(3, 8), Tile::wall());
    assert_eq!(d.map.get(13, 3), Tile::wall());
}

#[test]
fn add_room_vertical_first() {
    let mut d = Dungeon::empty(20, 12);
    d.add_room(Rect::new(1, 1, 4, 4), false);
    d.add_room(Rect::new(10, 6, 5, 4), false);
    // down column 3 from row 3 to 8, then along row 8 to x = 12
    for y in 3..=8 {
        assert_eq!(d.map.get(3, y), Tile::empty());
    }
    for x in 3..=12 {
        assert_eq!(d.map.get(x, 8), Tile::empty());
    }
    assert_eq!(d.map.get(12, 4), Tile::wall());
}

#[test]
fn try_room_accepts_exactly_free_fitting_rooms() {
    let mut d = Dungeon::empty(20, 12);
    assert!(d.try_room(4, 4, 1, 1, false));
    assert_eq!(d.rooms, vec![Rect::new(1, 1, 4, 4)]);
    assert_eq!(d.spawn, (3, 3));
    // touches the first room along x = 5
    assert!(!d.try_room(3, 3, 5, 1, true));
    // off the map: last column and negative corner
    assert!(!d.try_room(5, 3, 15, 1, true));
    assert!(!d.try_room(3, 3, -1, 6, true));
    assert_eq!(d.rooms.len(), 1);
    assert!(d.h_first.is_empty());
    assert!(d.try_room(5, 4, 10, 6, true));
    assert_eq!(d.rooms.len(), 2);
    assert_eq!(d.h_first, vec![true]);
    for x in 3..=12 {
        assert_eq!(d.map.get(x, 3), Tile::empty());
    }
}

#[test]
fn one_attempt_that_always_fits_gives_a_room() {
    for seed in 0..20 {
        let mut rng = StdRng::seed_from_u64(seed);
        let mut objects = Vec::new();
        let d = generate(30, 20, 1, 3, 5, 2, &mut rng, &mut objects);
        assert_eq!(d.rooms.len(), 1);
        assert_eq!(d.spawn, d.rooms[0].center());
    }
}

#[test]
fn at_most_max_monsters_per_room() {
    for seed in 0..20 {
        let (d, objects) = build(seed);
        for r in &d.rooms {
            let n = objects[1..].iter().filter(|o| r.x1 < o.x && o.x < r.x2 && r.y1 < o.y && o.y < r.y2).count();
            assert!(n <= MAX_ROOM_MONSTERS as usize);
        }
    }
}
