use dungeon::object::{generate_monster_position, is_blocked, move_by, place_objects, Color, Object};
use dungeon::rect::Rect;
use dungeon::tile::{Tile, TileMap};
use rand::rngs::StdRng;
use rand::SeedableRng;

const WHITE: Color = Color { r: 255, g: 255, b: 255 };

fn open_map() -> TileMap {
    let mut m = TileMap::filled(8, 6, Tile::empty());
    m.set(0, 0, Tile::wall());
    m
}

#[test]
fn object_new_and_position() {
    let mut o = Object::new(3, 4, 'o', "orc", Color { r: 255, g: 0, b: 0 }, true, true);
    assert_eq!(o.pos(), (3, 4));
    assert_eq!(o.name, "orc");
    assert_eq!(o.glyph, 'o');
    assert!(o.blocks && o.alive);
    o.set_pos(5, 1);
    assert_eq!(o.pos(), (5, 1));
    assert_eq!(o.name, "orc");
}

#[test]
fn blocking_object_blocks_floor() {
    let m = open_map();
    let objects = vec![Object::new(2, 3, 'o', "orc", WHITE, true, true)];
    assert!(is_blocked(2, 3, &m, &objects));
    assert!(!is_blocked(3, 3, &m, &objects));
}

#[test]
fn wall_blocks_whatever_stands_there() {
    let m = open_map();
    assert!(is_blocked(0, 0, &m, &[]));
    let objects = vec![Object::new(0, 0, 'x', "ghost", WHITE, false, true)];
    assert!(is_blocked(0, 0, &m, &objects));
}

#[test]
fn non_blocking_object_does_not_block() {
    let m = open_map();
    let objects = vec![Object::new(4, 4, '!', "potion", WHITE, false, false)];
    assert!(!is_blocked(4, 4, &m, &objects));
}

#[test]
fn move_by_steps_onto_free_floor() {
    let m = open_map();
    let mut objects = vec![
        Object::new(2, 2, '@', "player", WHITE, true, true),
        Object::new(4, 2, 'o', "orc", WHITE, true, true),
    ];
    move_by(0, 1, 0, &m, &mut objects);
    assert_eq!(objects[0].pos(), (3, 2));
    // the orc is in the way
    move_by(0, 1, 0, &m, &mut objects);
    assert_eq!(objects[0].pos(), (3, 2));
    assert_eq!(objects[1].pos(), (4, 2));
    move_by(0, 0, -1, &m, &mut objects);
    assert_eq!(objects[0].pos(), (3, 1));
}

#[test]
fn move_by_refuses_a_wall() {
    let m = open_map();
    let mut objects = vec![Object::new(1, 0, '@', "player", WHITE, true, true)];
    move_by(0, -1, 0, &m, &mut objects);
    assert_eq!(objects[0].pos(), (1, 0));
}

#[test]
fn monster_position_inside_free_interior() {
    let m = TileMap::filled(10, 10, Tile::empty());
    let room = Rect::new(2, 2, 4, 4);
    let objects = vec![Object::new(3, 3, 'o', "orc", WHITE, true, true)];
    let mut rng = StdRng::seed_from_u64(11);
    for _ in 0..50 {
        let (x, y) = generate_monster_position(&room, &m, &objects, &mut rng).unwrap();
        assert!(2 < x && x < 6 && 2 < y && y < 6);
        assert_ne!((x, y), (3, 3));
    }
}

#[test]
fn monster_position_none_without_interior() {
    let m = TileMap::filled(10, 10, Tile::empty());
    let mut rng = StdRng::seed_from_u64(1);
    assert_eq!(generate_monster_position(&Rect::new(2, 2, 1, 5), &m, &[], &mut rng), None);
    assert_eq!(generate_monster_position(&Rect::new(2, 2, 5, 1), &m, &[], &mut rng), None);
}

#[test]
fn monster_position_gives_up_on_a_full_room() {
    let m = TileMap::filled(10, 10, Tile::empty());
    let room = Rect::new(2, 2, 2, 2); // interior is the single tile (3, 3)
    let objects = vec![Object::new(3, 3, 'o', "orc", WHITE, true, true)];
    let mut rng = StdRng::seed_from_u64(2);
    assert_eq!(generate_monster_position(&room, &m, &objects, &mut rng), None);
}

#[test]
fn place_objects_adds_blocking_monsters() {
    let m = TileMap::filled(12, 12, Tile::empty());
    let room = Rect::new(1, 1, 8, 8);
    for seed in 0..30 {
        let mut rng = StdRng::seed_from_u64(seed);
        let mut objects = vec![Object::new(5, 5, '@', "player", WHITE, true, true)];
        place_objects(room, &m, &mut objects, 3, &mut rng);
        assert!(objects.len() >= 1 && objects.len() <= 4);
        assert_eq!(objects[0].pos(), (5, 5));
        for i in 1..objects.len() {
            let o = &objects[i];
            assert!(o.blocks);
            assert!(1 < o.x && o.x < 9 && 1 < o.y && o.y < 9);
            for j in 0..i {
                assert_ne!(objects[j].pos(), o.pos());
            }
        }
    }
}

#[test]
fn place_objects_with_no_monsters_allowed() {
    let m = TileMap::filled(12, 12, Tile::empty());
    let mut rng = StdRng::seed_from_u64(9);
    let mut objects = Vec::new();
    place_objects(Rect::new(1, 1, 8, 8), &m, &mut objects, 0, &mut rng);
    assert!(objects.is_empty());
}

#[test]
fn place_monsters_in_a_free_room_adds_some() {
    let m = TileMap::filled(12, 12, Tile::empty());
    for seed in 0..20 {
        let mut rng = StdRng::seed_from_u64(seed);
        let mut objects = Vec::new();
        dungeon::object::place_monsters(Rect::new(1, 1, 6, 6), &m, &mut objects, 3, &mut rng);
        assert!(!objects.is_empty() && objects.len() <= 3);
        for o in &objects {
            assert!(o.blocks && 1 < o.x && o.x < 7 && 1 < o.y && o.y < 7);
        }
    }
}

#[test]
fn place_monsters_none_asked() {
    let m = TileMap::filled(12, 12, Tile::empty());
    let mut rng = StdRng::seed_from_u64(4);
    let mut objects = Vec::new();
    dungeon::object::place_monsters(Rect::new(1, 1, 6, 6), &m, &mut objects, 0, &mut rng);
    assert!(objects.is_empty());
}

#[test]
fn place_monsters_skips_a_full_room() {
    let m = TileMap::filled(10, 10, Tile::empty());
    let mut rng = StdRng::seed_from_u64(6);
    let mut objects = vec![Object::new(3, 3, 'o', "orc", WHITE, true, true)];
    dungeon::object::place_monsters(Rect::new(2, 2, 2, 2), &m, &mut objects, 2, &mut rng);
    assert_eq!(objects.len(), 1);
}
