use crate::random::{draw_bool, draw_range};
use crate::rect::Rect;
use crate::tile::TileMap;
use rand::rngs::StdRng;
use vstd::prelude::*;

verus! {

/// Most monsters placed in one room.
pub const MAX_ROOM_MONSTERS: i32 = 3;

/// Spots drawn for one monster before its placement is given up.
pub const MAX_PLACEMENT_TRIES: u32 = 100;

/// An RGB colour, as the drawing layer takes it.
#[derive(Clone, Copy, Debug, PartialEq, Eq, Structural)]
pub struct Color {
    pub r: u8,
    pub g: u8,
    pub b: u8,
}

/// Something standing on the map: the player or a monster.
#[derive(Debug)]
pub struct Object {
    pub x: i32,
    pub y: i32,
    pub glyph: char,
    pub color: Color,
    pub name: String,
    pub blocks: bool,
    pub alive: bool,
}

impl Object {
    pub fn new(x: i32, y: i32, glyph: char, name: &str, color: Color, blocks: bool, alive: bool) -> (o: Object)
        ensures
            o.x == x,
            o.y == y,
            o.glyph == glyph,
            o.color == color,
            o.name@ == name@,
            o.blocks == blocks,
            o.alive == alive,
    {
        Object { x, y, glyph, color, name: name.to_owned(), blocks, alive }
    }

    pub fn pos(&self) -> (p: (i32, i32))
        ensures
            p == (self.x, self.y),
    {
        (self.x, self.y)
    }

    pub fn set_pos(&mut self, x: i32, y: i32)
        ensures
            final(self).x == x,
            final(self).y == y,
            final(self).glyph == old(self).glyph,
            final(self).color == old(self).color,
            final(self).name == old(self).name,
            final(self).blocks == old(self).blocks,
            final(self).alive == old(self).alive,
    {
        self.x = x;
        self.y = y;
    }
}

/// Some blocking object stands at `(x, y)`.
pub open spec fn occupied(objects: Seq<Object>, x: int, y: int) -> bool {
    exists|i: int| 0 <= i < objects.len() && #[trigger] objects[i].blocks && objects[i].x == x && objects[i].y == y
}

/// `(x, y)` cannot be entered: its tile is blocked or a blocking object stands there.
pub open spec fn spec_is_blocked(tmap: TileMap, objects: Seq<Object>, x: int, y: int) -> bool {
    tmap.at(x, y).blocked || occupied(objects, x, y)
}

/// A spot is blocked when a blocking object stands on it, even on floor, and
/// when its tile is a wall, whatever stands there.
pub proof fn lemma_blocked_by_object_or_wall(tmap: TileMap, objects: Seq<Object>, x: int, y: int)
    ensures
        occupied(objects, x, y) ==> spec_is_blocked(tmap, objects, x, y),
        tmap.at(x, y).blocked ==> spec_is_blocked(tmap, objects, x, y),
{
}

pub fn is_blocked(x: i32, y: i32, tmap: &TileMap, objects: &[Object]) -> (r: bool)
    requires
        tmap.wf(),
        tmap.in_bounds(x as int, y as int),
    ensures
        r == spec_is_blocked(*tmap, objects@, x as int, y as int),
{
    // first test the map tile
    if tmap.get(x, y).blocked {
        return true;
    }
    // now check for any blocking objects
    let mut i: usize = 0;
    while i < objects.len()
        invariant
            i <= objects@.len(),
            !occupied(objects@.subrange(0, i as int), x as int, y as int),
        decreases objects@.len() - i,
    {
        if objects[i].blocks && objects[i].x == x && objects[i].y == y {
            assert(objects@[i as int].blocks);
            return true;
        }
        assert forall|j: int|
            0 <= j < i + 1 && #[trigger] objects@.subrange(0, i + 1)[j].blocks implies !(objects@.subrange(0, i + 1)[j].x == x
                && objects@.subrange(0, i + 1)[j].y == y) by {
            if j < i {
                assert(objects@.subrange(0, i + 1)[j] == objects@.subrange(0, i as int)[j]);
            }
        }
        i = i + 1;
    }
    assert(objects@.subrange(0, i as int) =~= objects@);
    false
}

/// `after` is `before` with the object at `id` moved to `(x, y)`.
pub open spec fn moved(before: Seq<Object>, after: Seq<Object>, id: int, x: int, y: int) -> bool {
    &&& after.len() == before.len()
    &&& forall|j: int| 0 <= j < before.len() && j != id ==> after[j] == before[j]
    &&& after[id].x == x
    &&& after[id].y == y
    &&& after[id].glyph == before[id].glyph
    &&& after[id].color == before[id].color
    &&& after[id].name == before[id].name
    &&& after[id].blocks == before[id].blocks
    &&& after[id].alive == before[id].alive
}

/// Moves object `id` by `(dx, dy)` unless the destination is blocked.
pub fn move_by(id: usize, dx: i32, dy: i32, tmap: &TileMap, objects: &mut [Object])
    requires
        tmap.wf(),
        id < old(objects)@.len(),
        tmap.in_bounds(old(objects)@[id as int].x + dx, old(objects)@[id as int].y + dy),
    ensures
        ({
            let (nx, ny) = (old(objects)@[id as int].x + dx, old(objects)@[id as int].y + dy);
            if spec_is_blocked(*tmap, old(objects)@, nx, ny) {
                final(objects)@ == old(objects)@
            } else {
                moved(old(objects)@, final(objects)@, id as int, nx, ny)
            }
        }),
{
    let (x, y) = objects[id].pos();
    if !is_blocked(x + dx, y + dy, tmap, objects) {
        objects[id].set_pos(x + dx, y + dy);
    }
}

/// `room`'s whole footprint lies on the map.
pub open spec fn room_on_map(room: Rect, tmap: TileMap) -> bool {
    0 <= room.x1 < room.x2 <= tmap.spec_width() && 0 <= room.y1 < room.y2 <= tmap.spec_height()
}

/// Every spot inside `room` is free: its tile is floor and no blocking object stands there.
pub open spec fn interior_free(room: Rect, tmap: TileMap, objects: Seq<Object>) -> bool {
    forall|x: int, y: int| room.in_interior(x, y) ==> !#[trigger] spec_is_blocked(tmap, objects, x, y)
}

/// Draws spots inside `room` until one is free, giving up after
/// `MAX_PLACEMENT_TRIES` draws or at once when the room has no interior.
pub fn generate_monster_position(room: &Rect, tmap: &TileMap, objects: &[Object], rng: &mut StdRng) -> (p: Option<(i32, i32)>)
    requires
        tmap.wf(),
        room_on_map(*room, *tmap),
    ensures
        match p {
            Some((x, y)) => room.in_interior(x as int, y as int) && !spec_is_blocked(*tmap, objects@, x as int, y as int),
            None => true,
        },
        room.x2 - room.x1 < 2 || room.y2 - room.y1 < 2 ==> p is None,
        room.x2 - room.x1 >= 2 && room.y2 - room.y1 >= 2 && interior_free(*room, *tmap, objects@) ==> p is Some,
{
    if room.x2 - room.x1 < 2 || room.y2 - room.y1 < 2 {
        return None;
    }
    let mut tries: u32 = 0;
    while tries < MAX_PLACEMENT_TRIES
        invariant
            tmap.wf(),
            room_on_map(*room, *tmap),
            room.x2 - room.x1 >= 2,
            room.y2 - room.y1 >= 2,
            interior_free(*room, *tmap, objects@) ==> tries == 0,
        decreases MAX_PLACEMENT_TRIES - tries,
    {
        // choose random spot for this monster
        let x = draw_range(rng, room.x1 + 1, room.x2);
        let y = draw_range(rng, room.y1 + 1, room.y2);

        // only place it if the tile is not blocked
        if !is_blocked(x, y, tmap, objects) {
            return Some((x, y));
        }
        assert(spec_is_blocked(*tmap, objects@, x as int, y as int));
        tries = tries + 1;
    }
    None
}

/// The objects from `start` on each block, stand inside `room` on a floor tile of `tmap`,
/// and on no spot where a blocking object before them stands.
pub open spec fn placed_in_room(objects: Seq<Object>, start: int, room: Rect, tmap: TileMap) -> bool {
    forall|i: int|
        start <= i < objects.len() ==> {
            &&& #[trigger] objects[i].blocks
            &&& room.in_interior(objects[i].x as int, objects[i].y as int)
            &&& !tmap.at(objects[i].x as int, objects[i].y as int).blocked
            &&& !occupied(objects.subrange(0, i), objects[i].x as int, objects[i].y as int)
        }
}

/// Adds between none and `max_monsters` blocking monsters to `room`, each on a
/// free floor tile; the objects already there are kept as they were.
pub fn place_objects(room: Rect, tmap: &TileMap, objects: &mut Vec<Object>, max_monsters: i32, rng: &mut StdRng)
    requires
        tmap.wf(),
        room_on_map(room, *tmap),
        0 <= max_monsters < i32::MAX,
    ensures
        old(objects)@.len() <= final(objects)@.len() <= old(objects)@.len() + max_monsters,
        final(objects)@.subrange(0, old(objects)@.len() as int) == old(objects)@,
        placed_in_room(final(objects)@, old(objects)@.len() as int, room, *tmap),
{
    // choose random number of monsters
    let num_monsters = draw_range(rng, 0, max_monsters + 1);
    place_monsters(room, tmap, objects, num_monsters, rng);
}

/// Tries to add `n` blocking monsters to `room`, each on a free floor tile; a
/// monster for which no free spot is found is left out. The objects already
/// there are kept as they were, and at least one monster comes when the whole
/// interior is free.
pub fn place_monsters(room: Rect, tmap: &TileMap, objects: &mut Vec<Object>, n: i32, rng: &mut StdRng)
    requires
        tmap.wf(),
        room_on_map(room, *tmap),
        0 <= n,
    ensures
        old(objects)@.len() <= final(objects)@.len() <= old(objects)@.len() + n,
        final(objects)@.subrange(0, old(objects)@.len() as int) == old(objects)@,
        placed_in_room(final(objects)@, old(objects)@.len() as int, room, *tmap),
        n > 0 && room.x2 - room.x1 >= 2 && room.y2 - room.y1 >= 2 && interior_free(room, *tmap, old(objects)@)
            ==> final(objects)@.len() > old(objects)@.len(),
{
    let ghost start = objects@;
    let mut k: i32 = 0;
    while k < n
        invariant
            tmap.wf(),
            room_on_map(room, *tmap),
            0 <= k <= n,
            start.len() <= objects@.len() <= start.len() + k,
            objects@.subrange(0, start.len() as int) == start,
            placed_in_room(objects@, start.len() as int, room, *tmap),
            k == 0 ==> objects@ == start,
            k > 0 && room.x2 - room.x1 >= 2 && room.y2 - room.y1 >= 2 && interior_free(room, *tmap, start)
                ==> objects@.len() > start.len(),
        decreases n - k,
    {
        // choose random spot for this monster
        if let Some((x, y)) = generate_monster_position(&room, tmap, objects.as_slice(), rng) {
            let monster = if draw_bool(rng) {
                Object::new(x, y, 'o', "orc", Color { r: 255, g: 0, b: 0 }, true, true)
            } else {
                Object::new(x, y, 'T', "troll", Color { r: 0, g: 127, b: 0 }, true, true)
            };
            let ghost before = objects@;
            objects.push(monster);
            proof {
                assert(objects@.subrange(0, before.len() as int) =~= before);
                assert(objects@.subrange(0, start.len() as int) =~= start);
                assert forall|i: int| start.len() <= i < objects@.len() implies {
                    &&& #[trigger] objects@[i].blocks
                    &&& room.in_interior(objects@[i].x as int, objects@[i].y as int)
                    &&& !tmap.at(objects@[i].x as int, objects@[i].y as int).blocked
                    &&& !occupied(objects@.subrange(0, i), objects@[i].x as int, objects@[i].y as int)
                } by {
                    if i < before.len() {
                        assert(objects@.subrange(0, i) =~= before.subrange(0, i));
                        assert(objects@[i] == before[i]);
                    }
                }
            }
        }
        k = k + 1;
    }
}

} // verus!
