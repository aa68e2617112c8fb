use crate::object::{occupied, place_objects, Object};
use crate::paths::{floors_kept, lemma_column_reachable, lemma_reachable_kept, lemma_reachable_trans, lemma_row_reachable, reachable, walkable};
use crate::random::{draw_bool, draw_range};
use crate::rect::{mid, Rect};
use rand::rngs::StdRng;
use crate::tile::{Tile, TileMap};
use vstd::prelude::*;

verus! {

pub open spec fn min_i(a: int, b: int) -> int {
    if a <= b { a } else { b }
}

pub open spec fn max_i(a: int, b: int) -> int {
    if a <= b { b } else { a }
}

/// `(x, y)` lies on the horizontal segment from `xa` to `xb` on row `row`, ends included.
pub open spec fn on_h_segment(xa: int, xb: int, row: int, x: int, y: int) -> bool {
    y == row && min_i(xa, xb) <= x <= max_i(xa, xb)
}

/// `(x, y)` lies on the vertical segment from `ya` to `yb` in column `col`, ends included.
pub open spec fn on_v_segment(ya: int, yb: int, col: int, x: int, y: int) -> bool {
    x == col && min_i(ya, yb) <= y <= max_i(ya, yb)
}

/// `m` is `before` with the tiles where `carve` holds turned to floor and every other tile kept.
pub open spec fn carved_from(before: TileMap, m: TileMap, carve: spec_fn(int, int) -> bool) -> bool {
    &&& m.wf()
    &&& m.same_shape(&before)
    &&& forall|x: int, y: int|
        #![trigger m.at(x, y)]
        m.in_bounds(x, y) ==> m.at(x, y) == if carve(x, y) {
            Tile::spec_empty()
        } else {
            before.at(x, y)
        }
}

/// Turns the interior of `room` (its border excluded) to floor.
pub fn create_room(room: Rect, tmap: &mut TileMap)
    requires
        old(tmap).wf(),
        -1 <= room.x1 < room.x2 <= old(tmap).spec_width(),
        -1 <= room.y1 < room.y2 <= old(tmap).spec_height(),
    ensures
        carved_from(*old(tmap), *final(tmap), |x: int, y: int| room.in_interior(x, y)),
{
    let ghost start = *tmap;
    let mut x: i32 = room.x1 + 1;
    while x < room.x2
        invariant
            room.x1 + 1 <= x,
            x <= room.x2,
            room.x1 < room.x2,
            room.y1 < room.y2,
            -1 <= room.x1,
            room.x2 <= start.spec_width(),
            -1 <= room.y1,
            room.y2 <= start.spec_height(),
            start.wf(),
            carved_from(
                start,
                *tmap,
                |a: int, b: int| room.in_interior(a, b) && a < x,
            ),
        decreases room.x2 - x,
    {
        let mut y: i32 = room.y1 + 1;
        while y < room.y2
            invariant
                room.x1 < x < room.x2,
                room.y1 + 1 <= y,
                y <= room.y2,
                -1 <= room.x1,
                room.x2 <= start.spec_width(),
                -1 <= room.y1,
                room.y2 <= start.spec_height(),
                start.wf(),
                carved_from(
                    start,
                    *tmap,
                    |a: int, b: int| room.in_interior(a, b) && (a < x || (a == x && b < y)),
                ),
            decreases room.y2 - y,
        {
            tmap.set(x, y, Tile::empty());
            y = y + 1;
        }
        x = x + 1;
    }
}

/// Turns every tile of row `y` from `x1` to `x2`, both included, to floor.
pub fn create_h_tunnel(x1: i32, x2: i32, y: i32, tmap: &mut TileMap)
    requires
        old(tmap).wf(),
        old(tmap).in_bounds(x1 as int, y as int),
        old(tmap).in_bounds(x2 as int, y as int),
    ensures
        carved_from(*old(tmap), *final(tmap), |a: int, b: int| on_h_segment(x1 as int, x2 as int, y as int, a, b)),
{
    let ghost start = *tmap;
    let lo: i32 = if x1 <= x2 { x1 } else { x2 };
    let hi: i32 = if x1 <= x2 { x2 } else { x1 };
    let mut x: i32 = lo;
    while x <= hi
        invariant
            lo <= x <= hi + 1,
            lo == min_i(x1 as int, x2 as int),
            hi == max_i(x1 as int, x2 as int),
            start.in_bounds(lo as int, y as int),
            start.in_bounds(hi as int, y as int),
            start.wf(),
            carved_from(start, *tmap, |a: int, b: int| b == y && lo <= a < x),
        decreases hi - x + 1,
    {
        tmap.set(x, y, Tile::empty());
        x = x + 1;
    }
}

/// Turns every tile of column `x` from `y1` to `y2`, both included, to floor.
pub fn create_v_tunnel(y1: i32, y2: i32, x: i32, tmap: &mut TileMap)
    requires
        old(tmap).wf(),
        old(tmap).in_bounds(x as int, y1 as int),
        old(tmap).in_bounds(x as int, y2 as int),
    ensures
        carved_from(*old(tmap), *final(tmap), |a: int, b: int| on_v_segment(y1 as int, y2 as int, x as int, a, b)),
{
    let ghost start = *tmap;
    let lo: i32 = if y1 <= y2 { y1 } else { y2 };
    let hi: i32 = if y1 <= y2 { y2 } else { y1 };
    let mut y: i32 = lo;
    while y <= hi
        invariant
            lo <= y <= hi + 1,
            lo == min_i(y1 as int, y2 as int),
            hi == max_i(y1 as int, y2 as int),
            start.in_bounds(x as int, lo as int),
            start.in_bounds(x as int, hi as int),
            start.wf(),
            carved_from(start, *tmap, |a: int, b: int| a == x && lo <= b < y),
        decreases hi - y + 1,
    {
        tmap.set(x, y, Tile::empty());
        y = y + 1;
    }
}

/// Largest room side drawn by default.
pub const ROOM_MAX_SIZE: i32 = 10;

/// Smallest room side drawn by default.
pub const ROOM_MIN_SIZE: i32 = 6;

/// Room placements tried by default.
pub const MAX_ROOMS: i32 = 30;

/// `(x, y)` lies on the L-shaped corridor between the centres of `a` and `b`:
/// along `a`'s row then `b`'s column when `h_first`, else along `a`'s column then `b`'s row.
pub open spec fn on_corridor(a: Rect, b: Rect, h_first: bool, x: int, y: int) -> bool {
    let (ax, ay) = a.spec_center();
    let (bx, by) = b.spec_center();
    if h_first {
        on_h_segment(ax, bx, ay, x, y) || on_v_segment(ay, by, bx, x, y)
    } else {
        on_v_segment(ay, by, ax, x, y) || on_h_segment(ax, bx, by, x, y)
    }
}

/// `(x, y)` is inside one of the rooms.
pub open spec fn in_some_room(rooms: Seq<Rect>, x: int, y: int) -> bool {
    exists|i: int| 0 <= i < rooms.len() && #[trigger] rooms[i].in_interior(x, y)
}

/// `(x, y)` is on the corridor that joins some room to the one placed after it;
/// `turns[i]` says how the corridor from room `i` to room `i + 1` bends.
pub open spec fn on_some_corridor(rooms: Seq<Rect>, turns: Seq<bool>, x: int, y: int) -> bool {
    exists|i: int| 0 <= i < turns.len() && #[trigger] on_corridor(rooms[i], rooms[i + 1], turns[i], x, y)
}

/// `(x, y)` was dug out, as part of a room or of a corridor.
pub open spec fn carved(rooms: Seq<Rect>, turns: Seq<bool>, x: int, y: int) -> bool {
    in_some_room(rooms, x, y) || on_some_corridor(rooms, turns, x, y)
}

/// There is one corridor between each two rooms placed one after the other.
pub open spec fn links_ok(rooms: Seq<Rect>, turns: Seq<bool>) -> bool {
    turns.len() == if rooms.len() == 0 { 0 } else { rooms.len() - 1 }
}

/// No two rooms overlap or touch.
pub open spec fn pairwise_disjoint(rooms: Seq<Rect>) -> bool {
    forall|i: int, j: int| 0 <= i < j < rooms.len() ==> !(#[trigger] rooms[i]).spec_intersects(#[trigger] rooms[j])
}

/// A room whose whole footprint lies on a `width` by `height` map, off its last row and column.
pub open spec fn room_fits(r: Rect, width: int, height: int) -> bool {
    0 <= r.x1 < r.x2 < width && 0 <= r.y1 < r.y2 < height
}

/// Both sides of the room are from `min_size` to `max_size`.
pub open spec fn room_sized(r: Rect, min_size: int, max_size: int) -> bool {
    min_size <= r.x2 - r.x1 <= max_size && min_size <= r.y2 - r.y1 <= max_size
}

/// Every tile of `m` is floor where it was carved and wall elsewhere.
pub open spec fn carved_map(m: TileMap, rooms: Seq<Rect>, turns: Seq<bool>) -> bool {
    forall|x: int, y: int|
        #![trigger m.at(x, y)]
        m.in_bounds(x, y) ==> m.at(x, y) == if carved(rooms, turns, x, y) {
            Tile::spec_empty()
        } else {
            Tile::spec_wall()
        }
}

/// The centre of every room after the first can be reached from the centre
/// of the first over floor tiles.
pub open spec fn rooms_connected(m: TileMap, rooms: Seq<Rect>) -> bool {
    forall|k: int| 0 < k < rooms.len() ==> reachable(m, rooms[0].spec_center(), #[trigger] rooms[k].spec_center())
}

/// A corridor dug through floor joins the centres of the rooms at its ends.
pub proof fn lemma_corridor_reachable(m: TileMap, a: Rect, b: Rect, h_first: bool)
    requires
        forall|x: int, y: int| on_corridor(a, b, h_first, x, y) ==> #[trigger] walkable(m, (x, y)),
    ensures
        reachable(m, a.spec_center(), b.spec_center()),
{
    let (ax, ay) = a.spec_center();
    let (bx, by) = b.spec_center();
    if h_first {
        lemma_row_reachable(m, ax, bx, ay);
        lemma_column_reachable(m, bx, ay, by);
        lemma_reachable_trans(m, (ax, ay), (bx, ay), (bx, by));
    } else {
        lemma_column_reachable(m, ax, ay, by);
        lemma_row_reachable(m, ax, bx, by);
        lemma_reachable_trans(m, (ax, ay), (ax, by), (bx, by));
    }
}

/// Adding a room, and the corridor from the room before it, to the rooms and corridors.
proof fn lemma_carved_push(rooms: Seq<Rect>, turns: Seq<bool>, room: Rect, h_first: bool, x: int, y: int)
    requires
        links_ok(rooms, turns),
    ensures
        rooms.len() == 0 ==> (carved(rooms.push(room), turns, x, y) <==> carved(rooms, turns, x, y)
            || room.in_interior(x, y)),
        rooms.len() > 0 ==> (carved(rooms.push(room), turns.push(h_first), x, y) <==> carved(rooms, turns, x, y)
            || room.in_interior(x, y) || on_corridor(rooms.last(), room, h_first, x, y)),
{
    let rs = rooms.push(room);
    if in_some_room(rs, x, y) {
        let i = choose|i: int| 0 <= i < rs.len() && #[trigger] rs[i].in_interior(x, y);
        if i < rooms.len() {
            assert(rooms[i].in_interior(x, y));
        }
    }
    if in_some_room(rooms, x, y) {
        let i = choose|i: int| 0 <= i < rooms.len() && #[trigger] rooms[i].in_interior(x, y);
        assert(rs[i].in_interior(x, y));
    }
    if room.in_interior(x, y) {
        assert(rs[rooms.len() as int].in_interior(x, y));
    }
    if rooms.len() == 0 {
        assert(!on_some_corridor(rooms, turns, x, y));
        assert(!on_some_corridor(rs, turns, x, y));
    } else {
        let ts = turns.push(h_first);
        if on_some_corridor(rs, ts, x, y) {
            let i = choose|i: int| 0 <= i < ts.len() && #[trigger] on_corridor(rs[i], rs[i + 1], ts[i], x, y);
            if i < turns.len() {
                assert(on_corridor(rooms[i], rooms[i + 1], turns[i], x, y));
            } else {
                assert(rs[i] == rooms.last());
            }
        }
        if on_some_corridor(rooms, turns, x, y) {
            let i = choose|i: int| 0 <= i < turns.len() && #[trigger] on_corridor(rooms[i], rooms[i + 1], turns[i], x, y);
            assert(on_corridor(rs[i], rs[i + 1], ts[i], x, y));
        }
        if on_corridor(rooms.last(), room, h_first, x, y) {
            let i = turns.len() as int;
            assert(on_corridor(rs[i], rs[i + 1], ts[i], x, y));
        }
    }
}

/// A generated dungeon: the map, where the player starts, the rooms in the
/// order they were accepted, and how each corridor between them bends.
pub struct Dungeon {
    pub map: TileMap,
    pub spawn: (i32, i32),
    pub rooms: Vec<Rect>,
    pub h_first: Vec<bool>,
}

impl Dungeon {
    /// The spawn point is the centre of the first room, or `(0, 0)` when there is none.
    pub open spec fn spawn_ok(&self) -> bool {
        if self.rooms@.len() == 0 {
            self.spawn == (0i32, 0i32)
        } else {
            self.spawn.0 == self.rooms@[0].spec_center().0 && self.spawn.1 == self.rooms@[0].spec_center().1
        }
    }

    /// The rooms fit the map and do not touch, the map holds exactly what
    /// was carved, and the spawn point is where it belongs.
    pub open spec fn inv(&self) -> bool {
        &&& self.map.wf()
        &&& forall|i: int|
            0 <= i < self.rooms@.len() ==> room_fits(
                #[trigger] self.rooms@[i],
                self.map.spec_width(),
                self.map.spec_height(),
            )
        &&& pairwise_disjoint(self.rooms@)
        &&& links_ok(self.rooms@, self.h_first@)
        &&& carved_map(self.map, self.rooms@, self.h_first@)
        &&& rooms_connected(self.map, self.rooms@)
        &&& self.spawn_ok()
    }

    /// An all-wall `width` by `height` map with no rooms.
    pub fn empty(width: i32, height: i32) -> (d: Dungeon)
        requires
            width > 0,
            height > 0,
            width as int * height as int <= usize::MAX,
        ensures
            d.inv(),
            d.map.spec_width() == width,
            d.map.spec_height() == height,
            d.rooms@.len() == 0,
    {
        Dungeon { map: TileMap::filled(width, height, Tile::wall()), spawn: (0, 0), rooms: Vec::new(), h_first: Vec::new() }
    }

    /// Does `room` overlap or touch an accepted room?
    pub fn overlaps_any(&self, room: &Rect) -> (r: bool)
        ensures
            r == exists|i: int| 0 <= i < self.rooms@.len() && room.spec_intersects(#[trigger] self.rooms@[i]),
    {
        let mut i: usize = 0;
        while i < self.rooms.len()
            invariant
                i <= self.rooms@.len(),
                forall|j: int| 0 <= j < i ==> !room.spec_intersects(#[trigger] self.rooms@[j]),
            decreases self.rooms@.len() - i,
        {
            if room.intersects_with(&self.rooms[i]) {
                return true;
            }
            i = i + 1;
        }
        false
    }

    /// Accepts `room`: carves its interior and, unless it is the first room,
    /// the corridor from the previous room's centre to its own, bending as
    /// `h_first` says. The first room's centre becomes the spawn point.
    pub fn add_room(&mut self, room: Rect, h_first: bool)
        requires
            old(self).inv(),
            room_fits(room, old(self).map.spec_width(), old(self).map.spec_height()),
            forall|i: int| 0 <= i < old(self).rooms@.len() ==> !room.spec_intersects(#[trigger] old(self).rooms@[i]),
        ensures
            final(self).inv(),
            final(self).map.same_shape(&old(self).map),
            floors_kept(old(self).map, final(self).map),
            final(self).rooms@ == old(self).rooms@.push(room),
            final(self).h_first@ == if old(self).rooms@.len() == 0 {
                old(self).h_first@
            } else {
                old(self).h_first@.push(h_first)
            },
    {
        let ghost old_rooms = self.rooms@;
        let ghost old_turns = self.h_first@;
        let ghost m0 = self.map;
        create_room(room, &mut self.map);
        let (new_x, new_y) = room.center();
        if self.rooms.len() == 0 {
            self.spawn = (new_x, new_y);
            self.rooms.push(room);
            proof {
                assert forall|x: int, y: int| self.map.in_bounds(x, y) implies #[trigger] self.map.at(x, y) == if carved(self.rooms@, self.h_first@, x, y) {
                    Tile::spec_empty()
                } else {
                    Tile::spec_wall()
                } by {
                    lemma_carved_push(old_rooms, old_turns, room, h_first, x, y);
                }
            }
        } else {
            let (prev_x, prev_y) = self.rooms[self.rooms.len() - 1].center();
            if h_first {
                create_h_tunnel(prev_x, new_x, prev_y, &mut self.map);
                create_v_tunnel(prev_y, new_y, new_x, &mut self.map);
            } else {
                create_v_tunnel(prev_y, new_y, prev_x, &mut self.map);
                create_h_tunnel(prev_x, new_x, new_y, &mut self.map);
            }
            self.h_first.push(h_first);
            self.rooms.push(room);
            proof {
                assert forall|x: int, y: int| self.map.in_bounds(x, y) implies #[trigger] self.map.at(x, y) == if carved(self.rooms@, self.h_first@, x, y) {
                    Tile::spec_empty()
                } else {
                    Tile::spec_wall()
                } by {
                    lemma_carved_push(old_rooms, old_turns, room, h_first, x, y);
                }
            }
        }
        proof {
            assert forall|x: int, y: int|
                m0.in_bounds(x, y) && !m0.at(x, y).blocked implies !#[trigger] self.map.at(x, y).blocked by {
                lemma_carved_push(old_rooms, old_turns, room, h_first, x, y);
            }
            let n = old_rooms.len() as int;
            if n > 0 {
                let prev = old_rooms[n - 1];
                assert forall|x: int, y: int| on_corridor(prev, room, h_first, x, y) implies #[trigger] walkable(self.map, (x, y)) by {
                    lemma_carved_push(old_rooms, old_turns, room, h_first, x, y);
                    assert(room_fits(old_rooms[n - 1], m0.spec_width(), m0.spec_height()));
                }
                lemma_corridor_reachable(self.map, prev, room, h_first);
                assert forall|k: int| 0 < k < self.rooms@.len() implies reachable(self.map, self.rooms@[0].spec_center(), #[trigger] self.rooms@[k].spec_center()) by {
                    assert(self.rooms@[0] == old_rooms[0]);
                    if k < n {
                        assert(self.rooms@[k] == old_rooms[k]);
                        lemma_reachable_kept(m0, self.map, old_rooms[0].spec_center(), old_rooms[k].spec_center());
                    } else if n > 1 {
                        lemma_reachable_kept(m0, self.map, old_rooms[0].spec_center(), old_rooms[n - 1].spec_center());
                        lemma_reachable_trans(self.map, old_rooms[0].spec_center(), prev.spec_center(), room.spec_center());
                    }
                }
            }
            assert forall|i: int, j: int| 0 <= i < j < self.rooms@.len() implies !(#[trigger] self.rooms@[i]).spec_intersects(#[trigger] self.rooms@[j]) by {
                if j == old_rooms.len() {
                    crate::rect::lemma_intersects_symmetric(room, old_rooms[i]);
                }
            }
            assert(self.rooms@[0] == old_rooms.push(room)[0]);
        }
    }

    /// Tries the `w` by `h` room with its corner at `(x, y)`. It is accepted,
    /// as by `add_room` with `turn` for its corridor, exactly when it fits on
    /// the map and touches no accepted room; otherwise nothing changes.
    pub fn try_room(&mut self, w: i32, h: i32, x: i32, y: i32, turn: bool) -> (accepted: bool)
        requires
            old(self).inv(),
            w > 0,
            h > 0,
            x + w <= i32::MAX,
            y + h <= i32::MAX,
        ensures
            final(self).inv(),
            final(self).map.same_shape(&old(self).map),
            ({
                let r = Rect { x1: x, y1: y, x2: (x + w) as i32, y2: (y + h) as i32 };
                &&& accepted == (room_fits(r, old(self).map.spec_width(), old(self).map.spec_height())
                    && forall|i: int| 0 <= i < old(self).rooms@.len() ==> !r.spec_intersects(#[trigger] old(self).rooms@[i]))
                &&& accepted ==> final(self).rooms@ == old(self).rooms@.push(r) && final(self).h_first@ == if old(self).rooms@.len() == 0 {
                    old(self).h_first@
                } else {
                    old(self).h_first@.push(turn)
                } && floors_kept(old(self).map, final(self).map)
                &&& !accepted ==> *final(self) == *old(self)
            }),
    {
        let new_room = Rect::new(x, y, w, h);
        if x < 0 || y < 0 || new_room.x2 >= self.map.width() || new_room.y2 >= self.map.height() {
            return false;
        }
        // a room that touches an accepted one is skipped
        if self.overlaps_any(&new_room) {
            return false;
        }
        self.add_room(new_room, turn);
        true
    }

}

/// No two accepted rooms of a dungeon overlap or touch, in either order.
pub proof fn lemma_rooms_never_intersect(d: &Dungeon)
    requires
        d.inv(),
    ensures
        forall|i: int, j: int|
            0 <= i < d.rooms@.len() && 0 <= j < d.rooms@.len() && i != j ==> !(#[trigger] d.rooms@[i]).spec_intersects(
                #[trigger] d.rooms@[j],
            ),
{
    assert forall|i: int, j: int|
        0 <= i < d.rooms@.len() && 0 <= j < d.rooms@.len() && i != j implies !(#[trigger] d.rooms@[i]).spec_intersects(
            #[trigger] d.rooms@[j],
        ) by {
        if j < i {
            crate::rect::lemma_intersects_symmetric(d.rooms@[i], d.rooms@[j]);
        }
    }
}

/// Every interior tile of an accepted room is floor, and every tile that is
/// in no room and on no corridor is still wall.
pub proof fn lemma_rooms_carved(d: &Dungeon)
    requires
        d.inv(),
    ensures
        forall|i: int, x: int, y: int|
            0 <= i < d.rooms@.len() && #[trigger] d.rooms@[i].in_interior(x, y) ==> d.map.at(x, y) == Tile::spec_empty(),
        forall|x: int, y: int|
            d.map.in_bounds(x, y) && !carved(d.rooms@, d.h_first@, x, y) ==> #[trigger] d.map.at(x, y) == Tile::spec_wall(),
{
    assert forall|i: int, x: int, y: int|
        0 <= i < d.rooms@.len() && #[trigger] d.rooms@[i].in_interior(x, y) implies d.map.at(x, y) == Tile::spec_empty() by {
        assert(room_fits(d.rooms@[i], d.map.spec_width(), d.map.spec_height()));
        assert(in_some_room(d.rooms@, x, y));
    }
}

/// The spawn point is the centre of the first accepted room, rounded down.
pub proof fn lemma_spawn_at_first_center(d: &Dungeon)
    requires
        d.inv(),
        d.rooms@.len() > 0,
    ensures
        d.spawn.0 == mid(d.rooms@[0].x1 as int, d.rooms@[0].x2 as int),
        d.spawn.1 == mid(d.rooms@[0].y1 as int, d.rooms@[0].y2 as int),
{
}

/// Every room after the first can be reached from the first over floor tiles.
pub proof fn lemma_rooms_reachable(d: &Dungeon)
    requires
        d.inv(),
    ensures
        forall|k: int| 0 < k < d.rooms@.len() ==> reachable(d.map, d.rooms@[0].spec_center(), #[trigger] d.rooms@[k].spec_center()),
{
}

/// Where every room is at least two tiles wide and high, every interior tile
/// of every room can be reached over floor from the centre of the first room.
pub proof fn lemma_room_tiles_reachable(d: &Dungeon)
    requires
        d.inv(),
        d.rooms@.len() > 0,
        forall|i: int| 0 <= i < d.rooms@.len() ==> room_sized(#[trigger] d.rooms@[i], 2, i32::MAX as int),
    ensures
        forall|i: int, x: int, y: int|
            0 <= i < d.rooms@.len() && #[trigger] d.rooms@[i].in_interior(x, y) ==> reachable(
                d.map,
                d.rooms@[0].spec_center(),
                (x, y),
            ),
{
    lemma_rooms_carved(d);
    let c0 = d.rooms@[0].spec_center();
    assert forall|i: int, x: int, y: int|
        0 <= i < d.rooms@.len() && #[trigger] d.rooms@[i].in_interior(x, y) implies reachable(d.map, c0, (x, y)) by {
        let r = d.rooms@[i];
        assert(room_sized(r, 2, i32::MAX as int));
        assert(room_fits(r, d.map.spec_width(), d.map.spec_height()));
        let (cx, cy) = r.spec_center();
        assert(r.in_interior(cx, cy));
        assert forall|a: int| (cx <= a <= x || x <= a <= cx) implies #[trigger] walkable(d.map, (a, cy)) by {
            assert(r.in_interior(a, cy));
        }
        lemma_row_reachable(d.map, cx, x, cy);
        assert forall|b: int| (cy <= b <= y || y <= b <= cy) implies #[trigger] walkable(d.map, (x, b)) by {
            assert(r.in_interior(x, b));
        }
        lemma_column_reachable(d.map, x, cy, y);
        lemma_reachable_trans(d.map, (cx, cy), (x, cy), (x, y));
        if i > 0 {
            lemma_reachable_trans(d.map, c0, (cx, cy), (x, y));
        }
    }
}

/// A dungeon with no rooms is solid wall, and the player spawns at `(0, 0)`.
pub proof fn lemma_no_rooms_all_wall(d: &Dungeon)
    requires
        d.inv(),
        d.rooms@.len() == 0,
    ensures
        d.spawn == (0i32, 0i32),
        forall|x: int, y: int| d.map.in_bounds(x, y) ==> #[trigger] d.map.at(x, y) == Tile::spec_wall(),
{
    assert forall|x: int, y: int| d.map.in_bounds(x, y) implies #[trigger] d.map.at(x, y) == Tile::spec_wall() by {
        assert(!in_some_room(d.rooms@, x, y));
        assert(!on_some_corridor(d.rooms@, d.h_first@, x, y));
    }
}

/// Two dungeons of one size with the same accepted rooms and the same corridor
/// bends hold the same tiles and the same spawn point: the map is a function of
/// what was drawn.
pub proof fn lemma_map_determined(d1: &Dungeon, d2: &Dungeon)
    requires
        d1.inv(),
        d2.inv(),
        d1.map.same_shape(&d2.map),
        d1.rooms@ == d2.rooms@,
        d1.h_first@ == d2.h_first@,
    ensures
        d1.spawn == d2.spawn,
        forall|x: int, y: int| d1.map.in_bounds(x, y) ==> #[trigger] d1.map.at(x, y) == d2.map.at(x, y),
{
    assert forall|x: int, y: int| d1.map.in_bounds(x, y) implies #[trigger] d1.map.at(x, y) == d2.map.at(x, y) by {
        assert(d2.map.in_bounds(x, y));
    }
}

/// How many of `objects` stand inside `room`.
pub open spec fn monsters_in(objects: Seq<Object>, room: Rect) -> nat
    decreases objects.len(),
{
    if objects.len() == 0 {
        0
    } else {
        monsters_in(objects.drop_last(), room) + if room.in_interior(objects.last().x as int, objects.last().y as int) {
            1nat
        } else {
            0nat
        }
    }
}

proof fn lemma_monsters_in_append(s: Seq<Object>, t: Seq<Object>, room: Rect)
    ensures
        monsters_in(s + t, room) == monsters_in(s, room) + monsters_in(t, room),
    decreases t.len(),
{
    if t.len() == 0 {
        assert(s + t =~= s);
    } else {
        assert((s + t).drop_last() =~= s + t.drop_last());
        lemma_monsters_in_append(s, t.drop_last(), room);
    }
}

proof fn lemma_monsters_in_none(s: Seq<Object>, room: Rect)
    requires
        forall|j: int| 0 <= j < s.len() ==> !room.in_interior(#[trigger] s[j].x as int, s[j].y as int),
    ensures
        monsters_in(s, room) == 0,
    decreases s.len(),
{
    if s.len() > 0 {
        assert forall|j: int| 0 <= j < s.drop_last().len() implies !room.in_interior(#[trigger] s.drop_last()[j].x as int, s.drop_last()[j].y as int) by {
            assert(s.drop_last()[j] == s[j]);
        }
        lemma_monsters_in_none(s.drop_last(), room);
        assert(!room.in_interior(s[s.len() - 1].x as int, s[s.len() - 1].y as int));
    }
}

proof fn lemma_monsters_in_le(s: Seq<Object>, room: Rect)
    ensures
        monsters_in(s, room) <= s.len(),
    decreases s.len(),
{
    if s.len() > 0 {
        lemma_monsters_in_le(s.drop_last(), room);
    }
}

/// Rooms that do not touch share no interior tile.
proof fn lemma_interiors_apart(a: Rect, b: Rect, x: int, y: int)
    requires
        !a.spec_intersects(b) || !b.spec_intersects(a),
    ensures
        !(a.in_interior(x, y) && b.in_interior(x, y)),
{
}

/// The objects from `start` on each block, stand inside one of `rooms`, and
/// on no spot where a blocking object before them stands.
pub open spec fn monsters_placed(objects: Seq<Object>, start: int, rooms: Seq<Rect>) -> bool {
    forall|i: int|
        start <= i < objects.len() ==> {
            &&& #[trigger] objects[i].blocks
            &&& in_some_room(rooms, objects[i].x as int, objects[i].y as int)
            &&& !occupied(objects.subrange(0, i), objects[i].x as int, objects[i].y as int)
        }
}

/// Builds a `width` by `height` dungeon. Each of `max_rooms` attempts draws a
/// room with sides from `room_min_size` to `room_max_size` at a spot where it
/// fits on the map, and accepts it unless it touches an accepted room; an
/// accepted room is carved, joined by a corridor to the room accepted before
/// it, and given up to `max_room_monsters` monsters, added to `objects`.
pub fn generate(
    width: i32,
    height: i32,
    max_rooms: i32,
    room_min_size: i32,
    room_max_size: i32,
    max_room_monsters: i32,
    rng: &mut StdRng,
    objects: &mut Vec<Object>,
) -> (d: Dungeon)
    requires
        width > 0,
        height > 0,
        width as int * height as int <= usize::MAX,
        0 < room_min_size <= room_max_size < i32::MAX,
        0 <= max_room_monsters < i32::MAX,
    ensures
        d.inv(),
        d.map.spec_width() == width,
        d.map.spec_height() == height,
        max_rooms <= 0 ==> d.rooms@.len() == 0,
        max_rooms > 0 ==> d.rooms@.len() <= max_rooms,
        forall|i: int| 0 <= i < d.rooms@.len() ==> room_sized(#[trigger] d.rooms@[i], room_min_size as int, room_max_size as int),
        room_min_size >= width || room_min_size >= height ==> d.rooms@.len() == 0,
        d.rooms@.len() == 0 ==> d.spawn == (0i32, 0i32) && forall|x: int, y: int|
            d.map.in_bounds(x, y) ==> #[trigger] d.map.at(x, y) == Tile::spec_wall(),
        final(objects)@.subrange(0, old(objects)@.len() as int) == old(objects)@,
        final(objects)@.len() <= old(objects)@.len() + d.rooms@.len() * max_room_monsters,
        forall|i: int|
            0 <= i < d.rooms@.len() ==> monsters_in(
                final(objects)@.subrange(old(objects)@.len() as int, final(objects)@.len() as int),
                #[trigger] d.rooms@[i],
            ) <= max_room_monsters,
        d.rooms@.len() == 0 ==> final(objects)@ == old(objects)@,
        monsters_placed(final(objects)@, old(objects)@.len() as int, d.rooms@),
        max_rooms > 0 && room_max_size < width && room_max_size < height ==> d.rooms@.len() >= 1,
{
    let ghost start = objects@;
    // fill map with "blocked" tiles
    let mut d = Dungeon::empty(width, height);
    let mut attempt: i32 = 0;
    while attempt < max_rooms
        invariant
            d.inv(),
            d.map.spec_width() == width,
            d.map.spec_height() == height,
            0 < room_min_size <= room_max_size < i32::MAX,
            0 <= max_room_monsters < i32::MAX,
            0 <= attempt,
            d.rooms@.len() <= attempt,
            attempt <= max_rooms || attempt == 0,
            forall|i: int| 0 <= i < d.rooms@.len() ==> room_sized(#[trigger] d.rooms@[i], room_min_size as int, room_max_size as int),
            objects@.len() >= start.len(),
            objects@.len() <= start.len() + d.rooms@.len() * max_room_monsters,
            objects@.subrange(0, start.len() as int) == start,
            monsters_placed(objects@, start.len() as int, d.rooms@),
            forall|i: int|
                0 <= i < d.rooms@.len() ==> monsters_in(objects@.subrange(start.len() as int, objects@.len() as int), #[trigger] d.rooms@[i])
                    <= max_room_monsters,
            attempt > 0 && room_max_size < width && room_max_size < height ==> d.rooms@.len() >= 1,
        decreases max_rooms - attempt,
    {
        attempt = attempt + 1;
        // random width and height
        let w = draw_range(rng, room_min_size, room_max_size + 1);
        let h = draw_range(rng, room_min_size, room_max_size + 1);
        if w < width && h < height {
            // random position without going out of the boundaries of the map
            let x = draw_range(rng, 0, width - w);
            let y = draw_range(rng, 0, height - h);
            let new_room = Rect::new(x, y, w, h);
            let turn = if d.rooms.len() == 0 { false } else { draw_bool(rng) };
            let ghost rooms_before = d.rooms@;
            if d.try_room(w, h, x, y, turn) {
                // add some content to this room, such as monsters
                let ghost before = objects@;
                place_objects(new_room, &d.map, objects, max_room_monsters, rng);
                proof {
                    assert(d.rooms@.len() * max_room_monsters == rooms_before.len() * max_room_monsters + max_room_monsters) by (nonlinear_arith)
                        requires
                            d.rooms@.len() == rooms_before.len() + 1,
                    ;
                    assert(objects@.subrange(0, start.len() as int) =~= before.subrange(0, start.len() as int));
                    assert forall|i: int| start.len() <= i < objects@.len() implies {
                        &&& #[trigger] objects@[i].blocks
                        &&& in_some_room(d.rooms@, objects@[i].x as int, objects@[i].y as int)
                        &&& !occupied(objects@.subrange(0, i), objects@[i].x as int, objects@[i].y as int)
                    } by {
                        if i < before.len() {
                            assert(objects@[i] == before[i]);
                            assert(before[i].blocks);
                            assert(objects@.subrange(0, i) =~= before.subrange(0, i));
                            let k = choose|k: int| 0 <= k < rooms_before.len() && #[trigger] rooms_before[k].in_interior(objects@[i].x as int, objects@[i].y as int);
                            assert(d.rooms@[k] == rooms_before[k]);
                        } else {
                            assert(d.rooms@[rooms_before.len() as int] == new_room);
                            assert(objects@[i].blocks);
                            assert(d.rooms@[rooms_before.len() as int].in_interior(objects@[i].x as int, objects@[i].y as int));
                        }
                    }
                    assert(monsters_placed(objects@, start.len() as int, d.rooms@));
                    let old_part = before.subrange(start.len() as int, before.len() as int);
                    let added = objects@.subrange(before.len() as int, objects@.len() as int);
                    assert(objects@.subrange(start.len() as int, objects@.len() as int) =~= old_part + added);
                    assert forall|i: int| 0 <= i < d.rooms@.len() implies monsters_in(
                        objects@.subrange(start.len() as int, objects@.len() as int),
                        #[trigger] d.rooms@[i],
                    ) <= max_room_monsters by {
                        let r = d.rooms@[i];
                        lemma_monsters_in_append(old_part, added, r);
                        if i < rooms_before.len() {
                            assert(r == rooms_before[i]);
                            assert forall|j: int| 0 <= j < added.len() implies !r.in_interior(#[trigger] added[j].x as int, added[j].y as int) by {
                                assert(added[j] == objects@[before.len() + j]);
                                assert(objects@[before.len() + j].blocks);
                                lemma_interiors_apart(new_room, r, added[j].x as int, added[j].y as int);
                            }
                            lemma_monsters_in_none(added, r);
                        } else {
                            assert(r == new_room);
                            assert forall|j: int| 0 <= j < old_part.len() implies !r.in_interior(#[trigger] old_part[j].x as int, old_part[j].y as int) by {
                                let o = before[start.len() + j];
                                assert(old_part[j] == o);
                                assert(o.blocks);
                                let k = choose|k: int| 0 <= k < rooms_before.len() && #[trigger] rooms_before[k].in_interior(o.x as int, o.y as int);
                                lemma_interiors_apart(new_room, rooms_before[k], o.x as int, o.y as int);
                            }
                            lemma_monsters_in_none(old_part, r);
                            lemma_monsters_in_le(added, r);
                        }
                    }
                }
            }
        }
    }
    proof {
        if d.rooms@.len() == 0 {
            lemma_no_rooms_all_wall(&d);
            assert(objects@ =~= objects@.subrange(0, start.len() as int));
        }
    }
    d
}

} // verus!
