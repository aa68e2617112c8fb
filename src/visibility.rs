use crate::tile::{flat_index, lemma_flat_index, Tile, TileMap};
use vstd::prelude::*;

verus! {

/// How a seen tile is shaded: lit or remembered, wall or ground.
#[derive(Clone, Copy, Debug, PartialEq, Eq, Structural)]
pub enum Shade {
    DarkWall,
    DarkGround,
    LightWall,
    LightGround,
}

pub open spec fn spec_shade(visible: bool, wall: bool) -> Shade {
    if visible {
        if wall { Shade::LightWall } else { Shade::LightGround }
    } else {
        if wall { Shade::DarkWall } else { Shade::DarkGround }
    }
}

/// The shade of a tile that is in view when `visible`, and blocks sight when `wall`.
pub fn tile_shade(visible: bool, wall: bool) -> (s: Shade)
    ensures
        s == spec_shade(visible, wall),
{
    match (visible, wall) {
        // outside of field of view:
        (false, true) => Shade::DarkWall,
        (false, false) => Shade::DarkGround,
        // inside fov:
        (true, true) => Shade::LightWall,
        (true, false) => Shade::LightGround,
    }
}

/// `after` is `before` with every tile that `visible` marks explored, and nothing else changed.
pub open spec fn folded(before: TileMap, after: TileMap, visible: Seq<bool>) -> bool {
    &&& after.wf()
    &&& after.same_shape(&before)
    &&& forall|x: int, y: int|
        #![trigger after.at(x, y)]
        after.in_bounds(x, y) ==> after.at(x, y) == (Tile {
            explored: before.at(x, y).explored || visible[flat_index(x, y, before.spec_width())],
            ..before.at(x, y)
        })
}

/// Folding two visibility results in turn, from the same position or not,
/// never clears an `explored` flag.
pub proof fn lemma_explored_monotonic(m0: TileMap, m1: TileMap, m2: TileMap, v1: Seq<bool>, v2: Seq<bool>)
    requires
        m0.wf(),
        folded(m0, m1, v1),
        folded(m1, m2, v2),
    ensures
        forall|x: int, y: int| m0.in_bounds(x, y) && m0.at(x, y).explored ==> (#[trigger] m2.at(x, y)).explored,
{
    assert forall|x: int, y: int| m0.in_bounds(x, y) && m0.at(x, y).explored implies (#[trigger] m2.at(x, y)).explored by {
        assert(m1.at(x, y).explored);
    }
}

/// The field-of-view bookkeeping: per-tile transparency and walkability handed to the
/// field-of-view computation, the visibility it last reported, and the player
/// position that visibility was computed from.
pub struct VisibilityTracker {
    width: i32,
    height: i32,
    transparent: Vec<bool>,
    walkable: Vec<bool>,
    visible: Vec<bool>,
    last_pos: (i32, i32),
}

impl VisibilityTracker {
    pub closed spec fn spec_width(&self) -> int {
        self.width as int
    }

    pub closed spec fn spec_height(&self) -> int {
        self.height as int
    }

    /// Per tile, row by row: light passes through it.
    pub closed spec fn spec_transparent(&self) -> Seq<bool> {
        self.transparent@
    }

    /// Per tile, row by row: it can be walked on.
    pub closed spec fn spec_walkable(&self) -> Seq<bool> {
        self.walkable@
    }

    /// Per tile, row by row: it was in view at the last computation.
    pub closed spec fn spec_visible(&self) -> Seq<bool> {
        self.visible@
    }

    /// The player position of the last computation; `(-1, -1)` before the first.
    pub closed spec fn spec_last_pos(&self) -> (i32, i32) {
        self.last_pos
    }

    pub open spec fn wf(&self) -> bool {
        &&& 0 < self.spec_width()
        &&& 0 < self.spec_height()
        &&& self.spec_transparent().len() == self.spec_width() * self.spec_height()
        &&& self.spec_walkable().len() == self.spec_width() * self.spec_height()
        &&& self.spec_visible().len() == self.spec_width() * self.spec_height()
        &&& self.spec_width() * self.spec_height() <= usize::MAX
    }

    /// The tracker and `map` cover the same grid.
    pub open spec fn fits(&self, map: TileMap) -> bool {
        self.spec_width() == map.spec_width() && self.spec_height() == map.spec_height()
    }

    /// A tracker for a `width` by `height` map: nothing transparent, walkable or
    /// visible yet, and no position recorded.
    pub fn new(width: i32, height: i32) -> (t: VisibilityTracker)
        requires
            width > 0,
            height > 0,
            width as int * height as int <= usize::MAX,
        ensures
            t.wf(),
            t.spec_width() == width,
            t.spec_height() == height,
            t.spec_last_pos() == (-1i32, -1i32),
            forall|i: int| 0 <= i < t.spec_visible().len() ==> !#[trigger] t.spec_visible()[i],
            forall|i: int| 0 <= i < t.spec_transparent().len() ==> !#[trigger] t.spec_transparent()[i],
            forall|i: int| 0 <= i < t.spec_walkable().len() ==> !#[trigger] t.spec_walkable()[i],
    {
        let n: usize = (width as usize) * (height as usize);
        VisibilityTracker {
            width,
            height,
            transparent: vec![false; n],
            walkable: vec![false; n],
            visible: vec![false; n],
            last_pos: (-1, -1),
        }
    }

    /// Copies the map's layout: a tile is transparent iff it does not block
    /// sight, and walkable iff it is not blocked.
    pub fn sync_transparency(&mut self, map: &TileMap)
        requires
            old(self).wf(),
            map.wf(),
            old(self).fits(*map),
        ensures
            final(self).wf(),
            final(self).fits(*map),
            final(self).spec_visible() == old(self).spec_visible(),
            final(self).spec_last_pos() == old(self).spec_last_pos(),
            forall|x: int, y: int|
                #![trigger map.at(x, y)]
                map.in_bounds(x, y) ==> final(self).spec_transparent()[flat_index(x, y, map.spec_width())]
                    == !map.at(x, y).block_sight && final(self).spec_walkable()[flat_index(
                    x,
                    y,
                    map.spec_width(),
                )] == !map.at(x, y).blocked,
    {
        let ghost w = self.spec_width();
        let ghost h = self.spec_height();
        let mut y: i32 = 0;
        while y < self.height
            invariant
                self.wf(),
                map.wf(),
                self.fits(*map),
                self.spec_width() == w,
                self.spec_height() == h,
                0 <= y <= h,
                self.spec_visible() == old(self).spec_visible(),
                self.spec_last_pos() == old(self).spec_last_pos(),
                forall|a: int, b: int|
                    #![trigger map.at(a, b)]
                    map.in_bounds(a, b) && b < y ==> self.spec_transparent()[flat_index(a, b, w)]
                        == !map.at(a, b).block_sight && self.spec_walkable()[flat_index(a, b, w)]
                        == !map.at(a, b).blocked,
            decreases h - y,
        {
            let mut x: i32 = 0;
            while x < self.width
                invariant
                    self.wf(),
                    map.wf(),
                    self.fits(*map),
                    self.spec_width() == w,
                    self.spec_height() == h,
                    0 <= y < h,
                    0 <= x <= w,
                    self.spec_visible() == old(self).spec_visible(),
                    self.spec_last_pos() == old(self).spec_last_pos(),
                    forall|a: int, b: int|
                        #![trigger map.at(a, b)]
                        map.in_bounds(a, b) && (b < y || (b == y && a < x)) ==> self.spec_transparent()[flat_index(a, b, w)]
                            == !map.at(a, b).block_sight && self.spec_walkable()[flat_index(a, b, w)]
                            == !map.at(a, b).blocked,
                decreases w - x,
            {
                let t = map.get(x, y);
                let i = self.index_of(x, y);
                self.transparent.set(i, !t.block_sight);
                self.walkable.set(i, !t.blocked);
                proof {
                    assert forall|a: int, b: int|
                        #![trigger map.at(a, b)]
                        map.in_bounds(a, b) && (b < y || (b == y && a < x + 1)) implies self.spec_transparent()[flat_index(a, b, w)]
                            == !map.at(a, b).block_sight && self.spec_walkable()[flat_index(a, b, w)]
                            == !map.at(a, b).blocked by {
                        lemma_flat_index(a, b, x as int, y as int, w, h);
                    }
                }
                x = x + 1;
            }
            y = y + 1;
        }
    }

    /// The position of `(x, y)` in the row-major grids.
    fn index_of(&self, x: i32, y: i32) -> (i: usize)
        requires
            self.wf(),
            0 <= x < self.spec_width(),
            0 <= y < self.spec_height(),
        ensures
            i == flat_index(x as int, y as int, self.spec_width()),
            i < self.spec_visible().len(),
    {
        proof {
            lemma_flat_index(x as int, y as int, x as int, y as int, self.spec_width(), self.spec_height());
        }
        (x as usize) + (y as usize) * (self.width as usize)
    }

    /// Visibility has to be computed again: the player stands elsewhere than
    /// at the last computation, or there was none.
    pub fn needs_recompute(&self, x: i32, y: i32) -> (r: bool)
        ensures
            r == (self.spec_last_pos() != (x, y)),
    {
        self.last_pos.0 != x || self.last_pos.1 != y
    }

    /// Takes the visibility that the field-of-view computation reported from
    /// `(x, y)`, one flag per tile row by row, and records that position.
    pub fn record_fov(&mut self, x: i32, y: i32, visible: Vec<bool>)
        requires
            old(self).wf(),
            visible@.len() == old(self).spec_width() * old(self).spec_height(),
        ensures
            final(self).wf(),
            final(self).spec_width() == old(self).spec_width(),
            final(self).spec_height() == old(self).spec_height(),
            final(self).spec_transparent() == old(self).spec_transparent(),
            final(self).spec_walkable() == old(self).spec_walkable(),
            final(self).spec_visible() == visible@,
            final(self).spec_last_pos() == (x, y),
    {
        self.visible = visible;
        self.last_pos = (x, y);
    }

    /// Does light pass through `(x, y)`, as last copied from the map?
    pub fn is_transparent(&self, x: i32, y: i32) -> (r: bool)
        requires
            self.wf(),
            0 <= x < self.spec_width(),
            0 <= y < self.spec_height(),
        ensures
            r == self.spec_transparent()[flat_index(x as int, y as int, self.spec_width())],
    {
        let i = self.index_of(x, y);
        self.transparent[i]
    }

    /// Can `(x, y)` be walked on, as last copied from the map?
    pub fn is_walkable(&self, x: i32, y: i32) -> (r: bool)
        requires
            self.wf(),
            0 <= x < self.spec_width(),
            0 <= y < self.spec_height(),
        ensures
            r == self.spec_walkable()[flat_index(x as int, y as int, self.spec_width())],
    {
        let i = self.index_of(x, y);
        self.walkable[i]
    }

    pub fn width(&self) -> (w: i32)
        ensures
            w == self.spec_width(),
    {
        self.width
    }

    pub fn height(&self) -> (h: i32)
        ensures
            h == self.spec_height(),
    {
        self.height
    }

    /// Was `(x, y)` in view at the last computation?
    pub fn is_visible(&self, x: i32, y: i32) -> (r: bool)
        requires
            self.wf(),
            0 <= x < self.spec_width(),
            0 <= y < self.spec_height(),
        ensures
            r == self.spec_visible()[flat_index(x as int, y as int, self.spec_width())],
    {
        let i = self.index_of(x, y);
        self.visible[i]
    }

    /// Marks every tile in view explored; no flag is ever cleared.
    pub fn fold_explored(&self, map: &mut TileMap)
        requires
            self.wf(),
            old(map).wf(),
            self.fits(*old(map)),
        ensures
            folded(*old(map), *final(map), self.spec_visible()),
    {
        let ghost start = *map;
        let ghost w = self.spec_width();
        let ghost h = self.spec_height();
        let mut y: i32 = 0;
        while y < self.height
            invariant
                self.wf(),
                map.wf(),
                start.wf(),
                self.fits(*map),
                self.fits(start),
                map.same_shape(&start),
                0 <= y <= h,
                w == self.spec_width(),
                h == self.spec_height(),
                forall|a: int, b: int|
                    #![trigger map.at(a, b)]
                    map.in_bounds(a, b) ==> map.at(a, b) == (Tile {
                        explored: start.at(a, b).explored || (b < y && self.spec_visible()[flat_index(a, b, w)]),
                        ..start.at(a, b)
                    }),
            decreases h - y,
        {
            let mut x: i32 = 0;
            while x < self.width
                invariant
                    self.wf(),
                    map.wf(),
                    start.wf(),
                    self.fits(*map),
                    self.fits(start),
                    map.same_shape(&start),
                    0 <= y < h,
                    0 <= x <= w,
                    w == self.spec_width(),
                    h == self.spec_height(),
                    forall|a: int, b: int|
                        #![trigger map.at(a, b)]
                        map.in_bounds(a, b) ==> map.at(a, b) == (Tile {
                            explored: start.at(a, b).explored || ((b < y || (b == y && a < x))
                                && self.spec_visible()[flat_index(a, b, w)]),
                            ..start.at(a, b)
                        }),
                decreases w - x,
            {
                if self.is_visible(x, y) {
                    // since it's visible, explore it
                    let t = map.get(x, y);
                    map.set(x, y, Tile { explored: true, ..t });
                }
                x = x + 1;
            }
            y = y + 1;
        }
    }

    /// Takes a fresh visibility result computed from `(x, y)` and at once marks
    /// what it shows explored, so that no stale result is ever folded in.
    pub fn refresh(&mut self, map: &mut TileMap, x: i32, y: i32, visible: Vec<bool>)
        requires
            old(self).wf(),
            old(map).wf(),
            old(self).fits(*old(map)),
            visible@.len() == old(self).spec_width() * old(self).spec_height(),
        ensures
            final(self).wf(),
            final(self).fits(*final(map)),
            final(self).spec_transparent() == old(self).spec_transparent(),
            final(self).spec_walkable() == old(self).spec_walkable(),
            final(self).spec_visible() == visible@,
            final(self).spec_last_pos() == (x, y),
            folded(*old(map), *final(map), visible@),
    {
        self.record_fov(x, y, visible);
        self.fold_explored(map);
    }

    /// How `(x, y)` is drawn: `None` while it is unexplored, else its shade.
    pub fn shade_at(&self, map: &TileMap, x: i32, y: i32) -> (s: Option<Shade>)
        requires
            self.wf(),
            map.wf(),
            self.fits(*map),
            map.in_bounds(x as int, y as int),
        ensures
            s == if map.at(x as int, y as int).explored {
                Some(spec_shade(self.spec_visible()[flat_index(x as int, y as int, map.spec_width())], map.at(x as int, y as int).block_sight))
            } else {
                None::<Shade>
            },
    {
        let t = map.get(x, y);
        if t.explored {
            Some(tile_shade(self.is_visible(x, y), t.block_sight))
        } else {
            None
        }
    }
}

} // verus!
