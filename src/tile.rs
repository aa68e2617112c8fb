use vstd::prelude::*;

verus! {

/// One cell of the map: whether it stops movement, whether it stops sight,
/// and whether the player has ever seen it.
#[derive(Clone, Copy, Debug, PartialEq, Eq, Structural)]
pub struct Tile {
    pub blocked: bool,
    pub block_sight: bool,
    pub explored: bool,
}

impl Tile {
    /// A floor tile: passable, transparent, not yet seen.
    pub open spec fn spec_empty() -> Tile {
        Tile { blocked: false, block_sight: false, explored: false }
    }

    /// A wall tile: impassable, opaque, not yet seen.
    pub open spec fn spec_wall() -> Tile {
        Tile { blocked: true, block_sight: true, explored: false }
    }

    pub fn empty() -> (t: Tile)
        ensures
            t == Tile::spec_empty(),
    {
        Tile { blocked: false, block_sight: false, explored: false }
    }

    pub fn wall() -> (t: Tile)
        ensures
            t == Tile::spec_wall(),
    {
        Tile { blocked: true, block_sight: true, explored: false }
    }
}

/// The position of cell `(x, y)` in a row-major array whose rows are `w` wide.
pub open spec fn flat_index(x: int, y: int, w: int) -> int {
    x + y * w
}

/// Distinct in-range cells have distinct positions, and every position is inside the array.
pub proof fn lemma_flat_index(x: int, y: int, a: int, b: int, w: int, h: int)
    requires
        0 <= x < w,
        0 <= y < h,
        0 <= a < w,
        0 <= b < h,
    ensures
        0 <= y * w,
        y * w + x < w * h,
        0 <= flat_index(x, y, w) < w * h,
        flat_index(x, y, w) == flat_index(a, b, w) ==> x == a && y == b,
{
    assert(0 <= y * w <= (h - 1) * w) by (nonlinear_arith)
        requires
            0 <= y < h,
            0 < w,
    ;
    assert((h - 1) * w + w == w * h) by (nonlinear_arith);
    if flat_index(x, y, w) == flat_index(a, b, w) {
        if y < b {
            assert(y * w + w <= b * w) by (nonlinear_arith)
                requires
                    y < b,
                    0 < w,
            ;
        } else if b < y {
            assert(b * w + w <= y * w) by (nonlinear_arith)
                requires
                    b < y,
                    0 < w,
            ;
        }
    }
}

/// A dense rectangular grid of tiles, stored row by row.
pub struct TileMap {
    data: Vec<Tile>,
    map_width: i32,
    map_height: i32,
}

impl TileMap {
    /// The tiles, row by row.
    pub closed spec fn view(&self) -> Seq<Tile> {
        self.data@
    }

    pub closed spec fn spec_width(&self) -> int {
        self.map_width as int
    }

    pub closed spec fn spec_height(&self) -> int {
        self.map_height as int
    }

    /// Every in-range coordinate has exactly one tile.
    pub open spec fn wf(&self) -> bool {
        &&& self.spec_width() > 0
        &&& self.spec_height() >= 0
        &&& self.spec_width() <= i32::MAX
        &&& self.spec_height() <= i32::MAX
        &&& self@.len() == self.spec_width() * self.spec_height()
        &&& self@.len() <= usize::MAX
    }

    pub open spec fn in_bounds(&self, x: int, y: int) -> bool {
        0 <= x < self.spec_width() && 0 <= y < self.spec_height()
    }

    /// The tile at `(x, y)`.
    pub open spec fn at(&self, x: int, y: int) -> Tile {
        self@[flat_index(x, y, self.spec_width())]
    }

    /// The two maps have the same width and height.
    pub open spec fn same_shape(&self, other: &TileMap) -> bool {
        self.spec_width() == other.spec_width() && self.spec_height() == other.spec_height()
    }

    /// Builds a map from tiles stored row by row, `map_width` to a row.
    pub fn from_data(data: Vec<Tile>, map_width: i32) -> (m: TileMap)
        requires
            map_width > 0,
            (data@.len() as int) % (map_width as int) == 0,
            (data@.len() as int) / (map_width as int) <= i32::MAX,
        ensures
            m.wf(),
            m@ == data@,
            m.spec_width() == map_width,
            m.spec_height() == (data@.len() as int) / (map_width as int),
    {
        let h: usize = data.len() / (map_width as usize);
        proof {
            vstd::arithmetic::div_mod::lemma_fundamental_div_mod(data@.len() as int, map_width as int);
        }
        assert(data@.len() == (map_width as int) * (h as int));
        TileMap { data, map_width, map_height: h as i32 }
    }

    /// A `width` by `height` map with every tile equal to `tile`.
    pub fn filled(width: i32, height: i32, tile: Tile) -> (m: TileMap)
        requires
            width > 0,
            height > 0,
            width as int * height as int <= usize::MAX,
        ensures
            m.wf(),
            m.spec_width() == width,
            m.spec_height() == height,
            forall|x: int, y: int| m.in_bounds(x, y) ==> #[trigger] m.at(x, y) == tile,
    {
        let n: usize = (width as usize) * (height as usize);
        let data = vec![tile; n];
        let m = TileMap { data, map_width: width, map_height: height };
        assert forall|x: int, y: int| m.in_bounds(x, y) implies #[trigger] m.at(x, y) == tile by {
            lemma_flat_index(x, y, x, y, width as int, height as int);
        }
        m
    }

    pub fn width(&self) -> (w: i32)
        ensures
            w == self.spec_width(),
    {
        self.map_width
    }

    pub fn height(&self) -> (h: i32)
        ensures
            h == self.spec_height(),
    {
        self.map_height
    }

    /// The position of `(x, y)` in the row-major storage.
    fn index_of(&self, x: i32, y: i32) -> (i: usize)
        requires
            self.wf(),
            self.in_bounds(x as int, y as int),
        ensures
            i == flat_index(x as int, y as int, self.spec_width()),
            i < self.data@.len(),
    {
        proof {
            lemma_flat_index(x as int, y as int, x as int, y as int, self.spec_width(), self.spec_height());
        }
        (x as usize) + (y as usize) * (self.map_width as usize)
    }

    /// The tile at `(x, y)`; the coordinate must be on the map.
    pub fn get(&self, x: i32, y: i32) -> (t: Tile)
        requires
            self.wf(),
            self.in_bounds(x as int, y as int),
        ensures
            t == self.at(x as int, y as int),
    {
        let i = self.index_of(x, y);
        self.data[i]
    }

    /// Replaces the tile at `(x, y)`; every other tile is kept.
    pub fn set(&mut self, x: i32, y: i32, t: Tile)
        requires
            old(self).wf(),
            old(self).in_bounds(x as int, y as int),
        ensures
            final(self).wf(),
            final(self).same_shape(old(self)),
            final(self).at(x as int, y as int) == t,
            forall|a: int, b: int|
                final(self).in_bounds(a, b) && !(a == x && b == y) ==> #[trigger] final(self).at(a, b)
                    == old(self).at(a, b),
    {
        let i = self.index_of(x, y);
        self.data.set(i, t);
        proof {
            assert forall|a: int, b: int|
                self.in_bounds(a, b) && !(a == x && b == y) implies #[trigger] self.at(a, b) == old(self).at(a, b) by {
                lemma_flat_index(x as int, y as int, a, b, self.spec_width(), self.spec_height());
                lemma_flat_index(a, b, x as int, y as int, self.spec_width(), self.spec_height());
            }
        }
    }
}

} // verus!
