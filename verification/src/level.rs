//! The map: terrain, what the player has seen, and who stands where.
use crate::components::Position;
use crate::dice::{fresh_generator, range, roll_dice};
use crate::geometry::{cell_set, Coord, Rect};
use crate::storage::{Entity, Storage};
use std::collections::HashSet;
use vstd::prelude::*;

verus! {

broadcast use vstd::std_specs::hash::group_hash_axioms;

/// What a map tile is made of.
#[derive(PartialEq, Eq, Structural, Copy, Clone, Debug)]
pub enum TileType {
    Wall,
    Floor,
}

/// The width of a generated map.
pub const MAP_WIDTH_PIX: usize = 80;

/// The height of a generated map.
pub const MAP_HEIGHT_PIX: usize = 43;

/// The number of tiles of a generated map.
pub const MAP_PIXELCOUNT: usize = MAP_WIDTH_PIX * MAP_HEIGHT_PIX;

/// The most rooms that a generated map can have.
pub const NUM_MAX_ROOMS: usize = 30;

/// The least width and height of a room.
pub const MIN_ROOM_SIZE: i32 = 6;

/// The bound below which the width and height of a room stay.
pub const MAX_ROOM_SIZE: i32 = 10;

/// The cost of a step along a row or a column, in hundredths.
pub const CARDINAL_COST: u32 = 100;

/// The cost of a diagonal step, in hundredths.
pub const DIAGONAL_COST: u32 = 145;

/// The largest sight range, in absolute value, that a field of view is
/// computed for: four times its square still fits in an `i32`.
pub const SIGHT_LIMIT: i32 = 23170;

pub struct Level {
    pub tiles: Vec<TileType>,
    pub rooms: Vec<Rect>,
    pub width: i32,
    pub height: i32,
    /// Tiles that the player has seen at some point.
    pub revealed_tile_indices: HashSet<usize>,
    /// Tiles that the player sees now.
    pub fov_tile_indices: HashSet<usize>,
    /// Tiles that nothing can step on.
    pub blocked_tile_indices: HashSet<usize>,
    /// For each tile, the entities standing on it.
    pub tile_content: Vec<Vec<Entity>>,
}

/// `rltk::Point`, which the outside field of view takes and gives. Nothing
/// is read from it here.
#[verifier::external_type_specification]
#[verifier::external_body]
pub struct ExPoint(rltk::Point);

/// The point that `rltk::Point::new` makes of the coordinates `(x, y)`.
pub uninterp spec fn point_at(x: int, y: int) -> rltk::Point;

/// The cells that `rltk::field_of_view` finds in sight from `(x, y)` with
/// sight `range` on a map of the given size whose tile `i` blocks sight
/// where `opaque[i]` holds. Nothing more is assumed of it.
pub uninterp spec fn fov_cells(
    x: int,
    y: int,
    range: int,
    width: int,
    height: int,
    opaque: Seq<bool>,
) -> Set<(int, int)>;

/// The smaller of two numbers.
pub open spec fn lesser(a: int, b: int) -> int {
    if a <= b {
        a
    } else {
        b
    }
}

/// The greater of two numbers.
pub open spec fn greater(a: int, b: int) -> int {
    if a <= b {
        b
    } else {
        a
    }
}

/// The tiles of a map `width` wide after the box from `(x_lo, y_lo)` to
/// `(x_hi, y_hi)`, both included, has been turned into floor.
pub open spec fn dug(
    before: Seq<TileType>,
    width: int,
    x_lo: int,
    x_hi: int,
    y_lo: int,
    y_hi: int,
) -> Seq<TileType> {
    Seq::new(
        before.len(),
        |i: int|
            if x_lo <= i % width <= x_hi && y_lo <= i / width <= y_hi {
                TileType::Floor
            } else {
                before[i]
            },
    )
}

/// The tiles after row `y` has been turned into floor from `x_lo` to `x_hi`.
pub open spec fn row_dug(before: Seq<TileType>, width: int, x_lo: int, x_hi: int, y: int) -> Seq<
    TileType,
> {
    dug(before, width, x_lo, x_hi, y, y)
}

impl Level {
    /// The map has a positive size that an `i32` can index, one tile and one
    /// occupant list per cell.
    pub open spec fn wf(&self) -> bool {
        &&& self.width > 0
        &&& self.height > 0
        &&& self.width * self.height <= i32::MAX
        &&& self.tiles@.len() == self.width * self.height
        &&& self.tile_content@.len() == self.tiles@.len()
    }

/// The tiles that the player has seen at some point.
    pub open spec fn revealed(&self) -> Set<usize> {
        self.revealed_tile_indices@
    }

/// The tiles that the player sees now.
    pub open spec fn visible(&self) -> Set<usize> {
        self.fov_tile_indices@
    }

/// The tiles that nothing can step on.
    pub open spec fn blocked(&self) -> Set<usize> {
        self.blocked_tile_indices@
    }

    /// The occupant lists, tile by tile.
    pub open spec fn content(&self) -> Seq<Seq<Entity>> {
        Seq::new(self.tile_content@.len(), |i: int| self.tile_content@[i]@)
    }

    /// Which tiles block sight.
    pub open spec fn opacity(&self) -> Seq<bool> {
        Seq::new(self.tiles@.len(), |i: int| self.tiles@[i] == TileType::Wall)
    }

    /// The tiles that are walls.
    pub open spec fn walls(&self) -> Set<usize> {
        Set::new(|i: usize| i < self.tiles@.len() && self.tiles@[i as int] == TileType::Wall)
    }

/// Whether `(x, y)` is a cell of the map.
    pub open spec fn in_bounds(&self, x: int, y: int) -> bool {
        0 <= x < self.width && 0 <= y < self.height
    }

    /// The index of the tile at `(x, y)`.
    pub open spec fn index_of(&self, x: int, y: int) -> int {
        y * self.width + x
    }

    /// The tile indices of a set of cells.
    pub open spec fn indices_of(&self, cells: Set<(int, int)>) -> Set<usize> {
        Set::new(
            |i: usize|
                exists|c: (int, int)|
                    #[trigger] cells.contains(c) && self.in_bounds(c.0, c.1) && i == self.index_of(
                        c.0,
                        c.1,
                    ),
        )
    }

    /// Same terrain, size and rooms.
    pub open spec fn same_terrain(&self, other: &Level) -> bool {
        &&& self.tiles@ == other.tiles@
        &&& self.rooms@ == other.rooms@
        &&& self.width == other.width
        &&& self.height == other.height
    }

    /// Everything but the tiles is the same.
    pub open spec fn same_but_tiles(&self, other: &Level) -> bool {
        &&& self.rooms@ == other.rooms@
        &&& self.width == other.width
        &&& self.height == other.height
        &&& self.same_sight(other)
        &&& self.same_occupancy(other)
    }

    /// Same record of what the player has seen and sees.
    pub open spec fn same_sight(&self, other: &Level) -> bool {
        &&& self.revealed() == other.revealed()
        &&& self.visible() == other.visible()
    }

    /// Same blocked tiles and occupants.
    pub open spec fn same_occupancy(&self, other: &Level) -> bool {
        &&& self.blocked() == other.blocked()
        &&& self.tile_content@ == other.tile_content@
    }

    /// `(x, y)` is a floor tile of the map.
    pub open spec fn floor(&self, x: int, y: int) -> bool {
        self.in_bounds(x, y) && self.tiles@[self.index_of(x, y)] == TileType::Floor
    }

    /// Row `y` is floor from `xa` to `xb`, in either order.
    pub open spec fn row_is_floor(&self, y: int, xa: int, xb: int) -> bool {
        forall|x: int| lesser(xa, xb) <= x <= greater(xa, xb) ==> #[trigger] self.floor(x, y)
    }

    /// Column `x` is floor from `ya` to `yb`, in either order.
    pub open spec fn column_is_floor(&self, x: int, ya: int, yb: int) -> bool {
        forall|y: int| lesser(ya, yb) <= y <= greater(ya, yb) ==> #[trigger] self.floor(x, y)
    }

    /// An L-shaped corridor of floor leads from `a` to `b`: along the row of
    /// `a` and then the column of `b`, or along the column of `a` and then
    /// the row of `b`.
    pub open spec fn linked(&self, a: (int, int), b: (int, int)) -> bool {
        ||| self.row_is_floor(a.1, a.0, b.0) && self.column_is_floor(b.0, a.1, b.1)
        ||| self.column_is_floor(a.0, a.1, b.1) && self.row_is_floor(b.1, a.0, b.0)
    }

    /// What holds of the rooms of a generated map, whatever was drawn: each
    /// keeps off the map's outer ring and is between `MIN_ROOM_SIZE` and
    /// `MAX_ROOM_SIZE` wide and high; no two of them overlap or touch; the
    /// inside of each is floor; and each is linked to the one before it.
    pub open spec fn rooms_laid_out(&self) -> bool {
        &&& self.rooms@.len() <= NUM_MAX_ROOMS
        &&& forall|i: int|
            0 <= i < self.rooms@.len() ==> {
                &&& 0 <= (#[trigger] self.rooms@[i]).x1
                &&& self.rooms@[i].x2 <= self.width - 2
                &&& 0 <= self.rooms@[i].y1
                &&& self.rooms@[i].y2 <= self.height - 2
                &&& MIN_ROOM_SIZE <= self.rooms@[i].x2 - self.rooms@[i].x1 < MAX_ROOM_SIZE
                &&& MIN_ROOM_SIZE <= self.rooms@[i].y2 - self.rooms@[i].y1 < MAX_ROOM_SIZE
            }
        &&& forall|i: int, j: int|
            #![trigger self.rooms@[i], self.rooms@[j]]
            0 <= i < j < self.rooms@.len() ==> !self.rooms@[i].overlaps(&self.rooms@[j])
        &&& forall|i: int, x: int, y: int|
            0 <= i < self.rooms@.len() && (#[trigger] self.rooms@[i]).holds(x, y)
                ==> #[trigger] self.floor(x, y)
        &&& forall|i: int|
            1 <= i < self.rooms@.len() ==> self.linked(
                self.rooms@[i - 1].center(),
                (#[trigger] self.rooms@[i]).center(),
            )
    }

    /// Every floor tile keeps off the map's outer ring.
    pub open spec fn ringed_by_wall(&self) -> bool {
        forall|x: int, y: int| #[trigger]
            self.floor(x, y) ==> 1 <= x <= self.width - 2 && 1 <= y <= self.height - 2
    }

    /// Nothing is seen, nothing is blocked and nobody stands anywhere.
    pub open spec fn untouched(&self) -> bool {
        &&& self.revealed() == Set::<usize>::empty()
        &&& self.visible() == Set::<usize>::empty()
        &&& self.blocked() == Set::<usize>::empty()
        &&& forall|i: int|
            0 <= i < self.tile_content@.len() ==> (#[trigger] self.tile_content@[i])@.len() == 0
    }

    /// Digging a box turns its tiles into floor and leaves every other tile
    /// as it was.
    pub proof fn lemma_dug_floor(
        &self,
        after: &Level,
        x_lo: int,
        x_hi: int,
        y_lo: int,
        y_hi: int,
    )
        requires
            self.wf(),
            after.same_but_tiles(self),
            after.tiles@ == dug(self.tiles@, self.width as int, x_lo, x_hi, y_lo, y_hi),
        ensures
            after.wf(),
            forall|x: int, y: int| #[trigger]
                after.floor(x, y) == (self.floor(x, y) || (self.in_bounds(x, y) && x_lo <= x
                    <= x_hi && y_lo <= y <= y_hi)),
    {
        assert forall|x: int, y: int| #[trigger]
            after.floor(x, y) == (self.floor(x, y) || (self.in_bounds(x, y) && x_lo <= x <= x_hi
                && y_lo <= y <= y_hi)) by {
            if self.in_bounds(x, y) {
                self.lemma_index_in_range(x, y);
            }
        }
    }

    /// An index inside the map lies in exactly one cell.
    pub proof fn lemma_index_in_range(&self, x: int, y: int)
        requires
            self.wf(),
            self.in_bounds(x, y),
        ensures
            0 <= self.index_of(x, y) < self.tiles@.len(),
            self.index_of(x, y) % (self.width as int) == x,
            self.index_of(x, y) / (self.width as int) == y,
    {
        let w = self.width as int;
        let h = self.height as int;
        assert(y * w >= 0) by (nonlinear_arith)
            requires
                y >= 0,
                w > 0,
        ;
        assert(y * w + x < h * w) by (nonlinear_arith)
            requires
                0 <= y < h,
                0 <= x < w,
        ;
        assert(h * w == w * h) by (nonlinear_arith);
        vstd::arithmetic::div_mod::lemma_fundamental_div_mod_converse(y * w + x, w, y, x);
    }

    /// Decides `wf`.
    pub fn is_wf(&self) -> (ok: bool)
        ensures
            ok == self.wf(),
    {
        if self.width <= 0 || self.height <= 0 {
            return false;
        }
        assert(0 < self.width * self.height <= 0x7fff_ffff * 0x7fff_ffff) by (nonlinear_arith)
            requires
                0 < self.width <= 0x7fff_ffff,
                0 < self.height <= 0x7fff_ffff,
        ;
        let area: i64 = self.width as i64 * self.height as i64;
        area <= 0x7fff_ffff && self.tiles.len() as u128 == area as u128 && self.tile_content.len()
            == self.tiles.len()
    }

    /// Decides `in_bounds`.
    pub fn contains(&self, x: i32, y: i32) -> (r: bool)
        ensures
            r == self.in_bounds(x as int, y as int),
    {
        0 <= x && x < self.width && 0 <= y && y < self.height
    }

    /// A map of the given size that is all wall, with nothing seen, nothing
    /// blocked and nobody on it.
    pub fn solid(width: i32, height: i32) -> (level: Level)
        requires
            width > 0,
            height > 0,
            width * height <= i32::MAX,
        ensures
            level.wf(),
            level.width == width,
            level.height == height,
            level.rooms@.len() == 0,
            forall|i: int| 0 <= i < level.tiles@.len() ==> level.tiles@[i] == TileType::Wall,
            forall|i: int| 0 <= i < level.tile_content@.len() ==> level.tile_content@[i]@.len() == 0,
            level.revealed() == Set::<usize>::empty(),
            level.visible() == Set::<usize>::empty(),
            level.blocked() == Set::<usize>::empty(),
    {
        assert(width * height >= 1) by (nonlinear_arith)
            requires
                width >= 1,
                height >= 1,
        ;
        let count: usize = (width as i64 * height as i64) as usize;
        let mut tiles: Vec<TileType> = Vec::new();
        let mut tile_content: Vec<Vec<Entity>> = Vec::new();
        while tiles.len() < count
            invariant
                tiles@.len() <= count,
                tile_content@.len() == tiles@.len(),
                forall|i: int| 0 <= i < tiles@.len() ==> tiles@[i] == TileType::Wall,
                forall|i: int| 0 <= i < tile_content@.len() ==> tile_content@[i]@.len() == 0,
            decreases count - tiles@.len(),
        {
            tiles.push(TileType::Wall);
            tile_content.push(Vec::new());
        }
        Level {
            tiles,
            rooms: Vec::new(),
            width,
            height,
            revealed_tile_indices: HashSet::new(),
            fov_tile_indices: HashSet::new(),
            blocked_tile_indices: HashSet::new(),
            tile_content,
        }
    }

    fn dig_tile(&mut self, x: i32, y: i32)
        requires
            old(self).wf(),
            old(self).in_bounds(x as int, y as int),
        ensures
            final(self).wf(),
            final(self).same_but_tiles(old(self)),
            final(self).tiles@ == old(self).tiles@.update(
                old(self).index_of(x as int, y as int),
                TileType::Floor,
            ),
    {
        let idx = self.xy_idx(x, y);
        self.tiles[idx] = TileType::Floor;
    }

    /// Turns the tiles of the box from `(x_lo, y_lo)` to `(x_hi, y_hi)`,
    /// both included, into floor.
    fn dig(&mut self, x_lo: i32, x_hi: i32, y_lo: i32, y_hi: i32)
        requires
            old(self).wf(),
            0 <= x_lo,
            x_hi < old(self).width,
            0 <= y_lo,
            y_hi < old(self).height,
        ensures
            final(self).wf(),
            final(self).same_but_tiles(old(self)),
            final(self).tiles@ == dug(
                old(self).tiles@,
                old(self).width as int,
                x_lo as int,
                x_hi as int,
                y_lo as int,
                y_hi as int,
            ),
    {
        let ghost before = self.tiles@;
        let ghost w = self.width as int;
        let mut y: i32 = y_lo;
        assert(self.tiles@ =~= dug(before, w, x_lo as int, x_hi as int, y_lo as int, y_lo - 1));
        while y <= y_hi
            invariant
                self.wf(),
                self.same_but_tiles(old(self)),
                before == old(self).tiles@,
                w == self.width,
                0 <= x_lo,
                x_hi < self.width,
                0 <= y_lo <= y,
                y_hi < self.height,
                y <= y_hi + 1 || y == y_lo,
                self.tiles@ == dug(before, w, x_lo as int, x_hi as int, y_lo as int, y - 1),
            decreases y_hi + 1 - y,
        {
            let mut x: i32 = x_lo;
            let ghost row_before = self.tiles@;
            assert(self.tiles@ =~= row_dug(row_before, w, x_lo as int, x_lo - 1, y as int));
            while x <= x_hi
                invariant
                    self.wf(),
                    self.same_but_tiles(old(self)),
                    w == self.width,
                    0 <= x_lo <= x,
                    x_hi < self.width,
                    0 <= y < self.height,
                    x <= x_hi + 1 || x == x_lo,
                    row_before.len() == self.tiles@.len(),
                    self.tiles@ == row_dug(row_before, w, x_lo as int, x - 1, y as int),
                decreases x_hi + 1 - x,
            {
                let ghost tiles_before = self.tiles@;
                self.dig_tile(x, y);
                proof {
                    let idx = self.index_of(x as int, y as int);
                    self.lemma_index_in_range(x as int, y as int);
                    assert forall|i: int| 0 <= i < self.tiles@.len() implies self.tiles@[i]
                        == row_dug(row_before, w, x_lo as int, x as int, y as int)[i] by {
                        vstd::arithmetic::div_mod::lemma_fundamental_div_mod(i, w);
                        if i != idx {
                            assert(!(i % w == x && i / w == y)) by (nonlinear_arith)
                                requires
                                    i == w * (i / w) + i % w,
                                    idx == y * w + x,
                                    i != idx,
                            ;
                        }
                    }
                    assert(self.tiles@ =~= row_dug(row_before, w, x_lo as int, x as int, y as int));
                }
                x += 1;
            }
            proof {
                assert forall|i: int| 0 <= i < self.tiles@.len() implies self.tiles@[i] == dug(
                    before,
                    w,
                    x_lo as int,
                    x_hi as int,
                    y_lo as int,
                    y as int,
                )[i] by {}
                assert(self.tiles@ =~= dug(
                    before,
                    w,
                    x_lo as int,
                    x_hi as int,
                    y_lo as int,
                    y as int,
                ));
            }
            y += 1;
        }
        proof {
            if y_hi < y_lo {
                assert(dug(before, w, x_lo as int, x_hi as int, y_lo as int, y_lo - 1) =~= dug(
                    before,
                    w,
                    x_lo as int,
                    x_hi as int,
                    y_lo as int,
                    y_hi as int,
                ));
            }
        }
    }

    /// Turns the inside of `room` into floor.
    pub fn apply_room(&mut self, room: &Rect)
        requires
            old(self).wf(),
            -1 <= room.x1 < i32::MAX,
            room.x2 < old(self).width,
            -1 <= room.y1 < i32::MAX,
            room.y2 < old(self).height,
        ensures
            final(self).wf(),
            final(self).same_but_tiles(old(self)),
            final(self).tiles@ == dug(
                old(self).tiles@,
                old(self).width as int,
                room.x1 + 1,
                room.x2 as int,
                room.y1 + 1,
                room.y2 as int,
            ),
    {
        self.dig(room.x1 + 1, room.x2, room.y1 + 1, room.y2);
    }

    /// Turns row `y` from `x1` to `x2`, in either order, into floor, but
    /// for the map's very first tile.
    pub fn apply_horiz_tunnel(&mut self, x1: i32, x2: i32, y: i32)
        requires
            old(self).wf(),
            old(self).in_bounds(x1 as int, y as int),
            old(self).in_bounds(x2 as int, y as int),
        ensures
            final(self).wf(),
            final(self).same_but_tiles(old(self)),
            final(self).tiles@ == dug(
                old(self).tiles@,
                old(self).width as int,
                lesser(x1 as int, x2 as int),
                greater(x1 as int, x2 as int),
                y as int,
                y as int,
            ).update(0, old(self).tiles@[0]),
    {
        proof {
            self.lemma_index_in_range(0, 0);
        }
        let first = self.tiles[0];
        let lo: i32 = if x1 <= x2 {
            x1
        } else {
            x2
        };
        let hi: i32 = if x1 <= x2 {
            x2
        } else {
            x1
        };
        self.dig(lo, hi, y, y);
        self.tiles[0] = first;
    }

    /// Turns column `x` from `y1` to `y2`, in either order, into floor, but
    /// for the map's very first tile.
    pub fn apply_vert_tunnel(&mut self, y1: i32, y2: i32, x: i32)
        requires
            old(self).wf(),
            old(self).in_bounds(x as int, y1 as int),
            old(self).in_bounds(x as int, y2 as int),
        ensures
            final(self).wf(),
            final(self).same_but_tiles(old(self)),
            final(self).tiles@ == dug(
                old(self).tiles@,
                old(self).width as int,
                x as int,
                x as int,
                lesser(y1 as int, y2 as int),
                greater(y1 as int, y2 as int),
            ).update(0, old(self).tiles@[0]),
    {
        proof {
            self.lemma_index_in_range(0, 0);
        }
        let first = self.tiles[0];
        let lo: i32 = if y1 <= y2 {
            y1
        } else {
            y2
        };
        let hi: i32 = if y1 <= y2 {
            y2
        } else {
            y1
        };
        self.dig(x, x, lo, hi);
        self.tiles[0] = first;
    }

    /// Generates a map of `MAP_WIDTH_PIX` by `MAP_HEIGHT_PIX` tiles: up to
    /// `NUM_MAX_ROOMS` rooms of random size at random places, a room being
    /// dropped where it would overlap or touch an earlier one, and each room
    /// joined to the one before it by an L-shaped corridor whose bend is
    /// drawn by chance.
    pub fn new() -> (level: Level)
        ensures
            level.wf(),
            level.width == MAP_WIDTH_PIX,
            level.height == MAP_HEIGHT_PIX,
            level.untouched(),
            level.rooms_laid_out(),
            level.ringed_by_wall(),
    {
        let mut level = Level::solid(MAP_WIDTH_PIX as i32, MAP_HEIGHT_PIX as i32);
        let mut rng = fresh_generator();
        let mut attempt: usize = 0;
        proof {
            assert forall|x: int, y: int| #[trigger] level.floor(x, y) implies false by {
                level.lemma_index_in_range(x, y);
            }
        }
        while attempt < NUM_MAX_ROOMS
            invariant
                attempt <= NUM_MAX_ROOMS,
                level.wf(),
                level.width == MAP_WIDTH_PIX,
                level.height == MAP_HEIGHT_PIX,
                level.untouched(),
                level.rooms@.len() <= attempt,
                level.rooms_laid_out(),
                level.ringed_by_wall(),
            decreases NUM_MAX_ROOMS - attempt,
        {
            attempt += 1;
            let w: i32 = range(&mut rng, MIN_ROOM_SIZE, MAX_ROOM_SIZE);
            let h: i32 = range(&mut rng, MIN_ROOM_SIZE, MAX_ROOM_SIZE);
            let x: i32 = roll_dice(&mut rng, 1, MAP_WIDTH_PIX as i32 - w - 1) - 1;
            let y: i32 = roll_dice(&mut rng, 1, MAP_HEIGHT_PIX as i32 - h - 1) - 1;
            let new_room = Rect::new(x, y, w, h);

            let mut no_intersections: bool = true;
            let mut n: usize = 0;
            while n < level.rooms.len()
                invariant
                    n <= level.rooms@.len(),
                    no_intersections == (forall|i: int|
                        0 <= i < n ==> !(#[trigger] level.rooms@[i]).overlaps(&new_room)),
                decreases level.rooms@.len() - n,
            {
                if new_room.intersects(&level.rooms[n]) {
                    no_intersections = false;
                }
                n += 1;
            }
            if no_intersections {
                let ghost before = level;
                level.apply_room(&new_room);
                let ghost carved = level;
                proof {
                    before.lemma_dug_floor(
                        &carved,
                        new_room.x1 + 1,
                        new_room.x2 as int,
                        new_room.y1 + 1,
                        new_room.y2 as int,
                    );
                }
                // Corridorize
                if level.rooms.len() > 0 {
                    add_corridors(&new_room, &mut rng, &mut level);
                }
                let ghost joined = level;
                level.rooms.push(new_room);
                proof {
                    let last = joined.rooms@.len() as int;
                    assert forall|x: int, y: int| #[trigger] level.floor(x, y) == joined.floor(
                        x,
                        y,
                    ) by {}
                    assert forall|x: int, y: int| #[trigger]
                        before.floor(x, y) implies level.floor(x, y) by {
                        assert(carved.floor(x, y));
                        assert(joined.floor(x, y));
                    }
                    assert forall|i: int, x: int, y: int|
                        0 <= i < level.rooms@.len() && (#[trigger] level.rooms@[i]).holds(x, y)
                            implies #[trigger] level.floor(x, y) by {
                        if i < last {
                            assert(before.rooms@[i].holds(x, y));
                            assert(before.floor(x, y));
                        } else {
                            assert(carved.floor(x, y));
                            assert(joined.floor(x, y));
                        }
                    }
                    assert forall|i: int| 1 <= i < level.rooms@.len() implies level.linked(
                        level.rooms@[i - 1].center(),
                        (#[trigger] level.rooms@[i]).center(),
                    ) by {
                        if i < last {
                            assert(before.linked(
                                before.rooms@[i - 1].center(),
                                before.rooms@[i].center(),
                            ));
                            lemma_floor_grows_links(
                                &before,
                                &level,
                                before.rooms@[i - 1].center(),
                                before.rooms@[i].center(),
                            );
                        } else {
                            assert(joined.linked(
                                carved.rooms@.last().center(),
                                new_room.center(),
                            ));
                            lemma_floor_grows_links(
                                &joined,
                                &level,
                                level.rooms@[i - 1].center(),
                                level.rooms@[i].center(),
                            );
                        }
                    }
                    assert forall|x: int, y: int| #[trigger] level.floor(x, y) implies 1 <= x
                        <= level.width - 2 && 1 <= y <= level.height - 2 by {
                        assert(joined.floor(x, y));
                        if !carved.floor(x, y) {
                            assert(last > 0);
                            assert(0 <= carved.rooms@[last - 1].x1);
                        } else if !before.floor(x, y) {
                        }
                    }
                }
            }
        }
        level
    }

    /// Empties every occupant list.
    pub fn clear_tiles_content(&mut self)
        ensures
            final(self).same_terrain(old(self)),
            final(self).same_sight(old(self)),
            final(self).blocked() == old(self).blocked(),
            final(self).tile_content@.len() == old(self).tile_content@.len(),
            forall|i: int|
                0 <= i < final(self).tile_content@.len() ==> final(self).tile_content@[i]@.len()
                    == 0,
    {
        let mut i: usize = 0;
        while i < self.tile_content.len()
            invariant
                self.same_terrain(old(self)),
                self.same_sight(old(self)),
                self.blocked() == old(self).blocked(),
                self.tile_content@.len() == old(self).tile_content@.len(),
                i <= self.tile_content@.len(),
                forall|j: int| 0 <= j < i ==> self.tile_content@[j]@.len() == 0,
            decreases self.tile_content@.len() - i,
        {
            self.tile_content[i].clear();
            i += 1;
        }
    }

    /// Resets the blocked tiles to the walls.
    pub fn block_walls_only(&mut self)
        ensures
            final(self).same_terrain(old(self)),
            final(self).same_sight(old(self)),
            final(self).tile_content@ == old(self).tile_content@,
            final(self).blocked() == final(self).walls(),
    {
        self.blocked_tile_indices.clear();
        let mut i: usize = 0;
        while i < self.tiles.len()
            invariant
                self.same_terrain(old(self)),
                self.same_sight(old(self)),
                self.tile_content@ == old(self).tile_content@,
                i <= self.tiles@.len(),
                self.blocked() == Set::new(
                    |j: usize| j < i && self.tiles@[j as int] == TileType::Wall,
                ),
            decreases self.tiles@.len() - i,
        {
            let ghost before = self.blocked();
            if self.tiles[i] == TileType::Wall {
                self.blocked_tile_indices.insert(i);
                assert(self.blocked() == before.insert(i));
            }
            i += 1;
            assert(self.blocked() =~= Set::new(
                |j: usize| j < i && self.tiles@[j as int] == TileType::Wall,
            ));
        }
        assert(self.blocked() =~= self.walls());
    }

    /// Marks one tile as blocked.
    pub fn block_tile(&mut self, idx: usize)
        ensures
            final(self).same_terrain(old(self)),
            final(self).same_sight(old(self)),
            final(self).tile_content@ == old(self).tile_content@,
            final(self).blocked() == old(self).blocked().insert(idx),
    {
        self.blocked_tile_indices.insert(idx);
    }

/// Whether the tile is blocked.
    pub fn is_tile_blocked(&self, idx: usize) -> (r: bool)
        ensures
            r == self.blocked().contains(idx),
    {
        self.blocked_tile_indices.contains(&idx)
    }

    /// Whether `(x, y)` is a cell off the map's outer ring that nothing blocks.
    pub open spec fn valid_exit(&self, x: int, y: int) -> bool {
        &&& 1 <= x <= self.width - 1
        &&& 1 <= y <= self.height - 1
        &&& !self.blocked().contains(self.index_of(x, y) as usize)
    }

/// Decides `valid_exit`.
    pub fn is_valid_exit(&self, x: i32, y: i32) -> (r: bool)
        requires
            self.wf(),
        ensures
            r == self.valid_exit(x as int, y as int),
    {
        if x < 1 || x > self.width - 1 || y < 1 || y > self.height - 1 {
            false
        } else {
            let idx = self.xy_idx(x, y);
            !self.is_tile_blocked(idx)
        }
    }

    /// The exit to `(x, y)` at the given cost, if that cell is a valid exit.
    pub open spec fn exit_to(&self, x: int, y: int, cost: u32) -> Seq<(usize, u32)> {
        if self.valid_exit(x, y) {
            seq![(self.index_of(x, y) as usize, cost)]
        } else {
            Seq::empty()
        }
    }

    /// The tiles that can be stepped on from tile `idx`, each with the cost
    /// of the step in hundredths: west, east, north and south at
    /// `CARDINAL_COST`, then north-west, north-east, south-west and
    /// south-east at `DIAGONAL_COST`, leaving out what is no valid exit.
    pub open spec fn exits_of(&self, idx: int) -> Seq<(usize, u32)> {
        let x = idx % (self.width as int);
        let y = idx / (self.width as int);
        self.exit_to(x - 1, y, CARDINAL_COST) + self.exit_to(x + 1, y, CARDINAL_COST)
            + self.exit_to(x, y - 1, CARDINAL_COST) + self.exit_to(x, y + 1, CARDINAL_COST)
            + self.exit_to(x - 1, y - 1, DIAGONAL_COST) + self.exit_to(x + 1, y - 1, DIAGONAL_COST)
            + self.exit_to(x - 1, y + 1, DIAGONAL_COST) + self.exit_to(x + 1, y + 1, DIAGONAL_COST)
    }

    fn add_exit(&self, exits: &mut Vec<(usize, u32)>, x: i32, y: i32, cost: u32)
        requires
            self.wf(),
        ensures
            final(exits)@ == old(exits)@ + self.exit_to(x as int, y as int, cost),
    {
        if self.is_valid_exit(x, y) {
            exits.push((self.xy_idx(x, y), cost));
        }
        assert(exits@ =~= old(exits)@ + self.exit_to(x as int, y as int, cost));
    }

    /// Lists `exits_of(idx)`.
    pub fn get_available_exits(&self, idx: usize) -> (exits: Vec<(usize, u32)>)
        requires
            self.wf(),
            idx < self.tiles@.len(),
        ensures
            exits@ == self.exits_of(idx as int),
    {
        let width: usize = self.width as usize;
        proof {
            let w = self.width as int;
            let h = self.height as int;
            vstd::arithmetic::div_mod::lemma_fundamental_div_mod(idx as int, w);
            vstd::arithmetic::div_mod::lemma_mod_bound(idx as int, w);
            vstd::arithmetic::div_mod::lemma_div_pos_is_pos(idx as int, w);
            assert((idx as int) / w < h) by (nonlinear_arith)
                requires
                    0 <= idx < w * h,
                    w > 0,
                    idx as int == w * ((idx as int) / w) + (idx as int) % w,
                    0 <= (idx as int) % w,
            ;
        }
        let x: i32 = (idx % width) as i32;
        let y: i32 = (idx / width) as i32;
        let mut exits: Vec<(usize, u32)> = Vec::new();
        assert(exits@ =~= Seq::<(usize, u32)>::empty());

        // Cardinal directions
        self.add_exit(&mut exits, x - 1, y, CARDINAL_COST);
        self.add_exit(&mut exits, x + 1, y, CARDINAL_COST);
        self.add_exit(&mut exits, x, y - 1, CARDINAL_COST);
        self.add_exit(&mut exits, x, y + 1, CARDINAL_COST);

        // Diagonals
        self.add_exit(&mut exits, x - 1, y - 1, DIAGONAL_COST);
        self.add_exit(&mut exits, x + 1, y - 1, DIAGONAL_COST);
        self.add_exit(&mut exits, x - 1, y + 1, DIAGONAL_COST);
        self.add_exit(&mut exits, x + 1, y + 1, DIAGONAL_COST);
        assert(exits@ =~= self.exits_of(idx as int));
        exits
    }

    /// Forgets what the player sees now.
    pub fn clear_fov_tiles(&mut self)
        ensures
            final(self).same_terrain(old(self)),
            final(self).same_occupancy(old(self)),
            final(self).revealed() == old(self).revealed(),
            final(self).visible() == Set::<usize>::empty(),
    {
        self.fov_tile_indices.clear();
    }

/// Whether the player has seen the tile at some point.
    pub fn is_tile_revealed(&self, idx: usize) -> (r: bool)
        ensures
            r == self.revealed().contains(idx),
    {
        self.revealed_tile_indices.contains(&idx)
    }

/// Whether the player sees the tile now.
    pub fn is_tile_visible(&self, idx: usize) -> (r: bool)
        ensures
            r == self.visible().contains(idx),
    {
        self.fov_tile_indices.contains(&idx)
    }

    /// Records that the player sees a tile: it is visible now and stays
    /// revealed.
    pub fn reveal_tile(&mut self, idx: usize)
        ensures
            final(self).same_terrain(old(self)),
            final(self).same_occupancy(old(self)),
            final(self).revealed() == old(self).revealed().insert(idx),
            final(self).visible() == old(self).visible().insert(idx),
    {
        self.revealed_tile_indices.insert(idx);
        self.fov_tile_indices.insert(idx);
    }

    /// Replaces what the player sees now by the tiles of `cells`, and adds
    /// them to what the player has seen.
    pub fn show(&mut self, cells: &Vec<Coord>)
        requires
            old(self).wf(),
            forall|j: int|
                0 <= j < cells@.len() ==> old(self).in_bounds(
                    #[trigger] cells@[j].x as int,
                    cells@[j].y as int,
                ),
        ensures
            final(self).same_terrain(old(self)),
            final(self).same_occupancy(old(self)),
            final(self).visible() == final(self).indices_of(cell_set(cells@)),
            final(self).revealed() == old(self).revealed().union(
                final(self).indices_of(cell_set(cells@)),
            ),
    {
        self.clear_fov_tiles();
        let mut n: usize = 0;
        while n < cells.len()
            invariant
                n <= cells@.len(),
                self.wf(),
                self.same_terrain(old(self)),
                self.same_occupancy(old(self)),
                forall|j: int|
                    0 <= j < cells@.len() ==> self.in_bounds(
                        #[trigger] cells@[j].x as int,
                        cells@[j].y as int,
                    ),
                forall|i: usize|
                    self.visible().contains(i) <==> exists|j: int|
                        0 <= j < n && i == self.index_of(
                            #[trigger] cells@[j].x as int,
                            cells@[j].y as int,
                        ),
                forall|i: usize|
                    self.revealed().contains(i) <==> (old(self).revealed().contains(i)
                        || self.visible().contains(i)),
            decreases cells@.len() - n,
        {
            let c = cells[n];
            let idx = self.xy_idx(c.x, c.y);
            let ghost visible_before = self.visible();
            let ghost revealed_before = self.revealed();
            self.reveal_tile(idx);
            n += 1;
            assert forall|i: usize| self.visible().contains(i) <==> exists|j: int|
                0 <= j < n && i == self.index_of(
                    #[trigger] cells@[j].x as int,
                    cells@[j].y as int,
                ) by {
                if self.visible().contains(i) {
                    if i == idx {
                        assert(i == self.index_of(cells@[n - 1].x as int, cells@[n - 1].y as int));
                    } else {
                        assert(visible_before.contains(i));
                        let j = choose|j: int|
                            0 <= j < n - 1 && i == self.index_of(
                                #[trigger] cells@[j].x as int,
                                cells@[j].y as int,
                            );
                        assert(0 <= j < n);
                    }
                }
                if exists|j: int|
                    0 <= j < n && i == self.index_of(
                        #[trigger] cells@[j].x as int,
                        cells@[j].y as int,
                    ) {
                    let j = choose|j: int|
                        0 <= j < n && i == self.index_of(
                            #[trigger] cells@[j].x as int,
                            cells@[j].y as int,
                        );
                    if j < n - 1 {
                        assert(visible_before.contains(i));
                    }
                }
            }
        }
        proof {
            let shown = self.indices_of(cell_set(cells@));
            assert forall|i: usize| self.visible().contains(i) <==> shown.contains(i) by {
                if self.visible().contains(i) {
                    let j = choose|j: int|
                        0 <= j < n && i == self.index_of(
                            #[trigger] cells@[j].x as int,
                            cells@[j].y as int,
                        );
                    let c = cells@[j].cell();
                    assert(cell_set(cells@).contains(c));
                    assert(self.in_bounds(c.0, c.1));
                }
                if shown.contains(i) {
                    let c = choose|c: (int, int)|
                        #[trigger] cell_set(cells@).contains(c) && self.in_bounds(c.0, c.1) && i
                            == self.index_of(c.0, c.1);
                    let j = choose|j: int| 0 <= j < cells@.len() && #[trigger] cells@[j].cell() == c;
                    assert(i == self.index_of(cells@[j].x as int, cells@[j].y as int));
                }
            }
            assert(self.visible() =~= shown);
            assert(self.revealed() =~= old(self).revealed().union(shown));
        }
    }

    /// The index of the tile at `(x, y)`.
    pub fn xy_idx(&self, x: i32, y: i32) -> (idx: usize)
        requires
            self.wf(),
            self.in_bounds(x as int, y as int),
        ensures
            idx == self.index_of(x as int, y as int),
            idx < self.tiles@.len(),
    {
        proof {
            self.lemma_index_in_range(x as int, y as int);
        }
        x as usize + (y as usize * self.width as usize)
    }

    /// Whether the tile blocks sight; everything off the map does.
    pub fn blocks_sight(&self, idx: usize) -> (r: bool)
        ensures
            r == (idx >= self.tiles@.len() || self.opacity()[idx as int]),
    {
        idx >= self.tiles.len() || self.tiles[idx] == TileType::Wall
    }
}

/// Where a map has all the floor of another, it has all its corridors.
pub proof fn lemma_floor_grows_links(before: &Level, after: &Level, a: (int, int), b: (int, int))
    requires
        before.linked(a, b),
        forall|x: int, y: int| #[trigger] before.floor(x, y) ==> after.floor(x, y),
    ensures
        after.linked(a, b),
{
    if before.row_is_floor(a.1, a.0, b.0) && before.column_is_floor(b.0, a.1, b.1) {
        assert forall|x: int| lesser(a.0, b.0) <= x <= greater(a.0, b.0) implies #[trigger]
            after.floor(x, a.1) by {
            assert(before.floor(x, a.1));
        }
        assert forall|y: int| lesser(a.1, b.1) <= y <= greater(a.1, b.1) implies #[trigger]
            after.floor(b.0, y) by {
            assert(before.floor(b.0, y));
        }
    } else {
        assert forall|y: int| lesser(a.1, b.1) <= y <= greater(a.1, b.1) implies #[trigger]
            after.floor(a.0, y) by {
            assert(before.floor(a.0, y));
        }
        assert forall|x: int| lesser(a.0, b.0) <= x <= greater(a.0, b.0) implies #[trigger]
            after.floor(x, b.1) by {
            assert(before.floor(x, b.1));
        }
    }
}

/// Whether `(x, y)` lies on the L-shaped way from `from` to `to`: along the
/// row of `from` and then the column of `to` where `row_first` holds, and
/// along the column of `from` and then the row of `to` where it does not.
pub open spec fn on_bend(from: (int, int), to: (int, int), row_first: bool, x: int, y: int) -> bool {
    if row_first {
        ||| y == from.1 && lesser(from.0, to.0) <= x <= greater(from.0, to.0)
        ||| x == to.0 && lesser(from.1, to.1) <= y <= greater(from.1, to.1)
    } else {
        ||| x == from.0 && lesser(from.1, to.1) <= y <= greater(from.1, to.1)
        ||| y == to.1 && lesser(from.0, to.0) <= x <= greater(from.0, to.0)
    }
}

/// Digs an L-shaped corridor from `from` to `to`, bending as `row_first`
/// says. Every tile on the way becomes floor, but for the map's very first
/// tile; nothing else changes.
pub fn dig_corridor(level: &mut Level, from: (i32, i32), to: (i32, i32), row_first: bool)
    requires
        old(level).wf(),
        old(level).in_bounds(from.0 as int, from.1 as int),
        old(level).in_bounds(to.0 as int, to.1 as int),
    ensures
        final(level).wf(),
        final(level).same_but_tiles(old(level)),
        forall|x: int, y: int| #[trigger]
            final(level).floor(x, y) == (old(level).floor(x, y) || (on_bend(
                (from.0 as int, from.1 as int),
                (to.0 as int, to.1 as int),
                row_first,
                x,
                y,
            ) && !(x == 0 && y == 0))),
{
    let ghost start = *level;
    if row_first {
        level.apply_horiz_tunnel(from.0, to.0, from.1);
        let ghost mid = *level;
        level.apply_vert_tunnel(from.1, to.1, to.0);
        proof {
            lemma_tunnel_floor(
                &start,
                &mid,
                lesser(from.0 as int, to.0 as int),
                greater(from.0 as int, to.0 as int),
                from.1 as int,
                from.1 as int,
            );
            lemma_tunnel_floor(
                &mid,
                level,
                to.0 as int,
                to.0 as int,
                lesser(from.1 as int, to.1 as int),
                greater(from.1 as int, to.1 as int),
            );
        }
    } else {
        level.apply_vert_tunnel(from.1, to.1, from.0);
        let ghost mid = *level;
        level.apply_horiz_tunnel(from.0, to.0, to.1);
        proof {
            lemma_tunnel_floor(
                &start,
                &mid,
                from.0 as int,
                from.0 as int,
                lesser(from.1 as int, to.1 as int),
                greater(from.1 as int, to.1 as int),
            );
            lemma_tunnel_floor(
                &mid,
                level,
                lesser(from.0 as int, to.0 as int),
                greater(from.0 as int, to.0 as int),
                to.1 as int,
                to.1 as int,
            );
        }
    }
    proof {
        assert forall|x: int, y: int| #[trigger]
            level.floor(x, y) == (start.floor(x, y) || (on_bend(
                (from.0 as int, from.1 as int),
                (to.0 as int, to.1 as int),
                row_first,
                x,
                y,
            ) && !(x == 0 && y == 0))) by {}
    }
}

/// Joins `new_room` to the last room of the level by a corridor from
/// center to center: along the row and then the column, or the other way
/// round, as chance has it.
fn add_corridors(new_room: &Rect, rng: &mut rltk::RandomNumberGenerator, level: &mut Level)
    requires
        old(level).wf(),
        old(level).rooms@.len() > 0,
        old(level).in_bounds(new_room.center().0, new_room.center().1),
        old(level).in_bounds(
            old(level).rooms@.last().center().0,
            old(level).rooms@.last().center().1,
        ),
        1 <= new_room.center().0,
        1 <= old(level).rooms@.last().center().0,
    ensures
        final(level).wf(),
        final(level).same_but_tiles(old(level)),
        final(level).linked(old(level).rooms@.last().center(), new_room.center()),
        forall|x: int, y: int| #[trigger] old(level).floor(x, y) ==> final(level).floor(x, y),
        forall|x: int, y: int| #[trigger]
            final(level).floor(x, y) ==> old(level).floor(x, y) || ((lesser(
                old(level).rooms@.last().center().0,
                new_room.center().0,
            ) <= x <= greater(old(level).rooms@.last().center().0, new_room.center().0)
                && lesser(old(level).rooms@.last().center().1, new_room.center().1) <= y
                <= greater(old(level).rooms@.last().center().1, new_room.center().1))),
{
    let (new_x, new_y) = new_room.get_center();
    let (prev_x, prev_y) = level.rooms[level.rooms.len() - 1].get_center();
    let row_first: bool = range(rng, 0, 2) == 1;
    dig_corridor(level, (prev_x, prev_y), (new_x, new_y), row_first);
    proof {
        let from = (prev_x as int, prev_y as int);
        let to = (new_x as int, new_y as int);
        if row_first {
            assert forall|x: int| lesser(from.0, to.0) <= x <= greater(from.0, to.0) implies #[trigger]
                level.floor(x, from.1) by {
                assert(on_bend(from, to, row_first, x, from.1));
            }
            assert forall|y: int| lesser(from.1, to.1) <= y <= greater(from.1, to.1) implies #[trigger]
                level.floor(to.0, y) by {
                assert(on_bend(from, to, row_first, to.0, y));
            }
        } else {
            assert forall|y: int| lesser(from.1, to.1) <= y <= greater(from.1, to.1) implies #[trigger]
                level.floor(from.0, y) by {
                assert(on_bend(from, to, row_first, from.0, y));
            }
            assert forall|x: int| lesser(from.0, to.0) <= x <= greater(from.0, to.0) implies #[trigger]
                level.floor(x, to.1) by {
                assert(on_bend(from, to, row_first, x, to.1));
            }
        }
    }
}

/// A tunnel turns its box into floor, but for the map's very first tile.
proof fn lemma_tunnel_floor(
    before: &Level,
    after: &Level,
    x_lo: int,
    x_hi: int,
    y_lo: int,
    y_hi: int,
)
    requires
        before.wf(),
        after.same_but_tiles(before),
        after.tiles@ == dug(before.tiles@, before.width as int, x_lo, x_hi, y_lo, y_hi).update(
            0,
            before.tiles@[0],
        ),
    ensures
        after.wf(),
        forall|x: int, y: int| #[trigger]
            after.floor(x, y) == (before.floor(x, y) || (before.in_bounds(x, y) && x_lo <= x
                <= x_hi && y_lo <= y <= y_hi && !(x == 0 && y == 0))),
{
    before.lemma_index_in_range(0, 0);
    assert forall|x: int, y: int| #[trigger]
        after.floor(x, y) == (before.floor(x, y) || (before.in_bounds(x, y) && x_lo <= x <= x_hi
            && y_lo <= y <= y_hi && !(x == 0 && y == 0))) by {
        if before.in_bounds(x, y) {
            before.lemma_index_in_range(x, y);
            if before.index_of(x, y) == 0 {
                assert(x == 0 && y == 0) by (nonlinear_arith)
                    requires
                        y * before.width + x == 0,
                        0 <= x,
                        0 <= y,
                        before.width > 0,
                ;
            }
        }
    }
}

/// Every position in the table lies on the map./// Every position in the table lies on the map.
pub open spec fn on_map(positions: Map<int, Position>, level: &Level) -> bool {
    forall|k: int| #[trigger]
        positions.contains_key(k) ==> level.in_bounds(positions[k].x as int, positions[k].y as int)
}

/// Decides `on_map`.
pub fn all_on_map(positions: &Storage<Position>, level: &Level) -> (ok: bool)
    ensures
        ok == on_map(positions@, level),
{
    let bound: usize = positions.len();
    let mut i: usize = 0;
    proof {
        positions.lemma_keys_below_span();
    }
    while i < bound
        invariant
            bound == positions.span(),
            i <= bound,
            forall|k: int|
                0 <= k < i && #[trigger] positions@.contains_key(k) ==> level.in_bounds(
                    positions@[k].x as int,
                    positions@[k].y as int,
                ),
        decreases bound - i,
    {
        if let Some(pos) = positions.get(Entity { id: i }) {
            if !level.contains(pos.x, pos.y) {
                return false;
            }
        }
        i += 1;
    }
    true
}

/// `rltk::Point::new` on two `i32` coordinates, which it takes over as they
/// are: the contract names the point that holds them.
#[verifier::external_body]
fn outside_point(x: i32, y: i32) -> (p: rltk::Point)
    ensures
        p == point_at(x as int, y as int),
{
    rltk::Point::new(x, y)
}

/// Sight is the only thing the map answers for here: a tile is opaque where
/// it is a wall or lies off the map.
impl rltk::BaseMap for Level {
    fn is_opaque(&self, idx: usize) -> (opaque: bool)
        ensures
            opaque == (idx >= self.tiles@.len() || self.opacity()[idx as int]),
    {
        self.blocks_sight(idx)
    }
}

impl rltk::Algorithm2D for Level {
    fn dimensions(&self) -> (size: rltk::Point)
        ensures
            size == point_at(self.width as int, self.height as int),
    {
        outside_point(self.width, self.height)
    }
}

/// `rltk::field_of_view` from `(x, y)` on this level. The outside function
/// walks the map by recursive shadow casting in floating point; what it
/// returns depends on the origin, the range, the map's size and its opaque
/// tiles alone, and the contract names that set of cells. The order of the
/// list is that of a hash set and is not stated. The origin has to be on the
/// map and the range within `SIGHT_LIMIT`, where the outside arithmetic stays
/// in range.
#[verifier::external_body]
pub(crate) fn field_of_view(level: &Level, x: i32, y: i32, range: i32) -> (cells: Vec<Coord>)
    requires
        level.wf(),
        level.in_bounds(x as int, y as int),
        -SIGHT_LIMIT <= range <= SIGHT_LIMIT,
    ensures
        cell_set(cells@) == fov_cells(
            x as int,
            y as int,
            range as int,
            level.width as int,
            level.height as int,
            level.opacity(),
        ),
{
    rltk::field_of_view(rltk::Point::new(x, y), range, level)
        .into_iter()
        .map(|p| Coord { x: p.x, y: p.y })
        .collect()
}

} // verus!
