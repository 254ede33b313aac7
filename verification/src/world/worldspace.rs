use vstd::prelude::*;

use crate::world::coordinate_system::{spec_distance_squared, Point};
use crate::world::tiles::{Tile, TileType};

verus! {

pub const WORLD_WIDTH: usize = 100;
pub const WORLD_HEIGHT: usize = 25;

/// A rectangular room: `origin` is the top-left wall corner, the walls lie
/// `width` columns and `height` rows further.
#[derive(Clone, Copy, Debug, PartialEq, Eq, Structural)]
pub struct Room {
    pub origin: Point,
    pub width: usize,
    pub height: usize,
}

impl Room {
    pub fn new(origin: Point, width: usize, height: usize) -> (r: Self)
        ensures
            r == (Room { origin, width, height }),
    {
        Self { origin, width, height }
    }
}

/// The grid of tiles of one level, stored row by row.
pub struct World {
    pub width: usize,
    pub height: usize,
    pub tiles: Vec<Tile>,
}

/// The index of grid cell `(x, y)` in a row-by-row grid `width` wide.
pub open spec fn grid_index(width: int, x: int, y: int) -> int {
    y * width + x
}

/// Whether `(x, y)` lies strictly inside the walls of the room.
pub open spec fn room_floor_cell(room: Room, x: int, y: int) -> bool {
    &&& room.origin.x < x < room.origin.x + room.width
    &&& room.origin.y < y < room.origin.y + room.height
}

/// Whether `(x, y)` lies on the walls of the room.
pub open spec fn room_wall_cell(room: Room, x: int, y: int) -> bool {
    ||| (room.origin.x <= x <= room.origin.x + room.width
        && (y == room.origin.y || y == room.origin.y + room.height))
    ||| (room.origin.y <= y <= room.origin.y + room.height
        && (x == room.origin.x || x == room.origin.x + room.width))
}

/// Whether grid index `k` is the index of a floor cell of the room.
pub open spec fn room_floor_index(width: int, room: Room, k: int) -> bool {
    exists|x: int, y: int| #[trigger] room_floor_cell(room, x, y) && grid_index(width, x, y) == k
}

/// Whether grid index `k` is the index of a wall cell of the room.
pub open spec fn room_wall_index(width: int, room: Room, k: int) -> bool {
    exists|x: int, y: int| #[trigger] room_wall_cell(room, x, y) && grid_index(width, x, y) == k
}

/// A tile with its type replaced.
pub open spec fn with_type(t: Tile, tt: TileType) -> Tile {
    Tile { tile_type: tt, ..t }
}

/// The tile at grid index `k` after carving `room` into `old`.
pub open spec fn carved_tile(width: int, room: Room, old: Tile, k: int) -> Tile {
    if room_wall_index(width, room, k) {
        with_type(old, TileType::Wall)
    } else if room_floor_index(width, room, k) {
        with_type(old, TileType::Floor)
    } else {
        old
    }
}

/// Whether the cell of column `x` and row `y` comes before `(cx, cy)` in
/// row-major order of a loop over rows then columns.
pub open spec fn row_major_before(x: int, y: int, cx: int, cy: int) -> bool {
    y < cy || (y == cy && x < cx)
}

/// Floor cells of the room already visited by a row-by-row scan.
pub open spec fn floor_index_before(width: int, room: Room, k: int, cx: int, cy: int) -> bool {
    exists|x: int, y: int|
        #[trigger] room_floor_cell(room, x, y) && row_major_before(x, y, cx, cy)
            && grid_index(width, x, y) == k
}

/// Wall cells of the vertical walls on rows before `cy`.
pub open spec fn side_wall_index_before(width: int, room: Room, k: int, cy: int) -> bool {
    exists|x: int, y: int|
        #[trigger] room_wall_cell(room, x, y) && room.origin.y <= y < cy
            && (x == room.origin.x || x == room.origin.x + room.width)
            && grid_index(width, x, y) == k
}

/// Wall cells of the horizontal walls on columns before `cx`.
pub open spec fn top_wall_index_before(width: int, room: Room, k: int, cx: int) -> bool {
    exists|x: int, y: int|
        #[trigger] room_wall_cell(room, x, y) && room.origin.x <= x < cx
            && (y == room.origin.y || y == room.origin.y + room.height)
            && grid_index(width, x, y) == k
}

impl World {
    /// The dimensions every world has.
    pub open spec fn wf(&self) -> bool {
        &&& self.width == WORLD_WIDTH
        &&& self.height == WORLD_HEIGHT
        &&& self.tiles.len() == WORLD_WIDTH * WORLD_HEIGHT
    }

    /// The tile at grid cell `(x, y)`.
    pub open spec fn tile_at(&self, x: int, y: int) -> Tile {
        self.tiles@[grid_index(self.width as int, x, y)]
    }

    /// Whether grid cell `(x, y)` maps into the tile vector.
    pub open spec fn has_cell(&self, x: int, y: int) -> bool {
        0 <= x && 0 <= y && grid_index(self.width as int, x, y) < self.tiles.len()
    }

    /// Whether `(x, y)` lies within the world's dimensions.
    pub open spec fn spec_in_bounds(&self, x: int, y: int) -> bool {
        0 <= x < self.width && 0 <= y < self.height
    }

    /// A world of `WORLD_WIDTH` x `WORLD_HEIGHT` unseen void tiles.
    pub fn new() -> (w: Self)
        ensures
            w.wf(),
            forall|k: int| 0 <= k < w.tiles.len() ==> w.tiles@[k] == Tile::void_spec(),
    {
        let mut tiles: Vec<Tile> = Vec::new();
        let n: usize = WORLD_WIDTH * WORLD_HEIGHT;
        while tiles.len() < n
            invariant
                tiles.len() <= n,
                n == WORLD_WIDTH * WORLD_HEIGHT,
                forall|k: int| 0 <= k < tiles.len() ==> tiles@[k] == Tile::void_spec(),
            decreases n - tiles.len(),
        {
            tiles.push(Tile::void());
        }
        Self { width: WORLD_WIDTH, height: WORLD_HEIGHT, tiles }
    }

    /// Index into [World::tiles] of the cell at column `x` and row `y`.
    pub fn index(&self, x: usize, y: usize) -> (i: usize)
        requires
            grid_index(self.width as int, x as int, y as int) <= usize::MAX,
        ensures
            i == grid_index(self.width as int, x as int, y as int),
    {
        proof {
            assert(0 <= y * self.width) by (nonlinear_arith);
        }
        y * self.width + x
    }

    pub fn get_tile(&self, point: Point) -> (t: &Tile)
        requires
            self.has_cell(point.x as int, point.y as int),
        ensures
            *t == self.tile_at(point.x as int, point.y as int),
    {
        let index = self.index(point.x, point.y);
        &self.tiles[index]
    }

    pub fn get_tile_mut(&mut self, point: Point) -> (t: &mut Tile)
        requires
            old(self).has_cell(point.x as int, point.y as int),
        ensures
            *t == old(self).tile_at(point.x as int, point.y as int),
            final(self).width == old(self).width,
            final(self).height == old(self).height,
            final(self).tiles@ == old(self).tiles@.update(
                grid_index(old(self).width as int, point.x as int, point.y as int),
                *final(t),
            ),
    {
        let index = self.index(point.x, point.y);
        &mut self.tiles[index]
    }

    /// Replaces the type of the tile at `point`, keeping its visibility.
    pub fn set_tile_type(&mut self, point: Point, tile_type: TileType)
        requires
            old(self).has_cell(point.x as int, point.y as int),
        ensures
            final(self).width == old(self).width,
            final(self).height == old(self).height,
            final(self).tiles@ == old(self).tiles@.update(
                grid_index(old(self).width as int, point.x as int, point.y as int),
                with_type(old(self).tile_at(point.x as int, point.y as int), tile_type),
            ),
    {
        let index = self.index(point.x, point.y);
        let mut t = self.tiles[index];
        t.tile_type = tile_type;
        self.tiles.set(index, t);
    }

    /// Whether coordinates lie within the world. Takes `isize` so that
    /// negative coordinates can be checked (they are out of bounds).
    pub fn is_in_bounds(&self, x: isize, y: isize) -> (b: bool)
        ensures
            b == self.spec_in_bounds(x as int, y as int),
    {
        let in_lower_bounds: bool = x >= 0 && y >= 0;
        let in_upper_bounds: bool = (x as usize) < self.width && (y as usize) < self.height;

        in_lower_bounds && in_upper_bounds
    }


    /// The points within `radius` of `point`: those inside the world whose
    /// squared distance from `point` is at most the squared radius (so they
    /// lie within `radius` on each axis too).
    pub open spec fn spec_in_radius(&self, point: Point, radius: int, q: Point) -> bool {
        &&& spec_max(point.x - radius, 0) <= q.x <= spec_min(point.x + radius, self.width - 1)
        &&& spec_max(point.y - radius, 0) <= q.y <= spec_min(point.y + radius, self.height - 1)
        &&& spec_distance_squared(point, q) <= radius * radius
    }

    /// Returns the [Point]s around `point` that lie within the given radius,
    /// column by column from left to right and top to bottom within a column.
    pub fn get_points_in_radius(&self, point: Point, radius: isize) -> (points: Vec<Point>)
        requires
            self.wf(),
            point.x <= isize::MAX,
            point.y <= isize::MAX,
            isize::MIN <= point.x - radius <= isize::MAX,
            isize::MIN <= point.x + radius <= isize::MAX,
            isize::MIN <= point.y - radius <= isize::MAX,
            isize::MIN <= point.y + radius <= isize::MAX,
            radius * radius <= isize::MAX / 2,
        ensures
            forall|q: Point| points@.contains(q) <==> self.spec_in_radius(point, radius as int, q),
            forall|i: int, j: int| 0 <= i < j < points.len() ==> point_lex_lt(points@[i], points@[j]),
    {
        let mut points: Vec<Point> = Vec::new();
        let x = point.x as isize;
        let y = point.y as isize;

        let lo_x = x - radius;
        let min_x: isize = if lo_x < 0 { 0 } else { lo_x };
        let hi_x = x + radius;
        let last_x = self.width as isize - 1;
        let max_x: isize = if hi_x < last_x { hi_x } else { last_x };
        let lo_y = y - radius;
        let min_y: isize = if lo_y < 0 { 0 } else { lo_y };
        let hi_y = y + radius;
        let last_y = self.height as isize - 1;
        let max_y: isize = if hi_y < last_y { hi_y } else { last_y };
        proof {
            assert(0 <= radius * radius) by (nonlinear_arith);
        }
        let r2 = radius * radius;

        let mut i = min_x;
        while i <= max_x
            invariant
                self.wf(),
                x == point.x, y == point.y,
                min_x == spec_max(x - radius, 0), max_x == spec_min(x + radius, self.width - 1),
                min_y == spec_max(y - radius, 0), max_y == spec_min(y + radius, self.height - 1),
                r2 == radius * radius, radius * radius <= isize::MAX / 2,
                min_x <= i <= max_x + 1 || (max_x < min_x && i == min_x),
                0 <= min_x, max_x < 100, 0 <= min_y, max_y < 25,
                forall|q: Point| points@.contains(q)
                    <==> (self.spec_in_radius(point, radius as int, q) && q.x < i),
                forall|a: int, b: int| 0 <= a < b < points.len() ==> point_lex_lt(points@[a], points@[b]),
                forall|a: int| 0 <= a < points.len() ==> points@[a].x < i,
            decreases max_x + 1 - i,
        {
            let mut j = min_y;
            while j <= max_y
                invariant
                    self.wf(),
                    x == point.x, y == point.y,
                    min_x == spec_max(x - radius, 0), max_x == spec_min(x + radius, self.width - 1),
                    min_y == spec_max(y - radius, 0), max_y == spec_min(y + radius, self.height - 1),
                    r2 == radius * radius, radius * radius <= isize::MAX / 2,
                    min_x <= i <= max_x,
                    min_y <= j <= max_y + 1 || (max_y < min_y && j == min_y),
                    0 <= min_x, max_x < 100, 0 <= min_y, max_y < 25,
                    forall|q: Point| points@.contains(q)
                        <==> (self.spec_in_radius(point, radius as int, q) && (q.x < i || (q.x == i && q.y < j))),
                    forall|a: int, b: int| 0 <= a < b < points.len() ==> point_lex_lt(points@[a], points@[b]),
                    forall|a: int| 0 <= a < points.len() ==> point_lex_lt(points@[a], Point { x: i as usize, y: j as usize }),
                decreases max_y + 1 - j,
            {
                proof {
                    lemma_square_bounded(x - i, radius as int);
                    lemma_square_bounded(y - j, radius as int);
                }
                let dx = x - i;
                let dy = y - j;
                if dx * dx + dy * dy <= r2 {
                    let q = Point::new(i as usize, j as usize);
                    let ghost before = points@;
                    points.push(q);
                    proof {
                        assert forall|z: Point| points@.contains(z)
                            <==> (self.spec_in_radius(point, radius as int, z) && (z.x < i || (z.x == i && z.y < j + 1))) by {
                            if points@.contains(z) && z != q {
                                let k = choose|k: int| 0 <= k < points.len() && points@[k] == z;
                                assert(before.contains(z));
                            }
                            if z == q {
                                assert(points@[points.len() - 1] == q);
                            } else if self.spec_in_radius(point, radius as int, z) && (z.x < i || (z.x == i && z.y < j)) {
                                assert(before.contains(z));
                                let k = choose|k: int| 0 <= k < before.len() && before[k] == z;
                                assert(points@[k] == z);
                            }
                        }
                    }
                } else {
                    proof {
                        assert forall|z: Point| points@.contains(z)
                            <==> (self.spec_in_radius(point, radius as int, z) && (z.x < i || (z.x == i && z.y < j + 1))) by {
                            if z.x == i && z.y == j {
                                assert(z == Point { x: i as usize, y: j as usize });
                            }
                        }
                    }
                }
                j = j + 1;
            }
            proof {
                assert forall|q: Point| points@.contains(q)
                    <==> (self.spec_in_radius(point, radius as int, q) && q.x < i + 1) by {
                    if self.spec_in_radius(point, radius as int, q) && q.x == i {
                        assert(q.y < j);
                    }
                }
            }
            i = i + 1;
        }
        proof {
            assert forall|q: Point| points@.contains(q) <==> self.spec_in_radius(point, radius as int, q) by {
                if self.spec_in_radius(point, radius as int, q) {
                    assert(q.x < i);
                }
            }
        }
        points
    }

    /// Carves a rectangular room into the map: fills the interior with
    /// `Floor` tiles and surrounds it with `Wall` tiles.
    ///
    /// Cells are addressed by their row-by-row index, so every tile whose
    /// index is that of a wall cell becomes a wall, every other tile whose
    /// index is that of a floor cell becomes floor, and all other tiles keep
    /// their type; visibility flags are never touched.
    pub fn carve_room(&mut self, room: &Room)
        requires
            old(self).wf(),
            room.origin.x + room.width <= usize::MAX,
            room.origin.y + room.height <= usize::MAX,
            grid_index(
                old(self).width as int,
                room.origin.x + room.width,
                room.origin.y + room.height,
            ) < old(self).tiles.len(),
        ensures
            final(self).width == old(self).width,
            final(self).height == old(self).height,
            final(self).tiles.len() == old(self).tiles.len(),
            final(self).wf(),
            forall|k: int|
                0 <= k < old(self).tiles.len() ==> #[trigger] final(self).tiles@[k] == carved_tile(
                    old(self).width as int,
                    *room,
                    old(self).tiles@[k],
                    k,
                ),
    {
        let ox = room.origin.x;
        let oy = room.origin.y;
        let w = room.width;
        let h = room.height;
        let ghost width = self.width as int;
        let ghost old_tiles = self.tiles@;
        let ghost r = *room;
        assert(oy + h < WORLD_WIDTH * WORLD_HEIGHT) by (nonlinear_arith)
            requires (oy + h) * 100 + ox + w < 2500, width == 100, ox + w >= 0;

        proof {
            lemma_grid_index_monotone(width, ox + w, oy + h);
        }
        // Floors
        let mut y = oy + 1;
        while y < oy + h
            invariant
                oy + 1 <= y <= oy + h || (h == 0 && y == oy + 1),
                self.width == width,
                self.height == old(self).height,
                self.tiles.len() == old_tiles.len(),
                r == *room, ox == room.origin.x, oy == room.origin.y, w == room.width, h == room.height,
                grid_index(width, ox + w, oy + h) < old_tiles.len(),
                ox + w < 2500, oy + h < 2500,
                forall|a: int, b: int| 0 <= a <= ox + w && 0 <= b <= oy + h
                    ==> #[trigger] grid_index(width, a, b) <= grid_index(width, ox + w, oy + h),
                forall|k: int| 0 <= k < old_tiles.len() ==> #[trigger] self.tiles@[k] == (
                    if floor_index_before(width, r, k, 0, y as int) { with_type(old_tiles[k], TileType::Floor) }
                    else { old_tiles[k] }),
            decreases oy + h - y,
        {
            let mut x = ox + 1;
            while x < ox + w
                invariant
                    ox + 1 <= x <= ox + w || (w == 0 && x == ox + 1),
                    oy + 1 <= y < oy + h,
                    self.width == width,
                    self.height == old(self).height,
                    self.tiles.len() == old_tiles.len(),
                    r == *room, ox == room.origin.x, oy == room.origin.y, w == room.width, h == room.height,
                    grid_index(width, ox + w, oy + h) < old_tiles.len(),
                    ox + w < 2500, oy + h < 2500,
                    forall|a: int, b: int| 0 <= a <= ox + w && 0 <= b <= oy + h
                        ==> #[trigger] grid_index(width, a, b) <= grid_index(width, ox + w, oy + h),
                    forall|k: int| 0 <= k < old_tiles.len() ==> #[trigger] self.tiles@[k] == (
                        if floor_index_before(width, r, k, x as int, y as int) { with_type(old_tiles[k], TileType::Floor) }
                        else { old_tiles[k] }),
                decreases ox + w - x,
            {
                let ghost pre = self.tiles@;
                let ghost idx = grid_index(width, x as int, y as int);
                assert(grid_index(width, x as int, y as int) <= grid_index(width, ox + w, oy + h));
                self.set_tile_type(Point::new(x, y), TileType::Floor);
                proof {
                    assert(room_floor_cell(r, x as int, y as int));
                    assert forall|k: int| 0 <= k < old_tiles.len() implies #[trigger] self.tiles@[k] == (
                        if floor_index_before(width, r, k, x + 1, y as int) { with_type(old_tiles[k], TileType::Floor) }
                        else { old_tiles[k] }) by {
                        if k == idx {
                            assert(floor_index_before(width, r, k, x + 1, y as int));
                        } else {
                            if floor_index_before(width, r, k, x + 1, y as int) {
                                let (a, b) = choose|a: int, b: int| #[trigger] room_floor_cell(r, a, b)
                                    && row_major_before(a, b, x + 1, y as int) && grid_index(width, a, b) == k;
                                assert(!(a == x && b == y));
                                assert(floor_index_before(width, r, k, x as int, y as int));
                            }
                            if floor_index_before(width, r, k, x as int, y as int) {
                                let (a, b) = choose|a: int, b: int| #[trigger] room_floor_cell(r, a, b)
                                    && row_major_before(a, b, x as int, y as int) && grid_index(width, a, b) == k;
                                assert(floor_index_before(width, r, k, x + 1, y as int));
                            }
                        }
                    }
                }
                x = x + 1;
            }
            proof {
                assert forall|k: int| 0 <= k < old_tiles.len() implies
                    floor_index_before(width, r, k, x as int, y as int) == floor_index_before(width, r, k, 0, y + 1) by {
                    if floor_index_before(width, r, k, x as int, y as int) {
                        let (a, b) = choose|a: int, b: int| #[trigger] room_floor_cell(r, a, b)
                            && row_major_before(a, b, x as int, y as int) && grid_index(width, a, b) == k;
                        assert(floor_index_before(width, r, k, 0, y + 1));
                    }
                    if floor_index_before(width, r, k, 0, y + 1) {
                        let (a, b) = choose|a: int, b: int| #[trigger] room_floor_cell(r, a, b)
                            && row_major_before(a, b, 0, y + 1) && grid_index(width, a, b) == k;
                        assert(floor_index_before(width, r, k, x as int, y as int));
                    }
                }
            }
            y = y + 1;
        }
        let ghost floored = self.tiles@;
        proof {
            assert forall|k: int| 0 <= k < old_tiles.len() implies
                floor_index_before(width, r, k, 0, y as int) == room_floor_index(width, r, k) by {
                if room_floor_index(width, r, k) {
                    let (a, b) = choose|a: int, b: int| #[trigger] room_floor_cell(r, a, b) && grid_index(width, a, b) == k;
                    assert(floor_index_before(width, r, k, 0, y as int));
                }
            }
        }

        // Vertical walls
        let mut y = oy;
        while y <= oy + h
            invariant
                oy <= y <= oy + h + 1,
                self.width == width,
                self.height == old(self).height,
                self.tiles.len() == old_tiles.len(),
                r == *room, ox == room.origin.x, oy == room.origin.y, w == room.width, h == room.height,
                grid_index(width, ox + w, oy + h) < old_tiles.len(),
                ox + w < 2500, oy + h < 2500,
                forall|a: int, b: int| 0 <= a <= ox + w && 0 <= b <= oy + h
                    ==> #[trigger] grid_index(width, a, b) <= grid_index(width, ox + w, oy + h),
                forall|k: int| 0 <= k < old_tiles.len() ==> #[trigger] self.tiles@[k] == (
                    if side_wall_index_before(width, r, k, y as int) { with_type(old_tiles[k], TileType::Wall) }
                    else { floored[k] }),
                forall|k: int| 0 <= k < old_tiles.len() ==> #[trigger] floored[k] == (
                    if room_floor_index(width, r, k) { with_type(old_tiles[k], TileType::Floor) }
                    else { old_tiles[k] }),
            decreases oy + h + 1 - y,
        {
            let ghost i1 = grid_index(width, ox as int, y as int);
            let ghost i2 = grid_index(width, ox + w, y as int);
            assert(grid_index(width, ox as int, y as int) <= grid_index(width, ox + w, oy + h));
            assert(grid_index(width, ox + w, y as int) <= grid_index(width, ox + w, oy + h));
            self.set_tile_type(Point::new(ox, y), TileType::Wall);
            self.set_tile_type(Point::new(ox + w, y), TileType::Wall);
            proof {
                assert(room_wall_cell(r, ox as int, y as int));
                assert(room_wall_cell(r, ox + w, y as int));
                assert forall|k: int| 0 <= k < old_tiles.len() implies #[trigger] self.tiles@[k] == (
                    if side_wall_index_before(width, r, k, y + 1) { with_type(old_tiles[k], TileType::Wall) }
                    else { floored[k] }) by {
                    if k == i1 || k == i2 {
                        if k == i1 {
                            assert(side_wall_index_before(width, r, k, y + 1));
                        } else {
                            assert(side_wall_index_before(width, r, k, y + 1));
                        }
                    } else {
                        if side_wall_index_before(width, r, k, y + 1) {
                            let (a, b) = choose|a: int, b: int| #[trigger] room_wall_cell(r, a, b) && oy <= b < y + 1
                                && (a == ox || a == ox + w) && grid_index(width, a, b) == k;
                            assert(b != y);
                            assert(side_wall_index_before(width, r, k, y as int));
                        }
                        if side_wall_index_before(width, r, k, y as int) {
                            let (a, b) = choose|a: int, b: int| #[trigger] room_wall_cell(r, a, b) && oy <= b < y
                                && (a == ox || a == ox + w) && grid_index(width, a, b) == k;
                            assert(side_wall_index_before(width, r, k, y + 1));
                        }
                    }
                }
            }
            y = y + 1;
        }
        let ghost sided = self.tiles@;

        // Horizontal walls
        let mut x = ox;
        while x <= ox + w
            invariant
                ox <= x <= ox + w + 1,
                y == oy + h + 1,
                self.width == width,
                self.height == old(self).height,
                self.tiles.len() == old_tiles.len(),
                r == *room, ox == room.origin.x, oy == room.origin.y, w == room.width, h == room.height,
                grid_index(width, ox + w, oy + h) < old_tiles.len(),
                ox + w < 2500, oy + h < 2500,
                forall|a: int, b: int| 0 <= a <= ox + w && 0 <= b <= oy + h
                    ==> #[trigger] grid_index(width, a, b) <= grid_index(width, ox + w, oy + h),
                forall|k: int| 0 <= k < old_tiles.len() ==> #[trigger] self.tiles@[k] == (
                    if top_wall_index_before(width, r, k, x as int) { with_type(old_tiles[k], TileType::Wall) }
                    else { sided[k] }),
                forall|k: int| 0 <= k < old_tiles.len() ==> #[trigger] sided[k] == (
                    if side_wall_index_before(width, r, k, y as int) { with_type(old_tiles[k], TileType::Wall) }
                    else { floored[k] }),
                forall|k: int| 0 <= k < old_tiles.len() ==> #[trigger] floored[k] == (
                    if room_floor_index(width, r, k) { with_type(old_tiles[k], TileType::Floor) }
                    else { old_tiles[k] }),
            decreases ox + w + 1 - x,
        {
            let ghost i1 = grid_index(width, x as int, oy as int);
            let ghost i2 = grid_index(width, x as int, oy + h);
            assert(grid_index(width, x as int, oy as int) <= grid_index(width, ox + w, oy + h));
            assert(grid_index(width, x as int, oy + h) <= grid_index(width, ox + w, oy + h));
            self.set_tile_type(Point::new(x, oy), TileType::Wall);
            self.set_tile_type(Point::new(x, oy + h), TileType::Wall);
            proof {
                assert(room_wall_cell(r, x as int, oy as int));
                assert(room_wall_cell(r, x as int, oy + h));
                assert forall|k: int| 0 <= k < old_tiles.len() implies #[trigger] self.tiles@[k] == (
                    if top_wall_index_before(width, r, k, x + 1) { with_type(old_tiles[k], TileType::Wall) }
                    else { sided[k] }) by {
                    if k == i1 || k == i2 {
                        if k == i1 {
                            assert(top_wall_index_before(width, r, k, x + 1));
                        } else {
                            assert(top_wall_index_before(width, r, k, x + 1));
                        }
                    } else {
                        if top_wall_index_before(width, r, k, x + 1) {
                            let (a, b) = choose|a: int, b: int| #[trigger] room_wall_cell(r, a, b) && ox <= a < x + 1
                                && (b == oy || b == oy + h) && grid_index(width, a, b) == k;
                            assert(a != x);
                            assert(top_wall_index_before(width, r, k, x as int));
                        }
                        if top_wall_index_before(width, r, k, x as int) {
                            let (a, b) = choose|a: int, b: int| #[trigger] room_wall_cell(r, a, b) && ox <= a < x
                                && (b == oy || b == oy + h) && grid_index(width, a, b) == k;
                            assert(top_wall_index_before(width, r, k, x + 1));
                        }
                    }
                }
            }
            x = x + 1;
        }
        proof {
            assert forall|k: int| 0 <= k < old_tiles.len() implies #[trigger] self.tiles@[k] == carved_tile(
                width, r, old_tiles[k], k) by {
                let wall_now = top_wall_index_before(width, r, k, x as int) || side_wall_index_before(width, r, k, y as int);
                if room_wall_index(width, r, k) {
                    let (a, b) = choose|a: int, b: int| #[trigger] room_wall_cell(r, a, b) && grid_index(width, a, b) == k;
                    if b == oy || b == oy + h {
                        assert(top_wall_index_before(width, r, k, x as int));
                    } else {
                        assert(side_wall_index_before(width, r, k, y as int));
                    }
                }
                if top_wall_index_before(width, r, k, x as int) {
                    let (a, b) = choose|a: int, b: int| #[trigger] room_wall_cell(r, a, b) && ox <= a < x
                        && (b == oy || b == oy + h) && grid_index(width, a, b) == k;
                    assert(room_wall_index(width, r, k));
                }
                if side_wall_index_before(width, r, k, y as int) {
                    let (a, b) = choose|a: int, b: int| #[trigger] room_wall_cell(r, a, b) && oy <= b < y
                        && (a == ox || a == ox + w) && grid_index(width, a, b) == k;
                    assert(room_wall_index(width, r, k));
                }
            }
        }
    }
}


pub open spec fn spec_max(a: int, b: int) -> int {
    if a < b { b } else { a }
}

pub open spec fn spec_min(a: int, b: int) -> int {
    if a < b { a } else { b }
}

/// Lexicographic order on points: by column, then by row.
pub open spec fn point_lex_lt(a: Point, b: Point) -> bool {
    a.x < b.x || (a.x == b.x && a.y < b.y)
}

/// A value no further from zero than `r` has a square no larger than `r * r`.
pub proof fn lemma_square_bounded(d: int, r: int)
    ensures
        -r <= d <= r ==> d * d <= r * r,
        0 <= d * d,
{
    assert(0 <= d * d) by (nonlinear_arith);
    if -r <= d <= r {
        assert(d * d <= r * r) by (nonlinear_arith)
            requires -r <= d <= r;
    }
}

/// The row-major index grows with both coordinates.
pub proof fn lemma_grid_index_monotone(width: int, mx: int, my: int)
    requires
        width >= 0,
    ensures
        forall|a: int, b: int| 0 <= a <= mx && 0 <= b <= my
            ==> #[trigger] grid_index(width, a, b) <= grid_index(width, mx, my),
{
    assert forall|a: int, b: int| 0 <= a <= mx && 0 <= b <= my
        implies #[trigger] grid_index(width, a, b) <= grid_index(width, mx, my) by {
        assert(b * width <= my * width) by (nonlinear_arith)
            requires 0 <= b <= my, width >= 0;
    }
}

impl Tile {
    pub open spec fn void_spec() -> Tile {
        Tile { tile_type: TileType::Void, visible: false, explored: false }
    }
}

/// A cell within the world's dimensions has its place in the tile vector.
pub proof fn lemma_cell_index(world: World, x: int, y: int)
    requires
        world.wf(),
        0 <= x < WORLD_WIDTH,
        0 <= y < WORLD_HEIGHT,
    ensures
        0 <= grid_index(world.width as int, x, y) < world.tiles.len(),
{
    assert(0 <= y * 100 + x < 2500) by (nonlinear_arith)
        requires 0 <= x < 100, 0 <= y < 25;
}

/// Whether a tile joins onto a neighbouring wall: walls and doors do.
pub open spec fn joins_wall(t: TileType) -> bool {
    t is Wall || t is Door
}

/// Whether the cell `(x, y)` lies in the world and holds a wall or a door.
pub open spec fn joins_at(world: World, x: int, y: int) -> bool {
    world.spec_in_bounds(x, y) && joins_wall(world.tile_at(x, y).tile_type)
}

/// One bit of a wall mask: `bit` where the neighbour joins, else nothing.
pub open spec fn mask_bit(joins: bool, bit: int) -> int {
    if joins { bit } else { 0 }
}

/// The wall mask of a point: its four lowest bits say whether a wall or a
/// door lies to the north (1), south (2), west (4) and east (8).
pub open spec fn spec_wall_mask(world: World, p: Point) -> int {
    mask_bit(joins_at(world, p.x as int, p.y - 1), 1) + mask_bit(joins_at(world, p.x as int, p.y + 1), 2)
        + mask_bit(joins_at(world, p.x - 1, p.y as int), 4) + mask_bit(joins_at(world, p.x + 1, p.y as int), 8)
}

/// Whether the cell `(x, y)` lies in the world and holds a wall or a door.
fn joins_wall_at(world: &World, x: isize, y: isize) -> (b: bool)
    requires
        world.wf(),
    ensures
        b == joins_at(*world, x as int, y as int),
{
    if world.is_in_bounds(x, y) {
        match world.get_tile(Point::new(x as usize, y as usize)).tile_type {
            TileType::Wall => true,
            TileType::Door(_) => true,
            _ => false,
        }
    } else {
        false
    }
}

/// The wall mask of a point of the world: which of its four neighbours are
/// walls or doors (north 1, south 2, west 4, east 8). Cells outside the
/// world count as no wall.
pub fn wall_mask(world: &World, point: Point) -> (m: u8)
    requires
        world.wf(),
        world.spec_in_bounds(point.x as int, point.y as int),
    ensures
        m == spec_wall_mask(*world, point),
{
    let x = point.x as isize;
    let y = point.y as isize;
    let mut mask: u8 = 0;
    if joins_wall_at(world, x, y - 1) {
        mask = mask + 1;
    }
    if joins_wall_at(world, x, y + 1) {
        mask = mask + 2;
    }
    if joins_wall_at(world, x - 1, y) {
        mask = mask + 4;
    }
    if joins_wall_at(world, x + 1, y) {
        mask = mask + 8;
    }
    mask
}

/// The character that draws a wall with the given wall mask, so that it
/// joins its neighbouring walls: a straight line for a lone neighbour or two
/// opposite ones, a corner for two adjacent ones, a tee for three and a cross
/// for four. A wall without neighbours is drawn upright.
pub open spec fn spec_wall_glyph(mask: int) -> char {
    if mask == 3 { '\u{2502}' }
    else if mask == 12 { '\u{2500}' }
    else if mask == 9 { '\u{2514}' }
    else if mask == 5 { '\u{2518}' }
    else if mask == 10 { '\u{250c}' }
    else if mask == 6 { '\u{2510}' }
    else if mask == 11 { '\u{251c}' }
    else if mask == 7 { '\u{2524}' }
    else if mask == 13 { '\u{2534}' }
    else if mask == 14 { '\u{252c}' }
    else if mask == 15 { '\u{253c}' }
    else if mask == 1 || mask == 2 { '\u{2502}' }
    else if mask == 8 || mask == 4 { '\u{2500}' }
    else { '\u{2502}' }
}

/// The character that draws a wall with the given wall mask.
pub fn wall_glyph(mask: u8) -> (c: char)
    ensures
        c == spec_wall_glyph(mask as int),
{
    if mask == 3 { '\u{2502}' }
    else if mask == 12 { '\u{2500}' }
    else if mask == 9 { '\u{2514}' }
    else if mask == 5 { '\u{2518}' }
    else if mask == 10 { '\u{250c}' }
    else if mask == 6 { '\u{2510}' }
    else if mask == 11 { '\u{251c}' }
    else if mask == 7 { '\u{2524}' }
    else if mask == 13 { '\u{2534}' }
    else if mask == 14 { '\u{252c}' }
    else if mask == 15 { '\u{253c}' }
    else if mask == 1 || mask == 2 { '\u{2502}' }
    else if mask == 8 || mask == 4 { '\u{2500}' }
    else { '\u{2502}' }
}

} // verus!
