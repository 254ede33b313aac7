//! The player's field of view, by symmetric shadowcasting: each of the four
//! quadrants around the origin is scanned row by row outwards; walls cast
//! shadows that narrow the slopes of the rows behind them.

use vstd::prelude::*;

use crate::gameplay::game::GameState;
use crate::util::rational::{ratio_add, ratio_ceil, ratio_floor, ratio_ge, ratio_le, ratio_mul, ratio_new, ratio_sub,
    same_value, small};
use crate::world::coordinate_system::{Direction, Point};
use crate::world::tiles::{spec_is_opaque, Opacity, Tile};
use crate::world::worldspace::{grid_index, World, WORLD_HEIGHT, WORLD_WIDTH};

verus! {

/// Tiles this far away (squared distance) or further are out of sight.
pub const VISION_RANGE_SQUARED: isize = 900;

/// A point with signed coordinates; within a quadrant, `x` is the row
/// (the distance from the origin) and `y` the column.
#[derive(Clone, Copy, Debug, PartialEq, Eq, Structural)]
pub struct IPoint {
    pub x: isize,
    pub y: isize,
}

impl IPoint {
    pub fn new(x: isize, y: isize) -> (p: Self)
        ensures
            p == (IPoint { x, y }),
    {
        Self { x, y }
    }
}

/// One of the four quadrants around an origin.
#[derive(Clone, Copy, Debug)]
pub struct Quadrant {
    pub direction: Direction,
    pub origin: IPoint,
}

/// The absolute position of the tile at `row`, `col` of the quadrant.
pub open spec fn spec_transform(q: Quadrant, row: int, col: int) -> (int, int) {
    match q.direction {
        Direction::Up => (q.origin.x + col, q.origin.y - row),
        Direction::Right => (q.origin.x + row, q.origin.y + col),
        Direction::Down => (q.origin.x + col, q.origin.y + row),
        Direction::Left => (q.origin.x - row, q.origin.y + col),
    }
}

/// Whether `(x, y)` lies within the world.
pub open spec fn in_world(x: int, y: int) -> bool {
    0 <= x < WORLD_WIDTH && 0 <= y < WORLD_HEIGHT
}

/// Whether a point lies in a quadrant's cone: at least one step from the
/// origin in the quadrant's direction, and no further to the side than
/// ahead. A scan of the quadrant touches no other tile.
pub open spec fn in_cone(q: Quadrant, x: int, y: int) -> bool {
    let (ox, oy) = (q.origin.x as int, q.origin.y as int);
    match q.direction {
        Direction::Up => oy - y >= 1 && -(oy - y) <= x - ox <= oy - y,
        Direction::Right => x - ox >= 1 && -(x - ox) <= y - oy <= x - ox,
        Direction::Down => y - oy >= 1 && -(y - oy) <= x - ox <= y - oy,
        Direction::Left => ox - x >= 1 && -(ox - x) <= y - oy <= ox - x,
    }
}

/// Whether a point lies straight ahead of the origin in the quadrant's
/// direction, `from` or more steps away.
pub open spec fn on_axis(q: Quadrant, x: int, y: int, from: int) -> bool {
    let (ox, oy) = (q.origin.x as int, q.origin.y as int);
    match q.direction {
        Direction::Up => x == ox && oy - y >= from,
        Direction::Right => y == oy && x - ox >= from,
        Direction::Down => x == ox && y - oy >= from,
        Direction::Left => y == oy && ox - x >= from,
    }
}

/// Whether the visibility of the tile at `(x, y)` is the same in both.
pub open spec fn same_sight(a: Seq<Tile>, b: Seq<Tile>, x: int, y: int) -> bool {
    b[cell_of(x, y)].visible == a[cell_of(x, y)].visible
}

/// Whether a row's slopes keep it off the quadrant's axis: at the row's
/// depth, and every depth beyond, its first column is at least one or its
/// last column at most minus one.
pub open spec fn excludes_axis(row: Row) -> bool {
    ||| 2 * row.depth * row.start_slope.0 >= row.start_slope.1
    ||| 2 * row.depth * row.end_slope.0 <= -row.end_slope.1
}

/// Whether the tile at `depth`, `col` of the quadrant blocks sight in
/// `tiles`: it is opaque, or beyond the world's edge.
pub open spec fn blocks_at(q: Quadrant, tiles: Seq<Tile>, depth: int, col: int) -> bool {
    let (x, y) = spec_transform(q, depth, col);
    !in_world(x, y) || spec_is_opaque(tiles[cell_of(x, y)].tile_type)
}

/// From `a` to `b`, no tile of the world outside the quadrant's cone has
/// changed its visibility.
pub open spec fn cone_frame(q: Quadrant, a: Seq<Tile>, b: Seq<Tile>) -> bool {
    forall|x: int, y: int| #![trigger cell_of(x, y)] in_world(x, y) && !in_cone(q, x, y) ==> same_sight(a, b, x, y)
}

/// From `a` to `b`, no tile of the world on the quadrant's axis, `from` or
/// more steps away, has changed its visibility.
pub open spec fn axis_frame(q: Quadrant, a: Seq<Tile>, b: Seq<Tile>, from: int) -> bool {
    forall|x: int, y: int| #![trigger cell_of(x, y)] in_world(x, y) && on_axis(q, x, y, from) ==> same_sight(a, b, x, y)
}

proof fn lemma_cone_frame_trans(q: Quadrant, a: Seq<Tile>, b: Seq<Tile>, c: Seq<Tile>)
    requires
        cone_frame(q, a, b),
        cone_frame(q, b, c),
    ensures
        cone_frame(q, a, c),
{
    assert forall|x: int, y: int| #![trigger cell_of(x, y)] in_world(x, y) && !in_cone(q, x, y) implies same_sight(a, c, x, y) by {
        assert(same_sight(a, b, x, y));
        assert(same_sight(b, c, x, y));
    }
}

proof fn lemma_axis_frame_trans(q: Quadrant, a: Seq<Tile>, b: Seq<Tile>, c: Seq<Tile>, from: int)
    requires
        axis_frame(q, a, b, from),
        axis_frame(q, b, c, from),
    ensures
        axis_frame(q, a, c, from),
{
    assert forall|x: int, y: int| #![trigger cell_of(x, y)] in_world(x, y) && on_axis(q, x, y, from) implies same_sight(a, c, x, y) by {
        assert(same_sight(a, b, x, y));
        assert(same_sight(b, c, x, y));
    }
}

/// Cells of points within the world are different where the points are.
proof fn lemma_cell_injective(x1: int, y1: int, x2: int, y2: int)
    requires
        in_world(x1, y1),
        in_world(x2, y2),
        cell_of(x1, y1) == cell_of(x2, y2),
    ensures
        x1 == x2,
        y1 == y2,
{
    assert(y1 == y2 && x1 == x2) by (nonlinear_arith)
        requires y1 * 100 + x1 == y2 * 100 + x2, 0 <= x1 < 100, 0 <= x2 < 100;
}

/// Whether a quadrant's origin lies within the world.
pub open spec fn quadrant_ok(q: Quadrant) -> bool {
    0 <= q.origin.x < WORLD_WIDTH && 0 <= q.origin.y < WORLD_HEIGHT
}

impl Quadrant {
    pub fn new(direction: Direction, origin: IPoint) -> (q: Self)
        ensures
            q.direction == direction,
            q.origin == origin,
    {
        Self { direction, origin }
    }

    /// The absolute position of a tile given relative to the quadrant.
    pub fn transform(&self, tile: IPoint) -> (p: IPoint)
        requires
            quadrant_ok(*self),
            -100 <= tile.x <= 100,
            -100 <= tile.y <= 100,
        ensures
            (p.x as int, p.y as int) == spec_transform(*self, tile.x as int, tile.y as int),
    {
        let row = tile.x;
        let col = tile.y;
        match self.direction {
            Direction::Up => IPoint { x: self.origin.x + col, y: self.origin.y - row },
            Direction::Right => IPoint { x: self.origin.x + row, y: self.origin.y + col },
            Direction::Down => IPoint { x: self.origin.x + col, y: self.origin.y + row },
            Direction::Left => IPoint { x: self.origin.x - row, y: self.origin.y + col },
        }
    }
}

/// A row of a quadrant: the tiles at one distance (`depth`) from the origin
/// between a start and an end slope (fractions as numerator, denominator).
#[derive(Clone, Copy, Debug)]
pub struct Row {
    pub depth: isize,
    pub start_slope: (isize, isize),
    pub end_slope: (isize, isize),
}

/// Whether a slope lies between -1 and 1 with a small denominator.
pub open spec fn slope_ok(s: (isize, isize)) -> bool {
    1 <= s.1 <= 64 && -s.1 <= s.0 <= s.1
}

/// Whether a row is one that a scan can meet.
pub open spec fn row_ok(r: Row) -> bool {
    1 <= r.depth <= 30 && slope_ok(r.start_slope) && slope_ok(r.end_slope)
}

/// `r0 / r1` has the value `n / d`, which lies within `[-k, k]`; so does
/// `r0 / r1`.
proof fn lemma_scaled_bound(r0: int, r1: int, n: int, d: int, k: int)
    requires
        r1 > 0,
        d > 0,
        k >= 0,
        r0 * d == n * r1,
        -k * d <= n <= k * d,
    ensures
        -k * r1 <= r0 <= k * r1,
{
    assert(r0 * d <= k * r1 * d) by (nonlinear_arith)
        requires r0 * d == n * r1, n <= k * d, r1 > 0;
    assert(r0 * d >= -k * r1 * d) by (nonlinear_arith)
        requires r0 * d == n * r1, n >= -k * d, r1 > 0;
    assert(r0 <= k * r1) by (nonlinear_arith)
        requires r0 * d <= k * r1 * d, d > 0;
    assert(r0 >= -k * r1) by (nonlinear_arith)
        requires r0 * d >= -k * r1 * d, d > 0;
}

/// `x` lies within `[-a b, a b]` for `a <= amax` and `b <= bmax`.
proof fn lemma_product_bound(x: int, a: int, b: int, amax: int, bmax: int)
    requires
        1 <= a <= amax,
        1 <= b <= bmax,
        -a * b <= x <= a * b,
    ensures
        -amax * bmax <= x <= amax * bmax,
{
    assert(a * b <= amax * bmax) by (nonlinear_arith)
        requires 1 <= a <= amax, 1 <= b <= bmax;
    assert((-amax) * bmax == -(amax * bmax)) by (nonlinear_arith);
    assert((-a) * b == -(a * b)) by (nonlinear_arith);
}

/// The squared distance of a tile from the quadrant's origin.
proof fn lemma_row_distance(dx: int, dy: int, depth: int, col: int)
    requires
        (dx == col && (dy == depth || dy == -depth)) || (dy == col && (dx == depth || dx == -depth)),
    ensures
        dx * dx + dy * dy == depth * depth + col * col,
{
    if dx == col && dy == depth {
    } else if dx == col && dy == -depth {
        assert(dy * dy == depth * depth) by (nonlinear_arith) requires dy == -depth;
    } else if dy == col && dx == depth {
    } else {
        assert(dx * dx == depth * depth) by (nonlinear_arith) requires dx == -depth;
    }
}

/// `depth * s`, for a slope `s` and a depth of at most 30.
fn depth_times(depth: isize, s: (isize, isize)) -> (r: (isize, isize))
    requires
        1 <= depth <= 30,
        slope_ok(s),
    ensures
        1 <= r.1 <= 64,
        -depth * r.1 <= r.0 <= depth * r.1,
        same_value(r, depth * s.0, s.1 as int),
{
    let r = ratio_mul((depth, 1), s);
    proof {
        assert(-depth * s.1 <= depth * s.0 <= depth * s.1) by (nonlinear_arith)
            requires 1 <= depth, -s.1 <= s.0 <= s.1;
        lemma_scaled_bound(r.0 as int, r.1 as int, depth * s.0, s.1 as int, depth as int);
    }
    r
}

/// The first and last column of a row: the start and end slope times the
/// depth, rounded to the nearest integer (halves round up for the first
/// and down for the last column).
fn row_columns(row: &Row) -> (c: (isize, isize))
    requires
        row_ok(*row),
    ensures
        -row.depth <= c.0,
        c.1 <= row.depth,
        row.start_slope.0 <= 0 ==> c.0 <= 0,
        row.end_slope.0 >= 0 ==> c.1 >= 0,
        2 * row.depth * row.start_slope.0 >= row.start_slope.1 ==> c.0 >= 1,
        2 * row.depth * row.end_slope.0 <= -row.end_slope.1 ==> c.1 <= -1,
        2 * row.depth * row.start_slope.0 < row.start_slope.1 ==> c.0 <= 0,
        2 * row.depth * row.end_slope.0 > -row.end_slope.1 ==> c.1 >= 0,
        forall|k: int| between_slopes(*row, k) ==> c.0 <= k <= c.1,
{
    let half = (1isize, 2isize);
    let dts = depth_times(row.depth, row.start_slope);
    let dte = depth_times(row.depth, row.end_slope);
    proof {
        lemma_product_bound(dts.0 as int, row.depth as int, dts.1 as int, 30, 64);
        lemma_product_bound(dte.0 as int, row.depth as int, dte.1 as int, 30, 64);
    }
    let up = ratio_add(dts, half);
    let down = ratio_sub(dte, half);
    proof {
        let d = row.depth as int;
        // up = (2 dts.0 + dts.1) / (2 dts.1), at least -d + 1/2 and at most d + 1/2
        assert(-(d + 1) * (dts.1 * 2) <= dts.0 * 2 + 1 * dts.1 <= (d + 1) * (dts.1 * 2)) by (nonlinear_arith)
            requires -d * dts.1 <= dts.0 <= d * dts.1, dts.1 >= 1, d >= 1;
        assert(-(d + 1) * (dte.1 * 2) <= dte.0 * 2 - 1 * dte.1 <= (d + 1) * (dte.1 * 2)) by (nonlinear_arith)
            requires -d * dte.1 <= dte.0 <= d * dte.1, dte.1 >= 1, d >= 1;
        lemma_scaled_bound(up.0 as int, up.1 as int, dts.0 * 2 + 1 * dts.1, dts.1 * 2, d + 1);
        lemma_scaled_bound(down.0 as int, down.1 as int, dte.0 * 2 - 1 * dte.1, dte.1 * 2, d + 1);
        lemma_product_bound(up.0 as int, d + 1, up.1 as int, 31, 128);
        lemma_product_bound(down.0 as int, d + 1, down.1 as int, 31, 128);
        // the first column is at least -d: 2 up.0 >= (-2d + 1) up.1
        assert(2 * up.0 >= (-2 * d + 1) * up.1) by (nonlinear_arith)
            requires up.0 * (dts.1 * 2) == (dts.0 * 2 + dts.1) * up.1, dts.0 >= -d * dts.1, dts.1 > 0, up.1 > 0;
        assert(up.0 >= -d * up.1) by (nonlinear_arith)
            requires 2 * up.0 >= (-2 * d + 1) * up.1, up.1 > 0;
        assert(up.0 as int / up.1 as int >= -d) by (nonlinear_arith)
            requires up.0 >= -d * up.1, up.1 > 0;
        // the last column is at most d: 2 down.0 <= (2d - 1) down.1
        assert(2 * down.0 <= (2 * d - 1) * down.1) by (nonlinear_arith)
            requires down.0 * (dte.1 * 2) == (dte.0 * 2 - dte.1) * down.1, dte.0 <= d * dte.1, dte.1 > 0, down.1 > 0;
        assert(down.0 <= d * down.1) by (nonlinear_arith)
            requires 2 * down.0 <= (2 * d - 1) * down.1, down.1 > 0;
        assert(-((-down.0) as int / down.1 as int) <= d) by (nonlinear_arith)
            requires down.0 <= d * down.1, down.1 > 0;
        let (sn, sd) = (row.start_slope.0 as int, row.start_slope.1 as int);
        let (en, ed) = (row.end_slope.0 as int, row.end_slope.1 as int);
        if sn <= 0 {
            assert(dts.0 <= 0) by (nonlinear_arith)
                requires dts.0 * sd == d * sn * dts.1, sn <= 0, d >= 1, sd > 0, dts.1 > 0;
            assert(up.0 < up.1) by (nonlinear_arith)
                requires up.0 * (dts.1 * 2) == (dts.0 * 2 + 1 * dts.1) * up.1, dts.0 <= 0, dts.1 > 0, up.1 > 0;
            assert(up.0 as int / up.1 as int <= 0) by (nonlinear_arith)
                requires up.0 < up.1, up.1 > 0;
        }
        if 2 * d * sn >= sd {
            assert(2 * dts.0 >= dts.1) by (nonlinear_arith)
                requires dts.0 * sd == d * sn * dts.1, 2 * d * sn >= sd, sd > 0, dts.1 > 0;
            assert(up.0 >= up.1) by (nonlinear_arith)
                requires up.0 * (dts.1 * 2) == (dts.0 * 2 + 1 * dts.1) * up.1, 2 * dts.0 >= dts.1, dts.1 > 0, up.1 > 0;
            assert(up.0 as int / up.1 as int >= 1) by (nonlinear_arith)
                requires up.0 >= up.1, up.1 > 0;
        }
        if 2 * d * en <= -ed {
            assert(2 * dte.0 <= -dte.1) by (nonlinear_arith)
                requires dte.0 * ed == d * en * dte.1, 2 * d * en <= -ed, ed > 0, dte.1 > 0;
            assert(-down.0 >= down.1) by (nonlinear_arith)
                requires down.0 * (dte.1 * 2) == (dte.0 * 2 - 1 * dte.1) * down.1, 2 * dte.0 <= -dte.1, dte.1 > 0,
                    down.1 > 0;
            assert((-down.0) as int / down.1 as int >= 1) by (nonlinear_arith)
                requires -down.0 >= down.1, down.1 > 0;
        }
        if 2 * d * sn < sd {
            assert(2 * dts.0 < dts.1) by (nonlinear_arith)
                requires dts.0 * sd == d * sn * dts.1, 2 * d * sn < sd, sd > 0, dts.1 > 0;
            assert(up.0 < up.1) by (nonlinear_arith)
                requires up.0 * (dts.1 * 2) == (dts.0 * 2 + 1 * dts.1) * up.1, 2 * dts.0 < dts.1, dts.1 > 0, up.1 > 0;
            assert(up.0 as int / up.1 as int <= 0) by (nonlinear_arith)
                requires up.0 < up.1, up.1 > 0;
        }
        if 2 * d * en > -ed {
            assert(2 * dte.0 > -dte.1) by (nonlinear_arith)
                requires dte.0 * ed == d * en * dte.1, 2 * d * en > -ed, ed > 0, dte.1 > 0;
            assert(-down.0 < down.1) by (nonlinear_arith)
                requires down.0 * (dte.1 * 2) == (dte.0 * 2 - 1 * dte.1) * down.1, 2 * dte.0 > -dte.1, dte.1 > 0,
                    down.1 > 0;
            assert((-down.0) as int / down.1 as int <= 0) by (nonlinear_arith)
                requires -down.0 < down.1, down.1 > 0;
        }
        if en >= 0 {
            assert(dte.0 >= 0) by (nonlinear_arith)
                requires dte.0 * ed == d * en * dte.1, en >= 0, d >= 1, ed > 0, dte.1 > 0;
            assert(-down.0 < down.1) by (nonlinear_arith)
                requires down.0 * (dte.1 * 2) == (dte.0 * 2 - 1 * dte.1) * down.1, dte.0 >= 0, dte.1 > 0, down.1 > 0;
            assert((-down.0) as int / down.1 as int <= 0) by (nonlinear_arith)
                requires -down.0 < down.1, down.1 > 0;
        }
    }
    proof {
        let d = row.depth as int;
        let (sn, sd) = (row.start_slope.0 as int, row.start_slope.1 as int);
        let (en, ed) = (row.end_slope.0 as int, row.end_slope.1 as int);
        assert forall|k: int| between_slopes(*row, k) implies up.0 as int / up.1 as int <= k
            && k <= -((-down.0) as int / down.1 as int) by {
            assert(dts.0 <= k * dts.1) by (nonlinear_arith)
                requires dts.0 * sd == d * sn * dts.1, d * sn <= k * sd, sd > 0, dts.1 > 0;
            assert(2 * up.0 <= (2 * k + 1) * up.1) by (nonlinear_arith)
                requires up.0 * (dts.1 * 2) == (dts.0 * 2 + 1 * dts.1) * up.1, dts.0 <= k * dts.1, dts.1 > 0, up.1 > 0;
            assert(up.0 as int / up.1 as int <= k) by (nonlinear_arith)
                requires 2 * up.0 <= (2 * k + 1) * up.1, up.1 > 0;
            assert(k * dte.1 <= dte.0) by (nonlinear_arith)
                requires dte.0 * ed == d * en * dte.1, k * ed <= d * en, ed > 0, dte.1 > 0;
            assert(2 * down.0 >= (2 * k - 1) * down.1) by (nonlinear_arith)
                requires down.0 * (dte.1 * 2) == (dte.0 * 2 - 1 * dte.1) * down.1, k * dte.1 <= dte.0, dte.1 > 0,
                    down.1 > 0;
            assert((-down.0) as int / down.1 as int <= -k) by (nonlinear_arith)
                requires 2 * down.0 >= (2 * k - 1) * down.1, down.1 > 0;
        }
    }
    let min_col = ratio_floor(up);
    let max_col = ratio_ceil(down);
    (min_col, max_col)
}

/// The slope of the left edge of a tile: `(2 col - 1) / (2 depth)`.
fn slope(tile: IPoint) -> (s: (isize, isize))
    requires
        1 <= tile.x <= 30,
        -tile.x + 1 <= tile.y <= tile.x,
    ensures
        slope_ok(s),
        same_value(s, 2 * tile.y - 1, 2 * tile.x),
{
    let s = ratio_new(2 * tile.y - 1, 2 * tile.x);
    proof {
        lemma_scaled_bound(s.0 as int, s.1 as int, 2 * tile.y - 1, 2 * tile.x as int, 1);
    }
    s
}

/// Whether column `col` of a row lies between the row's start and end
/// slopes (both included): `start <= col / depth <= end`.
pub open spec fn between_slopes(row: Row, col: int) -> bool {
    &&& row.depth * row.start_slope.0 <= col * row.start_slope.1
    &&& col * row.end_slope.1 <= row.depth * row.end_slope.0
}

/// Whether the centre of a tile lies within the row's slopes.
fn is_symmetric(row: &Row, tile: IPoint) -> (b: bool)
    requires
        row_ok(*row),
        -30 <= tile.y <= 30,
    ensures
        b == between_slopes(*row, tile.y as int),
{
    let dts = depth_times(row.depth, row.start_slope);
    let dte = depth_times(row.depth, row.end_slope);
    proof {
        lemma_product_bound(dts.0 as int, row.depth as int, dts.1 as int, 30, 64);
        lemma_product_bound(dte.0 as int, row.depth as int, dte.1 as int, 30, 64);
    }
    let col = (tile.y, 1isize);
    let ge = ratio_ge(col, dts);
    let le = ratio_le(col, dte);
    proof {
        let c = tile.y as int;
        let d = row.depth as int;
        let (sn, sd) = (row.start_slope.0 as int, row.start_slope.1 as int);
        let (en, ed) = (row.end_slope.0 as int, row.end_slope.1 as int);
        assert(ge == (d * sn <= c * sd)) by (nonlinear_arith)
            requires ge == (c * dts.1 >= dts.0 * 1), dts.0 * sd == d * sn * dts.1, dts.1 > 0, sd > 0;
        assert(le == (c * ed <= d * en)) by (nonlinear_arith)
            requires le == (c * dte.1 <= dte.0 * 1), dte.0 * ed == d * en * dte.1, dte.1 > 0, ed > 0;
    }
    ge && le
}

/// The index of the world cell at `(x, y)`, for a cell within the world.
pub open spec fn cell_of(x: int, y: int) -> int {
    grid_index(WORLD_WIDTH as int, x, y)
}

/// Whether grid index `k` names a cell within sight range of `origin`.
pub open spec fn in_sight_range(origin: Point, k: int) -> bool {
    exists|x: int, y: int| 0 <= x < WORLD_WIDTH && 0 <= y < WORLD_HEIGHT && #[trigger] cell_of(x, y) == k
        && (x - origin.x) * (x - origin.x) + (y - origin.y) * (y - origin.y) < VISION_RANGE_SQUARED
}

/// `after` differs from `before` only in visibility: only tiles within
/// sight range of `origin` have been made visible, and none invisible.
pub open spec fn only_made_visible(before: Seq<Tile>, after: Seq<Tile>, origin: Point) -> bool {
    &&& after.len() == before.len()
    &&& forall|k: int| 0 <= k < after.len() ==> (#[trigger] after[k]).tile_type == before[k].tile_type
        && after[k].explored == before[k].explored
        && (after[k].visible ==> before[k].visible || in_sight_range(origin, k))
        && (before[k].visible ==> after[k].visible)
}

/// Whether the tile at a position blocks sight: opaque tiles do, and so
/// does everything beyond the world's edge.
fn is_blocking(world: &World, p: IPoint) -> (b: bool)
    requires
        world.wf(),
    ensures
        b == (!(0 <= p.x < WORLD_WIDTH && 0 <= p.y < WORLD_HEIGHT)
            || spec_is_opaque(world.tile_at(p.x as int, p.y as int).tile_type)),
{
    if p.x < 0 || p.y < 0 || p.x >= WORLD_WIDTH as isize || p.y >= WORLD_HEIGHT as isize {
        return true;
    }
    proof {
        assert(p.y * 100 + p.x < 2500) by (nonlinear_arith)
            requires 0 <= p.x < 100, 0 <= p.y < 25;
    }
    world.get_tile(Point::new(p.x as usize, p.y as usize)).tile_type.is_opaque()
}

/// Makes the tile at a position within the world visible.
fn mark_visible(world: &mut World, p: IPoint, origin: Point)
    requires
        old(world).wf(),
        0 <= p.x < WORLD_WIDTH,
        0 <= p.y < WORLD_HEIGHT,
        (p.x - origin.x) * (p.x - origin.x) + (p.y - origin.y) * (p.y - origin.y) < VISION_RANGE_SQUARED,
    ensures
        final(world).wf(),
        only_made_visible(old(world).tiles@, final(world).tiles@, origin),
        final(world).tiles@[cell_of(p.x as int, p.y as int)].visible,
        forall|k: int| 0 <= k < old(world).tiles@.len() && k != cell_of(p.x as int, p.y as int)
            ==> #[trigger] final(world).tiles@[k] == old(world).tiles@[k],
{
    proof {
        assert(p.y * 100 + p.x < 2500) by (nonlinear_arith)
            requires 0 <= p.x < 100, 0 <= p.y < 25;
    }
    let idx = world.index(p.x as usize, p.y as usize);
    let mut tile = world.tiles[idx];
    tile.visible = true;
    world.tiles.set(idx, tile);
    proof {
        assert(cell_of(p.x as int, p.y as int) == idx);
        assert(in_sight_range(origin, idx as int));
    }
}

/// Whether every tile of the row's depth in the quadrant whose centre lies
/// between the row's slopes, left of column `hi`, within the world and
/// within sight range, is visible in `tiles`.
pub open spec fn row_seen_below(q: Quadrant, tiles: Seq<Tile>, row: Row, hi: int) -> bool {
    forall|k: int| #![trigger spec_transform(q, row.depth as int, k)] k < hi && between_slopes(row, k)
        && k * k + row.depth * row.depth < VISION_RANGE_SQUARED
        && in_world(spec_transform(q, row.depth as int, k).0, spec_transform(q, row.depth as int, k).1)
        ==> tiles[cell_of(spec_transform(q, row.depth as int, k).0, spec_transform(q, row.depth as int, k).1)].visible
}

/// Whether every tile of the row's depth in the quadrant whose centre lies
/// between the row's slopes, within the world and within sight range, is
/// visible in `tiles`: the symmetric tiles of the row are seen.
pub open spec fn row_seen(q: Quadrant, tiles: Seq<Tile>, row: Row) -> bool {
    row_seen_below(q, tiles, row, row.depth + 1)
}

/// Visibility that is only added to, over unchanged tiles, keeps a row seen.
proof fn lemma_row_seen_mono(q: Quadrant, a: Seq<Tile>, b: Seq<Tile>, row: Row, hi: int)
    requires
        a.len() == WORLD_WIDTH * WORLD_HEIGHT,
        b.len() == a.len(),
        forall|k: int| 0 <= k < a.len() ==> (#[trigger] b[k]).tile_type == a[k].tile_type && (a[k].visible ==> b[k].visible),
        row_seen_below(q, a, row, hi),
    ensures
        row_seen_below(q, b, row, hi),
{
    assert forall|k: int| #![trigger spec_transform(q, row.depth as int, k)] k < hi && between_slopes(row, k)
        && k * k + row.depth * row.depth < VISION_RANGE_SQUARED
        && in_world(spec_transform(q, row.depth as int, k).0, spec_transform(q, row.depth as int, k).1)
        implies b[cell_of(spec_transform(q, row.depth as int, k).0, spec_transform(q, row.depth as int, k).1)].visible by {
        let (x, y) = spec_transform(q, row.depth as int, k);
        assert(0 <= cell_of(x, y) < a.len()) by (nonlinear_arith)
            requires 0 <= x < 100, 0 <= y < 25, cell_of(x, y) == y * 100 + x, a.len() == 2500;
    }
}

/// Whether every tile of the quadrant's axis, `from` or more steps away,
/// within the world and within sight range, with no tile that blocks sight
/// between step `from` and it, is visible in `tiles`.
pub open spec fn axis_seen(q: Quadrant, tiles: Seq<Tile>, from: int) -> bool {
    forall|k: int| #![trigger spec_transform(q, k, 0)] from <= k && k * k < VISION_RANGE_SQUARED
        && (forall|m: int| from <= m < k ==> !#[trigger] blocks_at(q, tiles, m, 0))
        && in_world(spec_transform(q, k, 0).0, spec_transform(q, k, 0).1)
        ==> tiles[cell_of(spec_transform(q, k, 0).0, spec_transform(q, k, 0).1)].visible
}

/// Whether the tile at step `depth` of the quadrant's axis, if within the
/// world and within sight range, is visible in `tiles`.
pub open spec fn axis_tile_seen(q: Quadrant, tiles: Seq<Tile>, depth: int) -> bool {
    let (x, y) = spec_transform(q, depth, 0);
    depth * depth < VISION_RANGE_SQUARED && in_world(x, y) ==> tiles[cell_of(x, y)].visible
}

/// Visibility that is only added to, over unchanged tiles, keeps the axis
/// seen.
proof fn lemma_axis_seen_mono(q: Quadrant, a: Seq<Tile>, b: Seq<Tile>, from: int)
    requires
        a.len() == WORLD_WIDTH * WORLD_HEIGHT,
        b.len() == a.len(),
        forall|k: int| 0 <= k < a.len() ==> (#[trigger] b[k]).tile_type == a[k].tile_type && (a[k].visible ==> b[k].visible),
        axis_seen(q, a, from),
    ensures
        axis_seen(q, b, from),
{
    assert forall|k: int| #![trigger spec_transform(q, k, 0)] from <= k && k * k < VISION_RANGE_SQUARED
        && (forall|m: int| from <= m < k ==> !#[trigger] blocks_at(q, b, m, 0))
        && in_world(spec_transform(q, k, 0).0, spec_transform(q, k, 0).1)
        implies b[cell_of(spec_transform(q, k, 0).0, spec_transform(q, k, 0).1)].visible by {
        assert forall|m: int| from <= m < k implies !#[trigger] blocks_at(q, a, m, 0) by {
            lemma_blocks_at_types(q, a, b, m);
            assert(!blocks_at(q, b, m, 0));
        }
        let (x, y) = spec_transform(q, k, 0);
        assert(0 <= cell_of(x, y) < a.len()) by (nonlinear_arith)
            requires 0 <= x < 100, 0 <= y < 25, cell_of(x, y) == y * 100 + x, a.len() == 2500;
    }
}

/// Visibility that is only added to keeps an axis tile seen.
proof fn lemma_axis_tile_mono(q: Quadrant, a: Seq<Tile>, b: Seq<Tile>, depth: int)
    requires
        a.len() == WORLD_WIDTH * WORLD_HEIGHT,
        b.len() == a.len(),
        forall|k: int| 0 <= k < a.len() ==> (#[trigger] b[k]).tile_type == a[k].tile_type && (a[k].visible ==> b[k].visible),
        axis_tile_seen(q, a, depth),
    ensures
        axis_tile_seen(q, b, depth),
{
    let (x, y) = spec_transform(q, depth, 0);
    if depth * depth < VISION_RANGE_SQUARED && in_world(x, y) {
        assert(0 <= cell_of(x, y) < a.len()) by (nonlinear_arith)
            requires 0 <= x < 100, 0 <= y < 25, cell_of(x, y) == y * 100 + x, a.len() == 2500;
    }
}

/// The axis is seen from `depth` when its tile there is seen and, where that
/// tile does not block sight, the axis is seen from the next step.
proof fn lemma_axis_seen_extend(q: Quadrant, tiles: Seq<Tile>, depth: int)
    requires
        1 <= depth,
        axis_tile_seen(q, tiles, depth),
        !blocks_at(q, tiles, depth, 0) && depth * depth < VISION_RANGE_SQUARED ==> axis_seen(q, tiles, depth + 1),
    ensures
        axis_seen(q, tiles, depth),
{
    assert forall|k: int| #![trigger spec_transform(q, k, 0)] depth <= k && k * k < VISION_RANGE_SQUARED
        && (forall|m: int| depth <= m < k ==> !#[trigger] blocks_at(q, tiles, m, 0))
        && in_world(spec_transform(q, k, 0).0, spec_transform(q, k, 0).1)
        implies tiles[cell_of(spec_transform(q, k, 0).0, spec_transform(q, k, 0).1)].visible by {
        if k > depth {
            assert(!blocks_at(q, tiles, depth, 0));
            assert(depth * depth < k * k) by (nonlinear_arith) requires 1 <= depth < k;
            assert(forall|m: int| depth + 1 <= m < k ==> !#[trigger] blocks_at(q, tiles, m, 0));
        }
    }
}

/// Whether a row lies next to the origin and spans the column straight
/// ahead of it.
pub open spec fn spans_first(row: Row) -> bool {
    row.depth == 1 && row.start_slope.0 <= 0 && row.end_slope.0 >= 0
}

/// Whether the tile next to the origin in the quadrant's direction, if it
/// lies in the world, is visible in `tiles`.
pub open spec fn first_tile_seen(q: Quadrant, tiles: Seq<Tile>) -> bool {
    let (x, y) = spec_transform(q, 1, 0);
    0 <= x < WORLD_WIDTH && 0 <= y < WORLD_HEIGHT ==> tiles[cell_of(x, y)].visible
}

/// Making the tile at `depth`, `col` of the quadrant visible (and nothing
/// else) changes no tile outside the quadrant's cone, and none on its axis
/// where `col` is not 0.
proof fn lemma_mark_frame(q: Quadrant, before: Seq<Tile>, after: Seq<Tile>, depth: int, col: int)
    requires
        before.len() == WORLD_WIDTH * WORLD_HEIGHT,
        after.len() == before.len(),
        1 <= depth,
        -depth <= col <= depth,
        in_world(spec_transform(q, depth, col).0, spec_transform(q, depth, col).1),
        forall|k: int| 0 <= k < before.len() && k != cell_of(spec_transform(q, depth, col).0, spec_transform(q, depth, col).1)
            ==> #[trigger] after[k] == before[k],
    ensures
        cone_frame(q, before, after),
        col != 0 ==> axis_frame(q, before, after, 1),
{
    let (px, py) = spec_transform(q, depth, col);
    assert forall|x: int, y: int| in_world(x, y) && (x != px || y != py) implies #[trigger] same_sight(before, after, x, y) by {
        if cell_of(x, y) == cell_of(px, py) {
            lemma_cell_injective(x, y, px, py);
        }
        assert(0 <= cell_of(x, y) < before.len()) by (nonlinear_arith)
            requires 0 <= x < 100, 0 <= y < 25, cell_of(x, y) == y * 100 + x, before.len() == 2500;
        assert(after[cell_of(x, y)] == before[cell_of(x, y)]);
    }
    assert forall|x: int, y: int| #![trigger cell_of(x, y)] in_world(x, y) && !in_cone(q, x, y) implies same_sight(before, after, x, y) by {
        assert(x != px || y != py);
        assert(same_sight(before, after, x, y));
    }
    if col != 0 {
        assert forall|x: int, y: int| #![trigger cell_of(x, y)] in_world(x, y) && on_axis(q, x, y, 1) implies same_sight(before, after, x, y) by {
            assert(x != px || y != py);
            assert(same_sight(before, after, x, y));
        }
    }
}

/// Making the tile at `depth`, `col` of the quadrant visible (and nothing
/// else) changes no tile on its axis beyond `depth`.
proof fn lemma_mark_axis_beyond(q: Quadrant, before: Seq<Tile>, after: Seq<Tile>, depth: int, col: int, from: int)
    requires
        before.len() == WORLD_WIDTH * WORLD_HEIGHT,
        after.len() == before.len(),
        1 <= depth < from,
        -depth <= col <= depth,
        in_world(spec_transform(q, depth, col).0, spec_transform(q, depth, col).1),
        forall|k: int| 0 <= k < before.len() && k != cell_of(spec_transform(q, depth, col).0, spec_transform(q, depth, col).1)
            ==> #[trigger] after[k] == before[k],
    ensures
        axis_frame(q, before, after, from),
{
    let (px, py) = spec_transform(q, depth, col);
    assert forall|x: int, y: int| #![trigger cell_of(x, y)] in_world(x, y) && on_axis(q, x, y, from) implies same_sight(before, after, x, y) by {
        assert(x != px || y != py);
        if cell_of(x, y) == cell_of(px, py) {
            lemma_cell_injective(x, y, px, py);
        }
        assert(0 <= cell_of(x, y) < before.len()) by (nonlinear_arith)
            requires 0 <= x < 100, 0 <= y < 25, cell_of(x, y) == y * 100 + x, before.len() == 2500;
        assert(after[cell_of(x, y)] == before[cell_of(x, y)]);
    }
}

proof fn lemma_axis_frame_monotone(q: Quadrant, a: Seq<Tile>, b: Seq<Tile>, from1: int, from2: int)
    requires
        axis_frame(q, a, b, from1),
        from1 <= from2,
    ensures
        axis_frame(q, a, b, from2),
{
    assert forall|x: int, y: int| #![trigger cell_of(x, y)] in_world(x, y) && on_axis(q, x, y, from2) implies same_sight(a, b, x, y) by {
        assert(on_axis(q, x, y, from1));
    }
}

/// Whether no tile of the quadrant from depth `from` to depth `to`, within
/// sight range and no further to the side than ahead, blocks sight in
/// `tiles`: each lies in the world and is see-through.
pub open spec fn clear_rows(q: Quadrant, tiles: Seq<Tile>, from: int, to: int) -> bool {
    forall|d: int, k: int| #![trigger blocks_at(q, tiles, d, k)] from <= d <= to && -d <= k <= d
        && k * k + d * d < VISION_RANGE_SQUARED ==> !blocks_at(q, tiles, d, k)
}

/// The row at `depth` between the slopes of `row`.
pub open spec fn row_at(row: Row, depth: int) -> Row {
    Row { depth: depth as isize, start_slope: row.start_slope, end_slope: row.end_slope }
}

/// Whether every row behind `row` between the same slopes, within sight
/// range, up to which no tile blocks sight in `before`, is seen in `after`.
pub open spec fn clear_rows_seen(q: Quadrant, before: Seq<Tile>, after: Seq<Tile>, row: Row) -> bool {
    forall|d: int| #![trigger row_seen(q, after, row_at(row, d))] row.depth < d && d * d < VISION_RANGE_SQUARED
        && clear_rows(q, before, row.depth as int, d - 1) ==> row_seen(q, after, row_at(row, d))
}

/// Whether no tile blocks sight depends on the tiles' types alone.
proof fn lemma_clear_rows_types(q: Quadrant, a: Seq<Tile>, b: Seq<Tile>, from: int, to: int)
    requires
        a.len() == WORLD_WIDTH * WORLD_HEIGHT,
        b.len() == a.len(),
        forall|k: int| 0 <= k < a.len() ==> (#[trigger] b[k]).tile_type == a[k].tile_type,
        clear_rows(q, a, from, to),
    ensures
        clear_rows(q, b, from, to),
{
    assert forall|d: int, k: int| #![trigger blocks_at(q, b, d, k)] from <= d <= to && -d <= k <= d
        && k * k + d * d < VISION_RANGE_SQUARED implies !blocks_at(q, b, d, k) by {
        assert(!blocks_at(q, a, d, k));
        let (x, y) = spec_transform(q, d, k);
        if in_world(x, y) {
            assert(0 <= cell_of(x, y) < a.len()) by (nonlinear_arith)
                requires 0 <= x < 100, 0 <= y < 25, cell_of(x, y) == y * 100 + x, a.len() == 2500;
            assert(b[cell_of(x, y)].tile_type == a[cell_of(x, y)].tile_type);
        }
    }
}

/// Measured against tiles of the same types, the same rows count as clear.
proof fn lemma_clear_rows_seen_rebase(q: Quadrant, a: Seq<Tile>, b: Seq<Tile>, fin: Seq<Tile>, row: Row)
    requires
        a.len() == WORLD_WIDTH * WORLD_HEIGHT,
        b.len() == a.len(),
        forall|k: int| 0 <= k < a.len() ==> (#[trigger] b[k]).tile_type == a[k].tile_type,
        clear_rows_seen(q, a, fin, row),
    ensures
        clear_rows_seen(q, b, fin, row),
{
    assert forall|d: int| #![trigger row_seen(q, fin, row_at(row, d))] row.depth < d && d * d < VISION_RANGE_SQUARED
        && clear_rows(q, b, row.depth as int, d - 1) implies row_seen(q, fin, row_at(row, d)) by {
        assert forall|k: int| 0 <= k < b.len() implies (#[trigger] a[k]).tile_type == b[k].tile_type by {
            assert(b[k].tile_type == a[k].tile_type);
        }
        lemma_clear_rows_types(q, b, a, row.depth as int, d - 1);
    }
}

/// Visibility that is only added to, over unchanged tiles, keeps the clear
/// rows seen.
proof fn lemma_clear_rows_seen_mono(q: Quadrant, before: Seq<Tile>, a: Seq<Tile>, b: Seq<Tile>, row: Row)
    requires
        a.len() == WORLD_WIDTH * WORLD_HEIGHT,
        b.len() == a.len(),
        forall|k: int| 0 <= k < a.len() ==> (#[trigger] b[k]).tile_type == a[k].tile_type && (a[k].visible ==> b[k].visible),
        clear_rows_seen(q, before, a, row),
    ensures
        clear_rows_seen(q, before, b, row),
{
    assert forall|d: int| #![trigger row_seen(q, b, row_at(row, d))] row.depth < d && d * d < VISION_RANGE_SQUARED
        && clear_rows(q, before, row.depth as int, d - 1) implies row_seen(q, b, row_at(row, d)) by {
        assert(row_seen(q, a, row_at(row, d)));
        lemma_row_seen_mono(q, a, b, row_at(row, d), row_at(row, d).depth + 1);
    }
}

/// A row whose scan goes on, behind its last tile, with the row behind it
/// between the same slopes wherever the row is clear: the clear rows behind
/// are seen once that row and the clear rows behind it are.
proof fn lemma_clear_rows_child(q: Quadrant, old_tiles: Seq<Tile>, mid: Seq<Tile>, fin: Seq<Tile>, row: Row,
    next_row: Row)
    requires
        old_tiles.len() == WORLD_WIDTH * WORLD_HEIGHT,
        mid.len() == old_tiles.len(),
        forall|k: int| 0 <= k < old_tiles.len() ==> (#[trigger] mid[k]).tile_type == old_tiles[k].tile_type,
        row_ok(row),
        clear_rows(q, old_tiles, row.depth as int, row.depth as int) ==> next_row == row_at(row, row.depth + 1),
        row_seen(q, fin, next_row),
        next_row.start_slope.0 <= 0 && next_row.end_slope.0 >= 0 ==> clear_rows_seen(q, mid, fin, next_row),
        row.start_slope.0 <= 0 && row.end_slope.0 >= 0,
    ensures
        clear_rows_seen(q, old_tiles, fin, row),
{
    assert forall|d: int| #![trigger row_seen(q, fin, row_at(row, d))] row.depth < d && d * d < VISION_RANGE_SQUARED
        && clear_rows(q, old_tiles, row.depth as int, d - 1) implies row_seen(q, fin, row_at(row, d)) by {
        assert(clear_rows(q, old_tiles, row.depth as int, row.depth as int));
        assert(next_row == row_at(row, row.depth + 1));
        if d > row.depth + 1 {
            assert(clear_rows(q, old_tiles, row.depth + 1, d - 1));
            lemma_clear_rows_types(q, old_tiles, mid, row.depth + 1, d - 1);
            assert(next_row.depth == row.depth + 1);
            assert(row_at(next_row, d) == row_at(row, d));
            assert(clear_rows_seen(q, mid, fin, next_row));
            assert(row_seen(q, fin, row_at(next_row, d)));
        }
    }
}

/// A row that ends its scan on a blocking tile within sight range has no
/// clear rows behind it.
proof fn lemma_clear_rows_blocked(q: Quadrant, old_tiles: Seq<Tile>, fin: Seq<Tile>, row: Row, p: IPoint)
    requires
        row_ok(row),
        p.x == row.depth,
        -row.depth <= p.y <= row.depth,
        p.y * p.y + row.depth * row.depth < VISION_RANGE_SQUARED,
        blocks_at(q, old_tiles, p.x as int, p.y as int),
    ensures
        clear_rows_seen(q, old_tiles, fin, row),
{
    assert forall|d: int| #![trigger row_seen(q, fin, row_at(row, d))] row.depth < d && d * d < VISION_RANGE_SQUARED
        && clear_rows(q, old_tiles, row.depth as int, d - 1) implies row_seen(q, fin, row_at(row, d)) by {
        assert(!blocks_at(q, old_tiles, p.x as int, p.y as int));
    }
}

/// Out of sight range, a row has no rows behind it within sight range.
proof fn lemma_clear_rows_far(q: Quadrant, old_tiles: Seq<Tile>, fin: Seq<Tile>, row: Row)
    requires
        row.depth >= 1,
        row.depth * row.depth >= VISION_RANGE_SQUARED,
    ensures
        clear_rows_seen(q, old_tiles, fin, row),
{
    assert forall|d: int| #![trigger row_seen(q, fin, row_at(row, d))] row.depth < d && d * d < VISION_RANGE_SQUARED
        && clear_rows(q, old_tiles, row.depth as int, d - 1) implies row_seen(q, fin, row_at(row, d)) by {
        assert(d * d >= row.depth * row.depth) by (nonlinear_arith) requires d > row.depth, row.depth >= 1;
    }
}

/// Scans a row and, recursively, the rows behind it: a depth-first walk of
/// the quadrant's rows. Walls within the row's slopes, and floors whose
/// centres lie within them, become visible; beyond each wall the slopes
/// narrow.
#[verifier::rlimit(100)]
#[verifier::spinoff_prover]
fn scan(origin: Point, row: Row, quadrant: Quadrant, world: &mut World)
    requires
        old(world).wf(),
        row_ok(row),
        quadrant_ok(quadrant),
        quadrant.origin.x == origin.x,
        quadrant.origin.y == origin.y,
    ensures
        final(world).wf(),
        only_made_visible(old(world).tiles@, final(world).tiles@, origin),
        spans_first(row) ==> first_tile_seen(quadrant, final(world).tiles@),
        cone_frame(quadrant, old(world).tiles@, final(world).tiles@),
        excludes_axis(row) ==> axis_frame(quadrant, old(world).tiles@, final(world).tiles@, 1),
        forall|k: int| #![trigger blocks_at(quadrant, old(world).tiles@, k, 0)] row.depth <= k
            && blocks_at(quadrant, old(world).tiles@, k, 0)
            ==> axis_frame(quadrant, old(world).tiles@, final(world).tiles@, k + 1),
        row.start_slope.0 <= 0 && row.end_slope.0 >= 0 ==> axis_seen(quadrant, final(world).tiles@, row.depth as int),
        row_seen(quadrant, final(world).tiles@, row),
        row.start_slope.0 <= 0 && row.end_slope.0 >= 0
            ==> clear_rows_seen(quadrant, old(world).tiles@, final(world).tiles@, row),
    decreases 30 - row.depth,
{
    let mut prev_tile: Option<IPoint> = None;
    let mut current = row;
    let depth = row.depth;
    let (min_col, max_col) = row_columns(&row);
    let ghost start_excl = 2 * row.depth * row.start_slope.0 >= row.start_slope.1;
    let ghost end_excl = 2 * row.depth * row.end_slope.0 <= -row.end_slope.1;
    let ghost axis_blocked = blocks_at(quadrant, old(world).tiles@, row.depth as int, 0);
    let ghost axis_open = row.start_slope.0 <= 0 && row.end_slope.0 >= 0;
    let ghost axis_free = !blocks_at(quadrant, old(world).tiles@, row.depth as int, 0)
        && row.depth * row.depth < VISION_RANGE_SQUARED;
    proof {
        if start_excl {
            assert(2 * (depth + 1) * row.start_slope.0 >= row.start_slope.1) by (nonlinear_arith)
                requires 2 * depth * row.start_slope.0 >= row.start_slope.1, row.start_slope.1 >= 1, depth >= 1;
        }
    }
    let mut col = min_col;
    while col <= max_col
        invariant
            world.wf(),
            row_ok(current),
            current.depth == depth,
            row.depth == depth,
            quadrant_ok(quadrant),
            quadrant.origin.x == origin.x,
            quadrant.origin.y == origin.y,
            -depth <= min_col <= col,
            max_col <= depth,
            col <= max_col + 1 || col == min_col,
            only_made_visible(old(world).tiles@, world.tiles@, origin),
            prev_tile matches Some(p) ==> p.x == depth && min_col <= p.y < col && depth < 30,
            col == min_col ==> prev_tile is None,
            spans_first(row) ==> min_col <= 0 <= max_col,
            spans_first(row) && col <= 0 ==> current == row,
            spans_first(row) && col > 0 ==> first_tile_seen(quadrant, world.tiles@),
            start_excl == (2 * row.depth * row.start_slope.0 >= row.start_slope.1),
            end_excl == (2 * row.depth * row.end_slope.0 <= -row.end_slope.1),
            start_excl ==> min_col >= 1,
            end_excl ==> max_col <= -1,
            current.end_slope == row.end_slope,
            start_excl ==> 2 * (depth + 1) * current.start_slope.0 >= current.start_slope.1,
            cone_frame(quadrant, old(world).tiles@, world.tiles@),
            excludes_axis(row) ==> axis_frame(quadrant, old(world).tiles@, world.tiles@, 1),
            axis_blocked == blocks_at(quadrant, old(world).tiles@, row.depth as int, 0),
            !start_excl ==> min_col <= 0,
            !end_excl ==> max_col >= 0,
            depth >= 30 ==> prev_tile is None,
            axis_blocked && col > 0 && (prev_tile matches Some(p) && !blocks_at(quadrant, old(world).tiles@, p.x as int,
                p.y as int)) ==> 2 * (depth + 1) * current.start_slope.0 >= current.start_slope.1,
            axis_blocked && !start_excl && !end_excl && depth < 30 && col > 0 ==> (prev_tile matches Some(p) && p.y >= 0),
            forall|k: int| #![trigger blocks_at(quadrant, old(world).tiles@, k, 0)] depth < k
                && blocks_at(quadrant, old(world).tiles@, k, 0)
                ==> axis_frame(quadrant, old(world).tiles@, world.tiles@, k + 1),
            axis_blocked ==> axis_frame(quadrant, old(world).tiles@, world.tiles@, depth + 1),
            axis_open == (row.start_slope.0 <= 0 && row.end_slope.0 >= 0),
            axis_free == (!blocks_at(quadrant, old(world).tiles@, row.depth as int, 0)
                && row.depth * row.depth < VISION_RANGE_SQUARED),
            axis_open && col <= 0 ==> current.start_slope.0 <= 0,
            current.start_slope == row.start_slope
                || 2 * depth * current.start_slope.0 <= (2 * col - 1) * current.start_slope.1,
            row_seen_below(quadrant, world.tiles@, row, col as int),
            axis_open && col > 0 ==> axis_tile_seen(quadrant, world.tiles@, depth as int),
            prev_tile matches Some(p) ==> p.y * p.y + depth * depth < VISION_RANGE_SQUARED,
            axis_open && depth * depth < VISION_RANGE_SQUARED && col > 0 ==> prev_tile is Some,
            axis_open && clear_rows(quadrant, old(world).tiles@, depth as int, depth as int)
                ==> current.start_slope == row.start_slope,
            axis_open && col > 0 && axis_free ==> (axis_seen(quadrant, world.tiles@, depth + 1)
                || (current.start_slope.0 <= 0 && (prev_tile matches Some(p)
                    && !blocks_at(quadrant, old(world).tiles@, p.x as int, p.y as int)))),
        decreases max_col + 1 - col,
    {
        let tile = IPoint::new(depth, col);
        let pos = quadrant.transform(tile);
        let tile_is_wall = is_blocking(world, pos);
        let tile_is_floor = !tile_is_wall;
        let (prev_tile_is_wall, prev_tile_is_floor) = match prev_tile {
            Some(prev) => {
                let b = is_blocking(world, quadrant.transform(prev));
                (b, !b)
            },
            None => (false, false),
        };
        proof {
            lemma_blocks_same(quadrant, *world, old(world).tiles@, depth as int, col as int, origin);
            if let Some(prev) = prev_tile {
                lemma_blocks_same(quadrant, *world, old(world).tiles@, prev.x as int, prev.y as int, origin);
            }
        }

        let dx = pos.x - origin.x as isize;
        let dy = pos.y - origin.y as isize;
        proof {
            assert((dx == col && (dy == depth || dy == -depth)) || (dy == col && (dx == depth || dx == -depth)));
            lemma_row_distance(dx as int, dy as int, depth as int, col as int);
            assert(-30 <= dx <= 30 && -30 <= dy <= 30);
            assert(0 <= dx * dx <= 900 && 0 <= dy * dy <= 900) by (nonlinear_arith)
                requires -30 <= dx <= 30, -30 <= dy <= 30;
            if col == 0 && depth < 30 {
                assert(depth * depth < 900) by (nonlinear_arith) requires 0 < depth < 30;
            }
        }
        proof {
            if spans_first(row) && col == 0 {
                assert(dx * dx + dy * dy == 1) by (nonlinear_arith)
                    requires (dx == 0 && (dy == 1 || dy == -1)) || (dy == 0 && (dx == 1 || dx == -1));
            }
        }
        if dx * dx + dy * dy >= VISION_RANGE_SQUARED {
            proof {
                if col == 0 {
                    assert(dx * dx + dy * dy == depth * depth) by (nonlinear_arith)
                        requires (dx == 0 && (dy == depth || dy == -depth)) || (dy == 0 && (dx == depth || dx == -depth));
                }
                assert(row_seen_below(quadrant, world.tiles@, row, col + 1)) by {
                    assert(dx * dx + dy * dy == col * col + depth * depth) by (nonlinear_arith)
                        requires (dx == col && (dy == depth || dy == -depth)) || (dy == col && (dx == depth || dx == -depth));
                }
                lemma_start_slope_next(depth as int, col as int, current.start_slope, row.start_slope);
            }
            col = col + 1;
            continue;
        }
        proof {
            assert(col * col + depth * depth < VISION_RANGE_SQUARED) by (nonlinear_arith)
                requires (dx == col && (dy == depth || dy == -depth)) || (dy == col && (dx == depth || dx == -depth)),
                    dx * dx + dy * dy < VISION_RANGE_SQUARED;
            if depth >= 30 {
                assert(depth * depth >= 900) by (nonlinear_arith) requires depth >= 30;
                assert(col * col >= 0) by (nonlinear_arith);
            }
            assert(depth < 30);
        }
        let ghost before_mark = world.tiles@;
        if tile_is_wall || is_symmetric(&current, tile) {
            if !tile_is_wall || (pos.x >= 0 && pos.y >= 0 && pos.x < WORLD_WIDTH as isize && pos.y < WORLD_HEIGHT as isize) {
                mark_visible(world, pos, origin);
                proof {
                    lemma_mark_frame(quadrant, before_mark, world.tiles@, depth as int, col as int);
                    lemma_cone_frame_trans(quadrant, old(world).tiles@, before_mark, world.tiles@);
                    if excludes_axis(row) {
                        lemma_axis_frame_trans(quadrant, old(world).tiles@, before_mark, world.tiles@, 1);
                    }
                    assert forall|k: int| #![trigger blocks_at(quadrant, old(world).tiles@, k, 0)] depth < k
                        && blocks_at(quadrant, old(world).tiles@, k, 0)
                        implies axis_frame(quadrant, old(world).tiles@, world.tiles@, k + 1) by {
                        lemma_mark_axis_beyond(quadrant, before_mark, world.tiles@, depth as int, col as int, k + 1);
                        lemma_axis_frame_trans(quadrant, old(world).tiles@, before_mark, world.tiles@, k + 1);
                    }
                    if axis_blocked {
                        lemma_mark_axis_beyond(quadrant, before_mark, world.tiles@, depth as int, col as int, depth + 1);
                        lemma_axis_frame_trans(quadrant, old(world).tiles@, before_mark, world.tiles@, depth + 1);
                    }
                }
            }
        }
        proof {
            assert(forall|k: int| 0 <= k < before_mark.len() ==> (#[trigger] world.tiles@[k]).tile_type == before_mark[k].tile_type
                && (before_mark[k].visible ==> world.tiles@[k].visible)) by {
                assert(only_made_visible(old(world).tiles@, world.tiles@, origin));
            }
            assert(row_seen_below(quadrant, world.tiles@, row, col + 1)) by {
                lemma_row_seen_mono(quadrant, before_mark, world.tiles@, row, col as int);
                assert(dx * dx + dy * dy == col * col + depth * depth) by (nonlinear_arith)
                    requires (dx == col && (dy == depth || dy == -depth)) || (dy == col && (dx == depth || dx == -depth));
                if between_slopes(row, col as int) {
                    lemma_symmetric_in_current(depth as int, col as int, current, row);
                    assert((pos.x as int, pos.y as int) == spec_transform(quadrant, depth as int, col as int));
                }
            }
            if axis_open && col > 0 {
                lemma_axis_tile_mono(quadrant, before_mark, world.tiles@, depth as int);
                if axis_seen(quadrant, before_mark, depth + 1) {
                    lemma_axis_seen_mono(quadrant, before_mark, world.tiles@, depth + 1);
                }
            }
            if axis_open && col == 0 {
                assert(dx * dx + dy * dy == depth * depth) by (nonlinear_arith)
                    requires (dx == 0 && (dy == depth || dy == -depth)) || (dy == 0 && (dx == depth || dx == -depth));
                assert(depth * current.start_slope.0 <= 0) by (nonlinear_arith)
                    requires depth >= 1, current.start_slope.0 <= 0;
                assert(0 <= depth * current.end_slope.0) by (nonlinear_arith)
                    requires depth >= 1, current.end_slope.0 >= 0;
                assert(between_slopes(current, 0));
                assert((pos.x as int, pos.y as int) == spec_transform(quadrant, depth as int, 0));
                assert(axis_tile_seen(quadrant, world.tiles@, depth as int));
            }
        }
        let ghost pending = axis_open && col > 0 && axis_free && !axis_seen(quadrant, world.tiles@, depth + 1);
        if prev_tile_is_wall && tile_is_floor {
            proof {
                if axis_open && clear_rows(quadrant, old(world).tiles@, depth as int, depth as int) {
                    let p = prev_tile->0;
                    assert(!blocks_at(quadrant, old(world).tiles@, p.x as int, p.y as int));
                }
            }
            current.start_slope = slope(tile);
            proof {
                assert(2 * depth * current.start_slope.0 <= (2 * col - 1) * current.start_slope.1) by (nonlinear_arith)
                    requires current.start_slope.0 * (2 * depth) == (2 * col - 1) * current.start_slope.1;
                lemma_slope_sign(depth as int, col as int, current.start_slope);
                if start_excl {
                    lemma_start_after_slope(depth as int, col as int, current.start_slope);
                }
                if axis_blocked && col >= 1 {
                    lemma_start_after_slope(depth as int, col as int, current.start_slope);
                }
            }
        }
        if prev_tile_is_floor && tile_is_wall {
            let mut next_row = Row { depth: depth + 1, start_slope: current.start_slope, end_slope: current.end_slope };
            next_row.end_slope = slope(tile);
            proof {
                if end_excl {
                    lemma_end_after_slope(depth as int, col as int, next_row.end_slope);
                }
                if axis_blocked && col <= 0 {
                    lemma_end_after_slope(depth as int, col as int, next_row.end_slope);
                }
                assert(excludes_axis(row) ==> excludes_axis(next_row));
                assert(axis_blocked ==> excludes_axis(next_row));
            }
            let ghost before_child = world.tiles@;
            proof {
                lemma_slope_sign(depth as int, col as int, next_row.end_slope);
            }
            scan(origin, next_row, quadrant, world);
            proof {
                lemma_axis_child(quadrant, before_child, world.tiles@, depth as int, origin, axis_open && col > 0);
                lemma_row_seen_mono(quadrant, before_child, world.tiles@, row, col + 1);
                assert forall|k: int| #![trigger blocks_at(quadrant, old(world).tiles@, k, 0)] depth < k
                    && blocks_at(quadrant, old(world).tiles@, k, 0)
                    implies axis_frame(quadrant, old(world).tiles@, world.tiles@, k + 1) by {
                    lemma_blocks_at_types(quadrant, old(world).tiles@, before_child, k);
                    lemma_axis_frame_trans(quadrant, old(world).tiles@, before_child, world.tiles@, k + 1);
                }
                if axis_blocked {
                    lemma_axis_frame_monotone(quadrant, before_child, world.tiles@, 1, depth + 1);
                    lemma_axis_frame_trans(quadrant, old(world).tiles@, before_child, world.tiles@, depth + 1);
                }
                lemma_cone_frame_trans(quadrant, old(world).tiles@, before_child, world.tiles@);
                if excludes_axis(row) {
                    lemma_axis_frame_trans(quadrant, old(world).tiles@, before_child, world.tiles@, 1);
                }
            }
        }
        proof {
            lemma_start_slope_next(depth as int, col as int, current.start_slope, row.start_slope);
        }
        prev_tile = Some(tile);
        col = col + 1;
    }
    let ghost after_loop = world.tiles@;
    proof {
        if axis_open {
            assert(2 * depth * row.end_slope.0 >= 0) by (nonlinear_arith)
                requires depth >= 1, row.end_slope.0 >= 0;
            assert(col > 0);
        }
    }
    if let Some(prev) = prev_tile {
        proof {
            lemma_blocks_same(quadrant, *world, old(world).tiles@, prev.x as int, prev.y as int, origin);
        }
        if !is_blocking(world, quadrant.transform(prev)) {
            let next_row = Row { depth: depth + 1, start_slope: current.start_slope, end_slope: current.end_slope };
            proof {
                if end_excl {
                    assert(2 * (depth + 1) * row.end_slope.0 <= -row.end_slope.1) by (nonlinear_arith)
                        requires 2 * depth * row.end_slope.0 <= -row.end_slope.1, row.end_slope.1 >= 1, depth >= 1;
                }
                assert(excludes_axis(row) ==> excludes_axis(next_row));
                assert(axis_blocked ==> excludes_axis(next_row));
            }
            let ghost before_child = world.tiles@;
            scan(origin, next_row, quadrant, world);
            proof {
                lemma_axis_child(quadrant, before_child, world.tiles@, depth as int, origin, axis_open);
                lemma_row_seen_mono(quadrant, before_child, world.tiles@, row, col as int);
                assert forall|k: int| #![trigger blocks_at(quadrant, old(world).tiles@, k, 0)] depth < k
                    && blocks_at(quadrant, old(world).tiles@, k, 0)
                    implies axis_frame(quadrant, old(world).tiles@, world.tiles@, k + 1) by {
                    lemma_blocks_at_types(quadrant, old(world).tiles@, before_child, k);
                    lemma_axis_frame_trans(quadrant, old(world).tiles@, before_child, world.tiles@, k + 1);
                }
                if axis_blocked {
                    lemma_axis_frame_monotone(quadrant, before_child, world.tiles@, 1, depth + 1);
                    lemma_axis_frame_trans(quadrant, old(world).tiles@, before_child, world.tiles@, depth + 1);
                }
                lemma_cone_frame_trans(quadrant, old(world).tiles@, before_child, world.tiles@);
                if excludes_axis(row) {
                    lemma_axis_frame_trans(quadrant, old(world).tiles@, before_child, world.tiles@, 1);
                }
                if axis_open {
                    lemma_clear_rows_child(quadrant, old(world).tiles@, before_child, world.tiles@, row, next_row);
                }
            }
        } else {
            proof {
                if axis_open {
                    lemma_clear_rows_blocked(quadrant, old(world).tiles@, world.tiles@, row, prev);
                }
            }
        }
    } else {
        proof {
            if axis_open {
                lemma_clear_rows_far(quadrant, old(world).tiles@, world.tiles@, row);
            }
        }
    }
    proof {
        if axis_open {
            lemma_scan_axis_end(quadrant, old(world).tiles@, world.tiles@, depth as int);
        }
        assert(row_seen(quadrant, world.tiles@, row)) by {
            assert forall|k: int| #![trigger spec_transform(quadrant, row.depth as int, k)] k < row.depth + 1
                && between_slopes(row, k) implies k < col by {
                assert(min_col <= k <= max_col);
            }
        }
    }
}

/// What the scan of a row ends with: where the row spans the axis, the axis
/// is seen from the row's depth.
proof fn lemma_scan_axis_end(q: Quadrant, old_tiles: Seq<Tile>, fin: Seq<Tile>, depth: int)
    requires
        1 <= depth,
        old_tiles.len() == WORLD_WIDTH * WORLD_HEIGHT,
        fin.len() == old_tiles.len(),
        forall|k: int| 0 <= k < old_tiles.len() ==> (#[trigger] fin[k]).tile_type == old_tiles[k].tile_type,
        axis_tile_seen(q, fin, depth),
        !blocks_at(q, old_tiles, depth, 0) && depth * depth < VISION_RANGE_SQUARED ==> axis_seen(q, fin, depth + 1),
    ensures
        axis_seen(q, fin, depth),
{
    lemma_blocks_at_types(q, old_tiles, fin, depth);
    lemma_axis_seen_extend(q, fin, depth);
}

/// Whether a tile of the quadrant blocks sight depends only on the types of
/// the tiles.
proof fn lemma_blocks_at_types(q: Quadrant, a: Seq<Tile>, b: Seq<Tile>, depth: int)
    requires
        a.len() == WORLD_WIDTH * WORLD_HEIGHT,
        b.len() == a.len(),
        forall|k: int| 0 <= k < a.len() ==> (#[trigger] b[k]).tile_type == a[k].tile_type,
    ensures
        blocks_at(q, a, depth, 0) == blocks_at(q, b, depth, 0),
{
    let (x, y) = spec_transform(q, depth, 0);
    if in_world(x, y) {
        assert(0 <= cell_of(x, y) < a.len()) by (nonlinear_arith)
            requires 0 <= x < 100, 0 <= y < 25, cell_of(x, y) == y * 100 + x, a.len() == 2500;
        assert(b[cell_of(x, y)].tile_type == a[cell_of(x, y)].tile_type);
    }
}

/// Where a row keeps off the axis by its start slope, so does a start
/// slope set to the slope of one of its tiles (a tile at a column of at
/// least one), one row further.
/// A tile between the row's slopes lies between the current slopes too: the
/// start slope has at most moved up to half a column before the tile.
proof fn lemma_symmetric_in_current(depth: int, col: int, current: Row, row: Row)
    requires
        depth >= 1,
        current.depth == depth,
        row.depth == depth,
        current.end_slope == row.end_slope,
        current.start_slope.1 >= 1,
        current.start_slope == row.start_slope
            || 2 * depth * current.start_slope.0 <= (2 * col - 1) * current.start_slope.1,
        between_slopes(row, col),
    ensures
        between_slopes(current, col),
{
    if current.start_slope != row.start_slope {
        assert(depth * current.start_slope.0 <= col * current.start_slope.1) by (nonlinear_arith)
            requires 2 * depth * current.start_slope.0 <= (2 * col - 1) * current.start_slope.1,
                current.start_slope.1 >= 1;
    }
}

/// The bound on the start slope carries over to the next column.
proof fn lemma_start_slope_next(depth: int, col: int, s: (isize, isize), r: (isize, isize))
    requires
        s.1 >= 1,
        s == r || 2 * depth * s.0 <= (2 * col - 1) * s.1,
    ensures
        s == r || 2 * depth * s.0 <= (2 * (col + 1) - 1) * s.1,
{
    if s != r {
        assert((2 * col - 1) * s.1 <= (2 * (col + 1) - 1) * s.1) by (nonlinear_arith)
            requires s.1 >= 1;
    }
}

/// A deeper scan only adds visibility: what the axis had seen stays seen.
proof fn lemma_axis_child(q: Quadrant, a: Seq<Tile>, b: Seq<Tile>, depth: int, origin: Point, active: bool)
    requires
        a.len() == WORLD_WIDTH * WORLD_HEIGHT,
        only_made_visible(a, b, origin),
    ensures
        active && axis_tile_seen(q, a, depth) ==> axis_tile_seen(q, b, depth),
        active && axis_seen(q, a, depth + 1) ==> axis_seen(q, b, depth + 1),
{
    if active {
        if axis_tile_seen(q, a, depth) {
            lemma_axis_tile_mono(q, a, b, depth);
        }
        if axis_seen(q, a, depth + 1) {
            lemma_axis_seen_mono(q, a, b, depth + 1);
        }
    }
}

/// The slope of a tile's left edge is negative at a column of at most zero
/// and positive beyond.
proof fn lemma_slope_sign(depth: int, col: int, s: (isize, isize))
    requires
        1 <= depth,
        s.1 >= 1,
        same_value(s, 2 * col - 1, 2 * depth),
    ensures
        col <= 0 ==> s.0 < 0,
        col >= 1 ==> s.0 > 0,
{
    assert(col <= 0 ==> s.0 < 0) by (nonlinear_arith)
        requires s.0 * (2 * depth) == (2 * col - 1) * s.1, depth >= 1, s.1 >= 1;
    assert(col >= 1 ==> s.0 > 0) by (nonlinear_arith)
        requires s.0 * (2 * depth) == (2 * col - 1) * s.1, depth >= 1, s.1 >= 1;
}

proof fn lemma_start_after_slope(depth: int, col: int, s: (isize, isize))
    requires
        1 <= depth,
        col >= 1,
        s.1 >= 1,
        same_value(s, 2 * col - 1, 2 * depth),
    ensures
        2 * (depth + 1) * s.0 >= s.1,
{
    assert(2 * (depth + 1) * s.0 >= s.1) by (nonlinear_arith)
        requires s.0 * (2 * depth) == (2 * col - 1) * s.1, depth >= 1, col >= 1, s.1 >= 1;
}

/// The end slope set to the slope of a tile at a column of at most zero
/// keeps the row behind it off the axis.
proof fn lemma_end_after_slope(depth: int, col: int, s: (isize, isize))
    requires
        1 <= depth,
        col <= 0,
        s.1 >= 1,
        same_value(s, 2 * col - 1, 2 * depth),
    ensures
        2 * (depth + 1) * s.0 <= -s.1,
{
    assert(2 * (depth + 1) * s.0 <= -s.1) by (nonlinear_arith)
        requires s.0 * (2 * depth) == (2 * col - 1) * s.1, depth >= 1, col <= 0, s.1 >= 1;
}

/// Whether a tile of the quadrant blocks sight reads the same in the world
/// as in tiles whose types it shares.
proof fn lemma_blocks_same(q: Quadrant, world: World, tiles: Seq<Tile>, depth: int, col: int, origin: Point)
    requires
        world.wf(),
        only_made_visible(tiles, world.tiles@, origin),
    ensures
        ({
            let (x, y) = spec_transform(q, depth, col);
            (!(0 <= x < WORLD_WIDTH && 0 <= y < WORLD_HEIGHT) || spec_is_opaque(world.tile_at(x, y).tile_type))
                == blocks_at(q, tiles, depth, col)
        }),
{
    let (x, y) = spec_transform(q, depth, col);
    if in_world(x, y) {
        assert(0 <= cell_of(x, y) < tiles.len()) by (nonlinear_arith)
            requires 0 <= x < 100, 0 <= y < 25, cell_of(x, y) == y * 100 + x, tiles.len() == 2500;
        assert(world.tiles@[cell_of(x, y)].tile_type == tiles[cell_of(x, y)].tile_type);
    }
}

/// Whether the tiles next to `origin` (above, right, below and left of it)
/// that lie in the world are visible in `tiles`.
pub open spec fn neighbours_seen(origin: Point, tiles: Seq<Tile>) -> bool {
    &&& origin.y >= 1 ==> tiles[cell_of(origin.x as int, origin.y - 1)].visible
    &&& origin.x + 1 < WORLD_WIDTH ==> tiles[cell_of(origin.x + 1, origin.y as int)].visible
    &&& origin.y + 1 < WORLD_HEIGHT ==> tiles[cell_of(origin.x as int, origin.y + 1)].visible
    &&& origin.x >= 1 ==> tiles[cell_of(origin.x - 1, origin.y as int)].visible
}

/// Whether no tile on the quadrant's axis, `from` or more steps away, is
/// visible in `tiles`.
pub open spec fn axis_dark(q: Quadrant, tiles: Seq<Tile>, from: int) -> bool {
    forall|x: int, y: int| #![trigger cell_of(x, y)] in_world(x, y) && on_axis(q, x, y, from) ==> !tiles[cell_of(x, y)].visible
}

/// Whether each opaque tile straight above, right of, below or left of
/// `origin` hides every tile further along the same line: none of them is
/// visible in `tiles`.
pub open spec fn walls_hide_lines(origin: Point, tiles: Seq<Tile>) -> bool {
    let (ox, oy) = (origin.x as int, origin.y as int);
    &&& forall|w: int, y: int| 0 <= y < w < oy && spec_is_opaque(tiles[#[trigger] cell_of(ox, w)].tile_type)
        ==> !tiles[#[trigger] cell_of(ox, y)].visible
    &&& forall|w: int, x: int| ox < w < x < WORLD_WIDTH && spec_is_opaque(tiles[#[trigger] cell_of(w, oy)].tile_type)
        ==> !tiles[#[trigger] cell_of(x, oy)].visible
    &&& forall|w: int, y: int| oy < w < y < WORLD_HEIGHT && spec_is_opaque(tiles[#[trigger] cell_of(ox, w)].tile_type)
        ==> !tiles[#[trigger] cell_of(ox, y)].visible
    &&& forall|w: int, x: int| 0 <= x < w < ox && spec_is_opaque(tiles[#[trigger] cell_of(w, oy)].tile_type)
        ==> !tiles[#[trigger] cell_of(x, oy)].visible
}

/// The quadrant of `origin` that looks in direction `dir`.
pub open spec fn quadrant_of(origin: Point, dir: Direction) -> Quadrant {
    Quadrant { direction: dir, origin: IPoint { x: origin.x as isize, y: origin.y as isize } }
}

/// Whether, along each of the four straight lines from `origin`, every tile
/// of the world within sight range is visible up to and including the first
/// tile that blocks sight.
pub open spec fn lines_seen(origin: Point, tiles: Seq<Tile>) -> bool {
    forall|dir: Direction| #[trigger] axis_seen(quadrant_of(origin, dir), tiles, 1)
}

/// The row next to the origin that starts each quadrant's scan.
pub open spec fn spec_first_row() -> Row {
    Row { depth: 1isize, start_slope: (-1isize, 1isize), end_slope: (1isize, 1isize) }
}

/// Whether the eight tiles around `origin` that lie in the world are
/// visible: the first row of each quadrant is seen.
pub open spec fn surroundings_seen(origin: Point, tiles: Seq<Tile>) -> bool {
    forall|dir: Direction| #[trigger] row_seen(quadrant_of(origin, dir), tiles,
        spec_first_row())
}

/// Whether, in each quadrant around `origin`, every row within sight range
/// up to which no tile blocks sight in `before` has its tiles between the
/// diagonals seen in `after`: across open ground everything in range is seen.
pub open spec fn clear_view_seen(origin: Point, before: Seq<Tile>, after: Seq<Tile>) -> bool {
    forall|dir: Direction| #[trigger] clear_rows_seen(quadrant_of(origin, dir), before, after, spec_first_row())
}

/// Law: across open ground everything within sight range is seen. Where the
/// field of view from `origin` was computed over `before` into `after`, a
/// tile of the world `depth` steps from the origin in direction `dir`, and
/// no further to the side than ahead, within sight range, is visible in
/// `after` wherever no tile of that quadrant nearer the origin (within sight
/// range and no further to the side than ahead) blocks sight.
pub proof fn law_open_ground_seen(origin: Point, before: Seq<Tile>, after: Seq<Tile>, dir: Direction, depth: int,
    col: int)
    requires
        surroundings_seen(origin, after),
        clear_view_seen(origin, before, after),
        1 <= depth,
        -depth <= col <= depth,
        col * col + depth * depth < VISION_RANGE_SQUARED,
        in_world(spec_transform(quadrant_of(origin, dir), depth, col).0,
            spec_transform(quadrant_of(origin, dir), depth, col).1),
        clear_rows(quadrant_of(origin, dir), before, 1, depth - 1),
    ensures
        after[cell_of(spec_transform(quadrant_of(origin, dir), depth, col).0,
            spec_transform(quadrant_of(origin, dir), depth, col).1)].visible,
{
    let q = quadrant_of(origin, dir);
    assert(col * col >= 0) by (nonlinear_arith);
    assert(depth < 30) by (nonlinear_arith) requires depth * depth < 900, depth >= 1;
    let r = row_at(spec_first_row(), depth);
    assert(r.depth == depth);
    assert(between_slopes(r, col)) by {
        assert(r.depth * r.start_slope.0 <= col * r.start_slope.1) by (nonlinear_arith)
            requires r.depth == depth, r.start_slope.0 == -1, r.start_slope.1 == 1, -depth <= col;
        assert(col * r.end_slope.1 <= r.depth * r.end_slope.0) by (nonlinear_arith)
            requires r.depth == depth, r.end_slope.0 == 1, r.end_slope.1 == 1, col <= depth;
    }
    if depth == 1 {
        assert(r == spec_first_row());
        assert(row_seen(q, after, spec_first_row()));
    } else {
        assert(clear_rows_seen(q, before, after, spec_first_row()));
        assert(row_seen(q, after, r));
    }
}

/// Computes the field of view from `origin`: every tile is made invisible,
/// then each quadrant is scanned. Only tiles within sight range become
/// visible; the tiles right next to the origin always do (walls included);
/// no one sees through walls along the four straight lines from the origin:
/// an opaque tile hides every tile behind it on its line; and along each of
/// those lines every tile in range up to and including the first wall is
/// seen.
pub fn compute_fov(origin: Point, world: &mut World)
    requires
        old(world).wf(),
        origin.x < WORLD_WIDTH,
        origin.y < WORLD_HEIGHT,
    ensures
        final(world).wf(),
        final(world).tiles@.len() == old(world).tiles@.len(),
        forall|k: int| 0 <= k < final(world).tiles@.len() ==> (#[trigger] final(world).tiles@[k]).tile_type
            == old(world).tiles@[k].tile_type && final(world).tiles@[k].explored == old(world).tiles@[k].explored
            && (final(world).tiles@[k].visible ==> in_sight_range(origin, k)),
        neighbours_seen(origin, final(world).tiles@),
        walls_hide_lines(origin, final(world).tiles@),
        lines_seen(origin, final(world).tiles@),
        surroundings_seen(origin, final(world).tiles@),
        clear_view_seen(origin, old(world).tiles@, final(world).tiles@),
{
    let n = world.tiles.len();
    let mut i: usize = 0;
    while i < n
        invariant
            world.wf(),
            n == world.tiles.len(),
            i <= n,
            forall|k: int| 0 <= k < n ==> (#[trigger] world.tiles@[k]).tile_type == old(world).tiles@[k].tile_type
                && world.tiles@[k].explored == old(world).tiles@[k].explored,
            forall|k: int| 0 <= k < i ==> !(#[trigger] world.tiles@[k]).visible,
        decreases n - i,
    {
        let mut tile = world.tiles[i];
        tile.visible = false;
        world.tiles.set(i, tile);
        i = i + 1;
    }
    let ghost cleared = world.tiles@;
    let origin_i = IPoint::new(origin.x as isize, origin.y as isize);
    let directions = Direction::all();
    let mut d: usize = 0;
    while d < directions.len()
        invariant
            world.wf(),
            origin.x < WORLD_WIDTH,
            origin.y < WORLD_HEIGHT,
            origin_i.x == origin.x,
            origin_i.y == origin.y,
            d <= directions.len(),
            forall|k: int| 0 <= k < cleared.len() ==> !(#[trigger] cleared[k]).visible,
            only_made_visible(cleared, world.tiles@, origin),
            forall|k: int| 0 <= k < n ==> (#[trigger] cleared[k]).tile_type == old(world).tiles@[k].tile_type
                && cleared[k].explored == old(world).tiles@[k].explored,
            cleared.len() == n,
            n == old(world).tiles@.len(),
            directions@ == seq![Direction::Up, Direction::Right, Direction::Down, Direction::Left],
            forall|e: int| 0 <= e < d ==> first_tile_seen(Quadrant { direction: #[trigger] directions@[e], origin: origin_i },
                world.tiles@),
            forall|e: int| 0 <= e < d ==> axis_seen(Quadrant { direction: #[trigger] directions@[e], origin: origin_i },
                world.tiles@, 1),
            forall|e: int| 0 <= e < d ==> row_seen(Quadrant { direction: #[trigger] directions@[e], origin: origin_i },
                world.tiles@, spec_first_row()),
            forall|e: int| 0 <= e < d ==> clear_rows_seen(Quadrant { direction: #[trigger] directions@[e],
                origin: origin_i }, old(world).tiles@, world.tiles@, spec_first_row()),
            forall|dir: Direction, k: int| #![trigger blocks_at(Quadrant { direction: dir, origin: origin_i }, cleared, k, 0)]
                1 <= k && blocks_at(Quadrant { direction: dir, origin: origin_i }, cleared, k, 0)
                ==> axis_dark(Quadrant { direction: dir, origin: origin_i }, world.tiles@, k + 1),
        decreases directions.len() - d,
    {
        let quadrant = Quadrant::new(directions[d], origin_i);
        let first_row = Row { depth: 1, start_slope: (-1, 1), end_slope: (1, 1) };
        let ghost before = world.tiles@;
        scan(origin, first_row, quadrant, world);
        proof {
            assert forall|dir: Direction, k: int| #![trigger blocks_at(Quadrant { direction: dir, origin: origin_i }, cleared, k, 0)]
                1 <= k && blocks_at(Quadrant { direction: dir, origin: origin_i }, cleared, k, 0)
                implies axis_dark(Quadrant { direction: dir, origin: origin_i }, world.tiles@, k + 1) by {
                let qe = Quadrant { direction: dir, origin: origin_i };
                assert(axis_dark(qe, before, k + 1));
                if dir == quadrant.direction {
                    lemma_blocks_at_types(quadrant, cleared, before, k);
                    assert(blocks_at(quadrant, before, k, 0));
                }
                assert forall|x: int, y: int| #![trigger cell_of(x, y)] in_world(x, y) && on_axis(qe, x, y, k + 1)
                    implies !world.tiles@[cell_of(x, y)].visible by {
                    if dir == quadrant.direction {
                        assert(same_sight(before, world.tiles@, x, y));
                    } else {
                        assert(!in_cone(quadrant, x, y));
                        assert(same_sight(before, world.tiles@, x, y));
                    }
                }
            }
            assert forall|e: int| 0 <= e < d + 1 implies axis_seen(Quadrant { direction: #[trigger] directions@[e],
                origin: origin_i }, world.tiles@, 1) by {
                if e < d {
                    lemma_axis_seen_mono(Quadrant { direction: directions@[e], origin: origin_i }, before, world.tiles@, 1);
                }
            }
            assert forall|e: int| 0 <= e < d + 1 implies row_seen(Quadrant { direction: #[trigger] directions@[e],
                origin: origin_i }, world.tiles@, spec_first_row()) by {
                if e < d {
                    lemma_row_seen_mono(Quadrant { direction: directions@[e], origin: origin_i }, before, world.tiles@,
                        spec_first_row(), 2);
                }
            }
            assert forall|e: int| 0 <= e < d + 1 implies clear_rows_seen(Quadrant { direction: #[trigger] directions@[e],
                origin: origin_i }, old(world).tiles@, world.tiles@, spec_first_row()) by {
                if e < d {
                    lemma_clear_rows_seen_mono(Quadrant { direction: directions@[e], origin: origin_i }, old(world).tiles@,
                        before, world.tiles@, spec_first_row());
                } else {
                    assert forall|k: int| 0 <= k < before.len() implies (#[trigger] old(world).tiles@[k]).tile_type
                        == before[k].tile_type by {
                        assert(before[k].tile_type == cleared[k].tile_type);
                    }
                    lemma_clear_rows_seen_rebase(quadrant, before, old(world).tiles@, world.tiles@, spec_first_row());
                }
            }
            assert forall|e: int| 0 <= e < d + 1 implies first_tile_seen(Quadrant { direction: #[trigger] directions@[e],
                origin: origin_i }, world.tiles@) by {
                if e < d {
                    let (x, y) = spec_transform(Quadrant { direction: directions@[e], origin: origin_i }, 1, 0);
                    if 0 <= x < WORLD_WIDTH && 0 <= y < WORLD_HEIGHT {
                        crate::world::worldspace::lemma_cell_index(*world, x, y);
                        assert(before[cell_of(x, y)].visible);
                    }
                }
            }
        }
        d = d + 1;
    }
    proof {
        assert(directions@[0] == Direction::Up);
        assert(directions@[1] == Direction::Right);
        assert(directions@[2] == Direction::Down);
        assert(directions@[3] == Direction::Left);
        lemma_walls_hide(origin, origin_i, cleared, world.tiles@);
        assert(origin_i == IPoint { x: origin.x as isize, y: origin.y as isize });
        assert forall|dir: Direction| #[trigger] axis_seen(quadrant_of(origin, dir), world.tiles@, 1) by {
            match dir {
                Direction::Up => { assert(directions@[0] == dir); },
                Direction::Right => { assert(directions@[1] == dir); },
                Direction::Down => { assert(directions@[2] == dir); },
                Direction::Left => { assert(directions@[3] == dir); },
            }
        }
        assert forall|dir: Direction| #[trigger] clear_rows_seen(quadrant_of(origin, dir), old(world).tiles@,
            world.tiles@, spec_first_row()) by {
            match dir {
                Direction::Up => { assert(directions@[0] == dir); },
                Direction::Right => { assert(directions@[1] == dir); },
                Direction::Down => { assert(directions@[2] == dir); },
                Direction::Left => { assert(directions@[3] == dir); },
            }
        }
        assert forall|dir: Direction| #[trigger] row_seen(quadrant_of(origin, dir), world.tiles@,
            spec_first_row()) by {
            match dir {
                Direction::Up => { assert(directions@[0] == dir); },
                Direction::Right => { assert(directions@[1] == dir); },
                Direction::Down => { assert(directions@[2] == dir); },
                Direction::Left => { assert(directions@[3] == dir); },
            }
        }
    }
}

/// From the dark axes behind each blocking tile of the four quadrants, the
/// lines behind the walls straight around the origin are dark.
proof fn lemma_walls_hide(origin: Point, origin_i: IPoint, cleared: Seq<Tile>, tiles: Seq<Tile>)
    requires
        origin.x < WORLD_WIDTH,
        origin.y < WORLD_HEIGHT,
        origin_i.x == origin.x,
        origin_i.y == origin.y,
        cleared.len() == WORLD_WIDTH * WORLD_HEIGHT,
        tiles.len() == cleared.len(),
        forall|k: int| 0 <= k < cleared.len() ==> (#[trigger] tiles[k]).tile_type == cleared[k].tile_type,
        forall|dir: Direction, k: int| #![trigger blocks_at(Quadrant { direction: dir, origin: origin_i }, cleared, k, 0)]
            1 <= k && blocks_at(Quadrant { direction: dir, origin: origin_i }, cleared, k, 0)
            ==> axis_dark(Quadrant { direction: dir, origin: origin_i }, tiles, k + 1),
    ensures
        walls_hide_lines(origin, tiles),
{
    let (ox, oy) = (origin.x as int, origin.y as int);
    let up = Quadrant { direction: Direction::Up, origin: origin_i };
    let right = Quadrant { direction: Direction::Right, origin: origin_i };
    let down = Quadrant { direction: Direction::Down, origin: origin_i };
    let left = Quadrant { direction: Direction::Left, origin: origin_i };
    assert forall|w: int, y: int| 0 <= y < w < oy && spec_is_opaque(tiles[#[trigger] cell_of(ox, w)].tile_type)
        implies !tiles[#[trigger] cell_of(ox, y)].visible by {
        lemma_blocks_at_types(up, cleared, tiles, oy - w);
        assert(blocks_at(up, cleared, oy - w, 0));
        assert(in_world(ox, y) && on_axis(up, ox, y, oy - w + 1));
    }
    assert forall|w: int, x: int| ox < w < x < WORLD_WIDTH && spec_is_opaque(tiles[#[trigger] cell_of(w, oy)].tile_type)
        implies !tiles[#[trigger] cell_of(x, oy)].visible by {
        lemma_blocks_at_types(right, cleared, tiles, w - ox);
        assert(blocks_at(right, cleared, w - ox, 0));
        assert(in_world(x, oy) && on_axis(right, x, oy, w - ox + 1));
    }
    assert forall|w: int, y: int| oy < w < y < WORLD_HEIGHT && spec_is_opaque(tiles[#[trigger] cell_of(ox, w)].tile_type)
        implies !tiles[#[trigger] cell_of(ox, y)].visible by {
        lemma_blocks_at_types(down, cleared, tiles, w - oy);
        assert(blocks_at(down, cleared, w - oy, 0));
        assert(in_world(ox, y) && on_axis(down, ox, y, w - oy + 1));
    }
    assert forall|w: int, x: int| 0 <= x < w < ox && spec_is_opaque(tiles[#[trigger] cell_of(w, oy)].tile_type)
        implies !tiles[#[trigger] cell_of(x, oy)].visible by {
        lemma_blocks_at_types(left, cleared, tiles, ox - w);
        assert(blocks_at(left, cleared, ox - w, 0));
        assert(in_world(x, oy) && on_axis(left, x, oy, ox - w + 1));
    }
}

/// The field of view of the player was computed from `before` to `after`:
/// only the visibility of the current level's tiles changed; a visible tile
/// lies within sight range of the player; the tiles next to the player are
/// visible; no one sees through walls along the four straight lines, and
/// along them everything in range up to the first wall is seen.
pub open spec fn fov_refreshed(before: GameState, after: GameState) -> bool {
    let origin = before.player.character.base.pos;
    &&& after.levels@.len() == before.levels@.len()
    &&& forall|i: int| 0 <= i < before.levels@.len() && i != before.level_nr ==> after.levels@[i] == before.levels@[i]
    &&& after.cur().npcs == before.cur().npcs
    &&& after.cur().npc_index == before.cur().npc_index
    &&& after.cur().item_sprites == before.cur().item_sprites
    &&& after.cur().item_sprites_index == before.cur().item_sprites_index
    &&& after.cur().world.tiles@.len() == before.cur().world.tiles@.len()
    &&& forall|k: int| 0 <= k < after.cur().world.tiles@.len() ==>
            (#[trigger] after.cur().world.tiles@[k]).tile_type == before.cur().world.tiles@[k].tile_type
            && after.cur().world.tiles@[k].explored == before.cur().world.tiles@[k].explored
            && (after.cur().world.tiles@[k].visible ==> in_sight_range(origin, k))
    &&& neighbours_seen(origin, after.cur().world.tiles@)
    &&& walls_hide_lines(origin, after.cur().world.tiles@)
    &&& lines_seen(origin, after.cur().world.tiles@)
    &&& surroundings_seen(origin, after.cur().world.tiles@)
    &&& clear_view_seen(origin, before.cur().world.tiles@, after.cur().world.tiles@)
    &&& after.level_nr == before.level_nr
    &&& after.player == before.player
}

impl GameState {
    /// Computes the field of view of the player character in the current
    /// level.
    pub fn compute_fov(&mut self)
        requires
            old(self).wf(),
            old(self).player.character.base.pos.x < WORLD_WIDTH,
            old(self).player.character.base.pos.y < WORLD_HEIGHT,
        ensures
            final(self).wf(),
            final(self).levels@.len() == old(self).levels@.len(),
            forall|i: int| 0 <= i < old(self).levels@.len() && i != old(self).level_nr
                ==> final(self).levels@[i] == old(self).levels@[i],
            final(self).cur().npcs == old(self).cur().npcs,
            final(self).cur().npc_index == old(self).cur().npc_index,
            final(self).cur().item_sprites == old(self).cur().item_sprites,
            final(self).cur().item_sprites_index == old(self).cur().item_sprites_index,
            final(self).cur().entry == old(self).cur().entry,
            final(self).cur().exit == old(self).cur().exit,
            final(self).cur().world.width == old(self).cur().world.width,
            final(self).cur().world.height == old(self).cur().world.height,
            forall|k: int| 0 <= k < final(self).cur().world.tiles@.len() ==>
                (#[trigger] final(self).cur().world.tiles@[k]).tile_type == old(self).cur().world.tiles@[k].tile_type
                && final(self).cur().world.tiles@[k].explored == old(self).cur().world.tiles@[k].explored
                && (final(self).cur().world.tiles@[k].visible ==> in_sight_range(old(self).player.character.base.pos, k)),
            neighbours_seen(old(self).player.character.base.pos, final(self).cur().world.tiles@),
            walls_hide_lines(old(self).player.character.base.pos, final(self).cur().world.tiles@),
            lines_seen(old(self).player.character.base.pos, final(self).cur().world.tiles@),
            surroundings_seen(old(self).player.character.base.pos, final(self).cur().world.tiles@),
            clear_view_seen(old(self).player.character.base.pos, old(self).cur().world.tiles@,
                final(self).cur().world.tiles@),
            final(self).level_nr == old(self).level_nr,
            final(self).player == old(self).player,
            final(self).cursor == old(self).cursor,
            final(self).log == old(self).log,
            final(self).round_nr == old(self).round_nr,
            final(self).id_system == old(self).id_system,
            final(self).items == old(self).items,
            final(self).rng == old(self).rng,
            final(self).proc_gen == old(self).proc_gen,
            final(self).game_rules == old(self).game_rules,
    {
        let origin = self.player.character.base.pos;
        let ghost before = *self;
        let level = self.current_level_mut();
        compute_fov(origin, &mut level.world);
        proof {
            let l = self.cur();
            assert(l.wf()) by {
                assert forall|i: int| 0 <= i < l.npcs@.len() implies l.world.spec_in_bounds(
                    (#[trigger] l.npcs@[i]).base.pos.x as int, l.npcs@[i].base.pos.y as int) by {
                    assert(before.cur().npcs@[i] == l.npcs@[i]);
                }
                assert forall|i: int| 0 <= i < l.item_sprites@.len() implies l.world.spec_in_bounds(
                    (#[trigger] l.item_sprites@[i]).base.pos.x as int, l.item_sprites@[i].base.pos.y as int) by {
                    assert(before.cur().item_sprites@[i] == l.item_sprites@[i]);
                }
            }
            crate::gameplay::combat::lemma_levels_frame(before, *self);
        }
    }
}

} // verus!
