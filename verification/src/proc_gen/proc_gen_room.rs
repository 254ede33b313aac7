use vstd::prelude::*;

use crate::proc_gen::bsp::MapBSPNode;
use crate::world::coordinate_system::{clamp_at_zero, Point};
use crate::world::worldspace::point_lex_lt;

verus! {

/// Minimum dimensions a room should have after shrinking (walls included).
pub const MIN_ROOM_DIM_SHRUNK: usize = 5;

/// The dimensions of a procedurally generated room: a slimmed down
/// [MapBSPNode], without the data of the partitioning.
#[derive(Clone, Copy, Debug, PartialEq, Eq, Structural)]
pub struct ProcGenRoom {
    /// Point of origin (top left) of the room.
    pub point_a: Point,
    /// Point of the end (bottom right) of the room.
    pub point_b: Point,
}

/// Truncating halving of an integer (rounds towards zero).
pub open spec fn half_towards_zero(n: int) -> int {
    if n >= 0 { n / 2 } else { -((-n) / 2) }
}

/// The centre of the rectangle spanned by `a` and `b`, rounded towards `a`.
pub open spec fn spec_center(a: Point, b: Point) -> Point {
    Point {
        x: clamp_at_zero(a.x + half_towards_zero(b.x - a.x)) as usize,
        y: clamp_at_zero(a.y + half_towards_zero(b.y - a.y)) as usize,
    }
}

/// Whether `q` is a floor point of the room: strictly inside its walls.
pub open spec fn spec_is_floor_point(room: ProcGenRoom, q: Point) -> bool {
    &&& room.point_a.x + 1 <= q.x < room.point_b.x - 1
    &&& room.point_a.y + 1 <= q.y < room.point_b.y - 1
}

/// The wall points of a room: the top and bottom wall column by column
/// (top before bottom), then the left and right wall row by row (left before
/// right). Corners appear twice.
pub open spec fn spec_wall_points(room: ProcGenRoom) -> Seq<Point> {
    horizontal_wall_points(room) + vertical_wall_points(room)
}

/// The top and bottom wall, column by column, top before bottom.
pub open spec fn horizontal_wall_points(room: ProcGenRoom) -> Seq<Point> {
    let left = room.point_a.x as int;
    let right = room.point_b.x as int;
    let nx = if right >= left { right - left + 1 } else { 0 };
    Seq::new((2 * nx) as nat, |k: int| Point {
        x: (left + k / 2) as usize,
        y: if k % 2 == 0 { room.point_a.y } else { room.point_b.y },
    })
}

/// The left and right wall, row by row, left before right.
pub open spec fn vertical_wall_points(room: ProcGenRoom) -> Seq<Point> {
    let top = room.point_a.y as int;
    let bottom = room.point_b.y as int;
    let ny = if bottom >= top { bottom - top + 1 } else { 0 };
    Seq::new((2 * ny) as nat, |k: int| Point {
        x: if k % 2 == 0 { room.point_a.x } else { room.point_b.x },
        y: (top + k / 2) as usize,
    })
}

pub proof fn lemma_halves(m: int)
    requires
        m >= 0,
    ensures
        (2 * m) / 2 == m,
        (2 * m) % 2 == 0,
        (2 * m + 1) / 2 == m,
        (2 * m + 1) % 2 == 1,
{
    vstd::arithmetic::div_mod::lemma_fundamental_div_mod_converse(2 * m, 2, m, 0);
    vstd::arithmetic::div_mod::lemma_fundamental_div_mod_converse(2 * m + 1, 2, m, 1);
}

impl ProcGenRoom {
    pub fn from_node(node: &MapBSPNode) -> (r: Self)
        ensures
            r.point_a == node.point_a,
            r.point_b == node.point_b,
    {
        Self { point_a: node.point_a, point_b: node.point_b }
    }

    /// Returns all points of the room's floor, column by column from left to
    /// right and top to bottom within a column.
    pub fn floor_points(&self) -> (points: Vec<Point>)
        requires
            self.point_b.x >= 1,
            self.point_b.y >= 1,
            self.point_a.x < usize::MAX,
            self.point_a.y < usize::MAX,
        ensures
            forall|q: Point| points@.contains(q) <==> spec_is_floor_point(*self, q),
            forall|i: int, j: int| 0 <= i < j < points.len() ==> point_lex_lt(points@[i], points@[j]),
    {
        let mut points: Vec<Point> = Vec::new();
        let x_start = self.point_a.x + 1;
        let x_end = self.point_b.x - 1;
        let y_start = self.point_a.y + 1;
        let y_end = self.point_b.y - 1;

        let mut x = x_start;
        while x < x_end
            invariant
                x_start == self.point_a.x + 1, x_end == self.point_b.x - 1,
                y_start == self.point_a.y + 1, y_end == self.point_b.y - 1,
                x_start <= x,
                x < x_end || x == x_start || x == x_end,
                forall|q: Point| points@.contains(q) <==> (spec_is_floor_point(*self, q) && q.x < x),
                forall|a: int, b: int| 0 <= a < b < points.len() ==> point_lex_lt(points@[a], points@[b]),
                forall|a: int| 0 <= a < points.len() ==> points@[a].x < x,
            decreases x_end - x,
        {
            let mut y = y_start;
            while y < y_end
                invariant
                    x_start == self.point_a.x + 1, x_end == self.point_b.x - 1,
                    y_start == self.point_a.y + 1, y_end == self.point_b.y - 1,
                    x_start <= x < x_end,
                    y_start <= y,
                    y < y_end || y == y_start || y == y_end,
                    forall|q: Point| points@.contains(q)
                        <==> (spec_is_floor_point(*self, q) && (q.x < x || (q.x == x && q.y < y))),
                    forall|a: int, b: int| 0 <= a < b < points.len() ==> point_lex_lt(points@[a], points@[b]),
                    forall|a: int| 0 <= a < points.len() ==> point_lex_lt(points@[a], Point { x, y }),
                decreases y_end - y,
            {
                let q = Point::new(x, y);
                let ghost before = points@;
                points.push(q);
                proof {
                    assert forall|z: Point| points@.contains(z)
                        <==> (spec_is_floor_point(*self, z) && (z.x < x || (z.x == x && z.y < y + 1))) by {
                        if points@.contains(z) && z != q {
                            let k = choose|k: int| 0 <= k < points.len() && points@[k] == z;
                            assert(before.contains(z));
                        }
                        if z == q {
                            assert(points@[points.len() - 1] == q);
                        } else if spec_is_floor_point(*self, z) && (z.x < x || (z.x == x && z.y < y)) {
                            assert(before.contains(z));
                            let k = choose|k: int| 0 <= k < before.len() && before[k] == z;
                            assert(points@[k] == z);
                        }
                    }
                }
                y = y + 1;
            }
            proof {
                assert forall|q: Point| points@.contains(q) <==> (spec_is_floor_point(*self, q) && q.x < x + 1) by {
                    if spec_is_floor_point(*self, q) && q.x == x {
                        assert(q.y < y);
                    }
                }
            }
            x = x + 1;
        }
        proof {
            assert forall|q: Point| points@.contains(q) <==> spec_is_floor_point(*self, q) by {
                if spec_is_floor_point(*self, q) {
                    assert(q.x < x);
                }
            }
        }
        points
    }

    /// Returns the centre point of the room, rounded towards the origin.
    pub fn center(&self) -> (c: Point)
        requires
            self.point_a.x <= isize::MAX,
            self.point_a.y <= isize::MAX,
            self.point_b.x <= isize::MAX,
            self.point_b.y <= isize::MAX,
        ensures
            c == spec_center(self.point_a, self.point_b),
    {
        let d = self.point_b.sub(self.point_a);
        let hx: isize = if d.x >= 0 { d.x / 2 } else { -((-d.x) / 2) };
        let hy: isize = if d.y >= 0 { d.y / 2 } else { -((-d.y) / 2) };
        let v = crate::world::coordinate_system::PointVector::new(hx, hy);
        self.point_a.add_vector(v)
    }

    /// The four corners of the room, clockwise from the origin.
    pub fn corner_points(&self) -> (points: Vec<Point>)
        ensures
            points@ == seq![
                self.point_a,
                Point { x: self.point_b.x, y: self.point_a.y },
                self.point_b,
                Point { x: self.point_a.x, y: self.point_b.y },
            ],
    {
        vec![
            self.point_a,
            Point::new(self.point_b.x, self.point_a.y),
            self.point_b,
            Point::new(self.point_a.x, self.point_b.y),
        ]
    }

    /// Returns all points that make up the room's walls (see [spec_wall_points]).
    pub fn wall_points(&self) -> (points: Vec<Point>)
        ensures
            points@ == spec_wall_points(*self),
    {
        let mut points: Vec<Point> = Vec::new();

        let top = self.point_a.y;
        let right = self.point_b.x;
        let bottom = self.point_b.y;
        let left = self.point_a.x;
        let ghost nx: int = if right >= left { right - left + 1 } else { 0 };
        let ghost ny: int = if bottom >= top { bottom - top + 1 } else { 0 };
        let ghost first = horizontal_wall_points(*self);
        let ghost second = vertical_wall_points(*self);

        if left <= right {
            let mut x = left;
            loop
                invariant_except_break
                    points@ == first.take(2 * (x - left)),
                invariant
                    left <= x <= right,
                    first == horizontal_wall_points(*self),
                    left == self.point_a.x, right == self.point_b.x, top == self.point_a.y, bottom == self.point_b.y,
                    nx == right - left + 1,
                    first.len() == 2 * nx,
                ensures
                    points@ == first,
                decreases right - x,
            {
                points.push(Point::new(x, top));
                points.push(Point::new(x, bottom));
                proof {
                    let k = 2 * (x - left);
                    lemma_halves(x - left);
                    assert(first[k] == Point { x, y: top });
                    assert(first[k + 1] == Point { x, y: bottom });
                    assert(points@ =~= first.take(2 * (x - left) + 2));
                }
                if x == right {
                    assert(points@ =~= first);
                    break;
                }
                x = x + 1;
            }
            proof {
                assert(points@ =~= first);
            }
        } else {
            proof {
                assert(points@ =~= first);
            }
        }

        if top <= bottom {
            let mut y = top;
            loop
                invariant_except_break
                    points@ == first + second.take(2 * (y - top)),
                invariant
                    top <= y <= bottom,
                    second == vertical_wall_points(*self),
                    left == self.point_a.x, right == self.point_b.x, top == self.point_a.y, bottom == self.point_b.y,
                    ny == bottom - top + 1,
                    second.len() == 2 * ny,
                ensures
                    points@ == first + second,
                decreases bottom - y,
            {
                points.push(Point::new(left, y));
                points.push(Point::new(right, y));
                proof {
                    let k = 2 * (y - top);
                    lemma_halves(y - top);
                    assert(second[k] == Point { x: left, y });
                    assert(second[k + 1] == Point { x: right, y });
                    assert(points@ =~= first + second.take(2 * (y - top) + 2));
                }
                if y == bottom {
                    assert(points@ =~= first + second);
                    break;
                }
                y = y + 1;
            }
            proof {
                assert(second.take(2 * ny) =~= second);
            }
        } else {
            proof {
                assert(points@ =~= first + second);
            }
        }
        points
    }
}

} // verus!
