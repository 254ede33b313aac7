use vstd::prelude::*;

verus! {

/// Basic coordinate point in the coordinate system.
///
/// `usize` coordinates make negative positions unrepresentable.
/// Together with [PointVector] it forms a whole-number vector space:
/// `Point + PointVector -> Point` and `Point - Point -> PointVector`.
#[derive(Clone, Copy, Debug, PartialEq, Eq, Structural, Hash, Default)]
pub struct Point {
    pub x: usize,
    pub y: usize,
}

/// A displacement between two [Point]s.
#[derive(Clone, Copy, Debug, PartialEq, Eq, Structural)]
pub struct PointVector {
    pub x: isize,
    pub y: isize,
}

/// The four cardinal directions.
#[derive(Clone, Copy, Debug, PartialEq, Eq, Structural)]
pub enum Direction {
    Up,
    Right,
    Down,
    Left,
}

/// Clamps an integer at zero from below.
pub open spec fn clamp_at_zero(v: int) -> int {
    if v < 0 { 0 } else { v }
}

/// The point reached by following `v` from `p`, clamped at the axes.
pub open spec fn spec_add_vector(p: Point, v: PointVector) -> Point {
    Point { x: clamp_at_zero(p.x + v.x) as usize, y: clamp_at_zero(p.y + v.y) as usize }
}

/// The unit step of a direction (y grows downwards).
pub open spec fn spec_direction_vector(d: Direction) -> PointVector {
    match d {
        Direction::Up => PointVector { x: 0, y: -1isize },
        Direction::Right => PointVector { x: 1, y: 0 },
        Direction::Down => PointVector { x: 0, y: 1 },
        Direction::Left => PointVector { x: -1isize, y: 0 },
    }
}

/// Squared euclidean distance between two points.
pub open spec fn spec_distance_squared(a: Point, b: Point) -> int {
    (a.x - b.x) * (a.x - b.x) + (a.y - b.y) * (a.y - b.y)
}

/// Whether a point can take part in signed arithmetic without overflow.
pub open spec fn point_fits_isize(p: Point) -> bool {
    p.x < isize::MAX && p.y < isize::MAX
}

/// Whether two points are orthogonal neighbours.
pub open spec fn adjacent(a: Point, b: Point) -> bool {
    (a.x == b.x && (a.y == b.y + 1 || b.y == a.y + 1))
    || (a.y == b.y && (a.x == b.x + 1 || b.x == a.x + 1))
}

impl Point {
    pub fn new(x: usize, y: usize) -> (p: Self)
        ensures
            p.x == x,
            p.y == y,
    {
        Self { x, y }
    }

    /// Adds a vector to the point. Negative results are clamped at `0`,
    /// because negative positions are not representable.
    pub fn add_vector(self, vector: PointVector) -> (p: Point)
        requires
            self.x + vector.x <= isize::MAX,
            self.y + vector.y <= isize::MAX,
            self.x <= isize::MAX,
            self.y <= isize::MAX,
        ensures
            p == spec_add_vector(self, vector),
    {
        let new_x = self.x as isize + vector.x;
        let new_y = self.y as isize + vector.y;
        let cx: isize = if new_x < 0 { 0 } else { new_x };
        let cy: isize = if new_y < 0 { 0 } else { new_y };
        Point { x: cx as usize, y: cy as usize }
    }

    /// The neighbouring point in the given direction (clamped at the axes).
    pub fn add_direction(self, direction: Direction) -> (p: Point)
        requires
            point_fits_isize(self),
        ensures
            p == spec_add_vector(self, spec_direction_vector(direction)),
    {
        self.add_vector(PointVector::from_direction(direction))
    }

    /// Retrieves the neighbouring coordinates in the given [Direction].
    pub fn get_adjacent(self, direction: Direction) -> (p: Point)
        requires
            point_fits_isize(self),
        ensures
            p == spec_add_vector(self, spec_direction_vector(direction)),
    {
        self.add_direction(direction)
    }

    /// The displacement from `other` to `self`.
    pub fn sub(self, other: Point) -> (v: PointVector)
        requires
            self.x <= isize::MAX,
            self.y <= isize::MAX,
            other.x <= isize::MAX,
            other.y <= isize::MAX,
        ensures
            v.x == self.x - other.x,
            v.y == self.y - other.y,
    {
        let new_x = self.x as isize - other.x as isize;
        let new_y = self.y as isize - other.y as isize;
        PointVector::new(new_x, new_y)
    }

    /// Squared euclidean distance to another point (`a^2 + b^2`); the square
    /// root is not needed for comparisons.
    pub fn distance_squared_from(&self, other: Point) -> (d: usize)
        requires
            spec_distance_squared(*self, other) <= isize::MAX,
            self.x <= isize::MAX,
            self.y <= isize::MAX,
            other.x <= isize::MAX,
            other.y <= isize::MAX,
        ensures
            d == spec_distance_squared(*self, other),
    {
        let delta = self.sub(other);
        let l = delta.length_squared();
        l as usize
    }
}

impl PointVector {
    pub fn new(x: isize, y: isize) -> (v: Self)
        ensures
            v.x == x,
            v.y == y,
    {
        Self { x, y }
    }

    /// Squared length `x^2 + y^2` of the vector.
    pub fn length_squared(&self) -> (l: isize)
        requires
            self.x * self.x + self.y * self.y <= isize::MAX,
        ensures
            l == self.x * self.x + self.y * self.y,
            l >= 0,
    {
        proof {
            assert(0 <= self.x * self.x) by (nonlinear_arith);
            assert(0 <= self.y * self.y) by (nonlinear_arith);
        }
        self.x * self.x + self.y * self.y
    }

    /// The unit step of a direction.
    pub fn from_direction(direction: Direction) -> (v: PointVector)
        ensures
            v == spec_direction_vector(direction),
    {
        match direction {
            Direction::Up => PointVector { x: 0, y: -1 },
            Direction::Right => PointVector { x: 1, y: 0 },
            Direction::Down => PointVector { x: 0, y: 1 },
            Direction::Left => PointVector { x: -1, y: 0 },
        }
    }

    /// The cardinal direction a unit vector points in; only the four unit
    /// vectors have one.
    pub fn to_direction(&self) -> (r: Result<Direction, &'static str>)
        ensures
            r matches Ok(d) ==> spec_direction_vector(d) == *self,
            r is Err <==> !(exists|d: Direction| spec_direction_vector(d) == *self),
    {
        if self.x == 0 && self.y == -1 {
            assert(spec_direction_vector(Direction::Up) == *self);
            Ok(Direction::Up)
        } else if self.x == 1 && self.y == 0 {
            assert(spec_direction_vector(Direction::Right) == *self);
            Ok(Direction::Right)
        } else if self.x == 0 && self.y == 1 {
            assert(spec_direction_vector(Direction::Down) == *self);
            Ok(Direction::Down)
        } else if self.x == -1 && self.y == 0 {
            assert(spec_direction_vector(Direction::Left) == *self);
            Ok(Direction::Left)
        } else {
            proof {
                assert forall|d: Direction| spec_direction_vector(d) != *self by {
                    match d {
                        Direction::Up => {},
                        Direction::Right => {},
                        Direction::Down => {},
                        Direction::Left => {},
                    }
                }
            }
            Err("Can't coerce PointVector into a cardinal direction")
        }
    }
}

impl Direction {
    /// All four directions in the order Up, Right, Down, Left.
    pub fn all() -> (v: Vec<Direction>)
        ensures
            v@ == seq![Direction::Up, Direction::Right, Direction::Down, Direction::Left],
    {
        vec![Direction::Up, Direction::Right, Direction::Down, Direction::Left]
    }

    /// The direction numbered `n` by the order Up, Right, Down, Left; every
    /// number from 3 on gives Left.
    pub fn from_index(n: i32) -> (d: Direction)
        ensures
            n == 0 ==> d == Direction::Up,
            n == 1 ==> d == Direction::Right,
            n == 2 ==> d == Direction::Down,
            (n < 0 || n > 2) ==> d == Direction::Left,
    {
        match n {
            0 => Direction::Up,
            1 => Direction::Right,
            2 => Direction::Down,
            _ => Direction::Left,
        }
    }
}

} // verus!
