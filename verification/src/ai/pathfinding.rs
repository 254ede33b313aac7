use vstd::prelude::*;

use crate::world::coordinate_system::{
    adjacent, point_fits_isize, spec_add_vector, spec_direction_vector, spec_distance_squared,
    Direction, Point,
};
use crate::world::worldspace::{WORLD_HEIGHT, WORLD_WIDTH};
use crate::ai::path_cost::{
    costs_at_least_one, deterministic_costs, lemma_heuristic_admissible, lemma_prefix_ends, lemma_prefix_step,
    lemma_step_cost, path_cost, prefix_cost, step_cost, valid_path,
};

verus! {

/// Max iterations the A* algorithm is allowed to run: the number of tiles
/// of the world, so that every tile can be checked at least once.
pub const MAX_ITERS: usize = WORLD_HEIGHT * WORLD_WIDTH;

/// The largest cost a single step may have.
pub const MAX_STEP_COST: usize = 100_000;

/// The largest coordinate A* accepts for its start and goal.
pub const MAX_COORD: usize = 10_000;

/// Heuristic for A*: the Manhattan distance, the least number of steps
/// between two points. With steps that cost at least 1 it never overestimates
/// the cost of the rest of the way.
pub open spec fn spec_heuristic(a: Point, b: Point) -> int {
    (if a.x >= b.x { a.x - b.x } else { b.x - a.x }) + (if a.y >= b.y { a.y - b.y } else { b.y - a.y })
}

/// Heuristic for A*: the Manhattan distance between two points.
pub fn heuristic(a: Point, b: Point) -> (h: usize)
    requires
        a.x <= 2 * MAX_COORD + MAX_ITERS,
        a.y <= 2 * MAX_COORD + MAX_ITERS,
        b.x <= 2 * MAX_COORD + MAX_ITERS,
        b.y <= 2 * MAX_COORD + MAX_ITERS,
    ensures
        h == spec_heuristic(a, b),
        h <= 1_100_000_000,
{
    let dx = if a.x >= b.x { a.x - b.x } else { b.x - a.x };
    let dy = if a.y >= b.y { a.y - b.y } else { b.y - a.y };
    dx + dy
}

/// Squared distance between two points of bounded coordinates.
pub proof fn lemma_distance_bound(a: Point, b: Point, m: int)
    requires
        m >= 0,
        a.x <= m, a.y <= m, b.x <= m, b.y <= m,
    ensures
        0 <= spec_distance_squared(a, b) <= 2 * (m * m),
{
    let dx = a.x - b.x;
    let dy = a.y - b.y;
    assert(dx * dx <= m * m) by (nonlinear_arith) requires -m <= dx <= m;
    assert(dy * dy <= m * m) by (nonlinear_arith) requires -m <= dy <= m;
    assert(0 <= dx * dx) by (nonlinear_arith);
    assert(0 <= dy * dy) by (nonlinear_arith);
}

/// The points passed on the way from `p` along the row to column `gx`,
/// not counting `p` itself.
pub open spec fn horizontal_steps(p: Point, gx: int) -> Seq<Point> {
    let n = if gx >= p.x { gx - p.x } else { p.x - gx };
    Seq::new(n as nat, |k: int| Point {
        x: (if p.x < gx { p.x + k + 1 } else { p.x - k - 1 }) as usize,
        y: p.y,
    })
}

/// The points passed on the way from `p` along the column to row `gy`,
/// not counting `p` itself.
pub open spec fn vertical_steps(p: Point, gy: int) -> Seq<Point> {
    let n = if gy >= p.y { gy - p.y } else { p.y - gy };
    Seq::new(n as nat, |k: int| Point {
        x: p.x,
        y: (if p.y < gy { p.y + k + 1 } else { p.y - k - 1 }) as usize,
    })
}

/// The path of the naive pathfinding: straight along one axis, then along
/// the other; horizontal first when the start column is even.
pub open spec fn spec_naive_path(start: Point, goal: Point) -> Seq<Point> {
    if start.x % 2 == 0 {
        seq![start] + horizontal_steps(start, goal.x as int)
            + vertical_steps(Point { x: goal.x, y: start.y }, goal.y as int)
    } else {
        seq![start] + vertical_steps(start, goal.y as int)
            + horizontal_steps(Point { x: start.x, y: goal.y }, goal.x as int)
    }
}

/// Whether consecutive points of the path are orthogonal neighbours.
pub open spec fn is_step_path(path: Seq<Point>) -> bool {
    forall|k: int| 0 <= k < path.len() - 1 ==> #[trigger] adjacent(path[k], path[k + 1])
}

/// Walks along the row to the goal's column, appending every point passed.
pub fn continue_horizontal_path(current_point: &mut Point, goal: Point, path: &mut Vec<Point>)
    requires
        point_fits_isize(*old(current_point)),
        goal.x < isize::MAX,
    ensures
        *final(current_point) == (Point { x: goal.x, y: old(current_point).y }),
        final(path)@ == old(path)@ + horizontal_steps(*old(current_point), goal.x as int),
{
    let ghost p0 = *current_point;
    let ghost base = path@;
    while current_point.x != goal.x
        invariant
            current_point.y == p0.y,
            point_fits_isize(*current_point),
            goal.x < isize::MAX,
            p0.x <= current_point.x <= goal.x || goal.x <= current_point.x <= p0.x,
            path@ == base + horizontal_steps(p0, current_point.x as int),
        decreases if current_point.x < goal.x { goal.x - current_point.x } else { current_point.x - goal.x },
    {
        let direction = if current_point.x < goal.x { Direction::Right } else { Direction::Left };
        let ghost before = *current_point;
        *current_point = current_point.add_direction(direction);
        path.push(*current_point);
        proof {
            assert(spec_add_vector(before, spec_direction_vector(direction)) == *current_point);
            assert(horizontal_steps(p0, current_point.x as int) =~= horizontal_steps(p0, before.x as int).push(*current_point));
        }
    }
}

/// Walks along the column to the goal's row, appending every point passed.
pub fn continue_vertical_path(current_point: &mut Point, goal: Point, path: &mut Vec<Point>)
    requires
        point_fits_isize(*old(current_point)),
        goal.y < isize::MAX,
    ensures
        *final(current_point) == (Point { x: old(current_point).x, y: goal.y }),
        final(path)@ == old(path)@ + vertical_steps(*old(current_point), goal.y as int),
{
    let ghost p0 = *current_point;
    let ghost base = path@;
    while current_point.y != goal.y
        invariant
            current_point.x == p0.x,
            point_fits_isize(*current_point),
            goal.y < isize::MAX,
            p0.y <= current_point.y <= goal.y || goal.y <= current_point.y <= p0.y,
            path@ == base + vertical_steps(p0, current_point.y as int),
        decreases if current_point.y < goal.y { goal.y - current_point.y } else { current_point.y - goal.y },
    {
        let direction = if current_point.y < goal.y { Direction::Down } else { Direction::Up };
        let ghost before = *current_point;
        *current_point = current_point.add_direction(direction);
        path.push(*current_point);
        proof {
            assert(spec_add_vector(before, spec_direction_vector(direction)) == *current_point);
            assert(vertical_steps(p0, current_point.y as int) =~= vertical_steps(p0, before.y as int).push(*current_point));
        }
    }
}

/// A straight walk and its continuation form a step path.
pub proof fn lemma_steps_are_step_path(start: Point, goal: Point)
    ensures
        is_step_path(spec_naive_path(start, goal)),
        spec_naive_path(start, goal)[0] == start,
        spec_naive_path(start, goal).last() == goal,
        spec_naive_path(start, goal).len() == 1 + (if goal.x >= start.x { goal.x - start.x } else { start.x - goal.x })
            + (if goal.y >= start.y { goal.y - start.y } else { start.y - goal.y }),
{
    let p = spec_naive_path(start, goal);
    if start.x % 2 == 0 {
        let mid = Point { x: goal.x, y: start.y };
        let h = horizontal_steps(start, goal.x as int);
        let v = vertical_steps(mid, goal.y as int);
        assert forall|k: int| 0 <= k < p.len() - 1 implies #[trigger] adjacent(p[k], p[k + 1]) by {
            if k == 0 {
                if h.len() > 0 {
                    assert(p[1] == h[0]);
                } else {
                    assert(start.x == goal.x);
                    assert(p[1] == v[0]);
                }
            } else if k < h.len() {
                assert(p[k] == h[k - 1]);
                if k < h.len() {
                    if k + 1 <= h.len() - 1 + 1 && k < h.len() {
                        if k + 1 - 1 < h.len() {
                            assert(p[k + 1] == (if k + 1 <= h.len() { h[k] } else { v[0] }));
                        }
                    }
                }
            } else {
                if k == h.len() {
                    assert(p[k + 1] == v[0]);
                    if h.len() > 0 {
                        assert(p[k] == h[h.len() - 1]);
                    }
                } else {
                    assert(p[k] == v[k - h.len() - 1]);
                    assert(p[k + 1] == v[k - h.len()]);
                }
            }
        }
        if v.len() == 0 {
            if h.len() > 0 {
                assert(p.last() == h[h.len() - 1]);
            }
        } else {
            assert(p.last() == v[v.len() - 1]);
        }
    } else {
        let mid = Point { x: start.x, y: goal.y };
        let v = vertical_steps(start, goal.y as int);
        let h = horizontal_steps(mid, goal.x as int);
        assert forall|k: int| 0 <= k < p.len() - 1 implies #[trigger] adjacent(p[k], p[k + 1]) by {
            if k == 0 {
                if v.len() > 0 {
                    assert(p[1] == v[0]);
                } else {
                    assert(p[1] == h[0]);
                }
            } else if k < v.len() {
                assert(p[k] == v[k - 1]);
                assert(p[k + 1] == v[k]);
            } else {
                if k == v.len() {
                    assert(p[k + 1] == h[0]);
                    if v.len() > 0 {
                        assert(p[k] == v[v.len() - 1]);
                    }
                } else {
                    assert(p[k] == h[k - v.len() - 1]);
                    assert(p[k + 1] == h[k - v.len()]);
                }
            }
        }
        if h.len() == 0 {
            if v.len() > 0 {
                assert(p.last() == v[v.len() - 1]);
            }
        } else {
            assert(p.last() == h[h.len() - 1]);
        }
    }
}

/// Pathfinding by driving the "taxi driver" route: along one axis, then the
/// other. Horizontal comes first when the start column is even, so that half
/// the paths start each way without a random generator.
///
/// The path starts at `start`, ends at `goal`, moves one orthogonal step at
/// a time and is as long as the Manhattan distance (plus the start).
pub fn pathfinding_naive(start: Point, goal: Point) -> (path: Vec<Point>)
    requires
        point_fits_isize(start),
        point_fits_isize(goal),
    ensures
        path@ == spec_naive_path(start, goal),
        path@[0] == start,
        path@.last() == goal,
        is_step_path(path@),
        path@.len() == 1 + (if goal.x >= start.x { goal.x - start.x } else { start.x - goal.x })
            + (if goal.y >= start.y { goal.y - start.y } else { start.y - goal.y }),
{
    let mut path: Vec<Point> = vec![start];
    let mut current_point = start;

    let horizontal_first = start.x % 2 == 0;

    if horizontal_first {
        continue_horizontal_path(&mut current_point, goal, &mut path);
        continue_vertical_path(&mut current_point, goal, &mut path);
    } else {
        continue_vertical_path(&mut current_point, goal, &mut path);
        continue_horizontal_path(&mut current_point, goal, &mut path);
    }
    proof {
        assert(path@ =~= spec_naive_path(start, goal));
        lemma_steps_are_step_path(start, goal);
    }
    path
}


/// One entry of the A* open list.
#[derive(Clone, Copy)]
struct AStarNode {
    /// Coordinates of the step.
    point: Point,
    /// Cost of the path from the start to this step.
    g: usize,
    /// Heuristic distance from this step to the goal.
    h: usize,
}

/// The best known way to reach a point: its cost and the point it is
/// reached from (`None` for the start).
#[derive(Clone, Copy)]
struct BestKnown {
    point: Point,
    g: usize,
    parent: Option<Point>,
    /// When the entry was last set, on a clock that only moves forward.
    stamp: Ghost<nat>,
}

/// Whether some entry of the table is about `p`.
spec fn has_key(table: Seq<BestKnown>, p: Point) -> bool {
    exists|i: int| 0 <= i < table.len() && #[trigger] table[i].point == p
}

/// The index of the entry about `p`.
spec fn key_index(table: Seq<BestKnown>, p: Point) -> int {
    choose|i: int| 0 <= i < table.len() && #[trigger] table[i].point == p
}

/// Whether the cost function was seen to allow stepping onto `p`.
pub open spec fn step_allowed<F: Fn(Point) -> Option<usize>>(cost: F, p: Point) -> bool {
    exists|c: usize| #[trigger] call_ensures(cost, (p,), Some(c))
}

/// A point reachable within `iters` expansions from a start no further out
/// than `MAX_COORD`.
spec fn point_in_range(p: Point, iters: int) -> bool {
    p.x <= MAX_COORD + iters && p.y <= MAX_COORD + iters
}

spec fn table_ok<F: Fn(Point) -> Option<usize>>(table: Seq<BestKnown>, start: Point, cost: F, iters: int) -> bool {
    &&& forall|i: int, j: int| 0 <= i < j < table.len() ==> table[i].point != table[j].point
    &&& forall|i: int| 0 <= i < table.len() ==> ((#[trigger] table[i]).parent is None <==> table[i].point == start)
    &&& forall|i: int| 0 <= i < table.len() && (#[trigger] table[i]).point == start ==> table[i].g == 0
    &&& forall|i: int| 0 <= i < table.len() ==> ((#[trigger] table[i]).parent matches Some(q) ==> {
            &&& adjacent(q, table[i].point)
            &&& has_key(table, q)
            &&& step_allowed(cost, table[i].point)
        })
    &&& forall|i: int| 0 <= i < table.len() ==> point_in_range((#[trigger] table[i]).point, iters)
        && table[i].g <= iters * MAX_STEP_COST
    &&& has_key(table, start)
}

/// Following a recorded predecessor leads to an entry that is cheaper, or as
/// cheap and set earlier; so the predecessors never lead round in a circle.
#[verifier::opaque]
spec fn parents_ordered(table: Seq<BestKnown>) -> bool {
    forall|i: int| 0 <= i < table.len() ==> ((#[trigger] table[i]).parent matches Some(q) ==> {
        let u = table[key_index(table, q)];
        u.g < table[i].g || (u.g == table[i].g && u.stamp@ < table[i].stamp@)
    })
}

/// Costs that are answered alike each time, or that are 1 for every
/// allowed step: either way the cost of an allowed step is the one answered.
pub open spec fn consistent_costs<F: Fn(Point) -> Option<usize>>(cost: F) -> bool {
    deterministic_costs(cost) || unit_costs(cost)
}

/// With consistent costs, the cost of a step is what `cost` answered.
proof fn lemma_consistent_step_cost<F: Fn(Point) -> Option<usize>>(cost: F, p: Point, c: usize)
    requires
        consistent_costs(cost),
        call_ensures(cost, (p,), Some(c)),
    ensures
        step_cost(cost, p) == c,
{
    if deterministic_costs(cost) {
        lemma_step_cost(cost, p, c);
    } else {
        let d = choose|d: usize| call_ensures(cost, (p,), Some(d));
        assert(call_ensures(cost, (p,), Some(d)));
    }
}

/// Where every allowed step costs 1, a way costs its number of steps.
proof fn lemma_unit_path_cost<F: Fn(Point) -> Option<usize>>(cost: F, path: Seq<Point>)
    requires
        unit_costs(cost),
        path.len() >= 1,
        forall|k: int| 1 <= k < path.len() ==> step_allowed(cost, #[trigger] path[k]),
    ensures
        path_cost(cost, path) == path.len() - 1,
    decreases path.len(),
{
    if path.len() > 1 {
        let d = path.drop_last();
        assert forall|k: int| 1 <= k < d.len() implies step_allowed(cost, #[trigger] d[k]) by {
            assert(d[k] == path[k]);
        }
        lemma_unit_path_cost(cost, d);
        let m = path.len() - 1;
        assert(step_allowed(cost, path[m]));
        let c = choose|c: usize| #[trigger] call_ensures(cost, (path[m],), Some(c));
        let e = choose|e: usize| call_ensures(cost, (path.last(),), Some(e));
        assert(call_ensures(cost, (path.last(),), Some(e)));
    }
}

/// Where costs are consistent, an entry costs at least its predecessor's
/// entry plus the step onto its point.
spec fn costs_chain<F: Fn(Point) -> Option<usize>>(cost: F, table: Seq<BestKnown>) -> bool {
    consistent_costs(cost) ==> forall|i: int| 0 <= i < table.len() ==> ((#[trigger] table[i]).parent matches Some(q) ==>
        table[i].g >= table[key_index(table, q)].g + step_cost(cost, table[i].point))
}

/// The entry of `p` is dearer than that of `q`, or as dear and set later.
spec fn entry_above(table: Seq<BestKnown>, p: Point, q: Point) -> bool {
    let e = table[key_index(table, p)];
    let f = table[key_index(table, q)];
    e.g > f.g || (e.g == f.g && e.stamp@ > f.stamp@)
}

/// Every entry was set before `clock`.
spec fn stamps_below(table: Seq<BestKnown>, clock: nat) -> bool {
    forall|i: int| 0 <= i < table.len() ==> (#[trigger] table[i]).stamp@ < clock
}

spec fn open_ok(open: Seq<AStarNode>, table: Seq<BestKnown>, iters: int) -> bool {
    forall|i: int| 0 <= i < open.len() ==> {
        let n = #[trigger] open[i];
        &&& has_key(table, n.point)
        &&& n.g >= table[key_index(table, n.point)].g
        &&& point_in_range(n.point, iters)
        &&& n.g <= iters * MAX_STEP_COST
        &&& n.h <= 1_100_000_000
    }
}

/// Some expanded node at `p` was reached for at most `c`.
spec fn settled(expanded: Seq<AStarNode>, p: Point, c: int) -> bool {
    exists|i: int| 0 <= i < expanded.len() && (#[trigger] expanded[i]).point == p && expanded[i].g <= c
}

/// Some open node at `p` was reached for at most `c`.
spec fn opened(open: Seq<AStarNode>, p: Point, c: int) -> bool {
    exists|i: int| 0 <= i < open.len() && (#[trigger] open[i]).point == p && open[i].g <= c
}

/// Along every way from the start, each point after a settled one (and the
/// start itself) is settled or open for at most what the way costs up to it.
#[verifier::opaque]
spec fn frontier<F: Fn(Point) -> Option<usize>>(cost: F, start: Point, expanded: Seq<AStarNode>, open: Seq<AStarNode>) -> bool {
    forall|path: Seq<Point>, j: int| valid_path(cost, path, start) && 0 <= j < path.len()
        && (j == 0 || settled(expanded, path[j - 1], prefix_cost(cost, path, j - 1)))
        ==> settled(expanded, path[j], #[trigger] prefix_cost(cost, path, j)) || opened(open, path[j], prefix_cost(cost, path, j))
}

/// The frontier while `current` is being expanded: its first `n` neighbours
/// are done.
#[verifier::opaque]
spec fn frontier_partial<F: Fn(Point) -> Option<usize>>(
    cost: F,
    start: Point,
    expanded_old: Seq<AStarNode>,
    current: AStarNode,
    n: int,
    expanded: Seq<AStarNode>,
    open: Seq<AStarNode>,
) -> bool {
    forall|path: Seq<Point>, j: int| valid_path(cost, path, start) && 0 <= j < path.len()
        && (j == 0 || settled(expanded_old, path[j - 1], prefix_cost(cost, path, j - 1))
            || (path[j - 1] == current.point && current.g <= prefix_cost(cost, path, j - 1)
                && exists|k: int| 0 <= k < n && spec_neighbor(current.point, k) == path[j]))
        ==> settled(expanded, path[j], #[trigger] prefix_cost(cost, path, j)) || opened(open, path[j], prefix_cost(cost, path, j))
}

/// Every entry of the table has an open node of its cost, or was expanded
/// for no more.
#[verifier::opaque]
spec fn witnessed(table: Seq<BestKnown>, expanded: Seq<AStarNode>, open: Seq<AStarNode>) -> bool {
    forall|i: int| 0 <= i < table.len() ==> opened(open, (#[trigger] table[i]).point, table[i].g as int)
        || settled(expanded, table[i].point, table[i].g as int)
}

/// Every open node carries the heuristic of its point.
spec fn heuristic_exact(open: Seq<AStarNode>, goal: Point) -> bool {
    forall|i: int| 0 <= i < open.len() ==> (#[trigger] open[i]).h == spec_heuristic(open[i].point, goal)
}

/// No expanded node is at the goal.
spec fn goal_unexpanded(expanded: Seq<AStarNode>, goal: Point) -> bool {
    forall|i: int| 0 <= i < expanded.len() ==> (#[trigger] expanded[i]).point != goal
}

/// At the start the frontier is the start alone.
proof fn lemma_frontier_init<F: Fn(Point) -> Option<usize>>(cost: F, start: Point, open: Seq<AStarNode>)
    requires
        open.len() == 1,
        open[0].point == start,
        open[0].g == 0,
    ensures
        frontier(cost, start, Seq::<AStarNode>::empty(), open),
{
    reveal(frontier);
    assert forall|path: Seq<Point>, j: int| valid_path(cost, path, start) && 0 <= j < path.len()
        && (j == 0 || settled(Seq::<AStarNode>::empty(), path[j - 1], prefix_cost(cost, path, j - 1)))
        implies settled(Seq::<AStarNode>::empty(), path[j], #[trigger] prefix_cost(cost, path, j))
            || opened(open, path[j], prefix_cost(cost, path, j)) by {
        lemma_prefix_ends(cost, path);
        if j == 0 {
            assert(open[0].point == path[0]);
        }
    }
}

/// At the start the step-counted frontier is the start alone.
proof fn lemma_frontier_init_u<F: Fn(Point) -> Option<usize>>(cost: F, start: Point, open: Seq<AStarNode>)
    requires
        open.len() == 1,
        open[0].point == start,
        open[0].g == 0,
    ensures
        frontier_u(cost, start, Seq::<AStarNode>::empty(), open),
{
    reveal(frontier_u);
    assert forall|path: Seq<Point>, j: int| unrefused_path(cost, path, start) && 0 <= j < path.len()
        && (j == 0 || settled(Seq::<AStarNode>::empty(), path[j - 1], j - 1))
        implies settled(Seq::<AStarNode>::empty(), path[j], #[trigger] steps_to(path, j))
            || opened(open, path[j], steps_to(path, j)) by {
        if j == 0 {
            assert(open[0].point == path[0]);
        }
    }
}

/// Taking `current` out of the open list and counting it as expanded keeps
/// the frontier, with no neighbour of it done yet.
proof fn lemma_after_pop<F: Fn(Point) -> Option<usize>>(
    cost: F,
    start: Point,
    goal: Point,
    expanded: Seq<AStarNode>,
    open: Seq<AStarNode>,
    idx: int,
    table: Seq<BestKnown>,
)
    requires
        0 <= idx < open.len(),
        deterministic_costs(cost) ==> frontier(cost, start, expanded, open),
        unit_costs(cost) ==> frontier_u(cost, start, expanded, open),
        witnessed(table, expanded, open),
        heuristic_exact(open, goal),
    ensures
        deterministic_costs(cost) ==> frontier_partial(cost, start, expanded, open[idx], 0, expanded.push(open[idx]), open.remove(idx)),
        unit_costs(cost) ==> frontier_partial_u(cost, start, expanded, open[idx], 0, expanded.push(open[idx]), open.remove(idx)),
        witnessed(table, expanded.push(open[idx]), open.remove(idx)),
        heuristic_exact(open.remove(idx), goal),
{
    reveal(frontier);
    reveal(frontier_u);
    reveal(frontier_partial);
    reveal(frontier_partial_u);
    reveal(witnessed);
    let current = open[idx];
    let e2 = expanded.push(current);
    let o2 = open.remove(idx);
    assert forall|i: int| 0 <= i < o2.len() implies (#[trigger] o2[i]).h == spec_heuristic(o2[i].point, goal) by {
        if i < idx {
            assert(o2[i] == open[i]);
        } else {
            assert(o2[i] == open[i + 1]);
        }
    }
    lemma_pop_moves(expanded, open, idx);
    assert forall|i: int| 0 <= i < table.len() implies opened(o2, (#[trigger] table[i]).point, table[i].g as int)
        || settled(e2, table[i].point, table[i].g as int) by {
        assert(opened(open, table[i].point, table[i].g as int) || settled(expanded, table[i].point, table[i].g as int));
    }
    if deterministic_costs(cost) {
        lemma_pop_keeps(cost, start, expanded, open, idx, table);
    }
    if unit_costs(cost) {
        assert forall|path: Seq<Point>, j: int| unrefused_path(cost, path, start) && 0 <= j < path.len()
            && (j == 0 || settled(expanded, path[j - 1], j - 1)
                || (path[j - 1] == current.point && current.g <= j - 1
                    && exists|k: int| 0 <= k < 0 && spec_neighbor(current.point, k) == path[j]))
            implies settled(e2, path[j], #[trigger] steps_to(path, j)) || opened(o2, path[j], steps_to(path, j)) by {
            assert(settled(expanded, path[j], steps_to(path, j)) || opened(open, path[j], steps_to(path, j)));
        }
    }
}

/// Moving `open[idx]` to the expanded nodes keeps whatever was settled or
/// open settled or open.
proof fn lemma_pop_moves(expanded: Seq<AStarNode>, open: Seq<AStarNode>, idx: int)
    requires
        0 <= idx < open.len(),
    ensures
        forall|p: Point, c: int| opened(open, p, c) ==> opened(open.remove(idx), p, c) || settled(expanded.push(open[idx]), p, c),
        forall|p: Point, c: int| settled(expanded, p, c) ==> settled(expanded.push(open[idx]), p, c),
{
    let current = open[idx];
    let e2 = expanded.push(current);
    let o2 = open.remove(idx);
    assert forall|p: Point, c: int| opened(open, p, c) implies opened(o2, p, c) || settled(e2, p, c) by {
        let i = choose|i: int| 0 <= i < open.len() && (#[trigger] open[i]).point == p && open[i].g <= c;
        if i == idx {
            assert(e2[expanded.len() as int] == current);
        } else if i < idx {
            assert(o2[i] == open[i]);
        } else {
            assert(o2[i - 1] == open[i]);
        }
    }
    assert forall|p: Point, c: int| settled(expanded, p, c) implies settled(e2, p, c) by {
        let i = choose|i: int| 0 <= i < expanded.len() && (#[trigger] expanded[i]).point == p && expanded[i].g <= c;
        assert(e2[i] == expanded[i]);
    }
}

/// Taking `current` out keeps frontier and witnesses, with `current`
/// counted as expanded.
proof fn lemma_pop_keeps<F: Fn(Point) -> Option<usize>>(
    cost: F,
    start: Point,
    expanded: Seq<AStarNode>,
    open: Seq<AStarNode>,
    idx: int,
    table: Seq<BestKnown>,
)
    requires
        0 <= idx < open.len(),
        frontier(cost, start, expanded, open),
        witnessed(table, expanded, open),
    ensures
        frontier_partial(cost, start, expanded, open[idx], 0, expanded.push(open[idx]), open.remove(idx)),
        witnessed(table, expanded.push(open[idx]), open.remove(idx)),
{
    reveal(frontier);
    reveal(frontier_partial);
    reveal(witnessed);
    let current = open[idx];
    let e2 = expanded.push(current);
    let o2 = open.remove(idx);
    assert forall|p: Point, c: int| opened(open, p, c) implies opened(o2, p, c) || settled(e2, p, c) by {
        let i = choose|i: int| 0 <= i < open.len() && (#[trigger] open[i]).point == p && open[i].g <= c;
        if i == idx {
            assert(e2[expanded.len() as int] == current);
        } else if i < idx {
            assert(o2[i] == open[i]);
        } else {
            assert(o2[i - 1] == open[i]);
        }
    }
    assert forall|p: Point, c: int| settled(expanded, p, c) implies settled(e2, p, c) by {
        let i = choose|i: int| 0 <= i < expanded.len() && (#[trigger] expanded[i]).point == p && expanded[i].g <= c;
        assert(e2[i] == expanded[i]);
    }
    assert forall|path: Seq<Point>, j: int| valid_path(cost, path, start) && 0 <= j < path.len()
        && (j == 0 || settled(expanded, path[j - 1], prefix_cost(cost, path, j - 1))
            || (path[j - 1] == current.point && current.g <= prefix_cost(cost, path, j - 1)
                && exists|k: int| 0 <= k < 0 && spec_neighbor(current.point, k) == path[j]))
        implies settled(e2, path[j], #[trigger] prefix_cost(cost, path, j)) || opened(o2, path[j], prefix_cost(cost, path, j)) by {
        assert(settled(expanded, path[j], prefix_cost(cost, path, j)) || opened(open, path[j], prefix_cost(cost, path, j)));
    }
    assert forall|i: int| 0 <= i < table.len() implies opened(o2, (#[trigger] table[i]).point, table[i].g as int)
        || settled(e2, table[i].point, table[i].g as int) by {
        assert(opened(open, table[i].point, table[i].g as int) || settled(expanded, table[i].point, table[i].g as int));
    }
}

/// A way from `start`, one orthogonal step at a time, onto points that
/// `cost` never refuses.
pub open spec fn unrefused_path<F: Fn(Point) -> Option<usize>>(cost: F, path: Seq<Point>, start: Point) -> bool {
    &&& path.len() >= 1
    &&& path[0] == start
    &&& is_step_path(path)
    &&& forall|k: int| 1 <= k < path.len() ==> !call_ensures(cost, (#[trigger] path[k],), None::<usize>)
}

/// The number of steps to point `j` of a way.
spec fn steps_to(path: Seq<Point>, j: int) -> int {
    j
}

/// The frontier counted in steps, along ways that are never refused.
#[verifier::opaque]
spec fn frontier_u<F: Fn(Point) -> Option<usize>>(cost: F, start: Point, expanded: Seq<AStarNode>, open: Seq<AStarNode>) -> bool {
    forall|path: Seq<Point>, j: int| unrefused_path(cost, path, start) && 0 <= j < path.len()
        && (j == 0 || settled(expanded, path[j - 1], j - 1))
        ==> settled(expanded, path[j], #[trigger] steps_to(path, j)) || opened(open, path[j], steps_to(path, j))
}

/// The frontier counted in steps while `current` is being expanded.
#[verifier::opaque]
spec fn frontier_partial_u<F: Fn(Point) -> Option<usize>>(
    cost: F,
    start: Point,
    expanded_old: Seq<AStarNode>,
    current: AStarNode,
    n: int,
    expanded: Seq<AStarNode>,
    open: Seq<AStarNode>,
) -> bool {
    forall|path: Seq<Point>, j: int| unrefused_path(cost, path, start) && 0 <= j < path.len()
        && (j == 0 || settled(expanded_old, path[j - 1], j - 1)
            || (path[j - 1] == current.point && current.g <= j - 1
                && exists|k: int| 0 <= k < n && spec_neighbor(current.point, k) == path[j]))
        ==> settled(expanded, path[j], #[trigger] steps_to(path, j)) || opened(open, path[j], steps_to(path, j))
}

/// Offering a neighbour keeps every entry witnessed.
proof fn lemma_witness_relax(
    e2: Seq<AStarNode>,
    o0: Seq<AStarNode>,
    o1: Seq<AStarNode>,
    t0: Seq<BestKnown>,
    t1: Seq<BestKnown>,
    nb: Point,
    g: int,
    entry: BestKnown,
    node: AStarNode,
)
    requires
        witnessed(t0, e2, o0),
        forall|a: int, b: int| 0 <= a < b < t0.len() ==> t0[a].point != t0[b].point,
        entry.point == nb,
        node.point == nb,
        node.g == entry.g,
        (t1 == t0 && o1 == o0) || (o1 == o0.push(node)
            && t1 == if has_key(t0, nb) { t0.update(key_index(t0, nb), entry) } else { t0.push(entry) }),
    ensures
        witnessed(t1, e2, o1),
{
    reveal(witnessed);
    if !(t1 == t0 && o1 == o0) {
        assert(o1[o0.len() as int] == node);
        assert forall|i: int| 0 <= i < t1.len() implies opened(o1, (#[trigger] t1[i]).point, t1[i].g as int)
            || settled(e2, t1[i].point, t1[i].g as int) by {
            let is_new = if has_key(t0, nb) { i == key_index(t0, nb) } else { i == t0.len() };
            if has_key(t0, nb) {
                lemma_key_index(t0, nb);
            }
            if !is_new {
                assert(t1[i] == t0[i]);
                assert(opened(o0, t0[i].point, t0[i].g as int) || settled(e2, t0[i].point, t0[i].g as int));
                if opened(o0, t0[i].point, t0[i].g as int) {
                    let w = choose|w: int| 0 <= w < o0.len() && (#[trigger] o0[w]).point == t0[i].point && o0[w].g <= t0[i].g as int;
                    assert(o1[w] == o0[w]);
                }
            }
        }
    }
}

/// Offering the `n`-th neighbour of `current`, with steps of cost 1,
/// completes the step-counted frontier for it.
proof fn lemma_after_relax_u<F: Fn(Point) -> Option<usize>>(
    cost: F,
    start: Point,
    goal: Point,
    expanded_old: Seq<AStarNode>,
    current: AStarNode,
    n: int,
    e2: Seq<AStarNode>,
    o0: Seq<AStarNode>,
    o1: Seq<AStarNode>,
    t0: Seq<BestKnown>,
    nb: Point,
    tile_cost: usize,
)
    requires
        unit_costs(cost),
        frontier_partial_u(cost, start, expanded_old, current, n, e2, o0),
        witnessed(t0, e2, o0),
        0 <= n < 4,
        nb == spec_neighbor(current.point, n),
        call_ensures(cost, (nb,), Some(tile_cost)),
        forall|a: int, b: int| 0 <= a < b < t0.len() ==> t0[a].point != t0[b].point,
        ({
            let g = current.g + tile_cost;
            &&& (!has_key(t0, nb) || g < t0[key_index(t0, nb)].g) ==>
                    o1 == o0.push(AStarNode { point: nb, g: g as usize, h: spec_heuristic(nb, goal) as usize }) && g == g as usize
            &&& !(!has_key(t0, nb) || g < t0[key_index(t0, nb)].g) ==> o1 == o0
        }),
    ensures
        frontier_partial_u(cost, start, expanded_old, current, n + 1, e2, o1),
{
    reveal(frontier_partial_u);
    reveal(witnessed);
    let g = current.g + tile_cost;
    assert(tile_cost == 1);
    let improved = !has_key(t0, nb) || g < t0[key_index(t0, nb)].g;
    assert forall|p: Point, c: int| opened(o0, p, c) implies opened(o1, p, c) by {
        let i = choose|i: int| 0 <= i < o0.len() && (#[trigger] o0[i]).point == p && o0[i].g <= c;
        if improved {
            assert(o1[i] == o0[i]);
        }
    }
    if improved {
        assert(o1[o0.len() as int].point == nb && o1[o0.len() as int].g == g);
    }
    assert forall|path: Seq<Point>, j: int| unrefused_path(cost, path, start) && 0 <= j < path.len()
        && (j == 0 || settled(expanded_old, path[j - 1], j - 1)
            || (path[j - 1] == current.point && current.g <= j - 1
                && exists|k: int| 0 <= k < n + 1 && spec_neighbor(current.point, k) == path[j]))
        implies settled(e2, path[j], #[trigger] steps_to(path, j)) || opened(o1, path[j], steps_to(path, j)) by {
        let c = steps_to(path, j);
        if j == 0 || settled(expanded_old, path[j - 1], j - 1)
            || (path[j - 1] == current.point && current.g <= j - 1
                && exists|k: int| 0 <= k < n && spec_neighbor(current.point, k) == path[j]) {
            assert(settled(e2, path[j], c) || opened(o0, path[j], c));
        } else {
            let k = choose|k: int| 0 <= k < n + 1 && spec_neighbor(current.point, k) == path[j];
            assert(k == n);
            assert(c >= g);
            if !improved {
                let ki = key_index(t0, nb);
                lemma_key_index(t0, nb);
                assert(opened(o0, t0[ki].point, t0[ki].g as int) || settled(e2, t0[ki].point, t0[ki].g as int));
                if settled(e2, t0[ki].point, t0[ki].g as int) {
                    let w = choose|w: int| 0 <= w < e2.len() && (#[trigger] e2[w]).point == t0[ki].point && e2[w].g <= t0[ki].g as int;
                    assert(settled(e2, path[j], c));
                } else {
                    let w = choose|w: int| 0 <= w < o0.len() && (#[trigger] o0[w]).point == t0[ki].point && o0[w].g <= t0[ki].g as int;
                    assert(opened(o0, path[j], c));
                }
            }
        }
    }
}

/// A refused neighbour lies on no unrefused way.
proof fn lemma_skip_neighbor_u<F: Fn(Point) -> Option<usize>>(
    cost: F,
    start: Point,
    expanded_old: Seq<AStarNode>,
    current: AStarNode,
    n: int,
    e2: Seq<AStarNode>,
    open: Seq<AStarNode>,
    nb: Point,
)
    requires
        frontier_partial_u(cost, start, expanded_old, current, n, e2, open),
        0 <= n < 4,
        nb == spec_neighbor(current.point, n),
        call_ensures(cost, (nb,), None::<usize>),
    ensures
        frontier_partial_u(cost, start, expanded_old, current, n + 1, e2, open),
{
    reveal(frontier_partial_u);
    assert forall|path: Seq<Point>, j: int| unrefused_path(cost, path, start) && 0 <= j < path.len()
        && (j == 0 || settled(expanded_old, path[j - 1], j - 1)
            || (path[j - 1] == current.point && current.g <= j - 1
                && exists|k: int| 0 <= k < n + 1 && spec_neighbor(current.point, k) == path[j]))
        implies settled(e2, path[j], #[trigger] steps_to(path, j)) || opened(open, path[j], steps_to(path, j)) by {
        if !(j == 0 || settled(expanded_old, path[j - 1], j - 1)
            || (path[j - 1] == current.point && current.g <= j - 1
                && exists|k: int| 0 <= k < n && spec_neighbor(current.point, k) == path[j])) {
            let k = choose|k: int| 0 <= k < n + 1 && spec_neighbor(current.point, k) == path[j];
            assert(k == n);
            assert(!call_ensures(cost, (path[j],), None::<usize>));
        }
    }
}

/// With all four neighbours done, the step-counted frontier holds.
proof fn lemma_partial_to_full_u<F: Fn(Point) -> Option<usize>>(
    cost: F,
    start: Point,
    expanded_old: Seq<AStarNode>,
    current: AStarNode,
    open: Seq<AStarNode>,
)
    requires
        frontier_partial_u(cost, start, expanded_old, current, 4, expanded_old.push(current), open),
    ensures
        frontier_u(cost, start, expanded_old.push(current), open),
{
    reveal(frontier_u);
    reveal(frontier_partial_u);
    let e2 = expanded_old.push(current);
    assert forall|path: Seq<Point>, j: int| unrefused_path(cost, path, start) && 0 <= j < path.len()
        && (j == 0 || settled(e2, path[j - 1], j - 1))
        implies settled(e2, path[j], #[trigger] steps_to(path, j)) || opened(open, path[j], steps_to(path, j)) by {
        if j > 0 && !settled(expanded_old, path[j - 1], j - 1) {
            let w = choose|w: int| 0 <= w < e2.len() && (#[trigger] e2[w]).point == path[j - 1] && e2[w].g <= j - 1;
            if w < expanded_old.len() {
                assert(e2[w] == expanded_old[w]);
                assert(false);
            }
            assert(e2[w] == current);
            let m = j - 1;
            assert(adjacent(path[m], path[m + 1]));
            lemma_adjacent_is_neighbor(current.point, path[j]);
        }
    }
}

/// Along a step path the Manhattan distance to the end is at most the
/// steps left.
proof fn lemma_heuristic_steps(path: Seq<Point>, j: int)
    requires
        is_step_path(path),
        0 <= j < path.len(),
    ensures
        spec_heuristic(path[j], path.last()) <= path.len() - 1 - j,
    decreases path.len() - j,
{
    if j < path.len() - 1 {
        lemma_heuristic_steps(path, j + 1);
        assert(adjacent(path[j], path[j + 1]));
        crate::ai::path_cost::lemma_heuristic_triangle(path[j], path[j + 1], path.last());
    }
}

/// When the goal is taken out as the cheapest estimate with steps of cost 1,
/// no unrefused way to it has fewer steps than its node's cost.
proof fn lemma_goal_shortest<F: Fn(Point) -> Option<usize>>(
    cost: F,
    start: Point,
    goal: Point,
    expanded: Seq<AStarNode>,
    open: Seq<AStarNode>,
    current: AStarNode,
    found: int,
)
    requires
        frontier_u(cost, start, expanded, open),
        heuristic_exact(open, goal),
        goal_unexpanded(expanded, goal),
        exists|i: int| 0 <= i < open.len() && open[i] == current,
        current.point == goal,
        forall|i: int| 0 <= i < open.len() ==> (#[trigger] open[i]).g + open[i].h >= current.g + current.h,
        found <= current.g,
    ensures
        forall|q: Seq<Point>| #[trigger] unrefused_path(cost, q, start) && q.last() == goal ==> found <= q.len() - 1,
{
    reveal(frontier_u);
    assert forall|q: Seq<Point>| #[trigger] unrefused_path(cost, q, start) && q.last() == goal
        implies found <= q.len() - 1 by {
        let m = q.len() - 1;
        assert(!settled(expanded, q[m], m)) by {
            if settled(expanded, q[m], m) {
                let w = choose|w: int| 0 <= w < expanded.len() && (#[trigger] expanded[w]).point == q[m] && expanded[w].g <= m;
            }
        }
        lemma_first_unsettled_u(expanded, q, m);
        let j = choose|j: int| 0 <= j <= m && !settled(expanded, q[j], #[trigger] steps_to(q, j))
            && (j == 0 || settled(expanded, q[j - 1], j - 1));
        assert(opened(open, q[j], steps_to(q, j)));
        let o = choose|o: int| 0 <= o < open.len() && (#[trigger] open[o]).point == q[j] && open[o].g <= j;
        let ci = choose|i: int| 0 <= i < open.len() && open[i] == current;
        assert(current.h == spec_heuristic(goal, goal));
        assert(open[o].h == spec_heuristic(q[j], goal));
        lemma_heuristic_steps(q, j);
        assert(open[o].g + open[o].h >= current.g + current.h);
    }
}

/// The first point of a way (counted in steps) that is not settled.
proof fn lemma_first_unsettled_u(expanded: Seq<AStarNode>, path: Seq<Point>, m: int)
    requires
        0 <= m < path.len(),
        !settled(expanded, path[m], m),
    ensures
        exists|j: int| 0 <= j <= m && !settled(expanded, path[j], #[trigger] steps_to(path, j))
            && (j == 0 || settled(expanded, path[j - 1], j - 1)),
    decreases m,
{
    if m > 0 && !settled(expanded, path[m - 1], m - 1) {
        lemma_first_unsettled_u(expanded, path, m - 1);
    } else {
        assert(steps_to(path, m) == m);
    }
}

/// No two nodes of `s` are at the same point for the same cost.
spec fn distinct_nodes(s: Seq<AStarNode>) -> bool {
    forall|i: int, j: int| 0 <= i < j < s.len() ==> !(s[i].point == s[j].point && s[i].g == s[j].g)
}

/// No node of `a` is at the point of a node of `b` for the same cost.
spec fn nodes_apart(a: Seq<AStarNode>, b: Seq<AStarNode>) -> bool {
    forall|i: int, j: int| 0 <= i < a.len() && 0 <= j < b.len() ==> !(a[i].point == b[j].point && a[i].g == b[j].g)
}

/// Every node is reached for at least its Manhattan distance from `start`.
spec fn nodes_from(s: Seq<AStarNode>, start: Point) -> bool {
    forall|i: int| 0 <= i < s.len() ==> spec_heuristic(start, (#[trigger] s[i]).point) <= s[i].g
}

/// The expanded and open nodes are distinct, apart, and reached for at least
/// their distance from `start`.
#[verifier::opaque]
spec fn unit_nodes(expanded: Seq<AStarNode>, open: Seq<AStarNode>, start: Point) -> bool {
    distinct_nodes(expanded) && distinct_nodes(open) && nodes_apart(expanded, open)
        && nodes_from(expanded, start) && nodes_from(open, start)
}

/// The expanded nodes stand at or above the best known costs of their
/// points, within range.
#[verifier::opaque]
spec fn expanded_ok(expanded: Seq<AStarNode>, table: Seq<BestKnown>, iters: int) -> bool {
    open_ok(expanded, table, iters)
}

/// Every expanded node costs at most 7.
#[verifier::opaque]
spec fn costs_within_seven(expanded: Seq<AStarNode>) -> bool {
    forall|i: int| 0 <= i < expanded.len() ==> (#[trigger] expanded[i]).g <= 7
}

/// A way of at most seven steps from `start` to `goal`, onto points that
/// `cost` never refuses.
#[verifier::opaque]
pub open spec fn short_route<F: Fn(Point) -> Option<usize>>(cost: F, start: Point, goal: Point) -> bool {
    exists|q: Seq<Point>| #[trigger] unrefused_path(cost, q, start) && q.last() == goal && q.len() <= 8
}

/// The code of a node within seven steps of `start` and of cost at most 7:
/// a number below 1800, different for different points or costs.
spec fn node_code(n: AStarNode, start: Point) -> int {
    ((n.point.x - start.x + 7) * 15 + (n.point.y - start.y + 7)) * 8 + n.g
}

/// At most 1800 different (point, cost) pairs lie within seven steps of the
/// start at a cost of at most 7.
proof fn lemma_count_nodes(s: Seq<AStarNode>, start: Point)
    requires
        distinct_nodes(s),
        nodes_from(s, start),
        forall|i: int| 0 <= i < s.len() ==> (#[trigger] s[i]).g <= 7,
    ensures
        s.len() <= 1800,
{
    let codes = s.map_values(|n: AStarNode| node_code(n, start));
    assert forall|i: int| 0 <= i < codes.len() implies 0 <= #[trigger] codes[i] < 1800 by {
        let n = s[i];
        assert(spec_heuristic(start, n.point) <= n.g);
        let a = n.point.x - start.x + 7;
        let b = n.point.y - start.y + 7;
        assert(0 <= a <= 14 && 0 <= b <= 14);
        assert(0 <= (a * 15 + b) * 8 + n.g < 1800) by (nonlinear_arith)
            requires 0 <= a <= 14, 0 <= b <= 14, 0 <= n.g <= 7;
    }
    assert(codes.no_duplicates()) by {
        assert forall|i: int, j: int| 0 <= i < codes.len() && 0 <= j < codes.len() && i != j
            implies codes[i] != codes[j] by {
            let (lo, hi) = if i < j { (i, j) } else { (j, i) };
            let n1 = s[lo];
            let n2 = s[hi];
            assert(spec_heuristic(start, n1.point) <= n1.g && spec_heuristic(start, n2.point) <= n2.g);
            let a1 = n1.point.x - start.x + 7;
            let b1 = n1.point.y - start.y + 7;
            let a2 = n2.point.x - start.x + 7;
            let b2 = n2.point.y - start.y + 7;
            if codes[lo] == codes[hi] {
                assert(a1 == a2 && b1 == b2 && n1.g == n2.g) by (nonlinear_arith)
                    requires (a1 * 15 + b1) * 8 + n1.g == (a2 * 15 + b2) * 8 + n2.g,
                        0 <= a1 <= 14, 0 <= b1 <= 14, 0 <= a2 <= 14, 0 <= b2 <= 14,
                        0 <= n1.g <= 7, 0 <= n2.g <= 7;
                assert(n1.point == n2.point);
            }
        }
    }
    codes.unique_seq_to_set();
    assert(codes.to_set().subset_of(vstd::set_lib::set_int_range(0, 1800))) by {
        assert forall|c: int| codes.to_set().contains(c) implies vstd::set_lib::set_int_range(0, 1800).contains(c) by {
            let i = choose|i: int| 0 <= i < codes.len() && codes[i] == c;
        }
    }
    vstd::set_lib::lemma_int_range(0, 1800);
    vstd::set_lib::lemma_len_subset(codes.to_set(), vstd::set_lib::set_int_range(0, 1800));
}

/// While the goal is not expanded, the node taken out as the cheapest
/// estimate is estimated at no more than the steps of any unrefused way to
/// the goal, where every step costs 1.
proof fn lemma_pop_within<F: Fn(Point) -> Option<usize>>(
    cost: F,
    start: Point,
    goal: Point,
    expanded: Seq<AStarNode>,
    open: Seq<AStarNode>,
    current: AStarNode,
    q: Seq<Point>,
)
    requires
        frontier_u(cost, start, expanded, open),
        heuristic_exact(open, goal),
        goal_unexpanded(expanded, goal),
        unrefused_path(cost, q, start),
        q.last() == goal,
        forall|i: int| 0 <= i < open.len() ==> (#[trigger] open[i]).g + open[i].h >= current.g + current.h,
    ensures
        current.g + current.h <= q.len() - 1,
        open.len() > 0,
{
    reveal(frontier_u);
    let m = q.len() - 1;
    assert(!settled(expanded, q[m], m)) by {
        if settled(expanded, q[m], m) {
            let w = choose|w: int| 0 <= w < expanded.len() && (#[trigger] expanded[w]).point == q[m] && expanded[w].g <= m;
        }
    }
    lemma_first_unsettled_u(expanded, q, m);
    let j = choose|j: int| 0 <= j <= m && !settled(expanded, q[j], #[trigger] steps_to(q, j))
        && (j == 0 || settled(expanded, q[j - 1], j - 1));
    assert(opened(open, q[j], steps_to(q, j)));
    let o = choose|o: int| 0 <= o < open.len() && (#[trigger] open[o]).point == q[j] && open[o].g <= j;
    assert(open[o].h == spec_heuristic(q[j], goal));
    lemma_heuristic_steps(q, j);
    assert(open[o].g + open[o].h >= current.g + current.h);
}

/// Moving `open[idx]` to the expanded nodes keeps the nodes distinct, apart
/// and reached for at least their distance.
proof fn lemma_pop_nodes(expanded: Seq<AStarNode>, open: Seq<AStarNode>, idx: int, start: Point)
    requires
        0 <= idx < open.len(),
        distinct_nodes(expanded),
        distinct_nodes(open),
        nodes_apart(expanded, open),
        nodes_from(expanded, start),
        nodes_from(open, start),
    ensures
        distinct_nodes(expanded.push(open[idx])),
        distinct_nodes(open.remove(idx)),
        nodes_apart(expanded.push(open[idx]), open.remove(idx)),
        nodes_from(expanded.push(open[idx]), start),
        nodes_from(open.remove(idx), start),
{
    let e2 = expanded.push(open[idx]);
    let o2 = open.remove(idx);
    assert forall|i: int| 0 <= i < o2.len() implies o2[i] == open[if i < idx { i } else { i + 1 }] by {}
    assert forall|i: int, j: int| 0 <= i < j < e2.len() implies !(e2[i].point == e2[j].point && e2[i].g == e2[j].g) by {
        if j == expanded.len() {
            assert(e2[i] == expanded[i]);
        } else {
            assert(e2[i] == expanded[i] && e2[j] == expanded[j]);
        }
    }
    assert forall|i: int, j: int| 0 <= i < j < o2.len() implies !(o2[i].point == o2[j].point && o2[i].g == o2[j].g) by {
        let a = if i < idx { i } else { i + 1 };
        let b = if j < idx { j } else { j + 1 };
        assert(a < b);
    }
    assert forall|i: int, j: int| 0 <= i < e2.len() && 0 <= j < o2.len()
        implies !(e2[i].point == o2[j].point && e2[i].g == o2[j].g) by {
        let b = if j < idx { j } else { j + 1 };
        if i == expanded.len() {
            assert(e2[i] == open[idx]);
            assert(b != idx);
        } else {
            assert(e2[i] == expanded[i]);
        }
    }
    assert forall|i: int| 0 <= i < e2.len() implies spec_heuristic(start, (#[trigger] e2[i]).point) <= e2[i].g by {
        if i < expanded.len() {
            assert(e2[i] == expanded[i]);
        }
    }
    assert forall|i: int| 0 <= i < o2.len() implies spec_heuristic(start, (#[trigger] o2[i]).point) <= o2[i].g by {
        let b = if i < idx { i } else { i + 1 };
        assert(o2[i] == open[b]);
    }
}

/// Opening a node at a point for less than the best known cost of that
/// point keeps the nodes distinct and apart.
proof fn lemma_push_node(
    expanded: Seq<AStarNode>,
    open: Seq<AStarNode>,
    table: Seq<BestKnown>,
    iters: int,
    node: AStarNode,
    start: Point,
)
    requires
        open_ok(expanded, table, iters),
        open_ok(open, table, iters),
        distinct_nodes(open),
        nodes_apart(expanded, open),
        nodes_from(open, start),
        !has_key(table, node.point) || node.g < table[key_index(table, node.point)].g,
        spec_heuristic(start, node.point) <= node.g,
    ensures
        distinct_nodes(open.push(node)),
        nodes_apart(expanded, open.push(node)),
        nodes_from(open.push(node), start),
{
    let o2 = open.push(node);
    assert forall|i: int, j: int| 0 <= i < j < o2.len() implies !(o2[i].point == o2[j].point && o2[i].g == o2[j].g) by {
        assert(o2[i] == open[i]);
        if j < open.len() {
            assert(o2[j] == open[j]);
        } else {
            let n = open[i];
            assert(has_key(table, n.point) && n.g >= table[key_index(table, n.point)].g);
        }
    }
    assert forall|i: int, j: int| 0 <= i < expanded.len() && 0 <= j < o2.len()
        implies !(expanded[i].point == o2[j].point && expanded[i].g == o2[j].g) by {
        if j < open.len() {
            assert(o2[j] == open[j]);
        } else {
            let n = expanded[i];
            assert(has_key(table, n.point) && n.g >= table[key_index(table, n.point)].g);
        }
    }
    assert forall|i: int| 0 <= i < o2.len() implies spec_heuristic(start, (#[trigger] o2[i]).point) <= o2[i].g by {
        if i < open.len() {
            assert(o2[i] == open[i]);
        }
    }
}

/// Setting the entry of `nb` to a lower cost keeps every node at or above the
/// best known cost of its point.
proof fn lemma_nodes_relax(nodes: Seq<AStarNode>, t0: Seq<BestKnown>, t1: Seq<BestKnown>, iters: int, nb: Point, entry: BestKnown)
    requires
        open_ok(nodes, t0, iters),
        t0.len() <= usize::MAX,
        forall|a: int, b: int| 0 <= a < b < t0.len() ==> t0[a].point != t0[b].point,
        forall|a: int, b: int| 0 <= a < b < t1.len() ==> t1[a].point != t1[b].point,
        entry.point == nb,
        !has_key(t0, nb) || entry.g < t0[key_index(t0, nb)].g,
        t1 == if has_key(t0, nb) { t0.update(key_index(t0, nb), entry) } else { t0.push(entry) },
    ensures
        open_ok(nodes, t1, iters),
{
    if has_key(t0, nb) {
        let ki = key_index(t0, nb);
        lemma_key_index(t0, nb);
        lemma_open_after_update(nodes, t0, t1, iters, nb, entry.g, Some(ki as usize));
    } else {
        lemma_open_after_update(nodes, t0, t1, iters, nb, entry.g, None);
    }
}

/// With steps of cost 1, an empty open list while the goal was never
/// expanded leaves no way of at most seven steps to the goal.
proof fn lemma_no_route_left<F: Fn(Point) -> Option<usize>>(
    cost: F,
    start: Point,
    goal: Point,
    expanded: Seq<AStarNode>,
    open: Seq<AStarNode>,
)
    requires
        unit_costs(cost) ==> frontier_u(cost, start, expanded, open),
        heuristic_exact(open, goal),
        goal_unexpanded(expanded, goal),
        open.len() == 0,
    ensures
        !(unit_costs(cost) && short_route(cost, start, goal)),
{
    if unit_costs(cost) && short_route(cost, start, goal) {
        reveal(short_route);
        let q = choose|q: Seq<Point>| #[trigger] unrefused_path(cost, q, start) && q.last() == goal && q.len() <= 8;
        lemma_pop_within(cost, start, goal, expanded, open, AStarNode { point: start, g: 0, h: 0 }, q);
    }
}

/// Taking `current` (at index `idx`) out of the open list, with steps of
/// cost 1: the nodes stay distinct and apart and reached for at least their
/// distance, and where a way of at most seven steps exists `current` costs
/// at most 7.
proof fn lemma_unit_pop<F: Fn(Point) -> Option<usize>>(
    cost: F,
    start: Point,
    goal: Point,
    expanded: Seq<AStarNode>,
    open: Seq<AStarNode>,
    current: AStarNode,
    idx: int,
)
    requires
        0 <= idx < open.len(),
        open[idx] == current,
        unit_costs(cost) ==> frontier_u(cost, start, expanded, open),
        heuristic_exact(open, goal),
        goal_unexpanded(expanded, goal),
        forall|i: int| 0 <= i < open.len() ==> (#[trigger] open[i]).g + open[i].h >= current.g + current.h,
        unit_costs(cost) ==> unit_nodes(expanded, open, start),
        unit_costs(cost) && short_route(cost, start, goal) ==> costs_within_seven(expanded),
    ensures
        unit_costs(cost) ==> unit_nodes(expanded.push(current), open.remove(idx), start),
        unit_costs(cost) ==> spec_heuristic(start, current.point) <= current.g,
        unit_costs(cost) && short_route(cost, start, goal) ==> costs_within_seven(expanded.push(current)),
        unit_costs(cost) && short_route(cost, start, goal) ==> expanded.push(current).len() <= 1800,
{
    reveal(frontier_u);
    reveal(unit_nodes);
    reveal(costs_within_seven);
    reveal(short_route);
    if unit_costs(cost) {
        lemma_pop_nodes(expanded, open, idx, start);
        assert(spec_heuristic(start, open[idx].point) <= open[idx].g);
        if short_route(cost, start, goal) {
            let q = choose|q: Seq<Point>| #[trigger] unrefused_path(cost, q, start) && q.last() == goal && q.len() <= 8;
            lemma_pop_within(cost, start, goal, expanded, open, current, q);
            assert(current.g <= 7);
            assert forall|i: int| 0 <= i < expanded.push(current).len()
                implies (#[trigger] expanded.push(current)[i]).g <= 7 by {
                if i < expanded.len() {
                    assert(expanded.push(current)[i] == expanded[i]);
                }
            }
            lemma_count_nodes(expanded.push(current), start);
        }
    }
}

/// The expanded nodes with `current` added stay at or above the best known
/// costs, within range.
proof fn lemma_expanded_ok(
    expanded: Seq<AStarNode>,
    current: AStarNode,
    open: Seq<AStarNode>,
    table: Seq<BestKnown>,
    iters: int,
)
    requires
        iters >= 1,
        open_ok(expanded, table, iters),
        open_ok(open, table, iters - 1),
        exists|i: int| 0 <= i < open.len() && open[i] == current,
        has_key(table, current.point),
        current.g >= table[key_index(table, current.point)].g,
        point_in_range(current.point, iters - 1),
        current.g <= (iters - 1) * MAX_STEP_COST,
    ensures
        open_ok(expanded.push(current), table, iters),
{
    let ci = choose|i: int| 0 <= i < open.len() && open[i] == current;
    assert(open[ci].h <= 1_100_000_000);
    assert(current.g <= iters * MAX_STEP_COST) by (nonlinear_arith)
        requires current.g <= (iters - 1) * MAX_STEP_COST, iters >= 1;
    let e2 = expanded.push(current);
    assert forall|i: int| 0 <= i < e2.len() implies {
        let m = #[trigger] e2[i];
        &&& has_key(table, m.point)
        &&& m.g >= table[key_index(table, m.point)].g
        &&& point_in_range(m.point, iters)
        &&& m.g <= iters * MAX_STEP_COST
        &&& m.h <= 1_100_000_000
    } by {
        if i < expanded.len() {
            assert(e2[i] == expanded[i]);
        }
    }
}

/// Offering a neighbour keeps the expanded nodes at or above the best known
/// costs and, with steps of cost 1, the open nodes distinct, apart from the
/// expanded ones, and reached for at least their distance.
proof fn lemma_unit_relax<F: Fn(Point) -> Option<usize>>(
    cost: F,
    start: Point,
    goal: Point,
    expanded: Seq<AStarNode>,
    o0: Seq<AStarNode>,
    o1: Seq<AStarNode>,
    t0: Seq<BestKnown>,
    t1: Seq<BestKnown>,
    iters: int,
    current: AStarNode,
    nb: Point,
    tile_cost: usize,
    stamp: Ghost<nat>,
)
    requires
        expanded_ok(expanded, t0, iters),
        open_ok(o0, t0, iters),
        t0.len() <= usize::MAX,
        forall|a: int, b: int| 0 <= a < b < t0.len() ==> t0[a].point != t0[b].point,
        forall|a: int, b: int| 0 <= a < b < t1.len() ==> t1[a].point != t1[b].point,
        call_ensures(cost, (nb,), Some(tile_cost)),
        nb == current.point || adjacent(current.point, nb),
        unit_costs(cost) ==> unit_nodes(expanded, o0, start),
        unit_costs(cost) ==> spec_heuristic(start, current.point) <= current.g,
        ({
            let g = current.g + tile_cost;
            let entry = BestKnown { point: nb, g: g as usize, parent: Some(current.point), stamp };
            &&& (!has_key(t0, nb) || g < t0[key_index(t0, nb)].g) ==> {
                &&& t1 == if has_key(t0, nb) { t0.update(key_index(t0, nb), entry) } else { t0.push(entry) }
                &&& o1 == o0.push(AStarNode { point: nb, g: g as usize, h: spec_heuristic(nb, goal) as usize })
                &&& g == g as usize
            }
            &&& !(!has_key(t0, nb) || g < t0[key_index(t0, nb)].g) ==> t1 == t0 && o1 == o0
        }),
    ensures
        expanded_ok(expanded, t1, iters),
        unit_costs(cost) ==> unit_nodes(expanded, o1, start),
{
    reveal(unit_nodes);
    reveal(expanded_ok);
    let g = current.g + tile_cost;
    let entry = BestKnown { point: nb, g: g as usize, parent: Some(current.point), stamp };
    if !has_key(t0, nb) || g < t0[key_index(t0, nb)].g {
        lemma_nodes_relax(expanded, t0, t1, iters, nb, entry);
        if unit_costs(cost) {
            assert(tile_cost == 1);
            crate::ai::path_cost::lemma_heuristic_triangle(start, current.point, nb);
            lemma_push_node(expanded, o0, t0, iters,
                AStarNode { point: nb, g: g as usize, h: spec_heuristic(nb, goal) as usize }, start);
        }
    }
}

/// Offering the neighbour `nb` (the `n`-th) of `current` completes the
/// frontier for it and keeps every entry witnessed.
proof fn lemma_after_relax<F: Fn(Point) -> Option<usize>>(
    cost: F,
    start: Point,
    goal: Point,
    expanded_old: Seq<AStarNode>,
    current: AStarNode,
    n: int,
    e2: Seq<AStarNode>,
    o0: Seq<AStarNode>,
    o1: Seq<AStarNode>,
    t0: Seq<BestKnown>,
    t1: Seq<BestKnown>,
    nb: Point,
    tile_cost: usize,
    stamp: Ghost<nat>,
)
    requires
        deterministic_costs(cost),
        frontier_partial(cost, start, expanded_old, current, n, e2, o0),
        witnessed(t0, e2, o0),
        heuristic_exact(o0, goal),
        spec_heuristic(nb, goal) <= 1_000_000,
        0 <= n < 4,
        nb == spec_neighbor(current.point, n),
        call_ensures(cost, (nb,), Some(tile_cost)),
        forall|a: int, b: int| 0 <= a < b < t0.len() ==> t0[a].point != t0[b].point,
        ({
            let g = current.g + tile_cost;
            let entry = BestKnown { point: nb, g: g as usize, parent: Some(current.point), stamp };
            &&& (!has_key(t0, nb) || g < t0[key_index(t0, nb)].g) ==> {
                &&& t1 == if has_key(t0, nb) { t0.update(key_index(t0, nb), entry) } else { t0.push(entry) }
                &&& o1 == o0.push(AStarNode { point: nb, g: g as usize, h: spec_heuristic(nb, goal) as usize })
                &&& g == g as usize
            }
            &&& !(!has_key(t0, nb) || g < t0[key_index(t0, nb)].g) ==> t1 == t0 && o1 == o0
        }),
    ensures
        frontier_partial(cost, start, expanded_old, current, n + 1, e2, o1),
        witnessed(t1, e2, o1),
        heuristic_exact(o1, goal),
{
    reveal(frontier_partial);
    reveal(witnessed);
    let g = current.g + tile_cost;
    assert forall|i: int| 0 <= i < o1.len() implies (#[trigger] o1[i]).h == spec_heuristic(o1[i].point, goal) by {
        if i < o0.len() {
            assert(o1[i] == o0[i]);
        }
    }
    let improved = !has_key(t0, nb) || g < t0[key_index(t0, nb)].g;
    assert forall|p: Point, c: int| opened(o0, p, c) implies opened(o1, p, c) by {
        let i = choose|i: int| 0 <= i < o0.len() && (#[trigger] o0[i]).point == p && o0[i].g <= c;
        if improved {
            assert(o1[i] == o0[i]);
        }
    }
    if improved {
        assert(o1[o0.len() as int].point == nb && o1[o0.len() as int].g == g);
    }
    lemma_step_cost(cost, nb, tile_cost);
    assert forall|path: Seq<Point>, j: int| valid_path(cost, path, start) && 0 <= j < path.len()
        && (j == 0 || settled(expanded_old, path[j - 1], prefix_cost(cost, path, j - 1))
            || (path[j - 1] == current.point && current.g <= prefix_cost(cost, path, j - 1)
                && exists|k: int| 0 <= k < n + 1 && spec_neighbor(current.point, k) == path[j]))
        implies settled(e2, path[j], #[trigger] prefix_cost(cost, path, j)) || opened(o1, path[j], prefix_cost(cost, path, j)) by {
        let c = prefix_cost(cost, path, j);
        if j == 0 || settled(expanded_old, path[j - 1], prefix_cost(cost, path, j - 1))
            || (path[j - 1] == current.point && current.g <= prefix_cost(cost, path, j - 1)
                && exists|k: int| 0 <= k < n && spec_neighbor(current.point, k) == path[j]) {
            assert(settled(e2, path[j], c) || opened(o0, path[j], c));
        } else {
            let k = choose|k: int| 0 <= k < n + 1 && spec_neighbor(current.point, k) == path[j];
            assert(k == n);
            assert(path[j] == nb);
            assert(step_allowed(cost, path[j]));
            lemma_prefix_step(cost, path, j);
            assert(c >= g);
            if !improved {
                let ki = key_index(t0, nb);
                lemma_key_index(t0, nb);
                assert(opened(o0, t0[ki].point, t0[ki].g as int) || settled(e2, t0[ki].point, t0[ki].g as int));
                if settled(e2, t0[ki].point, t0[ki].g as int) {
                    let w = choose|w: int| 0 <= w < e2.len() && (#[trigger] e2[w]).point == t0[ki].point && e2[w].g <= t0[ki].g as int;
                    assert(settled(e2, path[j], c));
                } else {
                    let w = choose|w: int| 0 <= w < o0.len() && (#[trigger] o0[w]).point == t0[ki].point && o0[w].g <= t0[ki].g as int;
                    assert(opened(o0, path[j], c));
                }
            }
        }
    }
    assert forall|i: int| 0 <= i < t1.len() implies opened(o1, (#[trigger] t1[i]).point, t1[i].g as int)
        || settled(e2, t1[i].point, t1[i].g as int) by {
        if improved {
            if has_key(t0, nb) {
                let ki = key_index(t0, nb);
                lemma_key_index(t0, nb);
                if i != ki {
                    assert(t1[i] == t0[i]);
                    assert(opened(o0, t0[i].point, t0[i].g as int) || settled(e2, t0[i].point, t0[i].g as int));
                }
            } else {
                if i < t0.len() {
                    assert(t1[i] == t0[i]);
                    assert(opened(o0, t0[i].point, t0[i].g as int) || settled(e2, t0[i].point, t0[i].g as int));
                }
            }
        } else {
            assert(opened(o0, t0[i].point, t0[i].g as int) || settled(e2, t0[i].point, t0[i].g as int));
        }
    }
}

/// A neighbour onto which `cost` forbids stepping lies on no way.
proof fn lemma_skip_neighbor<F: Fn(Point) -> Option<usize>>(
    cost: F,
    start: Point,
    expanded_old: Seq<AStarNode>,
    current: AStarNode,
    n: int,
    e2: Seq<AStarNode>,
    open: Seq<AStarNode>,
    nb: Point,
)
    requires
        deterministic_costs(cost),
        frontier_partial(cost, start, expanded_old, current, n, e2, open),
        0 <= n < 4,
        nb == spec_neighbor(current.point, n),
        call_ensures(cost, (nb,), None::<usize>),
    ensures
        frontier_partial(cost, start, expanded_old, current, n + 1, e2, open),
{
    reveal(frontier_partial);
    assert forall|path: Seq<Point>, j: int| valid_path(cost, path, start) && 0 <= j < path.len()
        && (j == 0 || settled(expanded_old, path[j - 1], prefix_cost(cost, path, j - 1))
            || (path[j - 1] == current.point && current.g <= prefix_cost(cost, path, j - 1)
                && exists|k: int| 0 <= k < n + 1 && spec_neighbor(current.point, k) == path[j]))
        implies settled(e2, path[j], #[trigger] prefix_cost(cost, path, j)) || opened(open, path[j], prefix_cost(cost, path, j)) by {
        if !(j == 0 || settled(expanded_old, path[j - 1], prefix_cost(cost, path, j - 1))
            || (path[j - 1] == current.point && current.g <= prefix_cost(cost, path, j - 1)
                && exists|k: int| 0 <= k < n && spec_neighbor(current.point, k) == path[j])) {
            let k = choose|k: int| 0 <= k < n + 1 && spec_neighbor(current.point, k) == path[j];
            assert(k == n);
            assert(step_allowed(cost, path[j]));
            let c = choose|c: usize| #[trigger] call_ensures(cost, (path[j],), Some(c));
            assert(call_ensures(cost, (nb,), Some(c)));
            assert(Some(c) == None::<usize>);
        }
    }
}

/// With all four neighbours done, the frontier holds for the expanded nodes
/// including `current`.
proof fn lemma_partial_to_full<F: Fn(Point) -> Option<usize>>(
    cost: F,
    start: Point,
    expanded_old: Seq<AStarNode>,
    current: AStarNode,
    open: Seq<AStarNode>,
)
    requires
        frontier_partial(cost, start, expanded_old, current, 4, expanded_old.push(current), open),
    ensures
        frontier(cost, start, expanded_old.push(current), open),
{
    reveal(frontier);
    reveal(frontier_partial);
    let e2 = expanded_old.push(current);
    assert forall|path: Seq<Point>, j: int| valid_path(cost, path, start) && 0 <= j < path.len()
        && (j == 0 || settled(e2, path[j - 1], prefix_cost(cost, path, j - 1)))
        implies settled(e2, path[j], #[trigger] prefix_cost(cost, path, j)) || opened(open, path[j], prefix_cost(cost, path, j)) by {
        if j > 0 && !settled(expanded_old, path[j - 1], prefix_cost(cost, path, j - 1)) {
            let w = choose|w: int| 0 <= w < e2.len() && (#[trigger] e2[w]).point == path[j - 1]
                && e2[w].g <= prefix_cost(cost, path, j - 1);
            if w < expanded_old.len() {
                assert(e2[w] == expanded_old[w]);
                assert(false);
            }
            assert(e2[w] == current);
            let m = j - 1;
            assert(adjacent(path[m], path[m + 1]));
            lemma_adjacent_is_neighbor(current.point, path[j]);
        }
    }
}

/// Some point of the way is not settled while the one before it is (or it
/// is the start), given that its point `m` is not settled.
proof fn lemma_first_unsettled<F: Fn(Point) -> Option<usize>>(cost: F, expanded: Seq<AStarNode>, path: Seq<Point>, m: int)
    requires
        0 <= m < path.len(),
        !settled(expanded, path[m], prefix_cost(cost, path, m)),
    ensures
        exists|j: int| 0 <= j <= m && !settled(expanded, path[j], #[trigger] prefix_cost(cost, path, j))
            && (j == 0 || settled(expanded, path[j - 1], prefix_cost(cost, path, j - 1))),
    decreases m,
{
    if m > 0 && !settled(expanded, path[m - 1], prefix_cost(cost, path, m - 1)) {
        lemma_first_unsettled(cost, expanded, path, m - 1);
    }
}

/// A path that costs no more than the goal's node, taken out as the cheapest
/// estimate, costs no more than any way from the start to the goal.
proof fn lemma_found_cheapest<F: Fn(Point) -> Option<usize>>(
    cost: F,
    start: Point,
    goal: Point,
    expanded: Seq<AStarNode>,
    open: Seq<AStarNode>,
    current: AStarNode,
    found: int,
)
    requires
        frontier(cost, start, expanded, open),
        heuristic_exact(open, goal),
        goal_unexpanded(expanded, goal),
        costs_at_least_one(cost),
        exists|i: int| 0 <= i < open.len() && open[i] == current,
        current.point == goal,
        forall|i: int| 0 <= i < open.len() ==> (#[trigger] open[i]).g + open[i].h >= current.g + current.h,
        found <= current.g,
    ensures
        forall|q: Seq<Point>| #[trigger] valid_path(cost, q, start) && q.last() == goal ==> found <= path_cost(cost, q),
{
    reveal(frontier);
    assert forall|q: Seq<Point>| #[trigger] valid_path(cost, q, start) && q.last() == goal
        implies found <= path_cost(cost, q) by {
        lemma_goal_optimal(cost, start, goal, expanded, open, current, q);
    }
}

/// When the goal is taken out of the open list as the cheapest estimate, no
/// way from the start to the goal costs less than its node.
proof fn lemma_goal_optimal<F: Fn(Point) -> Option<usize>>(
    cost: F,
    start: Point,
    goal: Point,
    expanded: Seq<AStarNode>,
    open: Seq<AStarNode>,
    current: AStarNode,
    q: Seq<Point>,
)
    requires
        frontier(cost, start, expanded, open),
        heuristic_exact(open, goal),
        goal_unexpanded(expanded, goal),
        costs_at_least_one(cost),
        valid_path(cost, q, start),
        q.last() == goal,
        exists|i: int| 0 <= i < open.len() && open[i] == current,
        current.point == goal,
        forall|i: int| 0 <= i < open.len() ==> (#[trigger] open[i]).g + open[i].h >= current.g + current.h,
    ensures
        current.g <= path_cost(cost, q),
{
    reveal(frontier);
    let m = q.len() - 1;
    assert(!settled(expanded, q[m], prefix_cost(cost, q, m))) by {
        if settled(expanded, q[m], prefix_cost(cost, q, m)) {
            let w = choose|w: int| 0 <= w < expanded.len() && (#[trigger] expanded[w]).point == q[m]
                && expanded[w].g <= prefix_cost(cost, q, m);
        }
    }
    lemma_first_unsettled(cost, expanded, q, m);
    let j = choose|j: int| 0 <= j <= m && !settled(expanded, q[j], #[trigger] prefix_cost(cost, q, j))
        && (j == 0 || settled(expanded, q[j - 1], prefix_cost(cost, q, j - 1)));
    assert(opened(open, q[j], prefix_cost(cost, q, j)));
    let o = choose|o: int| 0 <= o < open.len() && (#[trigger] open[o]).point == q[j] && open[o].g <= prefix_cost(cost, q, j);
    let ci = choose|i: int| 0 <= i < open.len() && open[i] == current;
    assert(current.h == spec_heuristic(goal, goal));
    assert(open[o].h == spec_heuristic(q[j], goal));
    lemma_heuristic_admissible(cost, q, j);
}

/// Looks up the entry about `p`.
fn find_best(table: &Vec<BestKnown>, p: Point) -> (r: Option<usize>)
    ensures
        r matches Some(i) ==> i < table.len() && table@[i as int].point == p,
        r is None ==> !has_key(table@, p),
{
    let mut i: usize = 0;
    while i < table.len()
        invariant
            i <= table.len(),
            forall|k: int| 0 <= k < i ==> table@[k].point != p,
        decreases table.len() - i,
    {
        if table[i].point == p {
            return Some(i);
        }
        i = i + 1;
    }
    None
}

/// Neighbour `k` of a point: left, right, up, down for `k` 0 to 3, with
/// coordinates clamped at zero.
pub open spec fn spec_neighbor(p: Point, k: int) -> Point {
    if k == 0 {
        Point { x: if p.x > 0 { (p.x - 1) as usize } else { 0 }, y: p.y }
    } else if k == 1 {
        Point { x: (p.x + 1) as usize, y: p.y }
    } else if k == 2 {
        Point { x: p.x, y: if p.y > 0 { (p.y - 1) as usize } else { 0 } }
    } else {
        Point { x: p.x, y: (p.y + 1) as usize }
    }
}

/// The four neighbours of a point in the order left, right, up, down (the
/// coordinates are clamped at zero, so at the edge a neighbour may be the
/// point itself).
fn neighbor(p: Point, k: usize) -> (q: Point)
    requires
        k < 4,
        p.x < usize::MAX,
        p.y < usize::MAX,
    ensures
        q == spec_neighbor(p, k as int),
        q == p || adjacent(p, q),
        q.x <= p.x + 1,
        q.y <= p.y + 1,
{
    if k == 0 {
        Point { x: if p.x > 0 { p.x - 1 } else { 0 }, y: p.y }
    } else if k == 1 {
        Point { x: p.x + 1, y: p.y }
    } else if k == 2 {
        Point { x: p.x, y: if p.y > 0 { p.y - 1 } else { 0 } }
    } else {
        Point { x: p.x, y: p.y + 1 }
    }
}

/// Every step that `cost` allows costs 1.
pub open spec fn unit_costs<F: Fn(Point) -> Option<usize>>(cost: F) -> bool {
    forall|p: Point, v: usize| #[trigger] call_ensures(cost, (p,), Some(v)) ==> v == 1
}

/// `cost` allows stepping onto `p`, whenever it is asked.
pub open spec fn always_allowed<F: Fn(Point) -> Option<usize>>(cost: F, p: Point) -> bool {
    forall|o: Option<usize>| #[trigger] call_ensures(cost, (p,), o) ==> o is Some
}

/// Open nodes at the goal are estimated at 1 in all, every other open node
/// higher.
spec fn goal_cheapest(open: Seq<AStarNode>, goal: Point) -> bool {
    forall|i: int| 0 <= i < open.len() ==> if (#[trigger] open[i]).point == goal {
        open[i].g + open[i].h == 1
    } else {
        open[i].g + open[i].h > 1
    }
}

/// Where the goal has an entry, it is reached from the start and is open.
spec fn goal_from_start(open: Seq<AStarNode>, table: Seq<BestKnown>, start: Point, goal: Point) -> bool {
    has_key(table, goal) ==> {
        &&& table[key_index(table, goal)].parent == Some(start)
        &&& exists|i: int| 0 <= i < open.len() && (#[trigger] open[i]).point == goal
    }
}

/// A* search for a cheapest path between two points.
///
/// `cost` gives the cost of stepping onto a point, or `None` where stepping
/// is forbidden. The search gives up after [MAX_ITERS] expansions.
///
/// A returned path starts at `start`, ends at `goal`, moves one orthogonal
/// step at a time, passes no point twice, and steps only onto points that
/// `cost` allowed. Where `cost` answers alike each time and every step costs
/// at least 1, no way from the start to the goal costs less. From a
/// point to itself the path is that point alone; where every step costs 1,
/// to a goal next to the start that may be entered it is the single step.
#[verifier::rlimit(100)]
#[verifier::spinoff_prover]
pub fn a_star<F: Fn(Point) -> Option<usize>>(start: Point, goal: Point, cost: F) -> (r: Option<Vec<Point>>)
    requires
        start.x <= MAX_COORD,
        start.y <= MAX_COORD,
        goal.x <= MAX_COORD,
        goal.y <= MAX_COORD,
        forall|p: Point| #[trigger] call_requires(cost, (p,)),
        forall|p: Point, r: Option<usize>| #[trigger] call_ensures(cost, (p,), r)
            ==> (r matches Some(c) ==> c <= MAX_STEP_COST),
    ensures
        r matches Some(path) ==> {
            &&& path@.len() >= 1
            &&& path@[0] == start
            &&& path@.last() == goal
            &&& is_step_path(path@)
            &&& path@.no_duplicates()
            &&& forall|k: int| 1 <= k < path@.len() ==> step_allowed(cost, #[trigger] path@[k])
        },
        start == goal ==> (r matches Some(path) && path@ == seq![start]),
        adjacent(start, goal) && unit_costs(cost) && always_allowed(cost, goal)
            ==> (r matches Some(path) && path@ == seq![start, goal]),
        r matches Some(path) ==> (deterministic_costs(cost) && costs_at_least_one(cost)
            ==> forall|q: Seq<Point>| #[trigger] valid_path(cost, q, start) && q.last() == goal
                ==> path_cost(cost, path@) <= path_cost(cost, q)),
        r matches Some(path) ==> (unit_costs(cost)
            ==> forall|q: Seq<Point>| #[trigger] unrefused_path(cost, q, start) && q.last() == goal
                ==> path@.len() <= q.len()),
        unit_costs(cost) && short_route(cost, start, goal) ==> r is Some,
{
    let ghost adj = adjacent(start, goal) && unit_costs(cost) && always_allowed(cost, goal);
    let mut iterations: usize = 0;
    let mut open_list: Vec<AStarNode> = Vec::new();
    let mut table: Vec<BestKnown> = Vec::new();

    table.push(BestKnown { point: start, g: 0, parent: None, stamp: Ghost(0) });
    let h0 = heuristic(start, goal);
    open_list.push(AStarNode { point: start, g: 0, h: h0 });
    let ghost mut clock: nat = 1;
    let ghost mut expanded: Seq<AStarNode> = Seq::empty();
    proof {
        lemma_frontier_init(cost, start, open_list@);
        lemma_frontier_init_u(cost, start, open_list@);
        assert(witnessed(table@, expanded, open_list@)) by {
            reveal(witnessed);
            assert forall|i: int| 0 <= i < table@.len() implies opened(open_list@, (#[trigger] table@[i]).point, table@[i].g as int)
                || settled(expanded, table@[i].point, table@[i].g as int) by {
                assert(i == 0);
                assert(open_list@[0].point == table@[0].point);
            }
        }
        assert(table@[0].point == start);
        assert(has_key(table@, start));
        assert(key_index(table@, start) == 0);
        reveal(parents_ordered);
        crate::ai::path_cost::lemma_heuristic_triangle(start, start, start);
        assert(nodes_from(open_list@, start));
        reveal(unit_nodes);
        reveal(costs_within_seven);
        reveal(expanded_ok);
        assert(expanded_ok(expanded, table@, 0));
    }

    while open_list.len() > 0
        invariant
            iterations <= MAX_ITERS,
            start.x <= MAX_COORD, start.y <= MAX_COORD, goal.x <= MAX_COORD, goal.y <= MAX_COORD,
            forall|p: Point| #[trigger] call_requires(cost, (p,)),
            forall|p: Point, r: Option<usize>| #[trigger] call_ensures(cost, (p,), r)
                ==> (r matches Some(c) ==> c <= MAX_STEP_COST),
            table_ok(table@, start, cost, iterations as int),
            costs_chain(cost, table@),
            parents_ordered(table@),
            stamps_below(table@, clock),
            open_ok(open_list@, table@, iterations as int),
            deterministic_costs(cost) ==> frontier(cost, start, expanded, open_list@),
            unit_costs(cost) ==> frontier_u(cost, start, expanded, open_list@),
            witnessed(table@, expanded, open_list@),
            heuristic_exact(open_list@, goal),
            goal_unexpanded(expanded, goal),
            expanded.len() == iterations,
            expanded_ok(expanded, table@, iterations as int),
            unit_costs(cost) ==> unit_nodes(expanded, open_list@, start),
            unit_costs(cost) && short_route(cost, start, goal) ==> costs_within_seven(expanded),
            iterations == 0 ==> open_list@.len() == 1 && open_list@[0].point == start && open_list@[0].g == 0
                && table@.len() == 1,
            start == goal ==> iterations == 0,
            adj == (adjacent(start, goal) && unit_costs(cost) && always_allowed(cost, goal)),
            adj ==> iterations <= 1,
            adj && iterations == 1 ==> {
                &&& has_key(table@, goal)
                &&& goal_cheapest(open_list@, goal)
                &&& goal_from_start(open_list@, table@, start, goal)
            },
        decreases MAX_ITERS - iterations,
    {
        let ghost open_before = open_list@;
        let ghost first = iterations == 0;
        let current = take_best(&mut open_list, Ghost(table@), Ghost(iterations as int));
        proof {
            if first {
                let i = choose|i: int| 0 <= i < open_before.len() && open_before[i] == current;
                assert(i == 0);
                assert(current.point == start && current.g == 0);
                assert(open_list@.len() == 0);
                if has_key(table@, goal) {
                    assert(table@[0].point == goal);
                }
            }
            if adj && !first {
                let j = choose|j: int| 0 <= j < open_before.len() && (#[trigger] open_before[j]).point == goal;
                let i = choose|i: int| 0 <= i < open_before.len() && open_before[i] == current;
                assert(open_before[j].g + open_before[j].h >= current.g + current.h);
                assert(open_before[i] == current);
                if current.point != goal {
                    assert(open_before[i].g + open_before[i].h > 1);
                }
                assert(current.point == goal);
            }
        }

        let ghost idx = choose|i: int| 0 <= i < open_before.len() && open_before[i] == current
            && open_list@ == open_before.remove(i);
        proof {
            lemma_unit_pop(cost, start, goal, expanded, open_before, current, idx);
        }

        let ghost short = unit_costs(cost) && short_route(cost, start, goal);
        let ghost expanded_now = expanded.len();
        iterations = iterations + 1;
        if iterations > MAX_ITERS {
            proof {
                if short {
                    assert(expanded.push(current).len() == expanded_now + 1);
                    assert(expanded_now + 1 > 1800);
                    assert(false);
                }
            }
            return None;
        }
        proof {
            lemma_table_grow_iters(table@, start, cost, (iterations - 1) as int);
            lemma_open_grow_iters(open_list@, table@, (iterations - 1) as int);
            assert(expanded_ok(expanded, table@, iterations as int)) by {
                reveal(expanded_ok);
                lemma_open_grow_iters(expanded, table@, (iterations - 1) as int);
            }
        }

        if current.point == goal {
            let path = reconstruct(&table, start, goal, &cost, Ghost(iterations as int));
            proof {
                if deterministic_costs(cost) && costs_at_least_one(cost) {
                    lemma_found_cheapest(cost, start, goal, expanded, open_before, current, path_cost(cost, path@));
                }
                if unit_costs(cost) {
                    lemma_unit_path_cost(cost, path@);
                    lemma_goal_shortest(cost, start, goal, expanded, open_before, current, path@.len() - 1);
                }
            }
            return Some(path);
        }

        let ghost expanded_old = expanded;
        proof {
            let idx = choose|i: int| 0 <= i < open_before.len() && open_before[i] == current
                && open_list@ == open_before.remove(i);
            lemma_after_pop(cost, start, goal, expanded, open_before, idx, table@);
            expanded = expanded.push(current);
            assert forall|i: int| 0 <= i < expanded.len() implies (#[trigger] expanded[i]).point != goal by {
                if i < expanded_old.len() {
                    assert(expanded[i] == expanded_old[i]);
                }
            }
            assert(expanded_ok(expanded, table@, iterations as int)) by {
                reveal(expanded_ok);
                lemma_expanded_ok(expanded_old, current, open_before, table@, iterations as int);
            }
        }
        let mut n: usize = 0;
        while n < 4
            invariant
                n <= 4,
                1 <= iterations <= MAX_ITERS,
                start.x <= MAX_COORD, start.y <= MAX_COORD, goal.x <= MAX_COORD, goal.y <= MAX_COORD,
                forall|p: Point| #[trigger] call_requires(cost, (p,)),
                forall|p: Point, r: Option<usize>| #[trigger] call_ensures(cost, (p,), r)
                    ==> (r matches Some(c) ==> c <= MAX_STEP_COST),
                table_ok(table@, start, cost, iterations as int),
                costs_chain(cost, table@),
                parents_ordered(table@),
                stamps_below(table@, clock),
                open_ok(open_list@, table@, iterations as int),
                expanded == expanded_old.push(current),
                expanded.len() == iterations,
                expanded_ok(expanded, table@, iterations as int),
                unit_costs(cost) ==> unit_nodes(expanded, open_list@, start),
                unit_costs(cost) ==> spec_heuristic(start, current.point) <= current.g,
                unit_costs(cost) && short_route(cost, start, goal) ==> costs_within_seven(expanded),
                deterministic_costs(cost) ==> frontier_partial(cost, start, expanded_old, current, n as int, expanded, open_list@),
                unit_costs(cost) ==> frontier_partial_u(cost, start, expanded_old, current, n as int, expanded, open_list@),
                witnessed(table@, expanded, open_list@),
                heuristic_exact(open_list@, goal),
                goal_unexpanded(expanded, goal),
                start != goal,
                has_key(table@, current.point),
                current.g >= table@[key_index(table@, current.point)].g,
                point_in_range(current.point, (iterations - 1) as int),
                current.g <= (iterations - 1) * MAX_STEP_COST,
                adj == (adjacent(start, goal) && unit_costs(cost) && always_allowed(cost, goal)),
                adj ==> {
                    &&& iterations == 1
                    &&& current.point == start
                    &&& current.g == 0
                    &&& goal_cheapest(open_list@, goal)
                    &&& goal_from_start(open_list@, table@, start, goal)
                    &&& (exists|k: int| 0 <= k < n && #[trigger] spec_neighbor(start, k) == goal) ==> has_key(table@, goal)
                },
            decreases 4 - n,
        {
            let nb = neighbor(current.point, n);
            let tile_cost_opt = cost(nb);
            if let Some(tile_cost) = tile_cost_opt {
                let ghost t0 = table@;
                let ghost o0 = open_list@;
                proof {
                    assert(t0.len() == table.len());
                }
                relax(&mut table, &mut open_list, current, nb, tile_cost, goal, start, &cost, Ghost(iterations as int), Ghost(clock));
                proof {
                    lemma_witness_relax(expanded, o0, open_list@, t0, table@, nb, current.g + tile_cost,
                        BestKnown { point: nb, g: (current.g + tile_cost) as usize, parent: Some(current.point), stamp: Ghost(clock) },
                        AStarNode { point: nb, g: (current.g + tile_cost) as usize, h: spec_heuristic(nb, goal) as usize });
                    if deterministic_costs(cost) {
                        lemma_after_relax(cost, start, goal, expanded_old, current, n as int, expanded, o0, open_list@,
                            t0, table@, nb, tile_cost, Ghost(clock));
                    }
                    if unit_costs(cost) {
                        lemma_after_relax_u(cost, start, goal, expanded_old, current, n as int, expanded, o0, open_list@,
                            t0, nb, tile_cost);
                    }
                    lemma_unit_relax(cost, start, goal, expanded, o0, open_list@, t0, table@, iterations as int, current,
                        nb, tile_cost, Ghost(clock));
                    if adj {
                        lemma_key_index(t0, start);
                        lemma_expand_start(t0, table@, o0, open_list@, start, goal, nb, Ghost(clock));
                    }
                    clock = clock + 1;
                }
            } else {
                proof {
                    if deterministic_costs(cost) {
                        lemma_skip_neighbor(cost, start, expanded_old, current, n as int, expanded, open_list@, nb);
                    }
                    if unit_costs(cost) {
                        lemma_skip_neighbor_u(cost, start, expanded_old, current, n as int, expanded, open_list@, nb);
                    }
                }
            }
            proof {
                if adj {
                    if nb == goal {
                        assert(tile_cost_opt is Some);
                    }
                    assert forall|k: int| 0 <= k < n + 1 && #[trigger] spec_neighbor(start, k) == goal
                        implies has_key(table@, goal) by {
                        if k == n {
                            assert(nb == goal);
                        }
                    }
                }
            }
            n = n + 1;
        }
        proof {
            if adj {
                lemma_adjacent_is_neighbor(start, goal);
            }
            if deterministic_costs(cost) {
                lemma_partial_to_full(cost, start, expanded_old, current, open_list@);
            }
            if unit_costs(cost) {
                lemma_partial_to_full_u(cost, start, expanded_old, current, open_list@);
            }
        }
    }
    proof {
        lemma_no_route_left(cost, start, goal, expanded, open_list@);
    }
    None
}

/// Expanding the start with unit costs: the goal, a neighbour of the start,
/// is estimated at 1 in all; every other neighbour at least 3.
proof fn lemma_expand_start(
    t0: Seq<BestKnown>,
    t1: Seq<BestKnown>,
    o0: Seq<AStarNode>,
    o1: Seq<AStarNode>,
    start: Point,
    goal: Point,
    nb: Point,
    stamp: Ghost<nat>,
)
    requires
        forall|a: int, b: int| 0 <= a < b < t0.len() ==> t0[a].point != t0[b].point,
        forall|a: int, b: int| 0 <= a < b < t1.len() ==> t1[a].point != t1[b].point,
        has_key(t0, start),
        t0[key_index(t0, start)].g == 0,
        adjacent(start, goal),
        nb == start || adjacent(start, nb),
        nb.x <= 2 * MAX_COORD, nb.y <= 2 * MAX_COORD,
        goal.x <= 2 * MAX_COORD, goal.y <= 2 * MAX_COORD,
        goal_cheapest(o0, goal),
        goal_from_start(o0, t0, start, goal),
        ({
            let entry = BestKnown { point: nb, g: 1, parent: Some(start), stamp };
            &&& (!has_key(t0, nb) || 1 < t0[key_index(t0, nb)].g) ==> {
                &&& t1 == if has_key(t0, nb) { t0.update(key_index(t0, nb), entry) } else { t0.push(entry) }
                &&& o1 == o0.push(AStarNode { point: nb, g: 1, h: spec_heuristic(nb, goal) as usize })
            }
            &&& !(!has_key(t0, nb) || 1 < t0[key_index(t0, nb)].g) ==> t1 == t0 && o1 == o0
        }),
    ensures
        goal_cheapest(o1, goal),
        goal_from_start(o1, t1, start, goal),
        nb == goal ==> has_key(t1, goal),
        has_key(t0, goal) ==> has_key(t1, goal),
{
    let entry = BestKnown { point: nb, g: 1, parent: Some(start), stamp };
    let improved = !has_key(t0, nb) || 1 < t0[key_index(t0, nb)].g;
    let h = spec_heuristic(nb, goal);
    assert(0 <= h <= 4 * MAX_COORD);
    assert(h as usize == h);
    if improved {
        if nb == start {
            assert(false);
        }
        let ni = if has_key(t0, nb) { key_index(t0, nb) } else { t0.len() as int };
        if has_key(t0, nb) {
            lemma_key_index(t0, nb);
        }
        assert(t1[ni] == entry);
        lemma_key_index_of(t1, ni);
        if nb != goal {
            lemma_heuristic_between_neighbors(start, nb, goal);
        }
        assert forall|i: int| 0 <= i < o1.len() implies if (#[trigger] o1[i]).point == goal {
            o1[i].g + o1[i].h == 1
        } else {
            o1[i].g + o1[i].h > 1
        } by {
            if i < o0.len() {
                assert(o1[i] == o0[i]);
            } else {
                assert(o1[i] == AStarNode { point: nb, g: 1, h: h as usize });
                if nb == goal {
                    assert(h == 0);
                } else {
                    assert(h >= 2);
                }
            }
        }
        if nb == goal {
            assert(o1[o0.len() as int].point == goal);
        } else if has_key(t1, goal) {
            assert(has_key(t0, goal)) by {
                let gi = choose|k: int| 0 <= k < t1.len() && #[trigger] t1[k].point == goal;
                assert(gi != ni);
                assert(t0[gi] == t1[gi]);
            }
            let gi = key_index(t0, goal);
            lemma_key_index(t0, goal);
            assert(gi != ni);
            assert(t1[gi] == t0[gi]);
            lemma_key_index_of(t1, gi);
            let oi = choose|i: int| 0 <= i < o0.len() && (#[trigger] o0[i]).point == goal;
            assert(o1[oi] == o0[oi]);
        }
        if has_key(t0, goal) {
            let gi = key_index(t0, goal);
            lemma_key_index(t0, goal);
            if gi != ni {
                assert(t1[gi] == t0[gi]);
            }
            assert(t1[gi].point == goal);
        }
    }
}

/// Removes and returns an open node of least estimated total cost.
fn take_best(open_list: &mut Vec<AStarNode>, table: Ghost<Seq<BestKnown>>, iters: Ghost<int>) -> (current: AStarNode)
    requires
        old(open_list).len() > 0,
        0 <= iters@ <= MAX_ITERS,
        open_ok(old(open_list)@, table@, iters@),
    ensures
        open_ok(final(open_list)@, table@, iters@),
        has_key(table@, current.point),
        current.g >= table@[key_index(table@, current.point)].g,
        point_in_range(current.point, iters@),
        current.g <= iters@ * MAX_STEP_COST,
        exists|i: int| 0 <= i < old(open_list)@.len() && old(open_list)@[i] == current
            && final(open_list)@ == old(open_list)@.remove(i),
        final(open_list)@.len() == old(open_list)@.len() - 1,
        forall|i: int| 0 <= i < old(open_list)@.len()
            ==> (#[trigger] old(open_list)@[i]).g + old(open_list)@[i].h >= current.g + current.h,
{
    let mut best: usize = 0;
    let mut k: usize = 1;
    proof {
        lemma_bounds(open_list@[0], iters@);
    }
    while k < open_list.len()
        invariant
            0 <= best < open_list.len(),
            1 <= k <= open_list.len(),
            0 <= iters@ <= MAX_ITERS,
            open_ok(open_list@, table@, iters@),
            forall|i: int| 0 <= i < k ==> (#[trigger] open_list@[i]).g + open_list@[i].h
                >= open_list@[best as int].g + open_list@[best as int].h,
        decreases open_list.len() - k,
    {
        proof {
            lemma_bounds(open_list@[k as int], iters@);
            lemma_bounds(open_list@[best as int], iters@);
        }
        if open_list[k].g + open_list[k].h < open_list[best].g + open_list[best].h {
            best = k;
        }
        k = k + 1;
    }
    let ghost open_before = open_list@;
    let current = open_list.remove(best);
    proof {
        assert(open_before[best as int] == current);
        assert forall|i: int| 0 <= i < open_list.len() implies open_list@[i] == open_before[if i < best { i } else { i + 1 }] by {}
        assert(open_list@ =~= open_before.remove(best as int));
        assert forall|i: int| 0 <= i < open_list.len() implies {
            let n = #[trigger] open_list@[i];
            &&& has_key(table@, n.point)
            &&& n.g >= table@[key_index(table@, n.point)].g
            &&& point_in_range(n.point, iters@)
            &&& n.g <= iters@ * MAX_STEP_COST
            &&& n.h <= 1_100_000_000
        } by {
            let j = if i < best { i } else { i + 1 };
            assert(open_list@[i] == open_before[j]);
        }
    }
    current
}

/// Offers the path through `current` to its neighbour `nb`: where it is
/// cheaper than the best known way to `nb`, it becomes the best known way
/// and `nb` is opened.
#[verifier::rlimit(40)]
#[verifier::spinoff_prover]
fn relax<F: Fn(Point) -> Option<usize>>(
    table: &mut Vec<BestKnown>,
    open_list: &mut Vec<AStarNode>,
    current: AStarNode,
    nb: Point,
    tile_cost: usize,
    goal: Point,
    start: Point,
    cost: &F,
    iters: Ghost<int>,
    stamp: Ghost<nat>,
)
    requires
        1 <= iters@ <= MAX_ITERS,
        parents_ordered(old(table)@),
        stamps_below(old(table)@, stamp@),
        goal.x <= MAX_COORD, goal.y <= MAX_COORD,
        call_ensures(*cost, (nb,), Some(tile_cost)),
        tile_cost <= MAX_STEP_COST,
        table_ok(old(table)@, start, *cost, iters@),
        costs_chain(*cost, old(table)@),
        open_ok(old(open_list)@, old(table)@, iters@),
        has_key(old(table)@, current.point),
        current.g >= old(table)@[key_index(old(table)@, current.point)].g,
        point_in_range(current.point, iters@ - 1),
        current.g <= (iters@ - 1) * MAX_STEP_COST,
        nb == current.point || adjacent(current.point, nb),
        nb.x <= current.point.x + 1,
        nb.y <= current.point.y + 1,
    ensures
        table_ok(final(table)@, start, *cost, iters@),
        costs_chain(*cost, final(table)@),
        parents_ordered(final(table)@),
        stamps_below(final(table)@, stamp@ + 1),
        open_ok(final(open_list)@, final(table)@, iters@),
        has_key(final(table)@, current.point),
        current.g >= final(table)@[key_index(final(table)@, current.point)].g,
        ({
            let t0 = old(table)@;
            let g = current.g + tile_cost;
            let entry = BestKnown { point: nb, g: g as usize, parent: Some(current.point), stamp };
            &&& (!has_key(t0, nb) || g < t0[key_index(t0, nb)].g) ==> {
                &&& final(table)@ == if has_key(t0, nb) { t0.update(key_index(t0, nb), entry) } else { t0.push(entry) }
                &&& final(open_list)@ == old(open_list)@.push(
                        AStarNode { point: nb, g: g as usize, h: spec_heuristic(nb, goal) as usize })
            }
            &&& !(!has_key(t0, nb) || g < t0[key_index(t0, nb)].g) ==> {
                &&& final(table)@ == t0
                &&& final(open_list)@ == old(open_list)@
            }
        }),
{
    proof {
        assert(iters@ * MAX_STEP_COST == (iters@ - 1) * MAX_STEP_COST + MAX_STEP_COST) by (nonlinear_arith);
        assert(iters@ * MAX_STEP_COST <= 2500 * 100_000) by (nonlinear_arith)
            requires iters@ <= 2500;
    }
    let tentative_g = current.g + tile_cost;
    let found = find_best(table, nb);
    let previous_best_known = match found {
        Some(i) => table[i].g,
        None => usize::MAX,
    };
    proof {
        if let Some(i) = found {
            lemma_key_index_of(table@, i as int);
        }
    }
    if tentative_g < previous_best_known {
        proof {
            lemma_key_index(table@, current.point);
            if nb == current.point {
                assert(key_index(table@, nb) == found.unwrap());
                assert(false);
            }
            assert(adjacent(current.point, nb));
            assert(step_allowed(*cost, nb));
            assert(nb.x <= MAX_COORD + iters@ && nb.y <= MAX_COORD + iters@);
        }
        let h = heuristic(nb, goal);
        let ghost table_before = table@;
        match found {
            Some(i) => {
                table.set(i, BestKnown { point: nb, g: tentative_g, parent: Some(current.point), stamp });
            },
            None => {
                table.push(BestKnown { point: nb, g: tentative_g, parent: Some(current.point), stamp });
            },
        }
        proof {
            lemma_table_update(table_before, table@, start, *cost, iters@, nb, tentative_g, current.point, stamp, found);
            lemma_parents_after_update(table_before, table@, nb, tentative_g, current.point, stamp, found);
            if consistent_costs(*cost) {
                lemma_consistent_step_cost(*cost, nb, tile_cost);
            }
            lemma_chain_after_update(*cost, table_before, table@, nb, tentative_g, current.point, stamp, found);
            lemma_open_after_update(open_list@, table_before, table@, iters@, nb, tentative_g, found);
            lemma_key_index(table_before, current.point);
            let ci = key_index(table_before, current.point);
            if let Some(i) = found {
                if i == ci {
                    assert(false);
                }
            }
            assert(table@[ci] == table_before[ci]);
            lemma_key_index_of(table@, ci);
        }
        let ghost open_mid = open_list@;
        open_list.push(AStarNode { point: nb, g: tentative_g, h });
        proof {
            assert forall|i: int| 0 <= i < open_list.len() implies {
                let m = #[trigger] open_list@[i];
                &&& has_key(table@, m.point)
                &&& m.g >= table@[key_index(table@, m.point)].g
                &&& point_in_range(m.point, iters@)
                &&& m.g <= iters@ * MAX_STEP_COST
                &&& m.h <= 1_100_000_000
            } by {
                if i < open_mid.len() {
                    assert(open_list@[i] == open_mid[i]);
                } else {
                    lemma_key_of_entry(table@, nb, found, table_before.len() as int);
                }
            }
        }
    }
}

/// A point next to `p` is one of its four neighbours.
proof fn lemma_adjacent_is_neighbor(p: Point, q: Point)
    requires
        adjacent(p, q),
    ensures
        exists|k: int| 0 <= k < 4 && #[trigger] spec_neighbor(p, k) == q,
{
    if q.x + 1 == p.x {
        assert(spec_neighbor(p, 0) == q);
    } else if q.x == p.x + 1 {
        assert(spec_neighbor(p, 1) == q);
    } else if q.y + 1 == p.y {
        assert(spec_neighbor(p, 2) == q);
    } else {
        assert(spec_neighbor(p, 3) == q);
    }
}

/// Two different points next to the same point are at least two apart by
/// the heuristic.
proof fn lemma_heuristic_between_neighbors(p: Point, a: Point, b: Point)
    requires
        adjacent(p, a),
        adjacent(p, b),
        a != b,
    ensures
        spec_heuristic(a, b) >= 2,
{
}

proof fn lemma_bounds(n: AStarNode, iters: int)
    requires
        n.g <= iters * MAX_STEP_COST,
        n.h <= 1_100_000_000,
        0 <= iters <= MAX_ITERS,
    ensures
        n.g + n.h <= 1_400_000_000,
{
    assert(iters * MAX_STEP_COST <= 2500 * 100_000) by (nonlinear_arith)
        requires iters <= 2500, iters >= 0;
}

proof fn lemma_key_index(table: Seq<BestKnown>, p: Point)
    requires
        has_key(table, p),
    ensures
        0 <= key_index(table, p) < table.len(),
        table[key_index(table, p)].point == p,
{
}

/// With unique keys, the index of an entry's key is the entry's index.
proof fn lemma_key_index_of(table: Seq<BestKnown>, i: int)
    requires
        0 <= i < table.len(),
        forall|a: int, b: int| 0 <= a < b < table.len() ==> table[a].point != table[b].point,
    ensures
        key_index(table, table[i].point) == i,
{
    assert(has_key(table, table[i].point));
    let j = key_index(table, table[i].point);
    if j != i {
        if j < i {
            assert(table[j].point != table[i].point);
        } else {
            assert(table[i].point != table[j].point);
        }
    }
}

/// After the update the new point's key index is the updated entry.
proof fn lemma_key_of_entry(table: Seq<BestKnown>, nb: Point, found: Option<usize>, old_len: int)
    requires
        forall|a: int, b: int| 0 <= a < b < table.len() ==> table[a].point != table[b].point,
        found matches Some(i) ==> i < table.len() && table[i as int].point == nb,
        found is None ==> table.len() == old_len + 1 && table[old_len].point == nb,
        0 <= old_len,
    ensures
        has_key(table, nb),
        key_index(table, nb) == (match found { Some(i) => i as int, None => old_len }),
{
    match found {
        Some(i) => { lemma_key_index_of(table, i as int); },
        None => { lemma_key_index_of(table, old_len); },
    }
}

proof fn lemma_table_grow_iters<F: Fn(Point) -> Option<usize>>(table: Seq<BestKnown>, start: Point, cost: F, iters: int)
    requires
        table_ok(table, start, cost, iters),
        iters >= 0,
    ensures
        table_ok(table, start, cost, iters + 1),
{
    assert forall|i: int| 0 <= i < table.len() implies point_in_range((#[trigger] table[i]).point, iters + 1)
        && table[i].g <= (iters + 1) * MAX_STEP_COST by {
        assert(iters * MAX_STEP_COST <= (iters + 1) * MAX_STEP_COST) by (nonlinear_arith)
            requires iters >= 0;
    }
}

proof fn lemma_open_grow_iters(open: Seq<AStarNode>, table: Seq<BestKnown>, iters: int)
    requires
        open_ok(open, table, iters),
        iters >= 0,
    ensures
        open_ok(open, table, iters + 1),
{
    assert forall|i: int| 0 <= i < open.len() implies (#[trigger] open[i]).g <= (iters + 1) * MAX_STEP_COST by {
        assert(iters * MAX_STEP_COST <= (iters + 1) * MAX_STEP_COST) by (nonlinear_arith)
            requires iters >= 0;
    }
}

/// Improving the entry of `nb` (or adding it) keeps the table invariant.
proof fn lemma_table_update<F: Fn(Point) -> Option<usize>>(
    before: Seq<BestKnown>,
    after: Seq<BestKnown>,
    start: Point,
    cost: F,
    iters: int,
    nb: Point,
    g: usize,
    parent: Point,
    stamp: Ghost<nat>,
    found: Option<usize>,
)
    requires
        table_ok(before, start, cost, iters),
        found matches Some(i) ==> i < before.len() && before[i as int].point == nb && g < before[i as int].g
            && after == before.update(i as int, BestKnown { point: nb, g, parent: Some(parent), stamp }),
        found is None ==> !has_key(before, nb)
            && after == before.push(BestKnown { point: nb, g, parent: Some(parent), stamp }),
        nb != start || found is None,
        adjacent(parent, nb),
        has_key(before, parent),
        step_allowed(cost, nb),
        point_in_range(nb, iters),
        g <= iters * MAX_STEP_COST,
    ensures
        table_ok(after, start, cost, iters),
{
    let e = BestKnown { point: nb, g, parent: Some(parent), stamp };
    // The start keeps its entry: its cost 0 cannot be improved.
    if nb == start {
        assert(has_key(before, start));
        assert(false);
    }
    assert forall|i: int, j: int| 0 <= i < j < after.len() implies after[i].point != after[j].point by {
        match found {
            Some(x) => {
                if i == x {
                    assert(before[j].point != before[i].point);
                } else if j == x {
                    assert(before[i].point != before[j].point);
                }
            },
            None => {
                if j == before.len() {
                    assert(before[i] == after[i]);
                    if before[i].point == nb {
                        assert(has_key(before, nb));
                    }
                }
            },
        }
    }
    assert forall|i: int| 0 <= i < after.len() implies ((#[trigger] after[i]).parent matches Some(q) ==> {
        &&& adjacent(q, after[i].point)
        &&& has_key(after, q)
        &&& step_allowed(cost, after[i].point)
    }) by {
        let q_opt = after[i].parent;
        if let Some(q) = q_opt {
            let is_new = match found { Some(x) => i == x, None => i == before.len() };
            let src = if is_new { parent } else { q };
            if !is_new {
                assert(after[i] == before[i]);
            }
            assert(has_key(before, q));
            let qi = choose|k: int| 0 <= k < before.len() && #[trigger] before[k].point == q;
            // q keeps an entry: the updated entry is about nb and keeps its key.
            match found {
                Some(x) => {
                    if qi == x {
                        assert(after[x as int].point == q);
                    } else {
                        assert(after[qi] == before[qi]);
                    }
                },
                None => {
                    assert(after[qi] == before[qi]);
                },
            }
            assert(has_key(after, q));
        }
    }
    assert(has_key(after, start)) by {
        let si = choose|k: int| 0 <= k < before.len() && #[trigger] before[k].point == start;
        match found {
            Some(x) => {
                assert(si != x);
                assert(after[si] == before[si]);
            },
            None => {
                assert(after[si] == before[si]);
            },
        }
    }
    assert forall|i: int| 0 <= i < after.len() implies ((#[trigger] after[i]).parent is None <==> after[i].point == start) by {
        match found {
            Some(x) => { if i != x { assert(after[i] == before[i]); } },
            None => { if i < before.len() { assert(after[i] == before[i]); } },
        }
    }
    assert forall|i: int| 0 <= i < after.len() && (#[trigger] after[i]).point == start implies after[i].g == 0 by {
        match found {
            Some(x) => { if i != x { assert(after[i] == before[i]); } },
            None => { if i < before.len() { assert(after[i] == before[i]); } },
        }
    }
    assert forall|i: int| 0 <= i < after.len() implies point_in_range((#[trigger] after[i]).point, iters)
        && after[i].g <= iters * MAX_STEP_COST by {
        match found {
            Some(x) => { if i != x { assert(after[i] == before[i]); } },
            None => { if i < before.len() { assert(after[i] == before[i]); } },
        }
    }
}

/// Setting the entry of `nb` from a predecessor no dearer than the new cost,
/// at a fresh clock reading, keeps the predecessors ordered.
proof fn lemma_parents_after_update(
    before: Seq<BestKnown>,
    after: Seq<BestKnown>,
    nb: Point,
    g: usize,
    parent: Point,
    stamp: Ghost<nat>,
    found: Option<usize>,
)
    requires
        forall|a: int, b: int| 0 <= a < b < before.len() ==> before[a].point != before[b].point,
        forall|a: int, b: int| 0 <= a < b < after.len() ==> after[a].point != after[b].point,
        forall|i: int| 0 <= i < before.len() ==> ((#[trigger] before[i]).parent matches Some(q) ==> has_key(before, q)),
        parents_ordered(before),
        stamps_below(before, stamp@),
        has_key(before, parent),
        before[key_index(before, parent)].g <= g,
        parent != nb,
        found matches Some(i) ==> i < before.len() && before[i as int].point == nb && g < before[i as int].g
            && after == before.update(i as int, BestKnown { point: nb, g, parent: Some(parent), stamp }),
        found is None ==> !has_key(before, nb)
            && after == before.push(BestKnown { point: nb, g, parent: Some(parent), stamp }),
    ensures
        parents_ordered(after),
        stamps_below(after, stamp@ + 1),
{
    reveal(parents_ordered);
    let ci = key_index(before, parent);
    lemma_key_index(before, parent);
    if let Some(x) = found {
        if ci == x {
            assert(before[ci].point == nb);
        }
    }
    assert(after[ci] == before[ci]);
    lemma_key_index_of(after, ci);
    assert forall|i: int| 0 <= i < after.len() implies ((#[trigger] after[i]).parent matches Some(q) ==> {
        let u = after[key_index(after, q)];
        u.g < after[i].g || (u.g == after[i].g && u.stamp@ < after[i].stamp@)
    }) by {
        if let Some(q) = after[i].parent {
            let is_new = match found { Some(x) => i == x, None => i == before.len() };
            if !is_new {
                assert(after[i] == before[i]);
                assert(has_key(before, q));
                let bq = key_index(before, q);
                lemma_key_index(before, q);
                match found {
                    Some(x) => {
                        if bq == x {
                            lemma_key_index_of(after, x as int);
                        } else {
                            assert(after[bq] == before[bq]);
                            lemma_key_index_of(after, bq);
                        }
                    },
                    None => {
                        assert(after[bq] == before[bq]);
                        lemma_key_index_of(after, bq);
                    },
                }
            }
        }
    }
    assert forall|i: int| 0 <= i < after.len() implies (#[trigger] after[i]).stamp@ < stamp@ + 1 by {
        match found {
            Some(x) => { if i != x { assert(after[i] == before[i]); } },
            None => { if i < before.len() { assert(after[i] == before[i]); } },
        }
    }
}

/// Setting `nb`'s entry to the way through `parent` keeps every entry at least
/// its predecessor plus its step.
proof fn lemma_chain_after_update<F: Fn(Point) -> Option<usize>>(
    cost: F,
    before: Seq<BestKnown>,
    after: Seq<BestKnown>,
    nb: Point,
    g: usize,
    parent: Point,
    stamp: Ghost<nat>,
    found: Option<usize>,
)
    requires
        forall|a: int, b: int| 0 <= a < b < before.len() ==> before[a].point != before[b].point,
        forall|a: int, b: int| 0 <= a < b < after.len() ==> after[a].point != after[b].point,
        forall|i: int| 0 <= i < before.len() ==> ((#[trigger] before[i]).parent matches Some(q) ==> has_key(before, q)),
        costs_chain(cost, before),
        has_key(before, parent),
        consistent_costs(cost) ==> g >= before[key_index(before, parent)].g + step_cost(cost, nb),
        parent != nb,
        found matches Some(i) ==> i < before.len() && before[i as int].point == nb && g < before[i as int].g
            && after == before.update(i as int, BestKnown { point: nb, g, parent: Some(parent), stamp }),
        found is None ==> !has_key(before, nb)
            && after == before.push(BestKnown { point: nb, g, parent: Some(parent), stamp }),
    ensures
        costs_chain(cost, after),
{
    if consistent_costs(cost) {
        let ci = key_index(before, parent);
        lemma_key_index(before, parent);
        if let Some(x) = found {
            if ci == x {
                assert(before[ci].point == nb);
            }
        }
        assert(after[ci] == before[ci]);
        lemma_key_index_of(after, ci);
        assert forall|i: int| 0 <= i < after.len() implies ((#[trigger] after[i]).parent matches Some(q) ==>
            after[i].g >= after[key_index(after, q)].g + step_cost(cost, after[i].point)) by {
            if let Some(q) = after[i].parent {
                let is_new = match found { Some(x) => i == x, None => i == before.len() };
                if !is_new {
                    assert(after[i] == before[i]);
                    assert(has_key(before, q));
                    let bq = key_index(before, q);
                    lemma_key_index(before, q);
                    match found {
                        Some(x) => {
                            if bq == x {
                                lemma_key_index_of(after, x as int);
                            } else {
                                assert(after[bq] == before[bq]);
                                lemma_key_index_of(after, bq);
                            }
                        },
                        None => {
                            assert(after[bq] == before[bq]);
                            lemma_key_index_of(after, bq);
                        },
                    }
                }
            }
        }
    }
}

/// Lowering the cost of `nb`'s entry keeps every open node at or above the
/// best known cost of its point.
proof fn lemma_open_after_update(
    open: Seq<AStarNode>,
    before: Seq<BestKnown>,
    after: Seq<BestKnown>,
    iters: int,
    nb: Point,
    g: usize,
    found: Option<usize>,
)
    requires
        open_ok(open, before, iters),
        forall|a: int, b: int| 0 <= a < b < before.len() ==> before[a].point != before[b].point,
        forall|a: int, b: int| 0 <= a < b < after.len() ==> after[a].point != after[b].point,
        found matches Some(i) ==> i < before.len() && before[i as int].point == nb && g < before[i as int].g
            && after.len() == before.len()
            && after[i as int].point == nb && after[i as int].g == g
            && forall|k: int| 0 <= k < before.len() && k != i ==> after[k] == before[k],
        found is None ==> after.len() == before.len() + 1 && after[before.len() as int].point == nb
            && forall|k: int| 0 <= k < before.len() ==> after[k] == before[k],
    ensures
        open_ok(open, after, iters),
{
    assert forall|i: int| 0 <= i < open.len() implies {
        let n = #[trigger] open[i];
        &&& has_key(after, n.point)
        &&& n.g >= after[key_index(after, n.point)].g
        &&& point_in_range(n.point, iters)
        &&& n.g <= iters * MAX_STEP_COST
        &&& n.h <= 1_100_000_000
    } by {
        let n = open[i];
        let bi = key_index(before, n.point);
        lemma_key_index(before, n.point);
        match found {
            Some(x) => {
                if bi == x {
                    assert(after[x as int].point == n.point);
                    lemma_key_index_of(after, x as int);
                } else {
                    assert(after[bi] == before[bi]);
                    lemma_key_index_of(after, bi);
                }
            },
            None => {
                assert(after[bi] == before[bi]);
                lemma_key_index_of(after, bi);
            },
        }
    }
}

/// Stepping back to a predecessor that costs at least the step less keeps
/// the walk's cost within the goal's.
proof fn lemma_back_cost_step<F: Fn(Point) -> Option<usize>>(cost: F, back: Seq<Point>, prev: Point, gc: int, gp: int, gg: int)
    requires
        back.len() >= 1,
        path_cost(cost, back.reverse()) + gc <= gg,
        gc >= gp + step_cost(cost, back.last()),
    ensures
        path_cost(cost, back.push(prev).reverse()) + gp <= gg,
{
    let r0 = back.reverse();
    assert(r0[0] == back.last());
    assert(back.push(prev).reverse() =~= seq![prev] + r0);
    crate::ai::path_cost::lemma_path_cost_prepend(cost, prev, r0);
}

/// Follows the recorded predecessors back from the goal to the start.
#[verifier::rlimit(60)]
#[verifier::spinoff_prover]
fn reconstruct<F: Fn(Point) -> Option<usize>>(
    table: &Vec<BestKnown>,
    start: Point,
    goal: Point,
    cost: &F,
    iters: Ghost<int>,
) -> (path: Vec<Point>)
    requires
        table_ok(table@, start, *cost, iters@),
        costs_chain(*cost, table@),
        parents_ordered(table@),
        has_key(table@, goal),
    ensures
        consistent_costs(*cost) ==> path_cost(*cost, path@) <= table@[key_index(table@, goal)].g,
        path@.len() >= 1,
        path@[0] == start,
        path@.last() == goal,
        is_step_path(path@),
        forall|k: int| 1 <= k < path@.len() ==> step_allowed(*cost, #[trigger] path@[k]),
        goal == start ==> path@ == seq![start],
        goal != start && table@[key_index(table@, goal)].parent == Some(start) ==> path@ == seq![start, goal],
        path@.no_duplicates(),
{
    // The walk from the goal back towards the start.
    let mut back: Vec<Point> = vec![goal];
    let mut current = goal;
    loop
        invariant_except_break
            back.len() >= 1,
            back@[0] == goal,
            back@.last() == current,
            has_key(table@, current),
            table_ok(table@, start, *cost, iters@),
            costs_chain(*cost, table@),
            parents_ordered(table@),
            consistent_costs(*cost) ==> path_cost(*cost, back@.reverse()) + table@[key_index(table@, current)].g
                <= table@[key_index(table@, goal)].g,
            goal == start ==> back.len() == 1,
            goal != start && table@[key_index(table@, goal)].parent == Some(start)
                ==> back.len() == 1 || (back.len() == 2 && current == start),
            forall|k: int| 0 <= k < back.len() - 1 ==> #[trigger] adjacent(back@[k + 1], back@[k])
                && step_allowed(*cost, back@[k]),
            forall|a: int, b: int| 0 <= a < b < back.len() ==> entry_above(table@, back@[a], back@[b]),
        ensures
            consistent_costs(*cost) ==> path_cost(*cost, back@.reverse()) <= table@[key_index(table@, goal)].g,
            back@.no_duplicates(),
            back.len() >= 1,
            back@[0] == goal,
            back@.last() == start,
            goal == start ==> back.len() == 1,
            goal != start && table@[key_index(table@, goal)].parent == Some(start) ==> back@ == seq![goal, start],
            forall|k: int| 0 <= k < back.len() - 1 ==> #[trigger] adjacent(back@[k + 1], back@[k])
                && step_allowed(*cost, back@[k]),
        decreases table@[key_index(table@, current)].g, table@[key_index(table@, current)].stamp@,
    {
        let i = find_best(table, current).unwrap();
        proof {
            lemma_key_index_of(table@, i as int);
        }
        match table[i].parent {
            None => {
                proof {
                    assert(table@[i as int].point == start);
                    assert(table@[key_index(table@, current)].g == 0);
                    assert forall|a: int, b: int| 0 <= a < b < back.len() implies back@[a] != back@[b] by {
                        assert(entry_above(table@, back@[a], back@[b]));
                    }
                }
                break;
            },
            Some(prev) => {
                proof {
                    assert(adjacent(prev, current));
                    assert(step_allowed(*cost, current));
                    assert(current != start);
                    lemma_key_index(table@, prev);
                    reveal(parents_ordered);
                }
                let ghost before = back@;
                proof {
                    if consistent_costs(*cost) {
                        assert(table@[i as int].g >= table@[key_index(table@, prev)].g + step_cost(*cost, current));
                        lemma_back_cost_step(*cost, before, prev, table@[key_index(table@, current)].g as int,
                            table@[key_index(table@, prev)].g as int, table@[key_index(table@, goal)].g as int);
                    }
                }
                back.push(prev);
                proof {
                    assert(entry_above(table@, current, prev));
                    assert forall|a: int, b: int| 0 <= a < b < back.len() implies entry_above(table@, back@[a], back@[b]) by {
                        if b < before.len() {
                            assert(back@[a] == before[a] && back@[b] == before[b]);
                        } else {
                            assert(back@[b] == prev);
                            assert(back@[a] == before[a]);
                            if a < before.len() - 1 {
                                assert(entry_above(table@, before[a], current));
                            }
                        }
                    }
                }
                proof {
                    assert forall|k: int| 0 <= k < back.len() - 1 implies #[trigger] adjacent(back@[k + 1], back@[k])
                        && step_allowed(*cost, back@[k]) by {
                        if k < before.len() - 1 {
                            assert(back@[k] == before[k] && back@[k + 1] == before[k + 1]);
                        } else {
                            assert(back@[k] == current);
                            assert(back@[k + 1] == prev);
                        }
                    }
                }
                current = prev;
            },
        }
    }

    // Reverse into a path from the start to the goal.
    let mut path: Vec<Point> = Vec::new();
    let mut j = back.len();
    while j > 0
        invariant
            j <= back.len(),
            back.len() >= 1,
            path.len() == back.len() - j,
            forall|k: int| 0 <= k < path.len() ==> #[trigger] path@[k] == back@[back.len() - 1 - k],
        decreases j,
    {
        j = j - 1;
        path.push(back[j]);
    }
    proof {
        let n = path.len() as int;
        assert(path@ =~= back@.reverse());
        assert(path@[0] == back@[n - 1]);
        assert(path@[n - 1] == back@[0]);
        assert forall|k: int| 0 <= k < path@.len() - 1 implies #[trigger] adjacent(path@[k], path@[k + 1]) by {
            let m = n - 2 - k;
            assert(path@[k] == back@[m + 1]);
            assert(path@[k + 1] == back@[m]);
            assert(adjacent(back@[m + 1], back@[m]));
        }
        assert forall|k: int| 1 <= k < path@.len() implies step_allowed(*cost, #[trigger] path@[k]) by {
            let m = n - 1 - k;
            assert(path@[k] == back@[m]);
            assert(adjacent(back@[m + 1], back@[m]) && step_allowed(*cost, back@[m]));
        }
        if goal == start {
            assert(path@ =~= seq![start]);
        }
        assert forall|a: int, b: int| 0 <= a < b < path@.len() implies path@[a] != path@[b] by {
            assert(path@[a] == back@[n - 1 - a]);
            assert(path@[b] == back@[n - 1 - b]);
        }
        if goal != start && table@[key_index(table@, goal)].parent == Some(start) {
            assert(path@ =~= seq![start, goal]);
        }
    }
    path
}

} // verus!
