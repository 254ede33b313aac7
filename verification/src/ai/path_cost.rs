//! Ways through the world and what they cost, for judging the paths that
//! the search returns.

use vstd::prelude::*;

use crate::ai::pathfinding::{is_step_path, spec_heuristic, step_allowed};
use crate::world::coordinate_system::{adjacent, Point};

verus! {

/// `cost` gives the same answer for a point every time it is asked.
pub open spec fn deterministic_costs<F: Fn(Point) -> Option<usize>>(cost: F) -> bool {
    forall|p: Point, a: Option<usize>, b: Option<usize>|
        #![trigger call_ensures(cost, (p,), a), call_ensures(cost, (p,), b)]
        call_ensures(cost, (p,), a) && call_ensures(cost, (p,), b) ==> a == b
}

/// Every step that `cost` allows costs at least 1.
pub open spec fn costs_at_least_one<F: Fn(Point) -> Option<usize>>(cost: F) -> bool {
    forall|p: Point, c: usize| #[trigger] call_ensures(cost, (p,), Some(c)) ==> c >= 1
}

/// The cost of stepping onto `p`.
pub open spec fn step_cost<F: Fn(Point) -> Option<usize>>(cost: F, p: Point) -> int {
    (choose|c: usize| call_ensures(cost, (p,), Some(c))) as int
}

/// A way from `start`: one orthogonal step at a time, each onto a point that
/// `cost` allows.
pub open spec fn valid_path<F: Fn(Point) -> Option<usize>>(cost: F, path: Seq<Point>, start: Point) -> bool {
    &&& path.len() >= 1
    &&& path[0] == start
    &&& is_step_path(path)
    &&& forall|k: int| 1 <= k < path.len() ==> step_allowed(cost, #[trigger] path[k])
}

/// What a way costs: the cost of every step after its first point.
pub open spec fn path_cost<F: Fn(Point) -> Option<usize>>(cost: F, path: Seq<Point>) -> int
    decreases path.len(),
{
    if path.len() <= 1 {
        0
    } else {
        path_cost(cost, path.drop_last()) + step_cost(cost, path.last())
    }
}

/// What the way costs up to and including its point `j`.
pub open spec fn prefix_cost<F: Fn(Point) -> Option<usize>>(cost: F, path: Seq<Point>, j: int) -> int {
    path_cost(cost, path.take(j + 1))
}

/// Where the cost is known, it is the one that was answered.
pub proof fn lemma_step_cost<F: Fn(Point) -> Option<usize>>(cost: F, p: Point, c: usize)
    requires
        deterministic_costs(cost),
        call_ensures(cost, (p,), Some(c)),
    ensures
        step_cost(cost, p) == c,
{
    let d = choose|d: usize| call_ensures(cost, (p,), Some(d));
    assert(call_ensures(cost, (p,), Some(d)));
    assert(Some(d) == Some(c));
}

/// Steps that cost at least 1 cost at least 1.
pub proof fn lemma_step_cost_positive<F: Fn(Point) -> Option<usize>>(cost: F, p: Point)
    requires
        costs_at_least_one(cost),
        step_allowed(cost, p),
    ensures
        step_cost(cost, p) >= 1,
{
    let d = choose|d: usize| call_ensures(cost, (p,), Some(d));
    assert(call_ensures(cost, (p,), Some(d)));
}

/// Each point adds its step to the cost of the way before it.
pub proof fn lemma_prefix_step<F: Fn(Point) -> Option<usize>>(cost: F, path: Seq<Point>, j: int)
    requires
        1 <= j < path.len(),
    ensures
        prefix_cost(cost, path, j) == prefix_cost(cost, path, j - 1) + step_cost(cost, path[j]),
{
    assert(path.take(j + 1).drop_last() =~= path.take(j));
    assert(path.take(j + 1).last() == path[j]);
}

/// The way's first point costs nothing; its last point closes the whole cost.
pub proof fn lemma_prefix_ends<F: Fn(Point) -> Option<usize>>(cost: F, path: Seq<Point>)
    requires
        path.len() >= 1,
    ensures
        prefix_cost(cost, path, 0) == 0,
        prefix_cost(cost, path, path.len() - 1) == path_cost(cost, path),
{
    assert(path.take(path.len() as int) =~= path);
}

/// Manhattan distance obeys the triangle inequality, and is 1 between
/// neighbours.
pub proof fn lemma_heuristic_triangle(a: Point, b: Point, c: Point)
    ensures
        spec_heuristic(a, c) <= spec_heuristic(a, b) + spec_heuristic(b, c),
        adjacent(a, b) ==> spec_heuristic(a, b) == 1,
        spec_heuristic(a, a) == 0,
{
}

/// With steps of at least 1, the Manhattan distance from a point of the way to
/// its end never exceeds what the rest of the way costs.
pub proof fn lemma_heuristic_admissible<F: Fn(Point) -> Option<usize>>(cost: F, path: Seq<Point>, j: int)
    requires
        costs_at_least_one(cost),
        path.len() >= 1,
        is_step_path(path),
        forall|k: int| 1 <= k < path.len() ==> step_allowed(cost, #[trigger] path[k]),
        0 <= j < path.len(),
    ensures
        spec_heuristic(path[j], path.last()) <= path_cost(cost, path) - prefix_cost(cost, path, j),
    decreases path.len(),
{
    let n = path.len() - 1;
    if j == n {
        lemma_prefix_ends(cost, path);
        lemma_heuristic_triangle(path[j], path[j], path[j]);
    } else {
        let d = path.drop_last();
        assert forall|k: int| 0 <= k < d.len() - 1 implies #[trigger] adjacent(d[k], d[k + 1]) by {
            assert(adjacent(path[k], path[k + 1]));
        }
        assert forall|k: int| 1 <= k < d.len() implies step_allowed(cost, #[trigger] d[k]) by {
            assert(d[k] == path[k]);
        }
        lemma_heuristic_admissible(cost, d, j);
        assert(d.take(j + 1) =~= path.take(j + 1));
        assert(d.last() == path[n - 1]);
        let m = n - 1;
        assert(adjacent(path[m], path[m + 1]));
        lemma_heuristic_triangle(path[j], path[n - 1], path[n]);
        lemma_step_cost_positive(cost, path[n]);
    }
}

/// Putting a point in front adds the step onto the old first point.
pub proof fn lemma_path_cost_prepend<F: Fn(Point) -> Option<usize>>(cost: F, p: Point, path: Seq<Point>)
    requires
        path.len() >= 1,
    ensures
        path_cost(cost, seq![p] + path) == step_cost(cost, path[0]) + path_cost(cost, path),
    decreases path.len(),
{
    let q = seq![p] + path;
    if path.len() == 1 {
        assert(q.drop_last() =~= seq![p]);
        assert(q.last() == path[0]);
        assert(path_cost(cost, q.drop_last()) == 0);
        assert(path_cost(cost, q) == path_cost(cost, q.drop_last()) + step_cost(cost, q.last()));
    } else {
        let d = path.drop_last();
        lemma_path_cost_prepend(cost, p, d);
        assert(q.drop_last() =~= seq![p] + d);
        assert(q.last() == path.last());
        assert(d[0] == path[0]);
        assert(path_cost(cost, q) == path_cost(cost, q.drop_last()) + step_cost(cost, q.last()));
        assert(path_cost(cost, path) == path_cost(cost, d) + step_cost(cost, path.last()));
    }
}

} // verus!
