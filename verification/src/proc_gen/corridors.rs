use vstd::prelude::*;

use rand::rngs::StdRng;

use crate::proc_gen::mst::{cheaply_linked, edge_between, is_forest, is_walk, linked, mst_kruskal, sum_weights};
use crate::proc_gen::proc_gen_room::{half_towards_zero, spec_center, ProcGenRoom};
use crate::ai::pathfinding::{a_star, is_step_path, pathfinding_naive};
use crate::proc_gen::population::{holds_point, room_listable};
use crate::proc_gen::proc_gen_room::{spec_is_floor_point, spec_wall_points};
use crate::util::random::{rng_choose, rng_from_seed, rng_range_i32, rng_ratio};
use crate::world::worldspace::point_lex_lt;
use crate::world::coordinate_system::{spec_distance_squared, Point};
use crate::world::world_data::DoorTypeData;
use crate::world::worldspace::{WORLD_HEIGHT, WORLD_WIDTH};

verus! {

/// A possible corridor between two rooms, weighted by the squared distance
/// of the room centres.
#[derive(Clone, Copy, Debug, PartialEq, Eq, Structural)]
pub struct MapEdge {
    pub source: usize,
    pub destination: usize,
    pub weight: usize,
}


/// Corridor tiles and doors of a procedurally generated map.
pub struct ProcGenCorridorMap {
    pub corridors: Vec<Point>,
    pub doors: Vec<(Point, DoorTypeData)>,
}

impl ProcGenCorridorMap {
    pub fn new() -> (m: Self)
        ensures
            m.corridors@.len() == 0,
            m.doors@.len() == 0,
    {
        Self { corridors: Vec::new(), doors: Vec::new() }
    }
}

/// The procedurally generated world: rooms and corridors.
pub struct ProcGenWorld {
    pub rooms: Vec<ProcGenRoom>,
    pub corridor_map: ProcGenCorridorMap,
}

/// Whether the centre of a room can be computed in signed arithmetic.
pub open spec fn room_fits(room: ProcGenRoom) -> bool {
    &&& room.point_a.x <= isize::MAX
    &&& room.point_a.y <= isize::MAX
    &&& room.point_b.x <= isize::MAX
    &&& room.point_b.y <= isize::MAX
}

/// The squared distance of the centres of two rooms.
pub open spec fn center_distance(a: ProcGenRoom, b: ProcGenRoom) -> int {
    spec_distance_squared(spec_center(a.point_a, a.point_b), spec_center(b.point_a, b.point_b))
}

/// The edge between rooms `i` and `j`.
pub open spec fn edge_for(rooms: Seq<ProcGenRoom>, i: int, j: int) -> MapEdge {
    MapEdge { source: i as usize, destination: j as usize, weight: center_distance(rooms[i], rooms[j]) as usize }
}

/// Whether `e` joins two different rooms, from the lower index to the higher,
/// weighted by the squared distance of their centres.
pub open spec fn room_edge(rooms: Seq<ProcGenRoom>, e: MapEdge) -> bool {
    &&& e.source < e.destination < rooms.len()
    &&& e == edge_for(rooms, e.source as int, e.destination as int)
}

/// Lexicographic order on edges by (source, destination).
pub open spec fn edge_lex_lt(a: MapEdge, b: MapEdge) -> bool {
    a.source < b.source || (a.source == b.source && a.destination < b.destination)
}

/// Whether every room centre pair can be measured without overflow.
pub open spec fn rooms_measurable(rooms: Seq<ProcGenRoom>) -> bool {
    &&& forall|i: int| 0 <= i < rooms.len() ==> room_fits(#[trigger] rooms[i])
    &&& forall|i: int, j: int| 0 <= i < rooms.len() && 0 <= j < rooms.len()
        ==> center_distance(#[trigger] rooms[i], #[trigger] rooms[j]) <= isize::MAX
}

impl ProcGenWorld {
    /// Every pair of different rooms as an edge weighted by the squared
    /// distance of their centres, ordered by source, then destination.
    pub fn all_edges(&self) -> (edges: Vec<MapEdge>)
        requires
            rooms_measurable(self.rooms@),
        ensures
            forall|k: int| 0 <= k < edges.len() ==> {
                let e = #[trigger] edges@[k];
                &&& e.source < e.destination < self.rooms.len()
                &&& e == edge_for(self.rooms@, e.source as int, e.destination as int)
            },
            forall|i: int, j: int| 0 <= i < j < self.rooms.len() ==> edges@.contains(edge_for(self.rooms@, i, j)),
            forall|a: int, b: int| 0 <= a < b < edges.len() ==> edge_lex_lt(edges@[a], edges@[b]),
            edges@.len() <= self.rooms@.len() * self.rooms@.len(),
    {
        let mut edges: Vec<MapEdge> = Vec::new();
        let n = self.rooms.len();
        let mut i: usize = 0;
        while i < n
            invariant
                i <= n,
                n == self.rooms.len(),
                rooms_measurable(self.rooms@),
                forall|k: int| 0 <= k < edges.len() ==> {
                    let e = #[trigger] edges@[k];
                    &&& e.source < e.destination < n
                    &&& e.source < i
                    &&& e == edge_for(self.rooms@, e.source as int, e.destination as int)
                },
                forall|a: int, b: int| 0 <= a < i && a < b < n ==> edges@.contains(edge_for(self.rooms@, a, b)),
                forall|a: int, b: int| 0 <= a < b < edges.len() ==> edge_lex_lt(edges@[a], edges@[b]),
                edges@.len() <= i * n,
            decreases n - i,
        {
            let room_a_center = self.rooms[i].center();
            let mut j: usize = i + 1;
            while j < n
                invariant
                    i < n,
                    i + 1 <= j <= n,
                    n == self.rooms.len(),
                    rooms_measurable(self.rooms@),
                    room_a_center == spec_center(self.rooms@[i as int].point_a, self.rooms@[i as int].point_b),
                    forall|k: int| 0 <= k < edges.len() ==> {
                        let e = #[trigger] edges@[k];
                        &&& e.source < e.destination < n
                        &&& (e.source < i || (e.source == i && e.destination < j))
                        &&& e == edge_for(self.rooms@, e.source as int, e.destination as int)
                    },
                    forall|a: int, b: int| 0 <= a < b < n && (a < i || (a == i && b < j))
                        ==> edges@.contains(edge_for(self.rooms@, a, b)),
                    forall|a: int, b: int| 0 <= a < b < edges.len() ==> edge_lex_lt(edges@[a], edges@[b]),
                    edges@.len() <= i * n + (j - i - 1),
                decreases n - j,
            {
                let room_b_center = self.rooms[j].center();
                proof {
                    assert(room_fits(self.rooms@[i as int]));
                    assert(room_fits(self.rooms@[j as int]));
                    assert(center_distance(self.rooms@[i as int], self.rooms@[j as int]) <= isize::MAX);
                }
                let distance = room_a_center.distance_squared_from(room_b_center);
                let e = MapEdge { source: i, destination: j, weight: distance };
                let ghost before = edges@;
                edges.push(e);
                proof {
                    assert(e == edge_for(self.rooms@, i as int, j as int));
                    assert forall|a: int, b: int| 0 <= a < b < n && (a < i || (a == i && b < j + 1))
                        implies edges@.contains(edge_for(self.rooms@, a, b)) by {
                        if a == i && b == j {
                            assert(edges@[edges.len() - 1] == e);
                        } else {
                            assert(before.contains(edge_for(self.rooms@, a, b)));
                            let k = choose|k: int| 0 <= k < before.len() && before[k] == edge_for(self.rooms@, a, b);
                            assert(edges@[k] == before[k]);
                        }
                    }
                }
                j = j + 1;
            }
            proof {
                assert(i * n + n == (i + 1) * n) by (nonlinear_arith);
            }
            i = i + 1;
        }
        edges
    }

    /// Fallback connections: each room to the next one, with weight 1.
    pub fn find_room_connections_naive(&self) -> (connections: Vec<MapEdge>)
        ensures
            connections@.len() == if self.rooms.len() > 0 { self.rooms.len() - 1 } else { 0 },
            forall|k: int| 0 <= k < connections.len() ==> #[trigger] connections@[k]
                == (MapEdge { source: k as usize, destination: (k + 1) as usize, weight: 1 }),
    {
        let mut connections: Vec<MapEdge> = Vec::new();
        let n = if self.rooms.len() > 0 { self.rooms.len() - 1 } else { 0 };
        let mut i: usize = 0;
        while i < n
            invariant
                i <= n,
                n < usize::MAX,
                n == if self.rooms.len() > 0 { self.rooms.len() - 1 } else { 0 },
                connections.len() == i,
                forall|k: int| 0 <= k < i ==> #[trigger] connections@[k]
                    == (MapEdge { source: k as usize, destination: (k + 1) as usize, weight: 1 }),
            decreases n - i,
        {
            connections.push(MapEdge { source: i, destination: i + 1, weight: 1 });
            i = i + 1;
        }
        connections
    }
}

/// Whether a room's corners lie within the world's extent.
pub open spec fn room_in_world(room: ProcGenRoom) -> bool {
    &&& room.point_a.x <= WORLD_WIDTH && room.point_b.x <= WORLD_WIDTH
    &&& room.point_a.y <= WORLD_HEIGHT && room.point_b.y <= WORLD_HEIGHT
}

/// The largest squared distance of two points of the world's extent.
pub const MAX_CENTER_DISTANCE: usize = 10_625;

/// The centre of a room of the world lies in the world's extent.
proof fn lemma_center_in_world(room: ProcGenRoom)
    requires
        room_in_world(room),
    ensures
        spec_center(room.point_a, room.point_b).x <= WORLD_WIDTH,
        spec_center(room.point_a, room.point_b).y <= WORLD_HEIGHT,
{
    let hx = half_towards_zero(room.point_b.x - room.point_a.x);
    let hy = half_towards_zero(room.point_b.y - room.point_a.y);
    assert(room.point_a.x + hx <= WORLD_WIDTH);
    assert(room.point_a.y + hy <= WORLD_HEIGHT);
}

/// Rooms of the world are at most [MAX_CENTER_DISTANCE] apart (squared).
proof fn lemma_center_distance_bound(a: ProcGenRoom, b: ProcGenRoom)
    requires
        room_in_world(a),
        room_in_world(b),
    ensures
        0 <= center_distance(a, b) <= MAX_CENTER_DISTANCE,
        room_fits(a),
{
    lemma_center_in_world(a);
    lemma_center_in_world(b);
    let ca = spec_center(a.point_a, a.point_b);
    let cb = spec_center(b.point_a, b.point_b);
    let dx = ca.x - cb.x;
    let dy = ca.y - cb.y;
    assert(dx * dx <= 10_000) by (nonlinear_arith)
        requires -100 <= dx <= 100;
    assert(dy * dy <= 625) by (nonlinear_arith)
        requires -25 <= dy <= 25;
    assert(dx * dx >= 0 && dy * dy >= 0) by (nonlinear_arith);
}

/// Weights each at most `w` add up to at most `w` per edge.
proof fn lemma_sum_weights_bound(es: Seq<MapEdge>, w: int)
    requires
        w >= 0,
        forall|k: int| 0 <= k < es.len() ==> (#[trigger] es[k]).weight <= w,
    ensures
        0 <= sum_weights(es) <= es.len() * w,
    decreases es.len(),
{
    if es.len() > 0 {
        let rest = es.drop_last();
        assert forall|k: int| 0 <= k < rest.len() implies (#[trigger] rest[k]).weight <= w by {
            assert(rest[k] == es[k]);
        }
        lemma_sum_weights_bound(rest, w);
        assert(rest.len() * w + w == es.len() * w) by (nonlinear_arith)
            requires rest.len() + 1 == es.len();
    }
}

impl ProcGenWorld {
    /// The corridors to dig: a minimum spanning tree of the rooms by the
    /// distance of their centres, then, for loops, each other room pair with
    /// a chance of 1 in 20, as the generator draws.
    ///
    /// Every two rooms are joined by an edge, so the tree always exists (the
    /// naive chain of rooms stands behind it only as a fallback that is never
    /// taken). It joins every two rooms, and joins the two rooms of any pair
    /// through edges no longer than that pair's own edge: the condition that
    /// makes a spanning tree minimal.
    pub fn find_room_connections(&self, rng: &mut StdRng) -> (connections: Vec<MapEdge>)
        requires
            1 <= self.rooms@.len(),
            self.rooms@.len() * MAX_CENTER_DISTANCE <= usize::MAX,
            forall|r: int| 0 <= r < self.rooms@.len() ==> room_in_world(#[trigger] self.rooms@[r]),
        ensures
            connections@.len() >= self.rooms@.len() - 1,
            ({
                let tree = connections@.take(self.rooms@.len() - 1);
                &&& is_forest(tree)
                &&& forall|k: int| 0 <= k < tree.len() ==> {
                        let e = #[trigger] tree[k];
                        &&& e.source < e.destination < self.rooms@.len()
                        &&& e == edge_for(self.rooms@, e.source as int, e.destination as int)
                    }
            }),
            forall|k: int| self.rooms@.len() - 1 <= k < connections@.len() ==> {
                let e = #[trigger] connections@[k];
                &&& e.source < e.destination < self.rooms@.len()
                &&& e == edge_for(self.rooms@, e.source as int, e.destination as int)
            },
            forall|u: int, v: int| 0 <= u < self.rooms@.len() && 0 <= v < self.rooms@.len()
                ==> #[trigger] linked(connections@.take(self.rooms@.len() - 1), u, v),
            forall|a: int, b: int| 0 <= a < b < self.rooms@.len()
                ==> cheaply_linked(connections@.take(self.rooms@.len() - 1), #[trigger] edge_for(self.rooms@, a, b)),
            forall|t: Seq<MapEdge>| t.len() == self.rooms@.len() - 1 && is_forest(t)
                && (forall|x: int| 0 <= x < t.len() ==> room_edge(self.rooms@, #[trigger] t[x]))
                ==> sum_weights(connections@.take(self.rooms@.len() - 1)) <= #[trigger] sum_weights(t),
    {
        let n = self.rooms.len();
        proof {
            assert forall|i: int| 0 <= i < n implies room_fits(#[trigger] self.rooms@[i]) by {
                lemma_center_distance_bound(self.rooms@[i], self.rooms@[i]);
            }
            assert forall|i: int, j: int| 0 <= i < n && 0 <= j < n
                implies center_distance(#[trigger] self.rooms@[i], #[trigger] self.rooms@[j]) <= isize::MAX by {
                lemma_center_distance_bound(self.rooms@[i], self.rooms@[j]);
            }
        }
        let edges = self.all_edges();
        proof {
            assert forall|k: int| 0 <= k < edges@.len() implies (#[trigger] edges@[k]).weight <= MAX_CENTER_DISTANCE by {
                let e = edges@[k];
                lemma_center_distance_bound(self.rooms@[e.source as int], self.rooms@[e.destination as int]);
            }
            assert forall|t: Seq<MapEdge>| t.len() < n && t.to_multiset().subset_of(edges@.to_multiset())
                implies #[trigger] sum_weights(t) <= usize::MAX by {
                broadcast use vstd::seq_lib::group_to_multiset_ensures;
                assert forall|k: int| 0 <= k < t.len() implies (#[trigger] t[k]).weight <= MAX_CENTER_DISTANCE by {
                    assert(t.to_multiset().count(t[k]) > 0);
                    assert(edges@.contains(t[k]));
                }
                lemma_sum_weights_bound(t, MAX_CENTER_DISTANCE as int);
                assert(t.len() * MAX_CENTER_DISTANCE <= n * MAX_CENTER_DISTANCE) by (nonlinear_arith)
                    requires t.len() < n, MAX_CENTER_DISTANCE >= 0;
            }
        }
        proof {
            // Every two rooms are joined by an edge of their own: Kruskal succeeds.
            assert forall|u: int, v: int| 0 <= u < n && 0 <= v < n implies #[trigger] linked(edges@, u, v) by {
                if u == v {
                    assert(is_walk(edges@, seq![u]));
                } else {
                    let (a, b) = if u < v { (u, v) } else { (v, u) };
                    assert(edges@.contains(edge_for(self.rooms@, a, b)));
                    let m = choose|m: int| 0 <= m < edges@.len() && edges@[m] == edge_for(self.rooms@, a, b);
                    assert(edges@[m] == edges@[m]);
                    assert(edge_between(edges@, u, v));
                    let path = seq![u, v];
                    assert(edge_between(edges@, path[0], path[1]));
                    assert(is_walk(edges@, path));
                }
            }
            assert forall|i: int| 0 <= i < edges@.len() implies #[trigger] edges@[i].source < n
                && edges@[i].destination < n by {}
        }
        let mut connections = match mst_kruskal(edges.clone(), n) {
            Ok((_, tree)) => {
                proof {
                    broadcast use vstd::seq_lib::group_to_multiset_ensures;
                    assert forall|k: int| 0 <= k < tree@.len() implies {
                        let e = #[trigger] tree@[k];
                        &&& e.source < e.destination < n
                        &&& e == edge_for(self.rooms@, e.source as int, e.destination as int)
                    } by {
                        assert(tree@.to_multiset().count(tree@[k]) > 0);
                        assert(edges@.contains(tree@[k]));
                    }
                    assert(tree@.take(n - 1) =~= tree@);
                    assert forall|t: Seq<MapEdge>| t.len() == n - 1 && is_forest(t)
                        && (forall|x: int| 0 <= x < t.len() ==> room_edge(self.rooms@, #[trigger] t[x]))
                        implies sum_weights(tree@.take(n - 1)) <= #[trigger] sum_weights(t) by {
                        assert(t.no_duplicates()) by {
                            assert forall|x: int, y: int| 0 <= x < t.len() && 0 <= y < t.len() && x != y implies t[x] != t[y] by {
                                let (lo, hi) = if x < y { (x, y) } else { (y, x) };
                                if t[lo] == t[hi] {
                                    assert(t.take(hi)[lo] == t[lo]);
                                    crate::proc_gen::forest_rank::lemma_linked_member(t.take(hi), lo);
                                    assert(!linked(t.take(hi), t[hi].source as int, t[hi].destination as int));
                                }
                            }
                        }
                        t.lemma_multiset_has_no_duplicates();
                        assert(t.to_multiset().subset_of(edges@.to_multiset())) by {
                            assert forall|e: MapEdge| t.to_multiset().count(e) <= edges@.to_multiset().count(e) by {
                                if t.to_multiset().count(e) > 0 {
                                    assert(t.to_multiset().contains(e));
                                    assert(t.contains(e));
                                    let x = choose|x: int| 0 <= x < t.len() && t[x] == e;
                                    assert(room_edge(self.rooms@, t[x]));
                                    assert(edges@.contains(edge_for(self.rooms@, e.source as int, e.destination as int)));
                                    assert(edges@.to_multiset().count(e) > 0);
                                }
                            }
                        }
                    }
                    assert forall|a: int, b: int| 0 <= a < b < n
                        implies cheaply_linked(tree@.take(n - 1), #[trigger] edge_for(self.rooms@, a, b)) by {
                        assert(edges@.contains(edge_for(self.rooms@, a, b)));
                        let m = choose|m: int| 0 <= m < edges@.len() && edges@[m] == edge_for(self.rooms@, a, b);
                        assert(cheaply_linked(tree@, edges@[m]));
                    }
                }
                tree
            },
            Err(_) => {
                proof {
                    assert(false);
                }
                self.find_room_connections_naive()
            },
        };
        proof {
            assert(connections@.take(n - 1) =~= connections@);
        }
        let ghost base = connections@;
        proof {
            assert(connections@.take(n - 1) =~= base);
            assert forall|u: int, v: int| 0 <= u < n && 0 <= v < n implies #[trigger] linked(base, u, v) by {
                assert(linked(connections@.take(n - 1), u, v));
            }
            assert forall|a: int, b: int| 0 <= a < b < n implies cheaply_linked(base, #[trigger] edge_for(self.rooms@, a, b)) by {
                assert(cheaply_linked(connections@.take(n - 1), edge_for(self.rooms@, a, b)));
            }
            assert forall|t: Seq<MapEdge>| t.len() == n - 1 && is_forest(t)
                && (forall|x: int| 0 <= x < t.len() ==> room_edge(self.rooms@, #[trigger] t[x]))
                implies sum_weights(base) <= #[trigger] sum_weights(t) by {
                assert(sum_weights(connections@.take(n - 1)) <= sum_weights(t));
            }
        }
        let mut k: usize = 0;
        while k < edges.len()
            invariant
                k <= edges@.len(),
                n == self.rooms@.len(),
                base.len() == n - 1,
                forall|u: int, v: int| 0 <= u < n && 0 <= v < n ==> #[trigger] linked(base, u, v),
                forall|a: int, b: int| 0 <= a < b < n ==> cheaply_linked(base, #[trigger] edge_for(self.rooms@, a, b)),
                forall|t: Seq<MapEdge>| t.len() == n - 1 && is_forest(t)
                    && (forall|x: int| 0 <= x < t.len() ==> room_edge(self.rooms@, #[trigger] t[x]))
                    ==> sum_weights(base) <= #[trigger] sum_weights(t),
                connections@.len() >= base.len(),
                connections@.take(n - 1) == base,
                forall|m: int| 0 <= m < edges.len() ==> {
                    let e = #[trigger] edges@[m];
                    &&& e.source < e.destination < n
                    &&& e == edge_for(self.rooms@, e.source as int, e.destination as int)
                },
                forall|m: int| n - 1 <= m < connections@.len() ==> {
                    let e = #[trigger] connections@[m];
                    &&& e.source < e.destination < n
                    &&& e == edge_for(self.rooms@, e.source as int, e.destination as int)
                },
            decreases edges@.len() - k,
        {
            if rng_ratio(rng, 1, 20) {
                let ghost before = connections@;
                connections.push(edges[k]);
                proof {
                    assert(connections@.take(n - 1) =~= before.take(n - 1));
                    assert forall|m: int| n - 1 <= m < connections@.len() implies {
                        let e = #[trigger] connections@[m];
                        &&& e.source < e.destination < n
                        &&& e == edge_for(self.rooms@, e.source as int, e.destination as int)
                    } by {
                        if m < before.len() {
                            assert(connections@[m] == before[m]);
                        }
                    }
                }
            }
            k = k + 1;
        }
        proof {
            assert(connections@.take(n - 1) == base);
            assert forall|u: int, v: int| 0 <= u < n && 0 <= v < n implies #[trigger] linked(connections@.take(n - 1), u, v) by {
                assert(linked(base, u, v));
            }
            assert forall|a: int, b: int| 0 <= a < b < n
                implies cheaply_linked(connections@.take(n - 1), #[trigger] edge_for(self.rooms@, a, b)) by {
                assert(cheaply_linked(base, edge_for(self.rooms@, a, b)));
            }
            assert forall|t: Seq<MapEdge>| t.len() == n - 1 && is_forest(t)
                && (forall|x: int| 0 <= x < t.len() ==> room_edge(self.rooms@, #[trigger] t[x]))
                implies sum_weights(connections@.take(n - 1)) <= #[trigger] sum_weights(t) by {
                assert(sum_weights(base) <= sum_weights(t));
            }
        }
        connections
    }
}

/// The door type a percentile roll (0 to 99) gives: 20% closed, 5% open,
/// 75% archway.
pub open spec fn spec_door_type_for(n: int) -> DoorTypeData {
    if n <= 19 {
        DoorTypeData::Closed
    } else if n <= 24 {
        DoorTypeData::Open
    } else {
        DoorTypeData::Archway
    }
}

/// The door type of a percentile roll.
pub fn door_type_for(n: i32) -> (d: DoorTypeData)
    requires
        0 <= n < 100,
    ensures
        d == spec_door_type_for(n as int),
{
    if n <= 19 {
        DoorTypeData::Closed
    } else if n <= 24 {
        DoorTypeData::Open
    } else {
        DoorTypeData::Archway
    }
}

/// Whether `p` is a wall point of one of the rooms.
pub open spec fn on_some_wall(rooms: Seq<ProcGenRoom>, p: Point) -> bool {
    exists|r: int| 0 <= r < rooms.len() && #[trigger] spec_wall_points(rooms[r]).contains(p)
}

/// Whether `p` is a floor point of one of the rooms.
pub open spec fn on_some_room_floor(rooms: Seq<ProcGenRoom>, p: Point) -> bool {
    exists|r: int| 0 <= r < rooms.len() && #[trigger] spec_is_floor_point(rooms[r], p)
}

/// Sorts points in increasing order (by column, then row), keeping them.
pub fn sort_points(points: &mut Vec<Point>)
    ensures
        final(points)@.to_multiset() == old(points)@.to_multiset(),
        final(points)@.len() == old(points)@.len(),
        forall|a: int, b: int| 0 <= a < b < final(points)@.len() ==> !point_lex_lt(final(points)@[b], final(points)@[a]),
{
    let n = points.len();
    if n == 0 {
        return;
    }
    let mut i: usize = 1;
    while i < n
        invariant
            1 <= i <= n,
            n == points.len(),
            points@.to_multiset() == old(points)@.to_multiset(),
            forall|a: int, b: int| 0 <= a < b < i ==> !point_lex_lt(points@[b], points@[a]),
        decreases n - i,
    {
        let mut j = i;
        while j > 0 && (points[j].x < points[j - 1].x || (points[j].x == points[j - 1].x && points[j].y < points[j - 1].y))
            invariant
                0 <= j <= i < n,
                n == points.len(),
                points@.to_multiset() == old(points)@.to_multiset(),
                forall|a: int, b: int| 0 <= a < b <= i && a != j && b != j ==> !point_lex_lt(points@[b], points@[a]),
                forall|b: int| j < b <= i ==> point_lex_lt(points@[j as int], points@[b]),
            decreases j,
        {
            let left = points[j - 1];
            let right = points[j];
            let ghost before = points@;
            points.set(j - 1, right);
            points.set(j, left);
            proof {
                assert(points@ == before.update(j - 1, before[j as int]).update(j as int, before[j - 1]));
                let a = before[j - 1];
                let b = before[j as int];
                let m1 = before.update(j - 1, b);
                vstd::seq_lib::to_multiset_update(before, j - 1, b);
                vstd::seq_lib::to_multiset_update(m1, j as int, a);
                assert(m1[j as int] == b);
                broadcast use vstd::multiset::group_multiset_axioms;
                assert(before.to_multiset().count(a) > 0) by {
                    broadcast use vstd::seq_lib::group_to_multiset_ensures;
                    assert(before.contains(a));
                }
                assert(points@.to_multiset() =~= before.to_multiset());
            }
            j = j - 1;
        }
        proof {
            assert forall|a: int, b: int| 0 <= a < b < i + 1 implies !point_lex_lt(points@[b], points@[a]) by {
                if a != j && b != j {
                } else if a == j {
                    assert(point_lex_lt(points@[j as int], points@[b]));
                } else {
                    if j > 0 {
                        assert(!point_lex_lt(points@[j as int], points@[j - 1]));
                        if a < j - 1 {
                            assert(!point_lex_lt(points@[j - 1], points@[a]));
                        }
                    }
                }
            }
        }
        i = i + 1;
    }
}

/// The largest coordinate a search from the world ever looks at.
pub const SEARCH_REACH: usize = 22_500;

/// `p` is a floor point of `room`, or its centre.
pub open spec fn room_anchor(room: ProcGenRoom, p: Point) -> bool {
    spec_is_floor_point(room, p) || p == spec_center(room.point_a, room.point_b)
}

/// Every point of `path` on a wall is a door, and every point of it off the
/// room floors and walls is a corridor.
pub open spec fn path_laid(
    rooms: Seq<ProcGenRoom>,
    corridors: Seq<Point>,
    doors: Seq<(Point, DoorTypeData)>,
    path: Seq<Point>,
) -> bool {
    forall|k: int| 0 <= k < path.len() ==> {
        &&& on_some_wall(rooms, #[trigger] path[k])
            ==> exists|d: int| 0 <= d < doors.len() && (#[trigger] doors[d]).0 == path[k]
        &&& !on_some_wall(rooms, path[k]) && !on_some_room_floor(rooms, path[k]) ==> corridors.contains(path[k])
    }
}

/// The corridors join the rooms: along the connections `conns`, which link
/// every two rooms, run the step paths `paths`, each from a room of its
/// connection to the other, and laid out as corridors and doors.
pub open spec fn rooms_joined(
    rooms: Seq<ProcGenRoom>,
    corridors: Seq<Point>,
    doors: Seq<(Point, DoorTypeData)>,
    conns: Seq<MapEdge>,
    paths: Seq<Seq<Point>>,
) -> bool {
    &&& paths.len() == conns.len()
    &&& conns.len() >= rooms.len() - 1
    &&& forall|u: int, v: int| 0 <= u < rooms.len() && 0 <= v < rooms.len()
            ==> #[trigger] linked(conns.take(rooms.len() - 1), u, v)
    &&& forall|c: int| 0 <= c < conns.len() ==> {
            &&& (#[trigger] conns[c]).source < rooms.len()
            &&& conns[c].destination < rooms.len()
            &&& paths[c].len() >= 1
            &&& is_step_path(paths[c])
            &&& room_anchor(rooms[conns[c].source as int], paths[c][0])
            &&& room_anchor(rooms[conns[c].destination as int], paths[c].last())
            &&& path_laid(rooms, corridors, doors, paths[c])
        }
}

impl ProcGenWorld {
    /// Digs the corridors: for each connection (see
    /// [ProcGenWorld::find_room_connections], drawn from a generator seeded
    /// with `corridor_seed`), a path from a random floor point of one room
    /// to one of the other (the centre where a room has no floor) by A*,
    /// which may not pass corners nor open a wall next to an opening, and
    /// prefers dug corridors (cost 1), then open ground (4), walls (8) and
    /// room floors (10); the naive path where A* finds none. The points dug
    /// outside rooms become corridors; those in walls become doors, in
    /// sorted order, each of a type the generator draws. So the corridors
    /// join every two rooms.
    pub fn a_star_corridors(&self, corridor_seed: u64) -> (map: ProcGenCorridorMap)
        requires
            1 <= self.rooms@.len(),
            self.rooms@.len() * MAX_CENTER_DISTANCE <= usize::MAX,
            forall|r: int| 0 <= r < self.rooms@.len() ==> room_in_world(#[trigger] self.rooms@[r])
                && room_listable(self.rooms@[r]),
        ensures
            map.corridors@.no_duplicates(),
            forall|k: int| 0 <= k < map.corridors@.len() ==> !on_some_room_floor(self.rooms@, #[trigger] map.corridors@[k])
                && !on_some_wall(self.rooms@, map.corridors@[k]),
            forall|k: int| 0 <= k < map.doors@.len() ==> on_some_wall(self.rooms@, (#[trigger] map.doors@[k]).0),
            forall|a: int, b: int| 0 <= a < b < map.doors@.len() ==> point_lex_lt(map.doors@[a].0, map.doors@[b].0),
            exists|conns: Seq<MapEdge>, paths: Seq<Seq<Point>>|
                rooms_joined(self.rooms@, map.corridors@, map.doors@, conns, paths),
    {
        let mut rng = rng_from_seed(corridor_seed);
        let connections = self.find_room_connections(&mut rng);

        let mut room_corners: Vec<Point> = Vec::new();
        let mut room_walls: Vec<Point> = Vec::new();
        let mut room_floor: Vec<Point> = Vec::new();
        let mut r: usize = 0;
        while r < self.rooms.len()
            invariant
                r <= self.rooms@.len(),
                forall|k: int| 0 <= k < self.rooms@.len() ==> room_listable(#[trigger] self.rooms@[k]),
                forall|q: Point| room_walls@.contains(q) <==> exists|k: int| 0 <= k < r
                    && #[trigger] spec_wall_points(self.rooms@[k]).contains(q),
                forall|q: Point| room_floor@.contains(q) <==> exists|k: int| 0 <= k < r
                    && #[trigger] spec_is_floor_point(self.rooms@[k], q),
            decreases self.rooms@.len() - r,
        {
            let room = self.rooms[r];
            let mut corners = room.corner_points();
            let mut walls = room.wall_points();
            let mut floor = room.floor_points();
            let ghost walls_before = room_walls@;
            let ghost floor_before = room_floor@;
            let ghost new_walls = walls@;
            let ghost new_floor = floor@;
            room_corners.append(&mut corners);
            room_walls.append(&mut walls);
            room_floor.append(&mut floor);
            proof {
                assert forall|q: Point| room_walls@.contains(q) <==> exists|k: int| 0 <= k < r + 1
                    && #[trigger] spec_wall_points(self.rooms@[k]).contains(q) by {
                    if room_walls@.contains(q) {
                        let m = choose|m: int| 0 <= m < room_walls@.len() && room_walls@[m] == q;
                        if m < walls_before.len() {
                            assert(walls_before[m] == q);
                            assert(walls_before.contains(q));
                        } else {
                            assert(new_walls[m - walls_before.len()] == q);
                            assert(spec_wall_points(self.rooms@[r as int]).contains(q));
                        }
                    }
                    if exists|k: int| 0 <= k < r + 1 && #[trigger] spec_wall_points(self.rooms@[k]).contains(q) {
                        let k = choose|k: int| 0 <= k < r + 1 && #[trigger] spec_wall_points(self.rooms@[k]).contains(q);
                        if k < r {
                            assert(walls_before.contains(q));
                            let m = choose|m: int| 0 <= m < walls_before.len() && walls_before[m] == q;
                            assert(room_walls@[m] == q);
                        } else {
                            let m = choose|m: int| 0 <= m < new_walls.len() && new_walls[m] == q;
                            assert(room_walls@[walls_before.len() + m] == q);
                        }
                    }
                }
                assert forall|q: Point| room_floor@.contains(q) <==> exists|k: int| 0 <= k < r + 1
                    && #[trigger] spec_is_floor_point(self.rooms@[k], q) by {
                    if room_floor@.contains(q) {
                        let m = choose|m: int| 0 <= m < room_floor@.len() && room_floor@[m] == q;
                        if m < floor_before.len() {
                            assert(floor_before[m] == q);
                            assert(floor_before.contains(q));
                        } else {
                            assert(new_floor[m - floor_before.len()] == q);
                            assert(new_floor.contains(q));
                            assert(spec_is_floor_point(self.rooms@[r as int], q));
                        }
                    }
                    if exists|k: int| 0 <= k < r + 1 && #[trigger] spec_is_floor_point(self.rooms@[k], q) {
                        let k = choose|k: int| 0 <= k < r + 1 && #[trigger] spec_is_floor_point(self.rooms@[k], q);
                        if k < r {
                            assert(floor_before.contains(q));
                            let m = choose|m: int| 0 <= m < floor_before.len() && floor_before[m] == q;
                            assert(room_floor@[m] == q);
                        } else {
                            assert(new_floor.contains(q));
                            let m = choose|m: int| 0 <= m < new_floor.len() && new_floor[m] == q;
                            assert(room_floor@[floor_before.len() + m] == q);
                        }
                    }
                }
            }
            r = r + 1;
        }

        proof {
            let n = self.rooms@.len();
            assert forall|k: int| 0 <= k < connections@.len() implies (#[trigger] connections@[k]).source < n
                && connections@[k].destination < n by {
                if k < n - 1 {
                    assert(connections@.take(n - 1)[k] == connections@[k]);
                }
            }
        }
        let mut path_points: Vec<Point> = Vec::new();
        let ghost mut paths: Seq<Seq<Point>> = Seq::empty();
        let mut c: usize = 0;
        while c < connections.len()
            invariant
                c <= connections@.len(),
                1 <= self.rooms@.len(),
            self.rooms@.len() * MAX_CENTER_DISTANCE <= usize::MAX,
                forall|k: int| 0 <= k < self.rooms@.len() ==> room_in_world(#[trigger] self.rooms@[k])
                    && room_listable(self.rooms@[k]),
                forall|k: int| 0 <= k < connections@.len() ==> (#[trigger] connections@[k]).source < self.rooms@.len()
                    && connections@[k].destination < self.rooms@.len(),
                path_points@.no_duplicates(),
                paths.len() == c,
                forall|e: int| 0 <= e < c ==> {
                    &&& (#[trigger] paths[e]).len() >= 1
                    &&& is_step_path(paths[e])
                    &&& room_anchor(self.rooms@[connections@[e].source as int], paths[e][0])
                    &&& room_anchor(self.rooms@[connections@[e].destination as int], paths[e].last())
                    &&& forall|k: int| 0 <= k < paths[e].len() ==> path_points@.contains(#[trigger] paths[e][k])
                },
            decreases connections@.len() - c,
        {
            let connection = connections[c];
            let room_a = self.rooms[connection.source];
            let room_b = self.rooms[connection.destination];
            let floor_a = room_a.floor_points();
            let room_a_point = match rng_choose(&mut rng, floor_a.as_slice()) {
                Some(p) => p,
                None => room_a.center(),
            };
            let floor_b = room_b.floor_points();
            let room_b_point = match rng_choose(&mut rng, floor_b.as_slice()) {
                Some(p) => p,
                None => room_b.center(),
            };
            proof {
                if floor_a@.contains(room_a_point) {
                    assert(spec_is_floor_point(room_a, room_a_point));
                } else {
                    lemma_center_in_world(room_a);
                }
                if floor_b@.contains(room_b_point) {
                    assert(spec_is_floor_point(room_b, room_b_point));
                } else {
                    lemma_center_in_world(room_b);
                }
            }
            let walls_ref = &room_walls;
            let corners_ref = &room_corners;
            let floor_ref = &room_floor;
            let paths_ref = &path_points;
            let cost_function = |p: Point| -> (cost: Option<usize>)
                ensures
                    cost matches Some(v) ==> v <= 10,
            {
                if p.x > SEARCH_REACH || p.y > SEARCH_REACH {
                    return None;
                }
                let neighbors_already_door = holds_point(paths_ref, p.add_direction(crate::world::coordinate_system::Direction::Up))
                    || holds_point(paths_ref, p.add_direction(crate::world::coordinate_system::Direction::Right))
                    || holds_point(paths_ref, p.add_direction(crate::world::coordinate_system::Direction::Down))
                    || holds_point(paths_ref, p.add_direction(crate::world::coordinate_system::Direction::Left));
                if holds_point(walls_ref, p) && neighbors_already_door {
                    return None;
                }
                if holds_point(corners_ref, p) {
                    return None;
                }
                if holds_point(paths_ref, p) {
                    return Some(1);
                }
                if holds_point(walls_ref, p) {
                    return Some(8);
                }
                if holds_point(floor_ref, p) {
                    return Some(10);
                }
                Some(4)
            };
            let path = match a_star(room_a_point, room_b_point, cost_function) {
                Some(a_star_path) => a_star_path,
                None => pathfinding_naive(room_a_point, room_b_point),
            };
            let ghost points_before = path_points@;
            let mut k: usize = 0;
            while k < path.len()
                invariant
                    k <= path@.len(),
                    path_points@.no_duplicates(),
                    forall|q: Point| points_before.contains(q) ==> path_points@.contains(q),
                    forall|j: int| 0 <= j < k ==> path_points@.contains(#[trigger] path@[j]),
                decreases path@.len() - k,
            {
                let ghost before = path_points@;
                if !holds_point(&path_points, path[k]) {
                    path_points.push(path[k]);
                    proof {
                        assert forall|a: int, b: int| 0 <= a < b < path_points@.len() implies path_points@[a]
                            != path_points@[b] by {
                            if b == before.len() {
                                assert(before[a] == path_points@[a]);
                            } else {
                                assert(before[a] == path_points@[a] && before[b] == path_points@[b]);
                            }
                        }
                        assert(path_points@[before.len() as int] == path@[k as int]);
                    }
                }
                proof {
                    assert forall|q: Point| before.contains(q) implies path_points@.contains(q) by {
                        let i = choose|i: int| 0 <= i < before.len() && before[i] == q;
                        assert(path_points@[i] == before[i]);
                    }
                }
                k = k + 1;
            }
            proof {
                let e = c as int;
                assert(connections@[e] == connection);
                assert(room_anchor(room_a, path@[0]));
                assert(room_anchor(room_b, path@.last()));
                let old_paths = paths;
                paths = paths.push(path@);
                assert forall|f: int| 0 <= f < c + 1 implies {
                    &&& (#[trigger] paths[f]).len() >= 1
                    &&& is_step_path(paths[f])
                    &&& room_anchor(self.rooms@[connections@[f].source as int], paths[f][0])
                    &&& room_anchor(self.rooms@[connections@[f].destination as int], paths[f].last())
                    &&& forall|j: int| 0 <= j < paths[f].len() ==> path_points@.contains(#[trigger] paths[f][j])
                } by {
                    if f < e {
                        assert(paths[f] == old_paths[f]);
                        assert forall|j: int| 0 <= j < paths[f].len() implies path_points@.contains(#[trigger] paths[f][j]) by {
                            assert(points_before.contains(old_paths[f][j]));
                        }
                    } else {
                        assert(paths[f] == path@);
                    }
                }
            }
            c = c + 1;
        }

        let mut corridor_points: Vec<Point> = Vec::new();
        let mut door_points: Vec<Point> = Vec::new();
        let mut m: usize = 0;
        while m < path_points.len()
            invariant
                m <= path_points@.len(),
                path_points@.no_duplicates(),
                forall|q: Point| room_walls@.contains(q) <==> on_some_wall(self.rooms@, q),
                forall|q: Point| room_floor@.contains(q) <==> on_some_room_floor(self.rooms@, q),
                forall|a: int| 0 <= a < corridor_points@.len() ==> !on_some_room_floor(self.rooms@, #[trigger] corridor_points@[a])
                    && !on_some_wall(self.rooms@, corridor_points@[a]),
                forall|a: int| 0 <= a < corridor_points@.len() ==> exists|i: int| 0 <= i < m
                    && path_points@[i] == #[trigger] corridor_points@[a],
                corridor_points@.no_duplicates(),
                forall|a: int| 0 <= a < door_points@.len() ==> on_some_wall(self.rooms@, #[trigger] door_points@[a]),
                forall|a: int| 0 <= a < door_points@.len() ==> exists|i: int| 0 <= i < m
                    && path_points@[i] == #[trigger] door_points@[a],
                door_points@.no_duplicates(),
                forall|i: int| 0 <= i < m ==> {
                    &&& on_some_wall(self.rooms@, #[trigger] path_points@[i]) ==> door_points@.contains(path_points@[i])
                    &&& !on_some_wall(self.rooms@, path_points@[i]) && !on_some_room_floor(self.rooms@, path_points@[i])
                        ==> corridor_points@.contains(path_points@[i])
                },
            decreases path_points@.len() - m,
        {
            let p = path_points[m];
            proof {
                assert forall|a: int| 0 <= a < corridor_points@.len() implies corridor_points@[a] != p by {
                    let i = choose|i: int| 0 <= i < m && path_points@[i] == corridor_points@[a];
                }
                assert forall|a: int| 0 <= a < door_points@.len() implies door_points@[a] != p by {
                    let i = choose|i: int| 0 <= i < m && path_points@[i] == door_points@[a];
                }
            }
            let in_floor = holds_point(&room_floor, p);
            let in_walls = holds_point(&room_walls, p);
            let ghost corridors_before = corridor_points@;
            let ghost doors_before = door_points@;
            if !in_floor && !in_walls {
                corridor_points.push(p);
            }
            if in_walls {
                door_points.push(p);
            }
            proof {
                assert forall|i: int| 0 <= i < m + 1 implies {
                    &&& on_some_wall(self.rooms@, #[trigger] path_points@[i]) ==> door_points@.contains(path_points@[i])
                    &&& !on_some_wall(self.rooms@, path_points@[i]) && !on_some_room_floor(self.rooms@, path_points@[i])
                        ==> corridor_points@.contains(path_points@[i])
                } by {
                    if i < m {
                        let q = path_points@[i];
                        if doors_before.contains(q) {
                            let j = choose|j: int| 0 <= j < doors_before.len() && doors_before[j] == q;
                            assert(door_points@[j] == q);
                        }
                        if corridors_before.contains(q) {
                            let j = choose|j: int| 0 <= j < corridors_before.len() && corridors_before[j] == q;
                            assert(corridor_points@[j] == q);
                        }
                    } else {
                        if in_walls {
                            assert(door_points@[door_points@.len() - 1] == p);
                        }
                        if !in_floor && !in_walls {
                            assert(corridor_points@[corridor_points@.len() - 1] == p);
                        }
                    }
                }
                assert forall|a: int| 0 <= a < corridor_points@.len() implies exists|i: int| 0 <= i < m + 1
                    && path_points@[i] == #[trigger] corridor_points@[a] by {
                    if a == corridor_points@.len() - 1 && !in_floor && !in_walls {
                        assert(path_points@[m as int] == corridor_points@[a]);
                    } else {
                        let i = choose|i: int| 0 <= i < m && path_points@[i] == corridor_points@[a];
                        assert(path_points@[i] == corridor_points@[a]);
                    }
                }
                assert forall|a: int| 0 <= a < door_points@.len() implies exists|i: int| 0 <= i < m + 1
                    && path_points@[i] == #[trigger] door_points@[a] by {
                    if a == door_points@.len() - 1 && in_walls {
                        assert(path_points@[m as int] == door_points@[a]);
                    } else {
                        let i = choose|i: int| 0 <= i < m && path_points@[i] == door_points@[a];
                        assert(path_points@[i] == door_points@[a]);
                    }
                }
            }
            m = m + 1;
        }
        let ghost unsorted = door_points@;
        sort_points(&mut door_points);
        proof {
            broadcast use vstd::seq_lib::group_to_multiset_ensures;
            unsorted.lemma_multiset_has_no_duplicates();
            assert forall|x: Point| door_points@.to_multiset().contains(x) implies door_points@.to_multiset().count(x) == 1 by {}
            door_points@.lemma_multiset_has_no_duplicates_conv();
            assert forall|a: int| 0 <= a < door_points@.len() implies on_some_wall(self.rooms@, #[trigger] door_points@[a]) by {
                assert(door_points@.to_multiset().count(door_points@[a]) > 0);
                assert(unsorted.contains(door_points@[a]));
            }
            assert forall|a: int, b: int| 0 <= a < b < door_points@.len() implies point_lex_lt(door_points@[a], door_points@[b]) by {
                assert(door_points@[a] != door_points@[b]);
                assert(!point_lex_lt(door_points@[b], door_points@[a]));
            }
        }
        let mut door_data: Vec<(Point, DoorTypeData)> = Vec::new();
        let mut d: usize = 0;
        while d < door_points.len()
            invariant
                d <= door_points@.len(),
                door_data@.len() == d,
                forall|a: int| 0 <= a < d ==> (#[trigger] door_data@[a]).0 == door_points@[a],
            decreases door_points@.len() - d,
        {
            let n = rng_range_i32(&mut rng, 0, 100);
            door_data.push((door_points[d], door_type_for(n)));
            d = d + 1;
        }
        proof {
            broadcast use vstd::seq_lib::group_to_multiset_ensures;
            let rooms = self.rooms@;
            let n = rooms.len();
            assert forall|c: int| 0 <= c < connections@.len() implies
                path_laid(rooms, corridor_points@, door_data@, #[trigger] paths[c]) by {
                assert forall|k: int| 0 <= k < paths[c].len() implies {
                    &&& on_some_wall(rooms, #[trigger] paths[c][k])
                        ==> exists|e: int| 0 <= e < door_data@.len() && (#[trigger] door_data@[e]).0 == paths[c][k]
                    &&& !on_some_wall(rooms, paths[c][k]) && !on_some_room_floor(rooms, paths[c][k])
                        ==> corridor_points@.contains(paths[c][k])
                } by {
                    let q = paths[c][k];
                    assert(path_points@.contains(q));
                    let i = choose|i: int| 0 <= i < path_points@.len() && path_points@[i] == q;
                    assert(path_points@[i] == q);
                    if on_some_wall(rooms, q) {
                        assert(unsorted.contains(q));
                        assert(unsorted.to_multiset().count(q) > 0);
                        assert(door_points@.to_multiset().count(q) > 0);
                        assert(door_points@.contains(q));
                        let e = choose|e: int| 0 <= e < door_points@.len() && door_points@[e] == q;
                        assert(door_data@[e].0 == q);
                    }
                }
            }
            assert(rooms_joined(rooms, corridor_points@, door_data@, connections@, paths));
        }
        let map = ProcGenCorridorMap { corridors: corridor_points, doors: door_data };
        proof {
            assert(rooms_joined(self.rooms@, map.corridors@, map.doors@, connections@, paths));
        }
        map
    }
}

} // verus!
