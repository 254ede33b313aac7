use anthill::ai::pathfinding::{a_star, pathfinding_naive};
use anthill::proc_gen::bsp::MapBSPTree;
use anthill::proc_gen::corridors::{door_type_for, ProcGenCorridorMap, ProcGenWorld};
use anthill::proc_gen::mst::mst_kruskal;
use anthill::proc_gen::corridors::MapEdge;
use anthill::proc_gen::population::{sorted_item_def_ids, sorted_npc_def_ids, RoomEncounter};
use anthill::proc_gen::proc_gen_level::ProcGenLevel;
use anthill::proc_gen::proc_gen_room::ProcGenRoom;
use anthill::world::coordinate_system::Point;
use anthill::world::world_data::{DoorTypeData, SpawnKind, TileTypeData};
use rand::rngs::StdRng;
use rand::SeedableRng;

fn room(ax: usize, ay: usize, bx: usize, by: usize) -> ProcGenRoom {
    ProcGenRoom { point_a: Point::new(ax, ay), point_b: Point::new(bx, by) }
}

fn is_floor(r: &ProcGenRoom, p: Point) -> bool {
    r.point_a.x + 1 <= p.x && p.x < r.point_b.x - 1 && r.point_a.y + 1 <= p.y && p.y < r.point_b.y - 1
}

fn two_rooms() -> Vec<ProcGenRoom> {
    vec![room(2, 2, 12, 10), room(40, 5, 52, 15)]
}

#[test]
fn encounters_by_percentile() {
    assert_eq!(RoomEncounter::from_percentile(0), RoomEncounter::Enemy);
    assert_eq!(RoomEncounter::from_percentile(29), RoomEncounter::Enemy);
    assert_eq!(RoomEncounter::from_percentile(30), RoomEncounter::EnemyTreasure);
    assert_eq!(RoomEncounter::from_percentile(50), RoomEncounter::Treasure);
    assert_eq!(RoomEncounter::from_percentile(75), RoomEncounter::Empty);
    assert_eq!(RoomEncounter::from_percentile(99), RoomEncounter::Empty);
}

#[test]
fn door_types_by_percentile() {
    assert_eq!(door_type_for(0), DoorTypeData::Closed);
    assert_eq!(door_type_for(19), DoorTypeData::Closed);
    assert_eq!(door_type_for(20), DoorTypeData::Open);
    assert_eq!(door_type_for(24), DoorTypeData::Open);
    assert_eq!(door_type_for(25), DoorTypeData::Archway);
}

#[test]
fn definition_identifiers_are_sorted() {
    let npcs = sorted_npc_def_ids();
    let mut sorted = npcs.clone();
    sorted.sort();
    assert_eq!(npcs, sorted);
    let items = sorted_item_def_ids();
    let mut sorted = items.clone();
    sorted.sort();
    assert_eq!(items, sorted);
    assert_eq!(npcs.len(), 12);
    assert_eq!(items.len(), 28);
}

#[test]
fn populated_rooms_place_spawns_on_free_floor() {
    let r = room(2, 2, 12, 10);
    let blocked = vec![Point::new(3, 3)];
    let mut rng = StdRng::seed_from_u64(5);
    assert!(r.populate(RoomEncounter::Empty, &blocked, &mut rng).is_empty());
    for _ in 0..20 {
        let spawns = r.populate(RoomEncounter::EnemyTreasure, &blocked, &mut rng);
        assert!(!spawns.is_empty() && spawns.len() <= 3);
        for (i, s) in spawns.iter().enumerate() {
            let p = Point::new(s.x, s.y);
            assert!(is_floor(&r, p));
            assert!(p != Point::new(3, 3));
            for t in spawns.iter().skip(i + 1) {
                assert!(Point::new(t.x, t.y) != p);
            }
        }
        let enemies = r.populate(RoomEncounter::Enemy, &blocked, &mut rng);
        assert!(enemies.iter().all(|s| matches!(s.kind, SpawnKind::Npc { .. })));
    }
}

#[test]
fn entry_and_exit_lie_in_different_rooms() {
    for seed in 0..10u64 {
        let mut rng = StdRng::seed_from_u64(seed);
        let world = ProcGenWorld { rooms: two_rooms(), corridor_map: ProcGenCorridorMap::new() };
        let level = ProcGenLevel::generate_from_world(world, &mut rng);
        let rooms = two_rooms();
        let entry_room = rooms.iter().position(|r| is_floor(r, level.entry)).unwrap();
        let exit_room = rooms.iter().position(|r| is_floor(r, level.exit)).unwrap();
        assert_ne!(entry_room, exit_room);
        let data = level.to_world_data();
        assert_eq!(data.tiles[0].tile_type, TileTypeData::StairsUp);
        assert_eq!(data.tiles[1].tile_type, TileTypeData::StairsDown);
        assert_eq!(data.rooms[0].width, 10);
        assert_eq!(data.rooms[1].height, 10);
    }
}

#[test]
fn corridors_connect_rooms_through_doors() {
    let world = ProcGenWorld { rooms: two_rooms(), corridor_map: ProcGenCorridorMap::new() };
    let map = world.a_star_corridors(42);
    assert!(!map.corridors.is_empty());
    assert!(!map.doors.is_empty());
    for (p, _) in &map.doors {
        let on_wall = two_rooms().iter().any(|r| {
            ((p.x == r.point_a.x || p.x == r.point_b.x) && r.point_a.y <= p.y && p.y <= r.point_b.y)
                || ((p.y == r.point_a.y || p.y == r.point_b.y) && r.point_a.x <= p.x && p.x <= r.point_b.x)
        });
        assert!(on_wall);
    }
    for w in map.doors.windows(2) {
        assert!((w[0].0.x, w[0].0.y) < (w[1].0.x, w[1].0.y));
    }
}

#[test]
fn room_connections_start_with_a_spanning_tree() {
    let world = ProcGenWorld { rooms: vec![room(2, 2, 8, 8), room(20, 2, 26, 8), room(2, 12, 8, 20)],
        corridor_map: ProcGenCorridorMap::new() };
    let mut rng = StdRng::seed_from_u64(1);
    let connections = world.find_room_connections(&mut rng);
    assert!(connections.len() >= 2);
    let naive = world.find_room_connections_naive();
    assert_eq!(naive.len(), 2);
    assert_eq!(naive[1], MapEdge { source: 1, destination: 2, weight: 1 });
}

#[test]
fn kruskal_picks_the_lightest_tree() {
    let edges = vec![
        MapEdge { source: 0, destination: 1, weight: 5 },
        MapEdge { source: 1, destination: 2, weight: 1 },
        MapEdge { source: 0, destination: 2, weight: 2 },
    ];
    let (weight, tree) = mst_kruskal(edges, 3).unwrap();
    assert_eq!(weight, 3);
    assert_eq!(tree.len(), 2);
    assert!(mst_kruskal(vec![MapEdge { source: 0, destination: 1, weight: 1 }], 3).is_err());
}

#[test]
fn naive_paths_walk_step_by_step() {
    let path = pathfinding_naive(Point::new(0, 0), Point::new(2, 3));
    assert_eq!(path.len(), 6);
    assert_eq!(path[0], Point::new(0, 0));
    assert_eq!(*path.last().unwrap(), Point::new(2, 3));
}

#[test]
fn a_star_goes_around_walls() {
    let wall = |p: Point| p.x == 2 && p.y <= 3;
    let path = a_star(Point::new(0, 0), Point::new(4, 0), |p: Point| if wall(p) { None } else { Some(1) }).unwrap();
    assert_eq!(path[0], Point::new(0, 0));
    assert_eq!(*path.last().unwrap(), Point::new(4, 0));
    assert!(path.iter().all(|p| !wall(*p)));
    assert_eq!(path.len(), 13);
}

#[test]
fn dug_corridors_join_the_rooms() {
    let rooms = two_rooms();
    let world = ProcGenWorld { rooms: rooms.clone(), corridor_map: ProcGenCorridorMap::new() };
    let map = world.a_star_corridors(7);
    let passable = |p: Point| {
        rooms.iter().any(|r| is_floor(r, p))
            || map.corridors.contains(&p)
            || map.doors.iter().any(|(d, _)| *d == p)
    };
    let start = Point::new(3, 3);
    let mut seen = vec![start];
    let mut todo = vec![start];
    while let Some(p) = todo.pop() {
        let mut next = vec![Point::new(p.x + 1, p.y), Point::new(p.x, p.y + 1)];
        if p.x > 0 {
            next.push(Point::new(p.x - 1, p.y));
        }
        if p.y > 0 {
            next.push(Point::new(p.x, p.y - 1));
        }
        for q in next {
            if q.x < 100 && q.y < 40 && passable(q) && !seen.contains(&q) {
                seen.push(q);
                todo.push(q);
            }
        }
    }
    assert!(seen.iter().any(|p| is_floor(&rooms[1], *p)));
}

#[test]
fn a_star_to_its_own_start_is_the_start_alone() {
    let path = a_star(Point::new(5, 5), Point::new(5, 5), |_p: Point| Some(1)).unwrap();
    assert_eq!(path, vec![Point::new(5, 5)]);
}

#[test]
fn a_star_to_a_neighbour_takes_one_step() {
    let path = a_star(Point::new(5, 5), Point::new(5, 4), |_p: Point| Some(1)).unwrap();
    assert_eq!(path, vec![Point::new(5, 5), Point::new(5, 4)]);
    let path = a_star(Point::new(0, 0), Point::new(1, 0), |_p: Point| Some(1)).unwrap();
    assert_eq!(path, vec![Point::new(0, 0), Point::new(1, 0)]);
}

#[test]
fn a_star_without_allowed_steps_finds_nothing() {
    assert!(a_star(Point::new(0, 0), Point::new(3, 0), |_p: Point| None).is_none());
}

#[test]
fn a_bsp_tree_starts_as_one_leaf() {
    let tree = MapBSPTree::new();
    let leaves = tree.collect_leaves();
    assert_eq!(leaves.len(), 1);
}

#[test]
fn a_star_takes_a_shortest_way_round_a_wall() {
    let wall = Point::new(1, 0);
    let path = a_star(Point::new(0, 0), Point::new(2, 0), |p: Point| if p == wall { None } else { Some(1) }).unwrap();
    assert_eq!(path.len(), 5);
    assert_eq!(path[0], Point::new(0, 0));
    assert_eq!(path[4], Point::new(2, 0));
    assert!(!path.contains(&wall));
}

#[test]
fn a_star_prefers_the_cheaper_way() {
    // Straight on costs 9 a step; going round costs 1 a step.
    let path = a_star(Point::new(0, 0), Point::new(2, 0), |p: Point| if p == Point::new(1, 0) { Some(9) } else { Some(1) }).unwrap();
    assert_eq!(path.len(), 5);
    assert!(!path.contains(&Point::new(1, 0)));
}

#[test]
fn kruskal_keeps_the_lighter_second_edge() {
    let edges = vec![
        MapEdge { source: 0, destination: 1, weight: 1 },
        MapEdge { source: 1, destination: 2, weight: 2 },
        MapEdge { source: 0, destination: 2, weight: 3 },
    ];
    let (weight, tree) = mst_kruskal(edges, 3).unwrap();
    assert_eq!(weight, 3);
    assert_eq!(tree, vec![MapEdge { source: 0, destination: 1, weight: 1 }, MapEdge { source: 1, destination: 2, weight: 2 }]);
}
