//! A procedurally generated level: its world, entry, exit and spawns.

use vstd::prelude::*;

use rand::rngs::StdRng;

use crate::proc_gen::corridors::ProcGenWorld;
use crate::proc_gen::population::{room_listable, spawn_point, RoomEncounter};
use crate::proc_gen::proc_gen_room::{spec_is_floor_point, ProcGenRoom};
use crate::util::random::{rng_choose, rng_choose_multiple};
use crate::world::coordinate_system::Point;
use crate::world::world_data::{DoorTypeData, RoomData, SpawnData, TileData, TileTypeData, WorldData};
use crate::world::worldspace::{WORLD_HEIGHT, WORLD_WIDTH};

verus! {

/// Everything generated for a level.
pub struct ProcGenLevel {
    /// The rooms and corridors.
    pub world: ProcGenWorld,
    /// Where the player arrives (stairs up).
    pub entry: Point,
    /// Where the stairs down lead on.
    pub exit: Point,
    /// The npcs and items to place.
    pub spawns: Vec<SpawnData>,
}

/// Whether a room has at least one floor point.
pub open spec fn room_has_floor(room: ProcGenRoom) -> bool {
    room.point_a.x + 1 < room.point_b.x - 1 && room.point_a.y + 1 < room.point_b.y - 1
}

/// Whether a point is a floor point of one of the rooms.
pub open spec fn on_some_floor(rooms: Seq<ProcGenRoom>, p: Point) -> bool {
    exists|r: int| 0 <= r < rooms.len() && spec_is_floor_point(#[trigger] rooms[r], p)
}

impl ProcGenLevel {
    /// Populates every room (in order) with an encounter the generator
    /// draws; spawns avoid the entry and the exit.
    pub fn populate(&mut self, rng: &mut StdRng)
        requires
            forall|r: int| 0 <= r < old(self).world.rooms@.len() ==> room_listable(#[trigger] old(self).world.rooms@[r]),
        ensures
            final(self).world == old(self).world,
            final(self).entry == old(self).entry,
            final(self).exit == old(self).exit,
            final(self).spawns@.len() >= old(self).spawns@.len(),
            final(self).spawns@.take(old(self).spawns@.len() as int) == old(self).spawns@,
            forall|i: int| old(self).spawns@.len() <= i < final(self).spawns@.len() ==> {
                let p = spawn_point(#[trigger] final(self).spawns@[i]);
                &&& on_some_floor(old(self).world.rooms@, p)
                &&& p != old(self).entry
                &&& p != old(self).exit
            },
    {
        let blocked_points: Vec<Point> = vec![self.entry, self.exit];
        let mut r: usize = 0;
        while r < self.world.rooms.len()
            invariant
                r <= self.world.rooms@.len(),
                self.world == old(self).world,
                self.entry == old(self).entry,
                self.exit == old(self).exit,
                blocked_points@ == seq![old(self).entry, old(self).exit],
                forall|k: int| 0 <= k < self.world.rooms@.len() ==> room_listable(#[trigger] self.world.rooms@[k]),
                self.spawns@.len() >= old(self).spawns@.len(),
                self.spawns@.take(old(self).spawns@.len() as int) == old(self).spawns@,
                forall|i: int| old(self).spawns@.len() <= i < self.spawns@.len() ==> {
                    let p = spawn_point(#[trigger] self.spawns@[i]);
                    &&& on_some_floor(old(self).world.rooms@, p)
                    &&& p != old(self).entry
                    &&& p != old(self).exit
                },
            decreases self.world.rooms@.len() - r,
        {
            let encounter = RoomEncounter::random(rng);
            let room = self.world.rooms[r];
            let mut population = room.populate(encounter, &blocked_points, rng);
            let ghost before = self.spawns@;
            let ghost added = population@;
            self.spawns.append(&mut population);
            proof {
                assert(self.spawns@ == before + added);
                assert(self.spawns@.take(old(self).spawns@.len() as int) =~= before.take(old(self).spawns@.len() as int));
                assert forall|i: int| old(self).spawns@.len() <= i < self.spawns@.len() implies {
                    let p = spawn_point(#[trigger] self.spawns@[i]);
                    &&& on_some_floor(old(self).world.rooms@, p)
                    &&& p != old(self).entry
                    &&& p != old(self).exit
                } by {
                    if i >= before.len() {
                        let j = i - before.len();
                        assert(self.spawns@[i] == added[j]);
                        assert(spec_is_floor_point(self.world.rooms@[r as int], spawn_point(added[j])));
                        assert(!blocked_points@.contains(spawn_point(added[j])));
                        assert(blocked_points@[0] == old(self).entry);
                        assert(blocked_points@[1] == old(self).exit);
                    } else {
                        assert(self.spawns@[i] == before[i]);
                    }
                }
            }
            r = r + 1;
        }
    }

    /// Picks two different rooms (as the generator draws them), and a floor
    /// point of each: the entry in the first, the exit in the second.
    pub fn add_entry_exit(&mut self, rng: &mut StdRng)
        requires
            old(self).world.rooms@.len() >= 2,
            forall|r: int| 0 <= r < old(self).world.rooms@.len() ==> room_listable(#[trigger] old(self).world.rooms@[r])
                && room_has_floor(old(self).world.rooms@[r]),
        ensures
            final(self).world == old(self).world,
            final(self).spawns == old(self).spawns,
            exists|i: int, j: int| 0 <= i < old(self).world.rooms@.len() && 0 <= j < old(self).world.rooms@.len()
                && i != j && spec_is_floor_point(old(self).world.rooms@[i], final(self).entry)
                && spec_is_floor_point(old(self).world.rooms@[j], final(self).exit),
    {
        let mandatory_rooms = rng_choose_multiple(rng, self.world.rooms.as_slice(), 2);
        let entry_room = mandatory_rooms[0];
        let exit_room = mandatory_rooms[1];
        let ghost idx = choose|idx: Seq<int>| #![trigger idx.len()] idx.len() == mandatory_rooms@.len()
            && (forall|i: int| 0 <= i < idx.len() ==> 0 <= #[trigger] idx[i] < self.world.rooms@.len())
            && (forall|i: int, j: int| 0 <= i < j < idx.len() ==> idx[i] != idx[j])
            && (forall|i: int| 0 <= i < idx.len() ==> #[trigger] mandatory_rooms@[i] == self.world.rooms@[idx[i]]);
        proof {
            assert(mandatory_rooms@[0] == self.world.rooms@[idx[0]]);
            assert(mandatory_rooms@[1] == self.world.rooms@[idx[1]]);
            assert(room_listable(self.world.rooms@[idx[0]]) && room_has_floor(self.world.rooms@[idx[0]]));
            assert(room_listable(self.world.rooms@[idx[1]]) && room_has_floor(self.world.rooms@[idx[1]]));
        }
        let entry_floor = entry_room.floor_points();
        proof {
            let q = Point { x: (entry_room.point_a.x + 1) as usize, y: (entry_room.point_a.y + 1) as usize };
            assert(spec_is_floor_point(entry_room, q));
            assert(entry_floor@.contains(q));
        }
        let entry = match rng_choose(rng, entry_floor.as_slice()) {
            Some(p) => p,
            None => { proof { assert(false); } entry_room.point_a },
        };
        let exit_floor = exit_room.floor_points();
        proof {
            let q = Point { x: (exit_room.point_a.x + 1) as usize, y: (exit_room.point_a.y + 1) as usize };
            assert(spec_is_floor_point(exit_room, q));
            assert(exit_floor@.contains(q));
        }
        let exit = match rng_choose(rng, exit_floor.as_slice()) {
            Some(p) => p,
            None => { proof { assert(false); } exit_room.point_a },
        };
        self.entry = entry;
        self.exit = exit;
        proof {
            assert(spec_is_floor_point(self.world.rooms@[idx[0]], self.entry));
            assert(spec_is_floor_point(self.world.rooms@[idx[1]], self.exit));
        }
    }

    /// Extends a generated world into a level: it is populated (while entry
    /// and exit are still at the origin), then gets its entry and exit.
    pub fn generate_from_world(world: ProcGenWorld, rng: &mut StdRng) -> (level: ProcGenLevel)
        requires
            world.rooms@.len() >= 2,
            forall|r: int| 0 <= r < world.rooms@.len() ==> room_listable(#[trigger] world.rooms@[r])
                && room_has_floor(world.rooms@[r]),
        ensures
            level.world == world,
            exists|i: int, j: int| 0 <= i < world.rooms@.len() && 0 <= j < world.rooms@.len()
                && i != j && spec_is_floor_point(world.rooms@[i], level.entry)
                && spec_is_floor_point(world.rooms@[j], level.exit),
            forall|i: int| 0 <= i < level.spawns@.len() ==> {
                let p = spawn_point(#[trigger] level.spawns@[i]);
                &&& on_some_floor(world.rooms@, p)
                &&& p != (Point { x: 0, y: 0 })
            },
    {
        let mut level = ProcGenLevel { world, entry: Point::new(0, 0), exit: Point::new(0, 0), spawns: Vec::new() };
        level.populate(rng);
        level.add_entry_exit(rng);
        level
    }
}

/// The stored form of a room: its origin, and the extent to its far corner.
pub open spec fn spec_room_data(room: ProcGenRoom) -> RoomData {
    RoomData {
        x: room.point_a.x,
        y: room.point_a.y,
        width: (room.point_b.x - room.point_a.x) as usize,
        height: (room.point_b.y - room.point_a.y) as usize,
    }
}

/// The stored tile type of a door.
pub open spec fn door_tile(p: Point, d: DoorTypeData) -> TileData {
    TileData { x: p.x, y: p.y, tile_type: TileTypeData::Door(d) }
}

/// Whether a room's far corner is not before its origin.
pub open spec fn room_ordered(room: ProcGenRoom) -> bool {
    room.point_a.x <= room.point_b.x && room.point_a.y <= room.point_b.y
}

impl ProcGenRoom {
    /// The stored form of the room.
    pub fn to_room_data(&self) -> (d: RoomData)
        requires
            room_ordered(*self),
        ensures
            d == spec_room_data(*self),
    {
        RoomData {
            x: self.point_a.x,
            y: self.point_a.y,
            width: self.point_b.x - self.point_a.x,
            height: self.point_b.y - self.point_a.y,
        }
    }
}

impl ProcGenLevel {
    /// The level as world data: of the world's size, with its rooms, stairs
    /// up at the entry and down at the exit, its doors, its corridors, and
    /// its spawns.
    pub fn to_world_data(self) -> (data: WorldData)
        requires
            forall|r: int| 0 <= r < self.world.rooms@.len() ==> room_ordered(#[trigger] self.world.rooms@[r]),
        ensures
            data.width == WORLD_WIDTH,
            data.height == WORLD_HEIGHT,
            data.rooms@ == self.world.rooms@.map_values(|r: ProcGenRoom| spec_room_data(r)),
            data.tiles@ == seq![
                TileData { x: self.entry.x, y: self.entry.y, tile_type: TileTypeData::StairsUp },
                TileData { x: self.exit.x, y: self.exit.y, tile_type: TileTypeData::StairsDown },
            ] + self.world.corridor_map.doors@.map_values(|d: (Point, DoorTypeData)| door_tile(d.0, d.1)),
            data.corridors@ == self.world.corridor_map.corridors@,
            data.entry == self.entry,
            data.exit == self.exit,
            data.spawns@ == self.spawns@,
    {
        let mut rooms: Vec<RoomData> = Vec::new();
        let mut i: usize = 0;
        while i < self.world.rooms.len()
            invariant
                i <= self.world.rooms@.len(),
                forall|r: int| 0 <= r < self.world.rooms@.len() ==> room_ordered(#[trigger] self.world.rooms@[r]),
                rooms@ == self.world.rooms@.take(i as int).map_values(|r: ProcGenRoom| spec_room_data(r)),
            decreases self.world.rooms@.len() - i,
        {
            rooms.push(self.world.rooms[i].to_room_data());
            proof {
                assert(self.world.rooms@.take(i + 1).drop_last() =~= self.world.rooms@.take(i as int));
                assert(rooms@ =~= self.world.rooms@.take(i + 1).map_values(|r: ProcGenRoom| spec_room_data(r)));
            }
            i = i + 1;
        }
        proof {
            assert(self.world.rooms@.take(self.world.rooms@.len() as int) =~= self.world.rooms@);
        }
        let mut tiles: Vec<TileData> = vec![
            TileData { x: self.entry.x, y: self.entry.y, tile_type: TileTypeData::StairsUp },
            TileData { x: self.exit.x, y: self.exit.y, tile_type: TileTypeData::StairsDown },
        ];
        let ghost stairs = tiles@;
        let mut k: usize = 0;
        while k < self.world.corridor_map.doors.len()
            invariant
                k <= self.world.corridor_map.doors@.len(),
                tiles@ == stairs + self.world.corridor_map.doors@.take(k as int).map_values(
                    |d: (Point, DoorTypeData)| door_tile(d.0, d.1)),
            decreases self.world.corridor_map.doors@.len() - k,
        {
            let (p, d) = self.world.corridor_map.doors[k];
            tiles.push(TileData { x: p.x, y: p.y, tile_type: TileTypeData::Door(d) });
            proof {
                assert(self.world.corridor_map.doors@.take(k + 1).drop_last() =~= self.world.corridor_map.doors@.take(k as int));
                assert(tiles@ =~= stairs + self.world.corridor_map.doors@.take(k + 1).map_values(
                    |d: (Point, DoorTypeData)| door_tile(d.0, d.1)));
            }
            k = k + 1;
        }
        proof {
            assert(self.world.corridor_map.doors@.take(self.world.corridor_map.doors@.len() as int)
                =~= self.world.corridor_map.doors@);
        }
        WorldData {
            width: WORLD_WIDTH,
            height: WORLD_HEIGHT,
            tiles,
            rooms,
            corridors: self.world.corridor_map.corridors,
            entry: self.entry,
            exit: self.exit,
            spawns: self.spawns,
        }
    }
}

} // verus!
