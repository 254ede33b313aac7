use vstd::prelude::*;

use crate::util::errors_results::{DataError, GameError};
use crate::world::coordinate_system::Point;
use crate::world::tiles::{DoorType, Tile, TileType};
use crate::world::worldspace::{carved_tile, grid_index, with_type, Room, World, WORLD_HEIGHT, WORLD_WIDTH};

verus! {

/// The description of a level's world as stored in level files and made by
/// the procedural generator.
#[derive(Clone, Debug)]
pub struct WorldData {
    pub width: usize,
    pub height: usize,
    pub tiles: Vec<TileData>,
    pub rooms: Vec<RoomData>,
    pub corridors: Vec<Point>,
    pub entry: Point,
    pub exit: Point,
    pub spawns: Vec<SpawnData>,
}

#[derive(Clone, Copy, Debug, PartialEq, Eq, Structural)]
pub struct RoomData {
    pub x: usize,
    pub y: usize,
    pub width: usize,
    pub height: usize,
}

#[derive(Clone, Copy, Debug, PartialEq, Eq, Structural)]
pub struct TileData {
    pub x: usize,
    pub y: usize,
    pub tile_type: TileTypeData,
}

#[derive(Clone, Copy, Debug, PartialEq, Eq, Structural)]
pub enum TileTypeData {
    Floor,
    Wall,
    Hallway,
    Door(DoorTypeData),
    StairsDown,
    StairsUp,
}

#[derive(Clone, Copy, Debug, PartialEq, Eq, Structural)]
pub enum DoorTypeData {
    Open,
    Closed,
    Archway,
}

#[derive(Clone, Debug)]
pub struct SpawnData {
    pub kind: SpawnKind,
    pub x: usize,
    pub y: usize,
}

#[derive(Clone, Debug)]
pub enum SpawnKind {
    Npc { def_id: String },
    Item { def_id: String },
}

/// The tile type a stored tile type stands for.
pub open spec fn spec_tile_type_from_data(t: TileTypeData) -> TileType {
    match t {
        TileTypeData::Floor => TileType::Floor,
        TileTypeData::Wall => TileType::Wall,
        TileTypeData::Hallway => TileType::Hallway,
        TileTypeData::StairsDown => TileType::StairsDown,
        TileTypeData::StairsUp => TileType::StairsUp,
        TileTypeData::Door(DoorTypeData::Archway) => TileType::Door(DoorType::Archway),
        TileTypeData::Door(DoorTypeData::Open) => TileType::Door(DoorType::Open),
        TileTypeData::Door(DoorTypeData::Closed) => TileType::Door(DoorType::Closed),
    }
}

/// The tile type a stored tile type stands for.
pub fn tile_type_from_data(t: TileTypeData) -> (r: TileType)
    ensures
        r == spec_tile_type_from_data(t),
{
    match t {
        TileTypeData::Floor => TileType::Floor,
        TileTypeData::Wall => TileType::Wall,
        TileTypeData::Hallway => TileType::Hallway,
        TileTypeData::StairsDown => TileType::StairsDown,
        TileTypeData::StairsUp => TileType::StairsUp,
        TileTypeData::Door(DoorTypeData::Archway) => TileType::Door(DoorType::Archway),
        TileTypeData::Door(DoorTypeData::Open) => TileType::Door(DoorType::Open),
        TileTypeData::Door(DoorTypeData::Closed) => TileType::Door(DoorType::Closed),
    }
}

/// The room a stored room stands for.
pub open spec fn room_of(r: RoomData) -> Room {
    Room { origin: Point { x: r.x, y: r.y }, width: r.width, height: r.height }
}

/// Whether a stored room lies within the tiles of a world.
pub open spec fn room_fits_world(r: RoomData) -> bool {
    &&& r.x + r.width <= usize::MAX
    &&& r.y + r.height <= usize::MAX
    &&& grid_index(WORLD_WIDTH as int, r.x + r.width, r.y + r.height) < WORLD_WIDTH * WORLD_HEIGHT
}

/// The tiles after carving the first `k` rooms, in order.
pub open spec fn carve_all(tiles: Seq<Tile>, rooms: Seq<RoomData>, k: nat) -> Seq<Tile>
    decreases k,
{
    if k == 0 {
        tiles
    } else {
        let t = carve_all(tiles, rooms, (k - 1) as nat);
        Seq::new(t.len(), |i: int| carved_tile(WORLD_WIDTH as int, room_of(rooms[k - 1]), t[i], i))
    }
}

/// The tiles after setting the first `k` stored tiles, in order.
pub open spec fn overlay_all(tiles: Seq<Tile>, tds: Seq<TileData>, k: nat) -> Seq<Tile>
    decreases k,
{
    if k == 0 {
        tiles
    } else {
        let td = tds[k - 1];
        overlay_all(tiles, tds, (k - 1) as nat).update(grid_index(WORLD_WIDTH as int, td.x as int, td.y as int),
            Tile::new_spec(spec_tile_type_from_data(td.tile_type)))
    }
}

/// What a corridor makes of a tile type: void becomes hallway, a wall an
/// archway; anything else stays.
pub open spec fn corridor_type(t: TileType) -> TileType {
    match t {
        TileType::Void => TileType::Hallway,
        TileType::Wall => TileType::Door(DoorType::Archway),
        other => other,
    }
}

/// The tiles after laying the first `k` corridor points, in order.
pub open spec fn corridor_all(tiles: Seq<Tile>, points: Seq<Point>, k: nat) -> Seq<Tile>
    decreases k,
{
    if k == 0 {
        tiles
    } else {
        let t = corridor_all(tiles, points, (k - 1) as nat);
        let i = grid_index(WORLD_WIDTH as int, points[k - 1].x as int, points[k - 1].y as int);
        t.update(i, with_type(t[i], corridor_type(t[i].tile_type)))
    }
}

/// The world's tiles made from stored data: void everywhere, the rooms
/// carved, the stored tiles set, the corridors laid.
pub open spec fn applied_tiles(data: WorldData) -> Seq<Tile> {
    let void = Seq::new((WORLD_WIDTH * WORLD_HEIGHT) as nat, |i: int| Tile::void_spec());
    let carved = carve_all(void, data.rooms@, data.rooms@.len());
    let set = overlay_all(carved, data.tiles@, data.tiles@.len());
    corridor_all(set, data.corridors@, data.corridors@.len())
}

/// Whether every stored tile lies within the world's dimensions.
pub open spec fn tiles_in_bounds(data: WorldData) -> bool {
    forall|k: int| 0 <= k < data.tiles@.len() ==> (#[trigger] data.tiles@[k]).x < WORLD_WIDTH
        && data.tiles@[k].y < WORLD_HEIGHT
}

impl World {
    /// Makes the world the one the data describes: void everywhere, then
    /// the rooms carved, the stored tiles set, and the corridors laid (a
    /// corridor turns void into hallway and walls into archways).
    ///
    /// Fails with an invalid-format error where the data's dimensions are
    /// not the world's, or a stored tile lies outside them.
    pub fn apply_world_data(&mut self, data: &WorldData, index: usize) -> (r: Result<(), GameError>)
        requires
            old(self).wf(),
            data.width == WORLD_WIDTH && data.height == WORLD_HEIGHT ==> {
                &&& forall|k: int| 0 <= k < data.rooms@.len() ==> room_fits_world(#[trigger] data.rooms@[k])
                &&& forall|k: int| 0 <= k < data.corridors@.len() ==>
                    grid_index(WORLD_WIDTH as int, (#[trigger] data.corridors@[k]).x as int, data.corridors@[k].y as int)
                        < WORLD_WIDTH * WORLD_HEIGHT
            },
        ensures
            final(self).wf(),
            r is Ok <==> data.width == WORLD_WIDTH && data.height == WORLD_HEIGHT && tiles_in_bounds(*data),
            r matches Err(e) ==> e == GameError::Data(DataError::InvalidWorldFormat(index)),
            !(data.width == WORLD_WIDTH && data.height == WORLD_HEIGHT) ==> *final(self) == *old(self),
            r is Ok ==> final(self).tiles@ == applied_tiles(*data),
    {
        if data.width != self.width || data.height != self.height {
            return Err(GameError::Data(DataError::InvalidWorldFormat(index)));
        }
        let n = self.tiles.len();
        let mut i: usize = 0;
        while i < n
            invariant
                self.wf(),
                n == self.tiles.len(),
                i <= n,
                forall|k: int| 0 <= k < i ==> self.tiles@[k] == Tile::void_spec(),
            decreases n - i,
        {
            self.tiles.set(i, Tile::void());
            i = i + 1;
        }
        let ghost void = Seq::new((WORLD_WIDTH * WORLD_HEIGHT) as nat, |i: int| Tile::void_spec());
        assert(self.tiles@ =~= void);

        let mut r: usize = 0;
        while r < data.rooms.len()
            invariant
                self.wf(),
                r <= data.rooms@.len(),
                forall|k: int| 0 <= k < data.rooms@.len() ==> room_fits_world(#[trigger] data.rooms@[k]),
                self.tiles@ == carve_all(void, data.rooms@, r as nat),
            decreases data.rooms@.len() - r,
        {
            let rd = data.rooms[r];
            let room = Room::new(Point::new(rd.x, rd.y), rd.width, rd.height);
            let ghost before = self.tiles@;
            proof {
                assert(room_fits_world(data.rooms@[r as int]));
            }
            self.carve_room(&room);
            proof {
                assert(self.tiles@ =~= carve_all(void, data.rooms@, (r + 1) as nat));
            }
            r = r + 1;
        }

        let mut t: usize = 0;
        while t < data.tiles.len()
            invariant
                self.wf(),
                t <= data.tiles@.len(),
                data.width == WORLD_WIDTH,
                data.height == WORLD_HEIGHT,
                self.tiles@ == overlay_all(carve_all(void, data.rooms@, data.rooms@.len()), data.tiles@, t as nat),
                forall|k: int| 0 <= k < t ==> (#[trigger] data.tiles@[k]).x < WORLD_WIDTH && data.tiles@[k].y < WORLD_HEIGHT,
            decreases data.tiles@.len() - t,
        {
            let td = data.tiles[t];
            if td.x >= self.width || td.y >= self.height {
                return Err(GameError::Data(DataError::InvalidWorldFormat(index)));
            }
            proof {
                assert(td.y * 100 + td.x < 2500) by (nonlinear_arith)
                    requires td.x < 100, td.y < 25;
            }
            let idx = self.index(td.x, td.y);
            let tile_type = tile_type_from_data(td.tile_type);
            self.tiles.set(idx, Tile::new(tile_type));
            t = t + 1;
        }

        let mut c: usize = 0;
        while c < data.corridors.len()
            invariant
                self.wf(),
                c <= data.corridors@.len(),
                forall|k: int| 0 <= k < data.corridors@.len() ==>
                    grid_index(WORLD_WIDTH as int, (#[trigger] data.corridors@[k]).x as int, data.corridors@[k].y as int)
                        < WORLD_WIDTH * WORLD_HEIGHT,
                self.tiles@ == corridor_all(overlay_all(carve_all(void, data.rooms@, data.rooms@.len()), data.tiles@,
                    data.tiles@.len()), data.corridors@, c as nat),
            decreases data.corridors@.len() - c,
        {
            let corridor_point = data.corridors[c];
            proof {
                assert(grid_index(WORLD_WIDTH as int, data.corridors@[c as int].x as int, data.corridors@[c as int].y as int)
                    < WORLD_WIDTH * WORLD_HEIGHT);
            }
            let updated_tile = match self.get_tile(corridor_point).tile_type {
                TileType::Void => TileType::Hallway,
                TileType::Wall => TileType::Door(DoorType::Archway),
                other => other,
            };
            self.set_tile_type(corridor_point, updated_tile);
            c = c + 1;
        }
        proof {
            assert(tiles_in_bounds(*data));
        }
        Ok(())
    }
}

} // verus!
