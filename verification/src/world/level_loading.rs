//! Entering levels: loading the handcrafted ones, generating the others,
//! and placing their npcs and items.

use vstd::prelude::*;

use crate::data::levels::level_paths;
use crate::gameplay::entity_logic::EntityId;
use crate::gameplay::game::{GameState, LevelSource};
use crate::util::errors_results::{DataError, EngineError, GameError};
use crate::util::random::rng_next_u64;
use crate::util::strings::{decimal, join};
use crate::util::text_log::LogData;
use crate::world::coordinate_system::Point;
use crate::world::level::{is_gauntlet_level, Level, LevelEntrance};
use crate::world::world_data::{applied_tiles, room_fits_world, SpawnData, SpawnKind, WorldData};
use crate::world::tiles::spec_is_walkable;
use crate::proc_gen::population::spawn_point;
use crate::data::npc_defs::spec_npc_def;
use crate::data::item_defs::spec_item_def;
use crate::gameplay::game_items::GameItemId;
use crate::world::worldspace::{grid_index, WORLD_HEIGHT, WORLD_WIDTH};

verus! {

/// Whether every room and corridor point of the data lies within the
/// world's tiles.
pub open spec fn spec_world_data_fits(data: WorldData) -> bool {
    &&& forall|k: int| 0 <= k < data.rooms@.len() ==> room_fits_world(#[trigger] data.rooms@[k])
    &&& forall|k: int| 0 <= k < data.corridors@.len() ==>
            grid_index(WORLD_WIDTH as int, (#[trigger] data.corridors@[k]).x as int, data.corridors@[k].y as int)
                < WORLD_WIDTH * WORLD_HEIGHT
}

/// Whether every room and corridor point of the data lies within the
/// world's tiles.
pub fn world_data_fits(data: &WorldData) -> (b: bool)
    ensures
        b == spec_world_data_fits(*data),
{
    let mut r: usize = 0;
    while r < data.rooms.len()
        invariant
            r <= data.rooms@.len(),
            forall|k: int| 0 <= k < r ==> room_fits_world(#[trigger] data.rooms@[k]),
        decreases data.rooms@.len() - r,
    {
        let room = data.rooms[r];
        if room.x > usize::MAX - room.width || room.y > usize::MAX - room.height {
            return false;
        }
        let right = room.x + room.width;
        let bottom = room.y + room.height;
        if bottom >= WORLD_HEIGHT || right >= WORLD_WIDTH * WORLD_HEIGHT {
            proof {
                if bottom < WORLD_HEIGHT {
                    assert(grid_index(WORLD_WIDTH as int, right as int, bottom as int) >= 2500);
                } else {
                    assert(grid_index(WORLD_WIDTH as int, right as int, bottom as int) >= 2500) by (nonlinear_arith)
                        requires bottom >= 25, right >= 0;
                }
            }
            return false;
        }
        if bottom * WORLD_WIDTH + right >= WORLD_WIDTH * WORLD_HEIGHT {
            return false;
        }
        r = r + 1;
    }
    let mut c: usize = 0;
    while c < data.corridors.len()
        invariant
            c <= data.corridors@.len(),
            forall|k: int| 0 <= k < data.rooms@.len() ==> room_fits_world(#[trigger] data.rooms@[k]),
            forall|k: int| 0 <= k < c ==>
                grid_index(WORLD_WIDTH as int, (#[trigger] data.corridors@[k]).x as int, data.corridors@[k].y as int)
                    < WORLD_WIDTH * WORLD_HEIGHT,
        decreases data.corridors@.len() - c,
    {
        let p = data.corridors[c];
        if p.y >= WORLD_HEIGHT || p.x >= WORLD_WIDTH * WORLD_HEIGHT {
            proof {
                if p.y < WORLD_HEIGHT {
                    assert(grid_index(WORLD_WIDTH as int, p.x as int, p.y as int) >= 2500);
                } else {
                    assert(grid_index(WORLD_WIDTH as int, p.x as int, p.y as int) >= 2500) by (nonlinear_arith)
                        requires p.y >= 25, p.x >= 0;
                }
            }
            return false;
        }
        if p.y * WORLD_WIDTH + p.x >= WORLD_WIDTH * WORLD_HEIGHT {
            return false;
        }
        c = c + 1;
    }
    true
}

/// Whether spawn `s` finds its point free, after the npcs `npcs` and items
/// `items` were placed: inside the world, on a walkable tile of the data's
/// world, and where none of them stands.
pub open spec fn spawn_free(data: WorldData, npcs: Seq<SpawnData>, items: Seq<SpawnData>, s: SpawnData) -> bool {
    &&& s.x < WORLD_WIDTH && s.y < WORLD_HEIGHT
    &&& spec_is_walkable(applied_tiles(data)[grid_index(WORLD_WIDTH as int, s.x as int, s.y as int)].tile_type)
    &&& forall|i: int| 0 <= i < npcs.len() ==> spawn_point(#[trigger] npcs[i]) != spawn_point(s)
    &&& forall|i: int| 0 <= i < items.len() ==> spawn_point(#[trigger] items[i]) != spawn_point(s)
}

/// The npc spawns and the item spawns among the first `k` spawns of the
/// data that are placed: each one whose point is free (see [spawn_free]),
/// in order.
pub open spec fn placed_spawns(data: WorldData, k: nat) -> (Seq<SpawnData>, Seq<SpawnData>)
    decreases k,
{
    if k == 0 || k > data.spawns@.len() {
        (Seq::empty(), Seq::empty())
    } else {
        let before = placed_spawns(data, (k - 1) as nat);
        let s = data.spawns@[k - 1];
        if spawn_free(data, before.0, before.1, s) {
            if s.kind is Npc { (before.0.push(s), before.1) } else { (before.0, before.1.push(s)) }
        } else {
            before
        }
    }
}

/// Whether every npc and item the data spawns is defined.
pub open spec fn spawns_defined(data: WorldData) -> bool {
    forall|k: int| 0 <= k < data.spawns@.len() ==> match (#[trigger] data.spawns@[k]).kind {
        SpawnKind::Npc { def_id } => spec_npc_def(def_id@) is Some,
        SpawnKind::Item { def_id } => spec_item_def(def_id@) is Some,
    }
}

impl GameState {
    /// Builds a level from world data: its world, entry and exit, and its
    /// npcs and items at their spawn points. A spawn point that is not
    /// available is skipped (with a debug warning).
    ///
    /// Errs where the data does not fit the world, or a spawned npc or item
    /// is not defined.
    pub fn build_level(&mut self, data: WorldData, level_nr: usize) -> (r: Result<Level, GameError>)
        requires
            old(self).levels_wf(),
        ensures
            final(self).cursor == old(self).cursor,
            final(self).game_rules == old(self).game_rules,
            final(self).levels_wf(),
            final(self).levels == old(self).levels,
            final(self).level_nr == old(self).level_nr,
            final(self).player == old(self).player,
            final(self).round_nr == old(self).round_nr,
            final(self).id_system.next_entity() >= old(self).id_system.next_entity(),
            final(self).id_system.next_item() >= old(self).id_system.next_item(),
            !(r matches Err(GameError::Data(DataError::StaticWorldNotFound(_)))),
            !(data.width == WORLD_WIDTH && data.height == WORLD_HEIGHT && spec_world_data_fits(data)
                && crate::world::world_data::tiles_in_bounds(data)) ==> (r matches Err(e)
                && e == GameError::Data(DataError::InvalidWorldFormat(level_nr))),
            data.width == WORLD_WIDTH && data.height == WORLD_HEIGHT && spec_world_data_fits(data)
                && crate::world::world_data::tiles_in_bounds(data) && spawns_defined(data)
                && old(self).id_system.next_entity() + data.spawns@.len() <= EntityId::MAX
                && old(self).id_system.next_item() + data.spawns@.len() <= GameItemId::MAX ==> r is Ok,
            r matches Ok(level) ==> {
                let placed = placed_spawns(data, data.spawns@.len());
                &&& level.npcs@.len() == placed.0.len()
                &&& forall|i: int| 0 <= i < placed.0.len() ==> {
                        let npc = #[trigger] level.npcs@[i];
                        let def = spec_npc_def(placed.0[i].kind->Npc_def_id@).unwrap();
                        &&& npc.base.pos == spawn_point(placed.0[i])
                        &&& npc.base.name@ == def.name@
                        &&& npc.base.glyph == def.glyph
                        &&& npc.stats == def.stats
                    }
                &&& level.item_sprites@.len() == placed.1.len()
                &&& forall|i: int| 0 <= i < placed.1.len() ==> {
                        let sprite = #[trigger] level.item_sprites@[i];
                        &&& sprite.base.pos == spawn_point(placed.1[i])
                        &&& final(self).items@.contains_key(sprite.item_id)
                        &&& final(self).items@[sprite.item_id].def_id@ == placed.1[i].kind->Item_def_id@
                    }
            },
            r matches Ok(level) ==> {
                &&& level.wf()
                &&& level.world.tiles@ == applied_tiles(data)
                &&& level.entry == data.entry
                &&& level.exit == data.exit
                &&& forall|id: EntityId| #[trigger] level.npc_index@.contains_key(id) ==> id < final(self).id_system.next_entity()
                &&& forall|id: EntityId| #[trigger] level.item_sprites_index@.contains_key(id)
                        ==> id < final(self).id_system.next_entity()
                &&& forall|id: EntityId| #[trigger] level.npc_map().contains_key(id)
                        ==> level.npc_map()[id].stats.damage <= crate::gameplay::game::MAX_NPC_DAMAGE
            },
    {
        let mut level = Level::new();
        if !world_data_fits(&data) {
            return Err(GameError::Data(DataError::InvalidWorldFormat(level_nr)));
        }
        match level.world.apply_world_data(&data, level_nr) {
            Err(e) => { return Err(e); },
            Ok(_) => {},
        }
        level.entry = data.entry;
        level.exit = data.exit;
        let ghost tiles = level.world.tiles@;

        let mut k: usize = 0;
        while k < data.spawns.len()
            invariant
                self.levels_wf(),
                level.wf(),
                level.world.tiles@ == tiles,
                tiles == applied_tiles(data),
                data.width == WORLD_WIDTH && data.height == WORLD_HEIGHT && spec_world_data_fits(data)
                    && crate::world::world_data::tiles_in_bounds(data),
                level.entry == data.entry,
                level.exit == data.exit,
                k <= data.spawns@.len(),
                self.levels == old(self).levels,
                self.level_nr == old(self).level_nr,
                self.player == old(self).player,
                self.round_nr == old(self).round_nr,
                self.cursor == old(self).cursor,
                self.game_rules == old(self).game_rules,
                self.id_system.next_entity() >= old(self).id_system.next_entity(),
                self.id_system.next_item() >= old(self).id_system.next_item(),
                forall|id: EntityId| #[trigger] level.npc_index@.contains_key(id) ==> id < self.id_system.next_entity(),
                forall|id: EntityId| #[trigger] level.item_sprites_index@.contains_key(id) ==> id < self.id_system.next_entity(),
                forall|id: EntityId| #[trigger] level.npc_map().contains_key(id)
                    ==> level.npc_map()[id].stats.damage <= crate::gameplay::game::MAX_NPC_DAMAGE,
                self.id_system.next_entity() <= old(self).id_system.next_entity() + k,
                self.id_system.next_item() <= old(self).id_system.next_item() + k,
                level.npcs@.len() == placed_spawns(data, k as nat).0.len(),
                level.item_sprites@.len() == placed_spawns(data, k as nat).1.len(),
                level.npcs@.len() + level.item_sprites@.len() <= k,
                forall|i: int| 0 <= i < placed_spawns(data, k as nat).0.len() ==> {
                    let placed = placed_spawns(data, k as nat);
                    let npc = #[trigger] level.npcs@[i];
                    let def = spec_npc_def(placed.0[i].kind->Npc_def_id@).unwrap();
                    &&& npc.base.pos == spawn_point(placed.0[i])
                    &&& npc.base.name@ == def.name@
                    &&& npc.base.glyph == def.glyph
                    &&& npc.stats == def.stats
                },
                forall|i: int| 0 <= i < placed_spawns(data, k as nat).1.len() ==> {
                    let placed = placed_spawns(data, k as nat);
                    let sprite = #[trigger] level.item_sprites@[i];
                    &&& sprite.base.pos == spawn_point(placed.1[i])
                    &&& self.items@.contains_key(sprite.item_id)
                    &&& self.items@[sprite.item_id].def_id@ == placed.1[i].kind->Item_def_id@
                },
            decreases data.spawns@.len() - k,
        {
            let ghost placed = placed_spawns(data, k as nat);
            let ghost level_before = level;
            let ghost self_before = *self;
            let spawn = &data.spawns[k];
            let pos = Point::new(spawn.x, spawn.y);
            let available = spawn.x < WORLD_WIDTH && spawn.y < WORLD_HEIGHT && {
                proof {
                    assert(spawn.y * 100 + spawn.x < 2500) by (nonlinear_arith)
                        requires spawn.x < 100, spawn.y < 25;
                }
                level.is_available(pos)
            };
            proof {
                let sp = data.spawns@[k as int];
                assert(*spawn == sp);
                if sp.x < WORLD_WIDTH && sp.y < WORLD_HEIGHT {
                    assert(level.world.width == WORLD_WIDTH);
                    assert(level.npc_at(pos) <==> exists|i: int| 0 <= i < placed.0.len() && spawn_point(placed.0[i]) == pos) by {
                        if level.npc_at(pos) {
                            let i = choose|i: int| 0 <= i < level.npcs@.len() && (#[trigger] level.npcs@[i]).base.pos == pos;
                            assert(spawn_point(placed.0[i]) == pos);
                        }
                        if exists|i: int| 0 <= i < placed.0.len() && spawn_point(placed.0[i]) == pos {
                            let i = choose|i: int| 0 <= i < placed.0.len() && spawn_point(placed.0[i]) == pos;
                            assert(level.npcs@[i].base.pos == pos);
                        }
                    }
                    assert(level.sprite_at(pos) <==> exists|i: int| 0 <= i < placed.1.len() && spawn_point(placed.1[i]) == pos) by {
                        if level.sprite_at(pos) {
                            let i = choose|i: int| 0 <= i < level.item_sprites@.len() && (#[trigger] level.item_sprites@[i]).base.pos == pos;
                            assert(spawn_point(placed.1[i]) == pos);
                        }
                        if exists|i: int| 0 <= i < placed.1.len() && spawn_point(placed.1[i]) == pos {
                            let i = choose|i: int| 0 <= i < placed.1.len() && spawn_point(placed.1[i]) == pos;
                            assert(level.item_sprites@[i].base.pos == pos);
                        }
                    }
                    assert(spawn_point(sp) == pos);
                }
                assert(available == spawn_free(data, placed.0, placed.1, sp));
                assert(placed_spawns(data, (k + 1) as nat) == if spawn_free(data, placed.0, placed.1, sp) {
                    if sp.kind is Npc { (placed.0.push(sp), placed.1) } else { (placed.0, placed.1.push(sp)) }
                } else { placed });
            }
            if !available {
                let message = join(join(join(join("Spawn blocked at (", decimal(spawn.x as u64).as_str()).as_str(), ", ").as_str(),
                    decimal(spawn.y as u64).as_str()).as_str(), ")");
                self.log.debug_warn(message);
                k = k + 1;
                continue;
            }
            proof {
                assert(spawn.y * 100 + spawn.x < 2500) by (nonlinear_arith)
                    requires spawn.x < 100, spawn.y < 25;
            }
            if self.id_system.next_entity_id_available() {
                match &spawn.kind {
                    SpawnKind::Npc { def_id } => {
                        let npc = match self.create_npc(def_id.clone(), pos) {
                            Ok(npc) => npc,
                            Err(e) => { return Err(e); },
                        };
                        proof {
                            crate::data::npc_defs::lemma_npc_damage(def_id@);
                        }
                        if level.npcs.len() == usize::MAX {
                            return Err(GameError::Engine(EngineError::SpawningError(pos)));
                        }
                        let ghost spawned = npc;
                        let ghost before_map = level.npc_map();
                        match level.spawn_npc(npc) {
                            Ok(_) => {},
                            Err(e) => { return Err(e); },
                        }
                        proof {
                            assert(spawned.stats.damage <= crate::gameplay::game::MAX_NPC_DAMAGE);
                            assert forall|id: EntityId| #[trigger] level.npc_map().contains_key(id) implies
                                level.npc_map()[id].stats.damage <= crate::gameplay::game::MAX_NPC_DAMAGE by {
                                if id != spawned.base.id {
                                    assert(before_map.contains_key(id));
                                }
                            }
                        }
                    },
                    SpawnKind::Item { def_id } => {
                        if !self.id_system.next_item_id_available() {
                            return Err(GameError::Engine(EngineError::SpawningError(pos)));
                        }
                        let item_id = match self.register_item(def_id) {
                            Ok(id) => id,
                            Err(e) => { return Err(e); },
                        };
                        if !self.id_system.next_entity_id_available() {
                            return Err(GameError::Engine(EngineError::SpawningError(pos)));
                        }
                        let item_sprite = match self.create_item_sprite(item_id, pos) {
                            Ok(sprite) => sprite,
                            Err(e) => { return Err(e); },
                        };
                        if level.item_sprites.len() == usize::MAX {
                            return Err(GameError::Engine(EngineError::SpawningError(pos)));
                        }
                        let ghost before_map = level.npc_map();
                        match level.spawn_item_sprite(item_sprite) {
                            Ok(_) => {},
                            Err(e) => { return Err(e); },
                        }
                        proof {
                            assert(level.npc_map() =~= before_map);
                        }
                    },
                }
            } else {
                return Err(GameError::Engine(EngineError::SpawningError(pos)));
            }
            k = k + 1;
        }
        Ok(level)
    }
}

impl GameState {
    /// Loads handcrafted level `level_nr` from the source and builds it.
    ///
    /// Errs where no handcrafted level has that number, or the source or
    /// the building fails.
    pub fn load_static_level<S: LevelSource>(&mut self, level_nr: usize, source: &S) -> (r: Result<Level, GameError>)
        requires
            old(self).levels_wf(),
        ensures
            final(self).cursor == old(self).cursor,
            final(self).game_rules == old(self).game_rules,
            final(self).levels_wf(),
            final(self).levels == old(self).levels,
            final(self).level_nr == old(self).level_nr,
            final(self).player == old(self).player,
            final(self).round_nr == old(self).round_nr,
            level_nr >= crate::data::levels::spec_level_paths().len() ==> (r matches Err(e)
                && e == GameError::Data(DataError::StaticWorldNotFound(level_nr)) && *final(self) == *old(self)),
            r matches Err(GameError::Data(DataError::StaticWorldNotFound(_)))
                ==> level_nr >= crate::data::levels::spec_level_paths().len(),
            r matches Ok(level) ==> {
                &&& level.wf()
                &&& forall|id: EntityId| #[trigger] level.npc_index@.contains_key(id) ==> id < final(self).id_system.next_entity()
                &&& forall|id: EntityId| #[trigger] level.item_sprites_index@.contains_key(id)
                        ==> id < final(self).id_system.next_entity()
                &&& forall|id: EntityId| #[trigger] level.npc_map().contains_key(id)
                        ==> level.npc_map()[id].stats.damage <= crate::gameplay::game::MAX_NPC_DAMAGE
            },
    {
        let paths = level_paths();
        if level_nr >= paths.len() {
            return Err(GameError::Data(DataError::StaticWorldNotFound(level_nr)));
        }
        let data = match source.load_static(level_nr) {
            Ok(data) => data,
            Err(e) => { return Err(GameError::Io(e)); },
        };
        self.build_level(data, level_nr)
    }

    /// Generates level `level_nr` from the next seed of the level generator
    /// and builds it. Both the seed and the generator's next number are
    /// logged.
    pub fn load_generated_level<S: LevelSource>(&mut self, level_nr: usize, source: &S) -> (r: Result<Level, GameError>)
        requires
            old(self).levels_wf(),
        ensures
            final(self).cursor == old(self).cursor,
            final(self).game_rules == old(self).game_rules,
            final(self).levels_wf(),
            final(self).levels == old(self).levels,
            final(self).level_nr == old(self).level_nr,
            final(self).player == old(self).player,
            final(self).round_nr == old(self).round_nr,
            r matches Ok(level) ==> {
                &&& level.wf()
                &&& forall|id: EntityId| #[trigger] level.npc_index@.contains_key(id) ==> id < final(self).id_system.next_entity()
                &&& forall|id: EntityId| #[trigger] level.item_sprites_index@.contains_key(id)
                        ==> id < final(self).id_system.next_entity()
                &&& forall|id: EntityId| #[trigger] level.npc_map().contains_key(id)
                        ==> level.npc_map()[id].stats.damage <= crate::gameplay::game::MAX_NPC_DAMAGE
            },
    {
        let level_seed = rng_next_u64(&mut self.proc_gen);
        self.log.debug_info(join("Current Level Seed: ", decimal(level_seed).as_str()));
        let data = source.generate(level_seed);
        let state = rng_next_u64(&mut self.proc_gen);
        self.log.debug_info(join("RNG State after Proc-Gen: ", decimal(state).as_str()));
        self.build_level(data, level_nr)
    }

    /// Makes level `index`: handcrafted level 0 for the first level, the
    /// gauntlet (handcrafted level 1, greeted in the log) every 8 levels
    /// from level 2 on, and a generated level otherwise. A failure is
    /// logged as a debug warning and returned.
    pub fn initialize_level<S: LevelSource>(&mut self, index: usize, source: &S) -> (r: Result<(), GameError>)
        requires
            old(self).levels_wf(),
            index <= old(self).levels@.len(),
        ensures
            final(self).cursor == old(self).cursor,
            final(self).game_rules == old(self).game_rules,
            final(self).levels_wf(),
            final(self).level_nr == old(self).level_nr,
            final(self).player == old(self).player,
            final(self).round_nr == old(self).round_nr,
            r is Err ==> final(self).levels == old(self).levels,
            r is Ok ==> final(self).levels@.len() == old(self).levels@.len() + 1
                && final(self).levels@.take(index as int) == old(self).levels@.take(index as int)
                && final(self).levels@.skip(index + 1) == old(self).levels@.skip(index as int),
    {
        let loaded = if index == 0 {
            self.load_static_level(0, source)
        } else if is_gauntlet_level(index) {
            self.log.info(LogData::GauntletGreeting);
            self.load_static_level(1, source)
        } else {
            self.load_generated_level(index, source)
        };
        let new_level = match loaded {
            Ok(level) => level,
            Err(error) => {
                let prefix = if index == 0 || is_gauntlet_level(index) { "Couldn't load level " } else {
                    "Couldn't generate level " };
                self.log.debug_warn(join(prefix, error.describe().as_str()));
                return Err(error);
            },
        };
        let ghost before = *self;
        let ghost fresh = new_level;
        self.levels.insert(index, new_level);
        proof {
            assert forall|i: int| 0 <= i < self.levels@.len() implies (#[trigger] self.levels@[i]).wf() by {
                if i < index { assert(self.levels@[i] == before.levels@[i]); }
                else if i > index { assert(self.levels@[i] == before.levels@[i - 1]); }
            }
            assert forall|i: int, id: EntityId| 0 <= i < self.levels@.len()
                && #[trigger] self.levels@[i].npc_index@.contains_key(id) implies id < self.id_system.next_entity() by {
                if i < index { assert(self.levels@[i] == before.levels@[i]); }
                else if i > index { assert(self.levels@[i] == before.levels@[i - 1]); }
                else { assert(self.levels@[i] == fresh); }
            }
            assert forall|i: int, id: EntityId| 0 <= i < self.levels@.len()
                && #[trigger] self.levels@[i].item_sprites_index@.contains_key(id) implies id < self.id_system.next_entity() by {
                if i < index { assert(self.levels@[i] == before.levels@[i]); }
                else if i > index { assert(self.levels@[i] == before.levels@[i - 1]); }
                else { assert(self.levels@[i] == fresh); }
            }
            assert forall|i: int, id: EntityId| 0 <= i < self.levels@.len()
                && #[trigger] self.levels@[i].npc_map().contains_key(id) implies
                self.levels@[i].npc_map()[id].stats.damage <= crate::gameplay::game::MAX_NPC_DAMAGE by {
                if i < index { assert(self.levels@[i] == before.levels@[i]); }
                else if i > index { assert(self.levels@[i] == before.levels@[i - 1]); }
                else { assert(self.levels@[i] == fresh); }
            }
            assert(self.levels@.take(index as int) =~= before.levels@.take(index as int));
            assert(self.levels@.skip(index + 1) =~= before.levels@.skip(index as int));
        }
        Ok(())
    }

    /// Goes to level `index` (making it first where it does not exist yet),
    /// puts the player character at its entry or exit, and computes the
    /// field of view.
    ///
    /// Errs where the level cannot be made, or its entry or exit lies
    /// outside the world.
    pub fn goto_level<S: LevelSource>(&mut self, index: usize, entrance_point: LevelEntrance, source: &S)
        -> (r: Result<(), GameError>)
        requires
            old(self).levels_wf(),
            index <= old(self).levels@.len(),
        ensures
            final(self).cursor == old(self).cursor,
            final(self).game_rules == old(self).game_rules,
            final(self).player.name == old(self).player.name,
            final(self).player.character.base.id == old(self).player.character.base.id,
            final(self).player.character.armor == old(self).player.character.armor,
            final(self).player.character.weapon == old(self).player.character.weapon,
            r is Ok && index == old(self).levels@.len() ==> final(self).levels@.len() == old(self).levels@.len() + 1,
            final(self).levels_wf(),
            old(self).wf() || r is Ok ==> final(self).wf(),
            final(self).round_nr == old(self).round_nr,
            r is Ok ==> {
                &&& final(self).level_nr == index
                &&& final(self).player.character.base.pos == match entrance_point {
                        LevelEntrance::Entry => final(self).cur().entry,
                        LevelEntrance::Exit => final(self).cur().exit,
                    }
                &&& final(self).player.character.base.pos.x < WORLD_WIDTH
                &&& final(self).player.character.base.pos.y < WORLD_HEIGHT
                &&& index < old(self).levels@.len() ==> final(self).levels@.len() == old(self).levels@.len()
            },
            final(self).player.character.stats == old(self).player.character.stats,
            final(self).player.character.inventory@ == old(self).player.character.inventory@,
            final(self).player.character.active_buffs@ == old(self).player.character.active_buffs@,
            final(self).player.character.potion_usage@ == old(self).player.character.potion_usage@,
            (final(self).player.character.base.pos.x < WORLD_WIDTH && final(self).player.character.base.pos.y < WORLD_HEIGHT)
                || final(self).player.character.base.pos == old(self).player.character.base.pos,
            final(self).level_nr == old(self).level_nr || final(self).level_nr == index,
            index < old(self).levels@.len() ==> ({
                let p = match entrance_point {
                    LevelEntrance::Entry => old(self).levels@[index as int].entry,
                    LevelEntrance::Exit => old(self).levels@[index as int].exit,
                };
                &&& (p.x < WORLD_WIDTH && p.y < WORLD_HEIGHT) ==> r is Ok
                &&& !(p.x < WORLD_WIDTH && p.y < WORLD_HEIGHT)
                    ==> r == Err::<(), GameError>(GameError::Data(DataError::InvalidWorldFormat(index)))
            }),
            r is Ok ==> forall|i: int| 0 <= i < old(self).levels@.len() && i != index
                ==> #[trigger] final(self).levels@[i] == old(self).levels@[i],
            r is Ok && index < old(self).levels@.len() ==> {
                let before = old(self).levels@[index as int];
                let after = final(self).levels@[index as int];
                &&& after.npcs == before.npcs
                &&& after.item_sprites == before.item_sprites
                &&& after.entry == before.entry
                &&& after.exit == before.exit
                &&& after.world.tiles@.len() == before.world.tiles@.len()
                &&& forall|k: int| 0 <= k < before.world.tiles@.len()
                    ==> (#[trigger] after.world.tiles@[k]).tile_type == before.world.tiles@[k].tile_type
            },
    {
        if index < self.levels.len() {
            self.level_nr = index;
        } else {
            let ghost levels0 = self.levels@;
            match self.initialize_level(index, source) {
                Ok(_) => {},
                Err(e) => { return Err(e); },
            }
            proof {
                assert forall|i: int| 0 <= i < levels0.len() implies #[trigger] self.levels@[i] == levels0[i] by {
                    assert(self.levels@.take(index as int)[i] == levels0.take(index as int)[i]);
                }
            }
            self.level_nr = index;
        }
        let pos = match entrance_point {
            LevelEntrance::Entry => self.current_level().entry,
            LevelEntrance::Exit => self.current_level().exit,
        };
        if pos.x >= WORLD_WIDTH || pos.y >= WORLD_HEIGHT {
            return Err(GameError::Data(DataError::InvalidWorldFormat(index)));
        }
        self.player.character.base.pos = pos;
        self.compute_fov();
        Ok(())
    }

    /// Goes down to the next level, arriving at its entry.
    pub fn goto_level_next<S: LevelSource>(&mut self, source: &S) -> (r: Result<(), GameError>)
        requires
            old(self).wf(),
            old(self).level_nr + 1 <= usize::MAX,
        ensures
            final(self).wf(),
            final(self).round_nr == old(self).round_nr,
            r is Ok ==> final(self).level_nr == old(self).level_nr + 1
                && final(self).player.character.base.pos == final(self).cur().entry,
            final(self).player.character.stats == old(self).player.character.stats,
            final(self).player.character.inventory@ == old(self).player.character.inventory@,
            final(self).player.character.active_buffs@ == old(self).player.character.active_buffs@,
            final(self).player.character.potion_usage@ == old(self).player.character.potion_usage@,
            (final(self).player.character.base.pos.x < WORLD_WIDTH && final(self).player.character.base.pos.y < WORLD_HEIGHT)
                || final(self).player.character.base.pos == old(self).player.character.base.pos,
            final(self).level_nr == old(self).level_nr || final(self).level_nr == old(self).level_nr + 1,
            r is Ok ==> forall|i: int| 0 <= i < old(self).levels@.len() && i != old(self).level_nr + 1
                ==> #[trigger] final(self).levels@[i] == old(self).levels@[i],
            old(self).level_nr + 1 < old(self).levels@.len() ==> ({
                let p = old(self).levels@[old(self).level_nr + 1].entry;
                &&& (p.x < WORLD_WIDTH && p.y < WORLD_HEIGHT) ==> r is Ok
                &&& !(p.x < WORLD_WIDTH && p.y < WORLD_HEIGHT) ==> r == Err::<(), GameError>(
                        GameError::Data(DataError::InvalidWorldFormat((old(self).level_nr + 1) as usize)))
            }),
    {
        let next = self.level_nr + 1;
        if next <= self.levels.len() {
            self.goto_level(next, LevelEntrance::Entry, source)
        } else {
            proof { assert(false); }
            Ok(())
        }
    }

    /// Goes back up to the previous level, arriving at its exit.
    pub fn goto_level_previous<S: LevelSource>(&mut self, source: &S) -> (r: Result<(), GameError>)
        requires
            old(self).wf(),
            old(self).level_nr >= 1,
        ensures
            final(self).wf(),
            final(self).round_nr == old(self).round_nr,
            r is Ok ==> final(self).level_nr == old(self).level_nr - 1
                && final(self).player.character.base.pos == final(self).cur().exit,
            final(self).player.character.stats == old(self).player.character.stats,
            final(self).player.character.inventory@ == old(self).player.character.inventory@,
            final(self).player.character.active_buffs@ == old(self).player.character.active_buffs@,
            final(self).player.character.potion_usage@ == old(self).player.character.potion_usage@,
            (final(self).player.character.base.pos.x < WORLD_WIDTH && final(self).player.character.base.pos.y < WORLD_HEIGHT)
                || final(self).player.character.base.pos == old(self).player.character.base.pos,
            final(self).level_nr == old(self).level_nr || final(self).level_nr == old(self).level_nr - 1,
            r is Ok ==> forall|i: int| 0 <= i < old(self).levels@.len() && i != old(self).level_nr - 1
                ==> #[trigger] final(self).levels@[i] == old(self).levels@[i],
            ({
                let p = old(self).levels@[old(self).level_nr - 1].exit;
                &&& (p.x < WORLD_WIDTH && p.y < WORLD_HEIGHT) ==> r is Ok
                &&& !(p.x < WORLD_WIDTH && p.y < WORLD_HEIGHT) ==> r == Err::<(), GameError>(
                        GameError::Data(DataError::InvalidWorldFormat((old(self).level_nr - 1) as usize)))
            }),
            r is Ok ==> {
                let before = old(self).levels@[old(self).level_nr - 1];
                let after = final(self).levels@[old(self).level_nr - 1];
                &&& after.npcs == before.npcs
                &&& after.item_sprites == before.item_sprites
                &&& after.world.tiles@.len() == before.world.tiles@.len()
                &&& forall|k: int| 0 <= k < before.world.tiles@.len()
                    ==> (#[trigger] after.world.tiles@[k]).tile_type == before.world.tiles@[k].tile_type
            },
    {
        self.goto_level(self.level_nr - 1, LevelEntrance::Exit, source)
    }
}

} // verus!
