//! A level: its world and the entities in it.

use std::collections::HashMap;

use vstd::prelude::*;

use crate::ai::npc_ai::NpcAiState;
use crate::gameplay::entity_logic::{hp_after_damage, BaseStats, EntityBase, EntityId, Npc, NpcStats};
use crate::gameplay::game_items::GameItemSprite;
use crate::util::errors_results::{EngineError, GameError};
use crate::world::coordinate_system::Point;
use crate::world::tiles::{spec_is_walkable, Collision, Tile};
use crate::world::worldspace::World;

verus! {

broadcast use vstd::std_specs::hash::group_hash_axioms;

/// Handcrafted levels appear at this interval: with 8, at levels 2, 10, 18, ...
pub const STATIC_LEVEL_INTERVAL: usize = 8;

/// Whether a level is a gauntlet: a handcrafted level with extra challenge.
pub open spec fn spec_is_gauntlet_level(level: usize) -> bool {
    level % STATIC_LEVEL_INTERVAL == 2
}

/// Whether a level is a gauntlet: a handcrafted level with extra challenge.
pub fn is_gauntlet_level(level: usize) -> (b: bool)
    ensures
        b == spec_is_gauntlet_level(level),
{
    level % STATIC_LEVEL_INTERVAL == 2
}

/// An index of a list by identifier: it maps exactly the identifiers of the
/// list, each to its position (so no identifier occurs twice).
pub open spec fn index_wf(ids: Seq<EntityId>, index: Map<EntityId, usize>) -> bool {
    &&& forall|id: EntityId| #[trigger] index.contains_key(id) ==> index[id] < ids.len() && ids[index[id] as int] == id
    &&& forall|i: int| 0 <= i < ids.len() ==> index.contains_key(#[trigger] ids[i]) && index[ids[i]] == i
}

/// The identifiers of a list of npcs, in order.
pub open spec fn npc_ids(npcs: Seq<Npc>) -> Seq<EntityId> {
    npcs.map_values(|n: Npc| n.base.id)
}

/// The identifiers of a list of item sprites, in order.
pub open spec fn sprite_ids(sprites: Seq<GameItemSprite>) -> Seq<EntityId> {
    sprites.map_values(|s: GameItemSprite| s.base.id)
}

/// A level: its world, where it is entered and left, and its entities.
pub struct Level {
    pub world: World,
    pub entry: Point,
    pub exit: Point,
    pub npcs: Vec<Npc>,
    pub npc_index: HashMap<EntityId, usize>,
    pub item_sprites: Vec<GameItemSprite>,
    pub item_sprites_index: HashMap<EntityId, usize>,
}

/// Where a level is entered from.
#[derive(Clone, Copy, Debug, PartialEq, Eq, Structural)]
pub enum LevelEntrance {
    Entry,
    Exit,
}

impl Level {
    /// The world has its dimensions and both indices are exact.
    pub open spec fn wf(&self) -> bool {
        &&& self.world.wf()
        &&& index_wf(npc_ids(self.npcs@), self.npc_index@)
        &&& index_wf(sprite_ids(self.item_sprites@), self.item_sprites_index@)
        &&& forall|id: EntityId| !(#[trigger] self.npc_index@.contains_key(id) && self.item_sprites_index@.contains_key(id))
        &&& forall|i: int| 0 <= i < self.npcs@.len() ==> self.world.spec_in_bounds(
                (#[trigger] self.npcs@[i]).base.pos.x as int, self.npcs@[i].base.pos.y as int)
        &&& forall|i: int| 0 <= i < self.item_sprites@.len() ==> self.world.spec_in_bounds(
                (#[trigger] self.item_sprites@[i]).base.pos.x as int, self.item_sprites@[i].base.pos.y as int)
    }

    /// The npcs of the level by identifier.
    pub open spec fn npc_map(&self) -> Map<EntityId, Npc> {
        Map::new(|id: EntityId| self.npc_index@.contains_key(id), |id: EntityId| self.npcs@[self.npc_index@[id] as int])
    }

    /// The item sprites of the level by identifier.
    pub open spec fn sprite_map(&self) -> Map<EntityId, GameItemSprite> {
        Map::new(
            |id: EntityId| self.item_sprites_index@.contains_key(id),
            |id: EntityId| self.item_sprites@[self.item_sprites_index@[id] as int],
        )
    }

    /// Whether some npc stands on `p`.
    pub open spec fn npc_at(&self, p: Point) -> bool {
        exists|i: int| 0 <= i < self.npcs@.len() && (#[trigger] self.npcs@[i]).base.pos == p
    }

    /// Whether some item lies on `p`.
    pub open spec fn sprite_at(&self, p: Point) -> bool {
        exists|i: int| 0 <= i < self.item_sprites@.len() && (#[trigger] self.item_sprites@[i]).base.pos == p
    }

    /// Whether npc `i` is the first (in spawning order) standing on `p`.
    pub open spec fn is_first_npc_at(&self, i: int, p: Point) -> bool {
        &&& 0 <= i < self.npcs@.len()
        &&& self.npcs@[i].base.pos == p
        &&& forall|j: int| 0 <= j < i ==> self.npcs@[j].base.pos != p
    }

    /// Whether item sprite `i` is the first (in spawning order) lying on `p`.
    pub open spec fn is_first_sprite_at(&self, i: int, p: Point) -> bool {
        &&& 0 <= i < self.item_sprites@.len()
        &&& self.item_sprites@[i].base.pos == p
        &&& forall|j: int| 0 <= j < i ==> self.item_sprites@[j].base.pos != p
    }

    /// The first npc standing on `p`, where one does.
    pub open spec fn first_npc_at(&self, p: Point) -> Npc {
        self.npcs@[choose|i: int| self.is_first_npc_at(i, p)]
    }

    /// The first item sprite lying on `p`, where one does.
    pub open spec fn first_sprite_at(&self, p: Point) -> GameItemSprite {
        self.item_sprites@[choose|i: int| self.is_first_sprite_at(i, p)]
    }

    /// Whether an npc or an item is on `p`.
    pub open spec fn is_occupied_spec(&self, p: Point) -> bool {
        self.npc_at(p) || self.sprite_at(p)
    }

    /// Whether an entity can be placed on `p`: in bounds, walkable, and free
    /// of npcs and items.
    pub open spec fn spec_is_available(&self, p: Point) -> bool {
        &&& self.world.spec_in_bounds(p.x as int, p.y as int)
        &&& !self.npc_at(p)
        &&& !self.sprite_at(p)
        &&& spec_is_walkable(self.world.tile_at(p.x as int, p.y as int).tile_type)
    }

    /// An empty level over a world of void.
    pub fn new() -> (level: Self)
        ensures
            level.wf(),
            level.npcs@.len() == 0,
            level.item_sprites@.len() == 0,
            level.npc_map() == Map::<EntityId, Npc>::empty(),
            level.sprite_map() == Map::<EntityId, GameItemSprite>::empty(),
            level.entry == (Point { x: 0, y: 0 }),
            level.exit == (Point { x: 0, y: 0 }),
            forall|k: int| 0 <= k < level.world.tiles.len() ==> level.world.tiles@[k] == Tile::void_spec(),
    {
        let level = Self {
            world: World::new(),
            entry: Point::new(0, 0),
            exit: Point::new(0, 0),
            npcs: Vec::new(),
            npc_index: HashMap::new(),
            item_sprites: Vec::new(),
            item_sprites_index: HashMap::new(),
        };
        assert(level.npc_map() == Map::<EntityId, Npc>::empty());
        assert(level.sprite_map() == Map::<EntityId, GameItemSprite>::empty());
        level
    }

    /// The npc with the given identifier, if the level has one.
    pub fn get_npc(&self, id: EntityId) -> (r: Option<&Npc>)
        requires
            self.wf(),
        ensures
            r is Some <==> self.npc_map().contains_key(id),
            r matches Some(npc) ==> *npc == self.npc_map()[id],
    {
        match self.npc_index.get(&id) {
            Some(index) => Some(&self.npcs[*index]),
            None => None,
        }
    }

    /// The item sprite with the given identifier, if the level has one.
    pub fn get_item_sprite(&self, id: EntityId) -> (r: Option<&GameItemSprite>)
        requires
            self.wf(),
        ensures
            r is Some <==> self.sprite_map().contains_key(id),
            r matches Some(sprite) ==> *sprite == self.sprite_map()[id],
    {
        match self.item_sprites_index.get(&id) {
            Some(index) => Some(&self.item_sprites[*index]),
            None => None,
        }
    }

    /// The first npc (in spawning order) standing on `point`.
    pub fn get_npc_at(&self, point: Point) -> (r: Option<EntityId>)
        ensures
            r is None <==> !self.npc_at(point),
            r matches Some(id) ==> exists|i: int| 0 <= i < self.npcs@.len()
                && (#[trigger] self.npcs@[i]).base.pos == point && self.npcs@[i].base.id == id
                && forall|j: int| 0 <= j < i ==> self.npcs@[j].base.pos != point,
            self.npc_at(point) ==> r == Some(self.first_npc_at(point).base.id),
    {
        let mut i: usize = 0;
        while i < self.npcs.len()
            invariant
                i <= self.npcs.len(),
                forall|j: int| 0 <= j < i ==> self.npcs@[j].base.pos != point,
            decreases self.npcs.len() - i,
        {
            if self.npcs[i].base.pos == point {
                proof {
                    assert(self.is_first_npc_at(i as int, point));
                    let c = choose|c: int| self.is_first_npc_at(c, point);
                    assert(c == i as int) by {
                        if c < i as int {
                        } else if c > i as int {
                            assert(self.npcs@[i as int].base.pos != point);
                        }
                    }
                }
                return Some(self.npcs[i].base.id);
            }
            i = i + 1;
        }
        None
    }

    /// The first item sprite (in spawning order) lying on `point`.
    pub fn get_item_sprite_at(&self, point: Point) -> (r: Option<EntityId>)
        ensures
            r is None <==> !self.sprite_at(point),
            r matches Some(id) ==> exists|i: int| 0 <= i < self.item_sprites@.len()
                && (#[trigger] self.item_sprites@[i]).base.pos == point && self.item_sprites@[i].base.id == id
                && forall|j: int| 0 <= j < i ==> self.item_sprites@[j].base.pos != point,
            self.sprite_at(point) ==> r == Some(self.first_sprite_at(point).base.id),
    {
        let mut i: usize = 0;
        while i < self.item_sprites.len()
            invariant
                i <= self.item_sprites.len(),
                forall|j: int| 0 <= j < i ==> self.item_sprites@[j].base.pos != point,
            decreases self.item_sprites.len() - i,
        {
            if self.item_sprites[i].base.pos == point {
                proof {
                    assert(self.is_first_sprite_at(i as int, point));
                    let c = choose|c: int| self.is_first_sprite_at(c, point);
                    assert(c == i as int) by {
                        if c < i as int {
                        } else if c > i as int {
                            assert(self.item_sprites@[i as int].base.pos != point);
                        }
                    }
                }
                return Some(self.item_sprites[i].base.id);
            }
            i = i + 1;
        }
        None
    }

    /// Whether an npc or an item is on `point`.
    pub fn is_occupied(&self, point: Point) -> (b: bool)
        ensures
            b == (self.npc_at(point) || self.sprite_at(point)),
    {
        self.get_npc_at(point).is_some() || self.get_item_sprite_at(point).is_some()
    }

    /// Whether `point` is in bounds, free of npcs and items, and walkable.
    pub fn is_available(&self, point: Point) -> (b: bool)
        requires
            self.world.wf(),
        ensures
            b == self.spec_is_available(point),
    {
        let in_bounds = point.x < self.world.width && point.y < self.world.height;
        if !in_bounds {
            return false;
        }
        proof {
            crate::world::worldspace::lemma_cell_index(self.world, point.x as int, point.y as int);
        }
        let free_of_npcs = self.get_npc_at(point).is_none();
        let free_of_item_sprites = self.get_item_sprite_at(point).is_none();
        let walkable = self.world.get_tile(point).tile_type.is_walkable();

        in_bounds && free_of_npcs && free_of_item_sprites && walkable
    }

    /// Spawns an npc on the map: it fails with a spawning error, changing
    /// nothing, where its position is not available; otherwise the npc is
    /// added to the list and its identifier indexed.
    pub fn spawn_npc(&mut self, npc: Npc) -> (r: Result<(), GameError>)
        requires
            old(self).wf(),
            old(self).world.has_cell(npc.base.pos.x as int, npc.base.pos.y as int),
            !old(self).npc_index@.contains_key(npc.base.id),
            !old(self).item_sprites_index@.contains_key(npc.base.id),
            old(self).npcs@.len() < usize::MAX,
        ensures
            final(self).wf(),
            r is Ok <==> old(self).spec_is_available(npc.base.pos),
            r matches Err(e) ==> e == GameError::Engine(EngineError::SpawningError(npc.base.pos)),
            r is Err ==> *final(self) == *old(self),
            r is Ok ==> {
                &&& final(self).npcs@ == old(self).npcs@.push(npc)
                &&& final(self).npc_index@ == old(self).npc_index@.insert(npc.base.id, old(self).npcs@.len() as usize)
                &&& final(self).npc_map() == old(self).npc_map().insert(npc.base.id, npc)
                &&& final(self).world == old(self).world
                &&& final(self).entry == old(self).entry
                &&& final(self).exit == old(self).exit
                &&& final(self).item_sprites == old(self).item_sprites
                &&& final(self).item_sprites_index == old(self).item_sprites_index
            },
    {
        let pos = npc.base.pos;
        if !self.is_available(pos) {
            return Err(GameError::Engine(EngineError::SpawningError(pos)));
        }
        let npc_id = npc.base.id;
        let ghost old_npcs = self.npcs@;
        let ghost old_index = self.npc_index@;
        let ghost old_map = self.npc_map();
        self.npcs.push(npc);
        let index = self.npcs.len() - 1;
        self.npc_index.insert(npc_id, index);
        proof {
            let ids = npc_ids(self.npcs@);
            assert(ids == npc_ids(old_npcs).push(npc_id));
            assert forall|id: EntityId| #[trigger] self.npc_index@.contains_key(id) implies
                self.npc_index@[id] < ids.len() && ids[self.npc_index@[id] as int] == id by {
                if id != npc_id {
                    assert(old_index.contains_key(id));
                }
            }
            assert forall|i: int| 0 <= i < ids.len() implies
                self.npc_index@.contains_key(#[trigger] ids[i]) && self.npc_index@[ids[i]] == i by {
                if i < old_npcs.len() {
                    assert(ids[i] == npc_ids(old_npcs)[i]);
                    assert(npc_ids(old_npcs)[i] != npc_id);
                }
            }
            assert(self.npc_map() == old_map.insert(npc_id, npc));
        }
        Ok(())
    }

    /// Spawns an item sprite on the map, as [Level::spawn_npc] does an npc.
    pub fn spawn_item_sprite(&mut self, item_sprite: GameItemSprite) -> (r: Result<(), GameError>)
        requires
            old(self).wf(),
            old(self).world.has_cell(item_sprite.base.pos.x as int, item_sprite.base.pos.y as int),
            !old(self).item_sprites_index@.contains_key(item_sprite.base.id),
            !old(self).npc_index@.contains_key(item_sprite.base.id),
            old(self).item_sprites@.len() < usize::MAX,
        ensures
            final(self).wf(),
            r is Ok <==> old(self).spec_is_available(item_sprite.base.pos),
            r matches Err(e) ==> e == GameError::Engine(EngineError::SpawningError(item_sprite.base.pos)),
            r is Err ==> *final(self) == *old(self),
            r is Ok ==> {
                &&& final(self).item_sprites@ == old(self).item_sprites@.push(item_sprite)
                &&& final(self).item_sprites_index@ == old(self).item_sprites_index@.insert(
                    item_sprite.base.id, old(self).item_sprites@.len() as usize)
                &&& final(self).sprite_map() == old(self).sprite_map().insert(item_sprite.base.id, item_sprite)
                &&& final(self).world == old(self).world
                &&& final(self).entry == old(self).entry
                &&& final(self).exit == old(self).exit
                &&& final(self).npcs == old(self).npcs
                &&& final(self).npc_index == old(self).npc_index
            },
    {
        let pos = item_sprite.base.pos;
        if !self.is_available(pos) {
            return Err(GameError::Engine(EngineError::SpawningError(pos)));
        }
        let sprite_id = item_sprite.base.id;
        let ghost old_sprites = self.item_sprites@;
        let ghost old_index = self.item_sprites_index@;
        let ghost old_map = self.sprite_map();
        self.item_sprites.push(item_sprite);
        let index = self.item_sprites.len() - 1;
        self.item_sprites_index.insert(sprite_id, index);
        proof {
            let ids = sprite_ids(self.item_sprites@);
            assert(ids == sprite_ids(old_sprites).push(sprite_id));
            assert forall|id: EntityId| #[trigger] self.item_sprites_index@.contains_key(id) implies
                self.item_sprites_index@[id] < ids.len() && ids[self.item_sprites_index@[id] as int] == id by {
                if id != sprite_id {
                    assert(old_index.contains_key(id));
                }
            }
            assert forall|i: int| 0 <= i < ids.len() implies
                self.item_sprites_index@.contains_key(#[trigger] ids[i]) && self.item_sprites_index@[ids[i]] == i by {
                if i < old_sprites.len() {
                    assert(ids[i] == sprite_ids(old_sprites)[i]);
                    assert(sprite_ids(old_sprites)[i] != sprite_id);
                }
            }
            assert(self.sprite_map() == old_map.insert(sprite_id, item_sprite));
        }
        Ok(())
    }
    /// The position in the list of the npc with identifier `id`.
    fn npc_position(&self, id: EntityId) -> (i: usize)
        requires
            self.wf(),
            self.npc_map().contains_key(id),
        ensures
            i == self.npc_index@[id],
            i < self.npcs@.len(),
            self.npcs@[i as int] == self.npc_map()[id],
            self.npcs@[i as int].base.id == id,
    {
        proof {
            assert(npc_ids(self.npcs@)[self.npc_index@[id] as int] == id);
        }
        match self.npc_index.get(&id) {
            Some(i) => *i,
            None => { proof { assert(false); } 0 },
        }
    }

    /// Moves the npc with identifier `id` to `point`.
    pub fn move_npc_to(&mut self, id: EntityId, point: Point)
        requires
            old(self).wf(),
            old(self).npc_map().contains_key(id),
            old(self).world.spec_in_bounds(point.x as int, point.y as int),
        ensures
            final(self).wf(),
            final(self).npc_map() == old(self).npc_map().insert(id, Npc {
                base: EntityBase { pos: point, ..old(self).npc_map()[id].base }, ..old(self).npc_map()[id] }),
            final(self).npcs@.len() == old(self).npcs@.len(),
            final(self).world == old(self).world,
            final(self).entry == old(self).entry,
            final(self).exit == old(self).exit,
            final(self).item_sprites == old(self).item_sprites,
            final(self).item_sprites_index == old(self).item_sprites_index,
    {
        let i = self.npc_position(id);
        let mut npc = self.npcs.remove(i);
        npc.base.pos = point;
        let ghost moved = npc;
        self.npcs.insert(i, npc);
        proof {
            assert(self.npcs@ =~= old(self).npcs@.update(i as int, moved));
            assert(npc_ids(self.npcs@) =~= npc_ids(old(self).npcs@));
            assert(self.npc_map() =~= old(self).npc_map().insert(id, moved)) by {
                assert forall|k: EntityId| self.npc_map().contains_key(k) implies
                    self.npc_map()[k] == old(self).npc_map().insert(id, moved)[k] by {
                    let j = self.npc_index@[k] as int;
                    assert(npc_ids(old(self).npcs@)[j] == k);
                }
            }
        }
    }

    /// The npc with identifier `id` takes `amount` damage.
    pub fn npc_take_damage(&mut self, id: EntityId, amount: u16)
        requires
            old(self).wf(),
            old(self).npc_map().contains_key(id),
        ensures
            final(self).wf(),
            final(self).npc_map() == old(self).npc_map().insert(id, Npc {
                stats: NpcStats {
                    base: BaseStats {
                        hp_current: hp_after_damage(old(self).npc_map()[id].stats.base.hp_current, amount),
                        ..old(self).npc_map()[id].stats.base
                    },
                    ..old(self).npc_map()[id].stats
                },
                ..old(self).npc_map()[id] }),
            final(self).npcs@.len() == old(self).npcs@.len(),
            final(self).world == old(self).world,
            final(self).entry == old(self).entry,
            final(self).exit == old(self).exit,
            final(self).item_sprites == old(self).item_sprites,
            final(self).item_sprites_index == old(self).item_sprites_index,
    {
        let i = self.npc_position(id);
        let mut npc = self.npcs.remove(i);
        npc.stats.base.take_damage(amount);
        let ghost changed = npc;
        self.npcs.insert(i, npc);
        proof {
            assert(self.npcs@ =~= old(self).npcs@.update(i as int, changed));
            assert(npc_ids(self.npcs@) =~= npc_ids(old(self).npcs@));
            assert(self.npc_map() =~= old(self).npc_map().insert(id, changed)) by {
                assert forall|k: EntityId| self.npc_map().contains_key(k) implies
                    self.npc_map()[k] == old(self).npc_map().insert(id, changed)[k] by {
                    let j = self.npc_index@[k] as int;
                    assert(npc_ids(old(self).npcs@)[j] == k);
                }
            }
        }
    }

    /// Sets what the npc with identifier `id` is up to.
    pub fn set_npc_ai_state(&mut self, id: EntityId, state: NpcAiState)
        requires
            old(self).wf(),
            old(self).npc_map().contains_key(id),
        ensures
            final(self).wf(),
            final(self).npc_map() == old(self).npc_map().insert(id, Npc { ai_state: state, ..old(self).npc_map()[id] }),
            final(self).npcs@.len() == old(self).npcs@.len(),
            final(self).world == old(self).world,
            final(self).entry == old(self).entry,
            final(self).exit == old(self).exit,
            final(self).item_sprites == old(self).item_sprites,
            final(self).item_sprites_index == old(self).item_sprites_index,
    {
        let i = self.npc_position(id);
        let mut npc = self.npcs.remove(i);
        npc.ai_state = state;
        let ghost changed = npc;
        self.npcs.insert(i, npc);
        proof {
            assert(self.npcs@ =~= old(self).npcs@.update(i as int, changed));
            assert(npc_ids(self.npcs@) =~= npc_ids(old(self).npcs@));
            assert(self.npc_map() =~= old(self).npc_map().insert(id, changed)) by {
                assert forall|k: EntityId| self.npc_map().contains_key(k) implies
                    self.npc_map()[k] == old(self).npc_map().insert(id, changed)[k] by {
                    let j = self.npc_index@[k] as int;
                    assert(npc_ids(old(self).npcs@)[j] == k);
                }
            }
        }
    }

    /// Removes the entity with the given identifier, if the level has one:
    /// an npc is looked for first, then an item sprite. The last entity of
    /// the list takes the removed one's place, and its index entry is updated.
    pub fn despawn(&mut self, id: EntityId)
        requires
            old(self).wf(),
        ensures
            final(self).wf(),
            final(self).world == old(self).world,
            final(self).entry == old(self).entry,
            final(self).exit == old(self).exit,
            old(self).npc_map().contains_key(id) ==> {
                &&& final(self).npc_map() == old(self).npc_map().remove(id)
                &&& final(self).npcs@ == old(self).npcs@.update(old(self).npc_index@[id] as int,
                    old(self).npcs@.last()).drop_last()
                &&& final(self).item_sprites == old(self).item_sprites
                &&& final(self).item_sprites_index == old(self).item_sprites_index
            },
            !old(self).npc_map().contains_key(id) && old(self).sprite_map().contains_key(id) ==> {
                &&& final(self).sprite_map() == old(self).sprite_map().remove(id)
                &&& final(self).item_sprites@ == old(self).item_sprites@.update(
                    old(self).item_sprites_index@[id] as int, old(self).item_sprites@.last()).drop_last()
                &&& final(self).npcs == old(self).npcs
                &&& final(self).npc_index == old(self).npc_index
            },
            !old(self).npc_map().contains_key(id) && !old(self).sprite_map().contains_key(id)
                ==> *final(self) == *old(self),
    {
        if let Some(index_ref) = self.npc_index.get(&id) {
            let index = *index_ref;
            let ghost old_npcs = self.npcs@;
            let ghost old_index = self.npc_index@;
            let ghost old_map = self.npc_map();
            self.npcs.swap_remove(index);
            if index < self.npcs.len() {
                let moved_id = self.npcs[index].base.id;
                self.npc_index.insert(moved_id, index);
            }
            self.npc_index.remove(&id);
            proof {
                assert(npc_ids(self.npcs@) =~= npc_ids(old_npcs).update(index as int, npc_ids(old_npcs).last()).drop_last());
                lemma_swap_remove_index(npc_ids(old_npcs), old_index, id, npc_ids(self.npcs@), self.npc_index@);
                assert(self.npc_map() == old_map.remove(id)) by {
                    assert forall|k: EntityId| #[trigger] self.npc_map().contains_key(k) implies
                        old_map.remove(id).contains_key(k) && self.npc_map()[k] == old_map.remove(id)[k] by {
                        let j = self.npc_index@[k] as int;
                        assert(npc_ids(self.npcs@)[j] == k);
                        if j == index {
                            assert(self.npcs@[j] == old_npcs.last());
                            assert(old_index[k] == old_npcs.len() - 1);
                        } else {
                            assert(self.npcs@[j] == old_npcs[j]);
                            assert(npc_ids(old_npcs)[j] == k);
                        }
                    }
                    assert forall|k: EntityId| old_map.remove(id).contains_key(k) implies
                        #[trigger] self.npc_map().contains_key(k) by {
                        assert(old_index.contains_key(k));
                    }
                }
            }
            return;
        }
        if let Some(index_ref) = self.item_sprites_index.get(&id) {
            let index = *index_ref;
            let ghost old_sprites = self.item_sprites@;
            let ghost old_index = self.item_sprites_index@;
            let ghost old_map = self.sprite_map();
            self.item_sprites.swap_remove(index);
            if index < self.item_sprites.len() {
                let moved_id = self.item_sprites[index].base.id;
                self.item_sprites_index.insert(moved_id, index);
            }
            self.item_sprites_index.remove(&id);
            proof {
                assert(sprite_ids(self.item_sprites@) =~= sprite_ids(old_sprites).update(index as int,
                    sprite_ids(old_sprites).last()).drop_last());
                lemma_swap_remove_index(sprite_ids(old_sprites), old_index, id, sprite_ids(self.item_sprites@),
                    self.item_sprites_index@);
                assert(self.sprite_map() == old_map.remove(id)) by {
                    assert forall|k: EntityId| #[trigger] self.sprite_map().contains_key(k) implies
                        old_map.remove(id).contains_key(k) && self.sprite_map()[k] == old_map.remove(id)[k] by {
                        let j = self.item_sprites_index@[k] as int;
                        assert(sprite_ids(self.item_sprites@)[j] == k);
                        if j == index {
                            assert(self.item_sprites@[j] == old_sprites.last());
                            assert(old_index[k] == old_sprites.len() - 1);
                        } else {
                            assert(self.item_sprites@[j] == old_sprites[j]);
                            assert(sprite_ids(old_sprites)[j] == k);
                        }
                    }
                    assert forall|k: EntityId| old_map.remove(id).contains_key(k) implies
                        #[trigger] self.sprite_map().contains_key(k) by {
                        assert(old_index.contains_key(k));
                    }
                }
            }
        }
    }
}

/// Removing an identifier by moving the last entry into its place, and
/// re-indexing the moved entry, keeps the index exact.
proof fn lemma_swap_remove_index(
    ids: Seq<EntityId>,
    index: Map<EntityId, usize>,
    id: EntityId,
    new_ids: Seq<EntityId>,
    new_index: Map<EntityId, usize>,
)
    requires
        index_wf(ids, index),
        index.contains_key(id),
        new_ids == ids.update(index[id] as int, ids.last()).drop_last(),
        new_index == (if (index[id] as int) < new_ids.len() {
            index.insert(new_ids[index[id] as int], index[id]).remove(id)
        } else {
            index.remove(id)
        }),
    ensures
        index_wf(new_ids, new_index),
{
    let i = index[id] as int;
    let n = ids.len();
    assert forall|k: EntityId| #[trigger] new_index.contains_key(k) implies
        new_index[k] < new_ids.len() && new_ids[new_index[k] as int] == k by {
        if i < new_ids.len() && k == new_ids[i] {
            assert(new_ids[i] == ids[n - 1]);
        } else {
            assert(index.contains_key(k) && k != id);
            let j = index[k] as int;
            assert(ids[j] == k);
            if j == n - 1 {
                // k was the last entry; it has been moved to position i.
                assert(i < n - 1) by {
                    if i == n - 1 { assert(ids[i] == id); }
                }
                assert(new_ids[i] == k);
            } else {
                assert(j != i);
                assert(new_ids[j] == ids[j]);
            }
        }
    }
    assert forall|j: int| 0 <= j < new_ids.len() implies
        new_index.contains_key(#[trigger] new_ids[j]) && new_index[new_ids[j]] == j by {
        if j == i {
            assert(new_ids[j] == ids[n - 1]);
            assert(ids[n - 1] != id) by {
                if ids[n - 1] == id { assert(index[ids[n - 1]] == n - 1); }
            }
        } else {
            assert(new_ids[j] == ids[j]);
            assert(index[ids[j]] == j);
            assert(ids[j] != id);
            if i < new_ids.len() {
                assert(new_ids[i] != ids[j]) by {
                    assert(new_ids[i] == ids[n - 1]);
                    assert(index[ids[n - 1]] == n - 1);
                }
            }
        }
    }
}

/// Spawning an npc and then despawning it leaves the level with the npcs
/// (by identifier) it had before.
pub proof fn law_spawn_then_despawn(before: Level, spawned: Level, despawned: Level, npc: Npc)
    requires
        !before.npc_map().contains_key(npc.base.id),
        spawned.npc_map() == before.npc_map().insert(npc.base.id, npc),
        despawned.npc_map() == spawned.npc_map().remove(npc.base.id),
    ensures
        despawned.npc_map() == before.npc_map(),
        spawned.npc_map()[npc.base.id] == npc,
{
    assert(despawned.npc_map() =~= before.npc_map());
}

/// A spawned npc is the one found at its position: spawning needs the
/// position free, and the new npc comes last.
pub proof fn law_spawned_npc_found_at_its_position(before: Level, spawned: Level, npc: Npc)
    requires
        before.spec_is_available(npc.base.pos),
        spawned.npcs@ == before.npcs@.push(npc),
    ensures
        spawned.npc_at(npc.base.pos),
        spawned.first_npc_at(npc.base.pos) == npc,
{
    let i = before.npcs@.len() as int;
    assert(spawned.npcs@[i] == npc);
    assert(spawned.is_first_npc_at(i, npc.base.pos)) by {
        assert forall|j: int| 0 <= j < i implies spawned.npcs@[j].base.pos != npc.base.pos by {
            assert(spawned.npcs@[j] == before.npcs@[j]);
            if before.npcs@[j].base.pos == npc.base.pos {
                assert(before.npc_at(npc.base.pos));
            }
        }
    }
    let c = choose|c: int| spawned.is_first_npc_at(c, npc.base.pos);
    assert(c == i) by {
        if c < i {
            assert(spawned.npcs@[c] == before.npcs@[c]);
            assert(before.npc_at(npc.base.pos));
        }
    }
}

} // verus!
