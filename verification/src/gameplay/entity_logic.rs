//! Entities: the things in a level that have a position (npcs, items lying
//! on the ground, the player character).

use vstd::prelude::*;

use crate::ai::npc_ai::NpcAiState;
use crate::data::npc_defs::{get_npc_def, spec_npc_def, NpcDef, NpcDefId};
use crate::gameplay::game::GameState;
use crate::util::errors_results::{DataError, EngineError, FailReason, GameError, GameOutcome, GameResult};
use crate::world::coordinate_system::Point;
use crate::world::tiles::{spec_is_walkable, Collision, Color};

verus! {

/// The identifier of an entity.
pub type EntityId = u32;

/// A thing in a level with a name, an identifier and a position.
pub trait Entity {
    fn name(&self) -> &str;
    fn id(&self) -> EntityId;
    fn pos(&self) -> Point;
}

/// An entity that can move.
pub trait Movable {
    fn move_to(&mut self, point: Point);
}

/// What every entity has.
#[derive(Clone, Debug)]
pub struct EntityBase {
    pub id: EntityId,
    pub name: String,
    pub pos: Point,
    pub glyph: char,
    pub style: Color,
}

/// Hit points.
#[derive(Clone, Copy, Debug, PartialEq, Eq, Structural)]
pub struct BaseStats {
    pub hp_max: u16,
    pub hp_current: u16,
}

/// Hit points after taking `amount` damage: never below zero.
pub open spec fn hp_after_damage(hp: u16, amount: u16) -> u16 {
    if hp >= amount { (hp - amount) as u16 } else { 0 }
}

/// Hit points after healing `amount`: never above the maximum.
pub open spec fn hp_after_heal(hp: u16, hp_max: u16, amount: u16) -> u16 {
    if hp + amount <= hp_max { (hp + amount) as u16 } else { hp_max }
}

impl BaseStats {
    /// Loses `amount` hit points, down to zero.
    pub fn take_damage(&mut self, amount: u16)
        ensures
            final(self).hp_max == old(self).hp_max,
            final(self).hp_current == hp_after_damage(old(self).hp_current, amount),
    {
        self.hp_current = self.hp_current.saturating_sub(amount);
    }

    /// Regains `amount` hit points, up to the maximum.
    pub fn heal(&mut self, amount: u16)
        ensures
            final(self).hp_max == old(self).hp_max,
            final(self).hp_current == hp_after_heal(old(self).hp_current, old(self).hp_max, amount),
    {
        let hp_max = self.hp_max;
        if (self.hp_current as u32) + (amount as u32) <= hp_max as u32 {
            self.hp_current = self.hp_current + amount;
        } else {
            self.hp_current = hp_max;
        }
    }

    /// Alive while some hit points are left.
    pub fn is_alive(&self) -> (b: bool)
        ensures
            b == (self.hp_current > 0),
    {
        self.hp_current > 0
    }
}

/// A non-player character.
#[derive(Clone, Debug)]
pub struct Npc {
    pub base: EntityBase,
    pub stats: NpcStats,
    pub ai_state: NpcAiState,
}

impl Entity for Npc {
    fn name(&self) -> (n: &str)
        ensures
            n@ == self.base.name@,
    {
        self.base.name.as_str()
    }

    fn id(&self) -> (i: EntityId)
        ensures
            i == self.base.id,
    {
        self.base.id
    }

    fn pos(&self) -> (p: Point)
        ensures
            p == self.base.pos,
    {
        self.base.pos
    }
}

impl Movable for Npc {
    fn move_to(&mut self, point: Point)
        ensures
            final(self).base.pos == point,
            final(self).base.id == old(self).base.id,
            final(self).base.name == old(self).base.name,
            final(self).base.glyph == old(self).base.glyph,
            final(self).base.style == old(self).base.style,
            final(self).stats == old(self).stats,
            final(self).ai_state == old(self).ai_state,
    {
        self.base.pos.x = point.x;
        self.base.pos.y = point.y;
    }
}

impl Npc {
    /// A new npc; it starts out wandering.
    pub fn new(id: EntityId, name: String, pos: Point, glyph: char, style: Color, stats: NpcStats) -> (npc: Self)
        ensures
            npc.base.id == id,
            npc.base.name == name,
            npc.base.pos == pos,
            npc.base.glyph == glyph,
            npc.base.style == style,
            npc.stats == stats,
            npc.ai_state == NpcAiState::Wandering,
    {
        Self { base: EntityBase { id, name, pos, glyph, style }, stats, ai_state: NpcAiState::Wandering }
    }
}

/// The statistics of an npc.
#[derive(Clone, Copy, Debug, PartialEq, Eq, Structural)]
pub struct NpcStats {
    pub base: BaseStats,
    pub damage: u16,
    pub dodge: u8,
    pub mitigation: u16,
}

/// The largest dodge chance an npc can have.
pub const MAX_NPC_DODGE: u8 = 50;

impl NpcStats {
    /// The chance (in percent) to dodge an attack: the dodge stat, at most 50.
    pub fn dodge_chance(&self) -> (c: u8)
        ensures
            c == if self.dodge < MAX_NPC_DODGE { self.dodge } else { MAX_NPC_DODGE },
    {
        if self.dodge < MAX_NPC_DODGE { self.dodge } else { MAX_NPC_DODGE }
    }
}

/// The npc defined under an identifier, if any.
pub fn get_npc_def_by_id(npc_def_id: &NpcDefId) -> (r: Option<NpcDef>)
    ensures
        r == spec_npc_def(npc_def_id@),
{
    get_npc_def(npc_def_id.as_str())
}

impl GameState {
    /// Everything but the identifier counters is as in `other`.
    pub open spec fn same_but_ids(&self, other: GameState) -> bool {
        &&& self.levels == other.levels
        &&& self.level_nr == other.level_nr
        &&& self.player == other.player
        &&& self.cursor == other.cursor
        &&& self.log == other.log
        &&& self.round_nr == other.round_nr
        &&& self.items == other.items
        &&& self.rng == other.rng
        &&& self.proc_gen == other.proc_gen
        &&& self.game_rules == other.game_rules
    }

    /// Creates a new npc of the kind `npc_def_id` at `pos`, with a new
    /// entity identifier. It is not spawned into any level yet.
    ///
    /// Fails with a data error where no npc is defined under the identifier.
    pub fn create_npc(&mut self, npc_def_id: NpcDefId, pos: Point) -> (r: Result<Npc, GameError>)
        requires
            old(self).id_system.next_entity() < EntityId::MAX,
        ensures
            final(self).same_but_ids(*old(self)),
            final(self).id_system.next_item() == old(self).id_system.next_item(),
            r is Ok <==> spec_npc_def(npc_def_id@) is Some,
            r matches Err(e) ==> e == GameError::Data(DataError::MissingNpcDefinition(npc_def_id))
                && final(self).id_system == old(self).id_system,
            r matches Ok(npc) ==> {
                let def = spec_npc_def(npc_def_id@).unwrap();
                &&& npc.base.id == old(self).id_system.next_entity()
                &&& final(self).id_system.next_entity() == old(self).id_system.next_entity() + 1
                &&& npc.base.name@ == def.name@
                &&& npc.base.pos == pos
                &&& npc.base.glyph == def.glyph
                &&& npc.base.style == def.style
                &&& npc.stats == def.stats
                &&& npc.ai_state == NpcAiState::Wandering
            },
    {
        let npc_def = match get_npc_def_by_id(&npc_def_id) {
            Some(def) => def,
            None => {
                return Err(GameError::Data(DataError::MissingNpcDefinition(npc_def_id)));
            },
        };
        let entity_id = self.id_system.next_entity_id();
        let npc = Npc::new(entity_id, npc_def.name.to_owned(), pos, npc_def.glyph, npc_def.style, npc_def.stats);
        Ok(npc)
    }

    /// Moves the npc `npc_id` of the current level by `(dx, dy)`.
    ///
    /// Fails where the target is out of bounds or not walkable; errs where
    /// the level has no such npc.
    pub fn move_npc(&mut self, npc_id: EntityId, dx: isize, dy: isize) -> (r: GameResult)
        requires
            old(self).wf(),
            old(self).cur().npc_map().contains_key(npc_id) ==> {
                let p = old(self).cur().npc_map()[npc_id].base.pos;
                &&& p.x <= isize::MAX && p.y <= isize::MAX
                &&& isize::MIN <= p.x + dx <= isize::MAX
                &&& isize::MIN <= p.y + dy <= isize::MAX
            },
        ensures
            final(self).wf(),
            !old(self).cur().npc_map().contains_key(npc_id) ==> (r matches Err(e)
                && e == GameError::Engine(EngineError::NpcNotFound(npc_id)) && *final(self) == *old(self)),
            old(self).cur().npc_map().contains_key(npc_id) ==> {
                let npc = old(self).cur().npc_map()[npc_id];
                let x = npc.base.pos.x + dx;
                let y = npc.base.pos.y + dy;
                let target = Point { x: x as usize, y: y as usize };
                if !old(self).cur().world.spec_in_bounds(x, y) {
                    r == Ok::<GameOutcome, GameError>(GameOutcome::Fail(FailReason::PointOutOfBounds(target)))
                        && *final(self) == *old(self)
                } else if !spec_is_walkable(old(self).cur().world.tile_at(x, y).tile_type) {
                    r == Ok::<GameOutcome, GameError>(GameOutcome::Fail(FailReason::TileNotWalkable(target)))
                        && *final(self) == *old(self)
                } else {
                    &&& r == Ok::<GameOutcome, GameError>(GameOutcome::Success)
                    &&& final(self).cur().npc_map() == old(self).cur().npc_map().insert(npc_id,
                        Npc { base: EntityBase { pos: target, ..npc.base }, ..npc })
                    &&& final(self).levels@ == old(self).levels@.update(old(self).level_nr as int, final(self).cur())
                    &&& final(self).level_nr == old(self).level_nr
                    &&& final(self).round_nr == old(self).round_nr
                    &&& final(self).cur().world == old(self).cur().world
                    &&& final(self).cur().item_sprites == old(self).cur().item_sprites
                    &&& final(self).cur().item_sprites_index == old(self).cur().item_sprites_index
                    &&& final(self).cur().entry == old(self).cur().entry
                    &&& final(self).cur().exit == old(self).cur().exit
                    &&& final(self).player == old(self).player
                    &&& final(self).log == old(self).log
                    &&& final(self).id_system == old(self).id_system
                    &&& final(self).items == old(self).items
                }
            },
    {
        let pos = match self.current_level().get_npc(npc_id) {
            Some(npc) => npc.base.pos,
            None => {
                return Err(GameError::Engine(EngineError::NpcNotFound(npc_id)));
            },
        };
        let new_x = pos.x as isize + dx;
        let new_y = pos.y as isize + dy;
        let new_point = Point::new(new_x as usize, new_y as usize);

        if !self.current_world().is_in_bounds(new_x, new_y) {
            return Ok(GameOutcome::Fail(FailReason::PointOutOfBounds(new_point)));
        }
        proof {
            assert(self.cur().world.has_cell(new_x as int, new_y as int)) by {
                assert(new_y * 100 + new_x < 2500) by (nonlinear_arith)
                    requires 0 <= new_x < 100, 0 <= new_y < 25;
            }
        }
        if !self.current_world().get_tile(new_point).tile_type.is_walkable() {
            return Ok(GameOutcome::Fail(FailReason::TileNotWalkable(new_point)));
        }
        let ghost before = *self;
        self.current_level_mut().move_npc_to(npc_id, new_point);
        proof {
            assert forall|i: int| 0 <= i < self.levels@.len() implies (#[trigger] self.levels@[i]).wf() by {
                if i != before.level_nr as int {
                    assert(self.levels@[i] == before.levels@[i]);
                }
            }
            assert forall|i: int, id: EntityId| 0 <= i < self.levels@.len()
                && #[trigger] self.levels@[i].npc_index@.contains_key(id) implies id < self.id_system.next_entity() by {
                if i == before.level_nr as int {
                    assert(self.levels@[i].npc_map().contains_key(id));
                    assert(before.levels@[i].npc_map().contains_key(id));
                } else {
                    assert(self.levels@[i] == before.levels@[i]);
                }
            }
            assert forall|i: int, id: EntityId| 0 <= i < self.levels@.len()
                && #[trigger] self.levels@[i].item_sprites_index@.contains_key(id) implies id < self.id_system.next_entity() by {
                if i != before.level_nr as int {
                    assert(self.levels@[i] == before.levels@[i]);
                }
            }
        }
        Ok(GameOutcome::Success)
    }
}

} // verus!
