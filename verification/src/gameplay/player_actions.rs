//! What the player's input means in the game, and carrying it out.

use vstd::prelude::*;

use crate::data::item_defs::{lemma_potion_effects, spec_item_def};
use crate::gameplay::buff_effects::{potion_buffs, ActiveBuff, PotionEffectDef};
use crate::gameplay::game_items::{ArmorItem, GameItemKindDef, WeaponItem};
use crate::gameplay::inventory::INVENTORY_LIMIT;
use crate::gameplay::player::{
    buffs_after_tick, dex_amounts_small, lemma_dex_small_dodge_fits, lemma_poison_concat, lemma_tick_keeps_dex_small,
    poison_upto,
};
use crate::gameplay::entity_logic::{EntityId, Movable};
use crate::gameplay::game::{GameRules, GameState, LevelSource, NO_CLIP_BITS};
use crate::gameplay::game_items::GameItemId;
use crate::util::errors_results::{
    DataError, EngineError, FailReason, GameError, GameOutcome, GameResult,
};
use crate::util::text_log::LogData;
use crate::world::coordinate_system::{spec_add_vector, spec_direction_vector, spec_distance_squared, Direction, Point, PointVector};
use crate::world::tiles::{spec_is_interactable, spec_is_walkable, Collision, DoorType, Interactable, TileType};
use crate::world::worldspace::{WORLD_HEIGHT, WORLD_WIDTH};

verus! {

/// The player's input, apart from the keys that give it.
#[derive(Clone, Copy, Debug, PartialEq, Eq, Structural)]
pub enum PlayerInput {
    /// Wait in place for one round.
    Wait,
    /// A direction: to move, attack, pick up or interact.
    Direction(Direction),
    /// Use an item from the inventory.
    UseItem(GameItemId),
    /// Drop an item from the inventory.
    DropItem(GameItemId),
    /// Unequip the weapon.
    UnequipWeapon,
    /// Unequip the armor.
    UnequipArmor,
    /// Attack an entity at range.
    RangedAttack(EntityId),
}

/// What the player means to do, as the input reads in the game's state.
#[derive(Clone, Copy, Debug, PartialEq, Eq, Structural)]
pub enum ActionKind {
    Wait,
    Move(Direction),
    Attack(EntityId),
    PickUpItem(EntityId),
    UseItem(GameItemId),
    DropItem(GameItemId),
    UnequipWeapon,
    UnequipArmor,
    TileInteraction(Point),
    RangedAttack(EntityId),
}

impl GameState {
    /// The point next to the player character in a direction.
    pub open spec fn target_of(&self, d: Direction) -> Point {
        spec_add_vector(self.player.character.base.pos, spec_direction_vector(d))
    }

    /// What the input means: a direction is an attack on an npc there, else
    /// picking up an item there, else an interaction with the tile there
    /// where it offers one, else a move; nothing where the target is out of
    /// bounds. Other inputs mean the same action.
    pub fn interpret_player_input(&self, input: PlayerInput) -> (r: Option<ActionKind>)
        requires
            self.wf(),
            self.player.character.base.pos.x < WORLD_WIDTH,
            self.player.character.base.pos.y < WORLD_HEIGHT,
        ensures
            match input {
                PlayerInput::Wait => r == Some(ActionKind::Wait),
                PlayerInput::UseItem(id) => r == Some(ActionKind::UseItem(id)),
                PlayerInput::DropItem(id) => r == Some(ActionKind::DropItem(id)),
                PlayerInput::UnequipWeapon => r == Some(ActionKind::UnequipWeapon),
                PlayerInput::UnequipArmor => r == Some(ActionKind::UnequipArmor),
                PlayerInput::RangedAttack(id) => r == Some(ActionKind::RangedAttack(id)),
                PlayerInput::Direction(d) => {
                    let t = self.target_of(d);
                    let level = self.cur();
                    if !level.world.spec_in_bounds(t.x as int, t.y as int) {
                        r is None
                    } else if level.npc_at(t) {
                        r == Some(ActionKind::Attack(level.first_npc_at(t).base.id))
                            && level.npc_map().contains_key(level.first_npc_at(t).base.id)
                            && level.npc_map()[level.first_npc_at(t).base.id].base.pos == t
                    } else if level.sprite_at(t) {
                        r == Some(ActionKind::PickUpItem(level.first_sprite_at(t).base.id))
                            && level.sprite_map().contains_key(level.first_sprite_at(t).base.id)
                            && level.sprite_map()[level.first_sprite_at(t).base.id].base.pos == t
                    } else if spec_is_interactable(level.world.tile_at(t.x as int, t.y as int).tile_type) {
                        r == Some(ActionKind::TileInteraction(t))
                    } else {
                        r == Some(ActionKind::Move(d))
                    }
                },
            },
    {
        match input {
            PlayerInput::Wait => Some(ActionKind::Wait),
            PlayerInput::Direction(direction) => {
                let target_point = self.player.character.base.pos.get_adjacent(direction);
                if !self.current_world().is_in_bounds(target_point.x as isize, target_point.y as isize) {
                    return None;
                }
                if let Some(entity_id) = self.current_level().get_npc_at(target_point) {
                    proof {
                        let l = self.cur();
                        let i = choose|i: int| 0 <= i < l.npcs@.len() && (#[trigger] l.npcs@[i]).base.pos == target_point
                            && l.npcs@[i].base.id == entity_id && forall|j: int| 0 <= j < i ==> l.npcs@[j].base.pos != target_point;
                        assert(crate::world::level::npc_ids(l.npcs@)[i] == entity_id);
                        assert(l.npc_index@[entity_id] == i);
                    }
                    return Some(ActionKind::Attack(entity_id));
                }
                if let Some(entity_id) = self.current_level().get_item_sprite_at(target_point) {
                    proof {
                        let l = self.cur();
                        let i = choose|i: int| 0 <= i < l.item_sprites@.len()
                            && (#[trigger] l.item_sprites@[i]).base.pos == target_point
                            && l.item_sprites@[i].base.id == entity_id
                            && forall|j: int| 0 <= j < i ==> l.item_sprites@[j].base.pos != target_point;
                        assert(crate::world::level::sprite_ids(l.item_sprites@)[i] == entity_id);
                        assert(l.item_sprites_index@[entity_id] == i);
                    }
                    return Some(ActionKind::PickUpItem(entity_id));
                }
                proof {
                    assert(target_point.y * 100 + target_point.x < 2500) by (nonlinear_arith)
                        requires target_point.x < 100, target_point.y < 25;
                }
                if self.current_world().get_tile(target_point).tile_type.is_interactable() {
                    return Some(ActionKind::TileInteraction(target_point));
                }
                Some(ActionKind::Move(direction))
            },
            PlayerInput::UseItem(item_id) => Some(ActionKind::UseItem(item_id)),
            PlayerInput::DropItem(item_id) => Some(ActionKind::DropItem(item_id)),
            PlayerInput::UnequipWeapon => Some(ActionKind::UnequipWeapon),
            PlayerInput::UnequipArmor => Some(ActionKind::UnequipArmor),
            PlayerInput::RangedAttack(entity_id) => Some(ActionKind::RangedAttack(entity_id)),
        }
    }

    /// Moves the player character by `point_vector`: it fails where the new
    /// position is out of bounds, or not walkable (unless no-clip is on).
    pub fn move_player_character(&mut self, point_vector: PointVector) -> (r: GameResult)
        requires
            old(self).wf(),
            old(self).player.character.base.pos.x < WORLD_WIDTH,
            old(self).player.character.base.pos.y < WORLD_HEIGHT,
            -1 <= point_vector.x <= 1,
            -1 <= point_vector.y <= 1,
        ensures
            ({
                let p = spec_add_vector(old(self).player.character.base.pos, point_vector);
                let world = old(self).cur().world;
                if !world.spec_in_bounds(p.x as int, p.y as int) {
                    r == Ok::<GameOutcome, GameError>(GameOutcome::Fail(FailReason::PointOutOfBounds(p)))
                        && *final(self) == *old(self)
                } else if !spec_is_walkable(world.tile_at(p.x as int, p.y as int).tile_type)
                    && !(old(self).game_rules.spec_bits() & NO_CLIP_BITS == NO_CLIP_BITS) {
                    r == Ok::<GameOutcome, GameError>(GameOutcome::Fail(FailReason::TileNotWalkable(p)))
                        && *final(self) == *old(self)
                } else {
                    &&& r == Ok::<GameOutcome, GameError>(GameOutcome::Success)
                    &&& final(self).player.character.base.pos == p
                    &&& final(self).levels == old(self).levels
                }
            }),
            final(self).wf(),
            final(self).player.character.base.pos.x < WORLD_WIDTH,
            final(self).player.character.base.pos.y < WORLD_HEIGHT,
            final(self).player.character.stats == old(self).player.character.stats,
            final(self).player.character.active_buffs@ == old(self).player.character.active_buffs@,
            final(self).player.character.potion_usage@ == old(self).player.character.potion_usage@,
            final(self).player.character.inventory@ == old(self).player.character.inventory@,
            final(self).same_but_player(*old(self)),
    {
        let new_pos = self.player.character.base.pos.add_vector(point_vector);
        if !self.current_world().is_in_bounds(new_pos.x as isize, new_pos.y as isize) {
            return Ok(GameOutcome::Fail(FailReason::PointOutOfBounds(new_pos)));
        }
        proof {
            assert(new_pos.y * 100 + new_pos.x < 2500) by (nonlinear_arith)
                requires new_pos.x < 100, new_pos.y < 25;
        }
        if !self.current_world().get_tile(new_pos).tile_type.is_walkable()
            && !self.game_rules.contains(GameRules::no_clip()) {
            return Ok(GameOutcome::Fail(FailReason::TileNotWalkable(new_pos)));
        }
        self.player.character.move_to(new_pos);
        Ok(GameOutcome::Success)
    }

    /// Picks up the item lying in the item sprite `entity_id`: it goes into
    /// the inventory (the action fails where the inventory is full), the
    /// sprite leaves the level, and the pick-up is logged.
    ///
    /// Errs where there is no such sprite, or its item is not registered or
    /// not defined.
    pub fn pick_up_item(&mut self, entity_id: EntityId) -> (r: GameResult)
        requires
            old(self).wf(),
        ensures
            final(self).wf(),
            !old(self).cur().sprite_map().contains_key(entity_id) ==> (r matches Err(e)
                && e == GameError::Engine(EngineError::ItemSpriteNotFound(entity_id)) && *final(self) == *old(self)),
            old(self).cur().sprite_map().contains_key(entity_id) ==> {
                let item_id = old(self).cur().sprite_map()[entity_id].item_id;
                &&& !old(self).items@.contains_key(item_id) ==> (r matches Err(e)
                    && e == GameError::Engine(EngineError::UnregisteredItem(item_id)) && *final(self) == *old(self))
                &&& old(self).items@.contains_key(item_id) && spec_item_def(old(self).items@[item_id].def_id@) is None
                    ==> (r matches Err(e)
                    && e == GameError::Data(DataError::MissingItemDefinition(old(self).items@[item_id].def_id))
                    && *final(self) == *old(self))
                &&& old(self).items@.contains_key(item_id) && spec_item_def(old(self).items@[item_id].def_id@) is Some ==> {
                    &&& old(self).player.character.inventory@.len() < crate::gameplay::inventory::INVENTORY_LIMIT ==> {
                        &&& r == Ok::<GameOutcome, GameError>(GameOutcome::Success)
                        &&& final(self).player.character.inventory@ == old(self).player.character.inventory@.push(item_id)
                        &&& final(self).cur().sprite_map() == old(self).cur().sprite_map().remove(entity_id)
                    }
                    &&& old(self).player.character.inventory@.len() >= crate::gameplay::inventory::INVENTORY_LIMIT ==> {
                        &&& r == Ok::<GameOutcome, GameError>(GameOutcome::Fail(FailReason::InventoryFull))
                        &&& final(self).cur().sprite_map() == old(self).cur().sprite_map()
                    }
                }
            },
            final(self).player.character.base == old(self).player.character.base,
            final(self).player.character.stats == old(self).player.character.stats,
            final(self).player.character.active_buffs@ == old(self).player.character.active_buffs@,
            final(self).player.character.potion_usage@ == old(self).player.character.potion_usage@,
            final(self).level_nr == old(self).level_nr,
            final(self).levels@.len() == old(self).levels@.len(),
            final(self).cur().npc_map() == old(self).cur().npc_map(),
            final(self).cur().world == old(self).cur().world,
            final(self).round_nr == old(self).round_nr,
            final(self).id_system == old(self).id_system,
    {
        let item_id = match self.current_level().get_item_sprite(entity_id) {
            Some(sprite) => sprite.item_id,
            None => { return Err(GameError::Engine(EngineError::ItemSpriteNotFound(entity_id))); },
        };
        let item = match self.get_item_by_id(item_id) {
            Some(item) => item,
            None => { return Err(GameError::Engine(EngineError::UnregisteredItem(item_id))); },
        };
        let item_def = match self.get_item_def_by_id(&item.def_id) {
            Some(def) => def,
            None => { return Err(GameError::Data(DataError::MissingItemDefinition(item.def_id))); },
        };
        let result = self.add_item_to_inv(item_id);
        if let Ok(GameOutcome::Success) = result {
            let ghost before = *self;
            self.current_level_mut().despawn(entity_id);
            proof {
                assert(!before.cur().npc_map().contains_key(entity_id)) by {
                    assert(before.cur().item_sprites_index@.contains_key(entity_id));
                }
                crate::gameplay::combat::lemma_levels_frame(before, *self);
            }
            self.log.info(LogData::ItemPickUp { item_name: item_def.name.to_owned() });
        }
        result
    }
}

impl GameState {
    /// Drops an item from the inventory onto the player character's tile,
    /// as a new item sprite. It fails where something already lies there.
    ///
    /// Errs where the item is not in the inventory or not registered or
    /// defined, or the tile cannot take the sprite.
    pub fn drop_item(&mut self, item_id: GameItemId) -> (r: GameResult)
        requires
            old(self).wf(),
            old(self).player.character.base.pos.x < WORLD_WIDTH,
            old(self).player.character.base.pos.y < WORLD_HEIGHT,
            old(self).id_system.next_entity() < EntityId::MAX,
            old(self).cur().item_sprites@.len() < usize::MAX,
        ensures
            final(self).wf(),
            ({
                let pos = old(self).player.character.base.pos;
                &&& old(self).cur().is_occupied_spec(pos) ==> r == Ok::<GameOutcome, GameError>(
                        GameOutcome::Fail(FailReason::TileOccupied(pos))) && *final(self) == *old(self)
                &&& !old(self).cur().is_occupied_spec(pos) && !old(self).player.character.inventory@.contains(item_id)
                    ==> (r matches Err(e) && e == GameError::Engine(EngineError::ItemNotInInventory(item_id)))
                &&& !old(self).cur().is_occupied_spec(pos) && old(self).player.character.inventory@.contains(item_id)
                    && old(self).items@.contains_key(item_id) && spec_item_def(old(self).items@[item_id].def_id@) is Some
                    && spec_is_walkable(old(self).cur().world.tile_at(pos.x as int, pos.y as int).tile_type)
                    ==> r == Ok::<GameOutcome, GameError>(GameOutcome::Success)
                &&& r == Ok::<GameOutcome, GameError>(GameOutcome::Success) ==> {
                    &&& final(self).player.character.inventory@
                            == crate::gameplay::inventory::inv_without(old(self).player.character.inventory@, item_id)
                    &&& final(self).cur().sprite_map().dom()
                            == old(self).cur().sprite_map().dom().insert(old(self).id_system.next_entity())
                    &&& final(self).cur().sprite_map()[old(self).id_system.next_entity()].item_id == item_id
                    &&& final(self).cur().sprite_map()[old(self).id_system.next_entity()].base.pos == pos
                }
            }),
            final(self).player.character.base == old(self).player.character.base,
            final(self).player.character.stats == old(self).player.character.stats,
            final(self).player.character.active_buffs@ == old(self).player.character.active_buffs@,
            final(self).player.character.potion_usage@ == old(self).player.character.potion_usage@,
            final(self).level_nr == old(self).level_nr,
            final(self).levels@.len() == old(self).levels@.len(),
            final(self).cur().npc_map() == old(self).cur().npc_map(),
            final(self).round_nr == old(self).round_nr,
    {
        let player_pos = self.player.character.base.pos;
        if self.current_level().is_occupied(player_pos) {
            return Ok(GameOutcome::Fail(FailReason::TileOccupied(player_pos)));
        }
        match self.remove_item_from_inv(item_id) {
            Err(e) => { return Err(e); },
            Ok(_) => {},
        }
        let item_sprite = match self.create_item_sprite(item_id, player_pos) {
            Ok(sprite) => sprite,
            Err(e) => { return Err(e); },
        };
        proof {
            assert(player_pos.y * 100 + player_pos.x < 2500) by (nonlinear_arith)
                requires player_pos.x < 100, player_pos.y < 25;
            assert(!self.cur().item_sprites_index@.contains_key(item_sprite.base.id)) by {
                if self.cur().item_sprites_index@.contains_key(item_sprite.base.id) {
                    assert(self.levels@[self.level_nr as int].item_sprites_index@.contains_key(item_sprite.base.id));
                }
            }
            assert(!self.cur().npc_index@.contains_key(item_sprite.base.id)) by {
                if self.cur().npc_index@.contains_key(item_sprite.base.id) {
                    assert(self.levels@[self.level_nr as int].npc_index@.contains_key(item_sprite.base.id));
                }
            }
        }
        let ghost before = *self;
        let ghost sprite = item_sprite;
        let spawned = self.current_level_mut().spawn_item_sprite(item_sprite);
        proof {
            assert forall|i: int, id: EntityId| 0 <= i < self.levels@.len()
                && #[trigger] self.levels@[i].item_sprites_index@.contains_key(id) implies id < self.id_system.next_entity() by {
                if i != self.level_nr as int {
                    assert(self.levels@[i] == before.levels@[i]);
                } else if id != sprite.base.id {
                    assert(self.cur().sprite_map().contains_key(id));
                    assert(before.cur().sprite_map().contains_key(id));
                    assert(before.levels@[i].item_sprites_index@.contains_key(id));
                }
            }
            assert forall|i: int| 0 <= i < self.levels@.len() implies (#[trigger] self.levels@[i]).wf() by {
                if i != self.level_nr as int {
                    assert(self.levels@[i] == before.levels@[i]);
                }
            }
            assert forall|i: int, id: EntityId| 0 <= i < self.levels@.len()
                && #[trigger] self.levels@[i].npc_index@.contains_key(id) implies id < self.id_system.next_entity() by {
                if i != self.level_nr as int {
                    assert(self.levels@[i] == before.levels@[i]);
                } else {
                    assert(before.levels@[i].npc_index@.contains_key(id));
                }
            }
            assert forall|i: int, id: EntityId| 0 <= i < self.levels@.len()
                && #[trigger] self.levels@[i].npc_map().contains_key(id) implies
                self.levels@[i].npc_map()[id].stats.damage <= crate::gameplay::game::MAX_NPC_DAMAGE by {
                if i != self.level_nr as int {
                    assert(self.levels@[i] == before.levels@[i]);
                } else {
                    assert(self.levels@[i].npc_map() =~= before.levels@[i].npc_map());
                }
            }
            assert(self.cur().npc_map() =~= before.cur().npc_map());
        }
        match spawned {
            Err(e) => { return Err(e); },
            Ok(_) => {},
        }
        Ok(GameOutcome::Success)
    }

    /// The player interacts with the tile at `point`: a closed door opens
    /// (logged), stairs lead down or up a level (logged); other tiles offer
    /// no interaction (the action fails).
    ///
    /// Errs where the next or previous level cannot be entered.
    pub fn tile_interaction<S: LevelSource>(&mut self, point: Point, source: &S) -> (r: GameResult)
        requires
            old(self).wf(),
            point.x < WORLD_WIDTH,
            point.y < WORLD_HEIGHT,
            old(self).cur().world.tile_at(point.x as int, point.y as int).tile_type == TileType::StairsUp
                ==> old(self).level_nr >= 1,
            old(self).level_nr < usize::MAX,
        ensures
            final(self).wf(),
            final(self).round_nr == old(self).round_nr,
            final(self).player.character.stats == old(self).player.character.stats,
            final(self).player.character.inventory@ == old(self).player.character.inventory@,
            ({
                let t = old(self).cur().world.tile_at(point.x as int, point.y as int).tile_type;
                match t {
                    TileType::Door(DoorType::Closed) => {
                        &&& r == Ok::<GameOutcome, GameError>(GameOutcome::Success)
                        &&& final(self).cur().world.tile_at(point.x as int, point.y as int).tile_type
                                == TileType::Door(DoorType::Open)
                        &&& final(self).level_nr == old(self).level_nr
                        &&& final(self).player.character.base == old(self).player.character.base
                    },
                    TileType::StairsDown => {
                        &&& r is Ok ==> {
                            &&& r == Ok::<GameOutcome, GameError>(GameOutcome::Success)
                            &&& final(self).level_nr == old(self).level_nr + 1
                            &&& final(self).player.character.base.pos == final(self).cur().entry
                        }
                        &&& old(self).level_nr + 1 < old(self).levels@.len()
                            && old(self).levels@[old(self).level_nr + 1].entry.x < WORLD_WIDTH
                            && old(self).levels@[old(self).level_nr + 1].entry.y < WORLD_HEIGHT
                            ==> r is Ok
                    },
                    TileType::StairsUp => {
                        &&& r is Ok ==> {
                            &&& r == Ok::<GameOutcome, GameError>(GameOutcome::Success)
                            &&& final(self).level_nr == old(self).level_nr - 1
                            &&& final(self).player.character.base.pos == final(self).cur().exit
                        }
                        &&& old(self).levels@[old(self).level_nr - 1].exit.x < WORLD_WIDTH
                            && old(self).levels@[old(self).level_nr - 1].exit.y < WORLD_HEIGHT
                            ==> r is Ok
                    },
                    _ => r == Ok::<GameOutcome, GameError>(GameOutcome::Fail(FailReason::NoInteraction))
                        && *final(self) == *old(self),
                }
            }),
            final(self).player.character.active_buffs@ == old(self).player.character.active_buffs@,
            final(self).player.character.potion_usage@ == old(self).player.character.potion_usage@,
            (final(self).player.character.base.pos.x < WORLD_WIDTH && final(self).player.character.base.pos.y < WORLD_HEIGHT)
                || final(self).player.character.base.pos == old(self).player.character.base.pos,
            final(self).level_nr == old(self).level_nr || final(self).level_nr == old(self).level_nr + 1
                || final(self).level_nr == old(self).level_nr - 1,
    {
        proof {
            assert(point.y * 100 + point.x < 2500) by (nonlinear_arith)
                requires point.x < 100, point.y < 25;
        }
        let tile_type = self.current_world().get_tile(point).tile_type;
        match tile_type {
            TileType::Door(DoorType::Closed) => {
                let ghost before = *self;
                let level = self.current_level_mut();
                level.world.set_tile_type(point, TileType::Door(DoorType::Open));
                proof {
                    let l = self.cur();
                    assert(l.world.wf());
                    assert forall|i: int| 0 <= i < l.npcs@.len() implies l.world.spec_in_bounds(
                        (#[trigger] l.npcs@[i]).base.pos.x as int, l.npcs@[i].base.pos.y as int) by {
                        assert(before.cur().npcs@[i] == l.npcs@[i]);
                    }
                    assert forall|i: int| 0 <= i < l.item_sprites@.len() implies l.world.spec_in_bounds(
                        (#[trigger] l.item_sprites@[i]).base.pos.x as int, l.item_sprites@[i].base.pos.y as int) by {
                        assert(before.cur().item_sprites@[i] == l.item_sprites@[i]);
                    }
                    assert(l.npc_map() =~= before.cur().npc_map());
                    assert(l.sprite_map() =~= before.cur().sprite_map());
                    crate::gameplay::combat::lemma_levels_frame(before, *self);
                }
                self.log.info(LogData::Plain("You open the door".to_owned()));
                Ok(GameOutcome::Success)
            },
            TileType::StairsDown => {
                self.log.info(LogData::UseStairsDown);
                match self.goto_level_next(source) {
                    Err(e) => { return Err(e); },
                    Ok(_) => {},
                }
                Ok(GameOutcome::Success)
            },
            TileType::StairsUp => {
                self.log.info(LogData::UseStairsUp);
                match self.goto_level_previous(source) {
                    Err(e) => { return Err(e); },
                    Ok(_) => {},
                }
                Ok(GameOutcome::Success)
            },
            _ => Ok(GameOutcome::Fail(FailReason::NoInteraction)),
        }
    }
}

/// The buffs of a potion of the table keep dexterity buffs small and
/// poison by at most 2.
proof fn lemma_table_potion_buffs(effect: PotionEffectDef, count: u8, since: u64)
    requires
        effect == (PotionEffectDef::Heal { amount: 20 }) || effect == (PotionEffectDef::Strength { amount: 3, duration: 100 })
            || effect == (PotionEffectDef::Dexterity { amount: 2, duration: 100 }),
    ensures
        dex_amounts_small(potion_buffs(effect, count, since)),
        poison_upto(potion_buffs(effect, count, since), potion_buffs(effect, count, since).len()) <= 2,
{
    let b = potion_buffs(effect, count, since);
    reveal_with_fuel(poison_upto, 3);
    assert(b.len() <= 2);
    if b.len() == 2 {
        assert(poison_upto(b, 1) == poison_upto(b, 0) + match b[0].effect {
            PotionEffectDef::Poison { damage_per_tick, .. } => damage_per_tick as int,
            _ => 0int,
        });
    }
}

/// Dexterity buffs that are small each stay small together.
proof fn lemma_dex_small_concat(a: Seq<ActiveBuff>, b: Seq<ActiveBuff>)
    requires
        dex_amounts_small(a),
        dex_amounts_small(b),
    ensures
        dex_amounts_small(a + b),
{
    assert forall|k: int| 0 <= k < (a + b).len() implies ((#[trigger] (a + b)[k]).effect matches PotionEffectDef::Dexterity { amount, .. }
        ==> amount <= 155) by {
        if k < a.len() {
            assert((a + b)[k] == a[k]);
        } else {
            assert((a + b)[k] == b[k - a.len()]);
        }
    }
}

/// Whether an error is one the game cannot go on after: a handcrafted
/// level that cannot be had, or level data that does not fit.
pub open spec fn is_fatal(e: GameError) -> bool {
    ||| e matches GameError::Data(DataError::StaticWorldNotFound(_))
    ||| e matches GameError::Data(DataError::InvalidWorldFormat(_))
}

impl GameState {
    /// Whether the game is in a state to take the player's input `input`:
    /// it is ready for any action, food cannot heal past `u16`, and no
    /// stairs lead up from the first level.
    pub open spec fn ready_for_input(&self, input: PlayerInput) -> bool {
        let c = self.player.character;
        &&& self.ready_for_action()
        &&& input matches PlayerInput::UseItem(id) ==> (self.item_kind(id) matches Some(GameItemKindDef::Food { nutrition })
                ==> c.stats.base.hp_current + nutrition <= u16::MAX)
        &&& input matches PlayerInput::Direction(d) ==> ({
                let t = self.target_of(d);
                self.cur().world.spec_in_bounds(t.x as int, t.y as int)
                    && self.cur().world.tile_at(t.x as int, t.y as int).tile_type == TileType::StairsUp
                    ==> self.level_nr >= 1
            })
    }

    /// What unequipping the weapon (`weapon` true) or the armor does: with
    /// the slot filled and room in the inventory, the item goes into the
    /// inventory and `done` holds; otherwise nothing changes.
    pub open spec fn unequip_effect(&self, new: GameState, weapon: bool, done: bool) -> bool {
        let c = self.player.character;
        let filled = if weapon { c.weapon is Some } else { c.armor is Some };
        let item = if weapon { c.weapon.unwrap().0 } else { c.armor.unwrap().0 };
        let emptied = if weapon { new.player.character.weapon is None } else { new.player.character.armor is None };
        &&& filled && c.inventory@.len() < INVENTORY_LIMIT ==> {
            &&& done
            &&& emptied
            &&& new.player.character.inventory@ == c.inventory@.push(item)
        }
        &&& !(filled && c.inventory@.len() < INVENTORY_LIMIT) ==> !done && new.player == self.player
    }

    /// Whether item `id` can be dropped: nothing lies on the player's tile,
    /// which is walkable, and the item is in the inventory, registered and
    /// defined.
    pub open spec fn drop_possible(&self, id: GameItemId) -> bool {
        let pos = self.player.character.base.pos;
        &&& !self.cur().is_occupied_spec(pos)
        &&& spec_is_walkable(self.cur().world.tile_at(pos.x as int, pos.y as int).tile_type)
        &&& self.player.character.inventory@.contains(id)
        &&& self.items@.contains_key(id)
        &&& spec_item_def(self.items@[id].def_id@) is Some
    }

    /// A drop of item `id` done: the item left the inventory and lies on the
    /// player's tile as a new sprite.
    pub open spec fn drop_done(&self, new: GameState, id: GameItemId) -> bool {
        let next = self.id_system.next_entity();
        &&& new.player.character.inventory@ == crate::gameplay::inventory::inv_without(self.player.character.inventory@, id)
        &&& new.cur().sprite_map().dom() == self.cur().sprite_map().dom().insert(next)
        &&& new.cur().sprite_map()[next].item_id == id
        &&& new.cur().sprite_map()[next].base.pos == self.player.character.base.pos
    }

    /// What using item `id` does where it is in the inventory: armor and
    /// weapons are put on, food and potions are used up, keys do nothing;
    /// `done` tells whether the item was used.
    pub open spec fn use_effect(&self, new: GameState, id: GameItemId, done: bool) -> bool {
        match self.item_kind(id) {
            Some(GameItemKindDef::Armor { .. }) => done && new.player.character.armor == Some(ArmorItem(id)),
            Some(GameItemKindDef::Weapon { .. }) => done && new.player.character.weapon == Some(WeaponItem(id)),
            Some(GameItemKindDef::Food { .. }) => done && new.items@ == self.items@.remove(id),
            Some(GameItemKindDef::Potion { .. }) => done && new.items@ == self.items@.remove(id),
            _ => !done && new.player == self.player,
        }
    }

    /// What a ranged attack on npc `id` comes to: it is made (`done`) where
    /// the npc is on the level and within the reach of the ranged weapon
    /// wielded; where the npc is not on the level, no weapon is wielded, or
    /// the npc is out of reach, nothing changes.
    pub open spec fn ranged_attack_effect(&self, new: GameState, id: EntityId, done: bool) -> bool {
        let level = self.cur();
        &&& !level.npc_map().contains_key(id) ==> !done && new.player == self.player && new.levels == self.levels
        &&& level.npc_map().contains_key(id) && self.player.character.weapon is None
            ==> !done && new.player == self.player && new.levels == self.levels
        &&& level.npc_map().contains_key(id) && self.player.character.weapon is Some
            && self.spec_weapon_stats() is Ok && self.spec_weapon_stats().unwrap().2 is Some ==> {
            let range = self.spec_weapon_stats().unwrap().2.unwrap();
            let far = spec_distance_squared(self.player.character.base.pos, level.npc_map()[id].base.pos) > range * range;
            &&& far ==> !done && new.player == self.player && new.levels == self.levels
            &&& !far ==> done
        }
    }

    /// What every input asks of the game's state: the npcs can act, and
    /// the player's attacks, potions, buffs and counters stay within their
    /// types.
    pub open spec fn ready_for_action(&self) -> bool {
        let c = self.player.character;
        &&& self.npcs_can_act()
        &&& self.level_nr < crate::gameplay::combat::MAX_NPC_LEVEL
        &&& self.player_attack_fits()
        &&& self.potion_usage_fits()
        &&& dex_amounts_small(c.active_buffs@)
        &&& poison_upto(c.active_buffs@, c.active_buffs@.len()) + 2 <= u16::MAX
        &&& self.round_nr < u64::MAX
        &&& self.id_system.next_entity() < EntityId::MAX
        &&& self.cur().item_sprites@.len() < usize::MAX
    }

    /// Carries out the action; the game stays one whose npcs can act, and
    /// one that a round can pass in.
    fn perform_action<S: LevelSource>(&mut self, action: ActionKind, source: &S) -> (r: GameResult)
        requires
            old(self).npcs_can_act(),
            old(self).level_nr < crate::gameplay::combat::MAX_NPC_LEVEL,
            old(self).player_attack_fits(),
            old(self).potion_usage_fits(),
            dex_amounts_small(old(self).player.character.active_buffs@),
            old(self).id_system.next_entity() < EntityId::MAX,
            old(self).cur().item_sprites@.len() < usize::MAX,
            action matches ActionKind::UseItem(id) ==> (old(self).item_kind(id) matches Some(GameItemKindDef::Food { nutrition })
                ==> old(self).player.character.stats.base.hp_current + nutrition <= u16::MAX),
            action matches ActionKind::TileInteraction(p) ==> (p.x < WORLD_WIDTH && p.y < WORLD_HEIGHT
                && (old(self).cur().world.tile_at(p.x as int, p.y as int).tile_type == TileType::StairsUp
                    ==> old(self).level_nr >= 1)),
        ensures
            final(self).npcs_can_act(),
            dex_amounts_small(final(self).player.character.active_buffs@),
            poison_upto(final(self).player.character.active_buffs@, final(self).player.character.active_buffs@.len())
                <= poison_upto(old(self).player.character.active_buffs@, old(self).player.character.active_buffs@.len()) + 2,
            final(self).round_nr == old(self).round_nr,
            action is Wait ==> r == Ok::<GameOutcome, GameError>(GameOutcome::Success) && *final(self) == *old(self),
            action matches ActionKind::Move(d) ==> ({
                let p = spec_add_vector(old(self).player.character.base.pos, spec_direction_vector(d));
                let world = old(self).cur().world;
                let no_clip = old(self).game_rules.spec_bits() & NO_CLIP_BITS == NO_CLIP_BITS;
                &&& world.spec_in_bounds(p.x as int, p.y as int)
                    && (spec_is_walkable(world.tile_at(p.x as int, p.y as int).tile_type) || no_clip) ==>
                    r == Ok::<GameOutcome, GameError>(GameOutcome::Success) && final(self).player.character.base.pos == p
                &&& world.spec_in_bounds(p.x as int, p.y as int)
                    && !spec_is_walkable(world.tile_at(p.x as int, p.y as int).tile_type) && !no_clip ==>
                    r == Ok::<GameOutcome, GameError>(GameOutcome::Fail(FailReason::TileNotWalkable(p)))
                        && *final(self) == *old(self)
            }),
            final(self).level_nr == old(self).level_nr || final(self).level_nr == old(self).level_nr + 1
                || final(self).level_nr == old(self).level_nr - 1,
            action matches ActionKind::Attack(id) ==> (old(self).cur().npc_map().contains_key(id)
                && old(self).spec_weapon_stats() is Ok ==> r == Ok::<GameOutcome, GameError>(GameOutcome::Success)
                && final(self).player.character.base == old(self).player.character.base),
            action matches ActionKind::PickUpItem(eid) ==> (old(self).cur().sprite_map().contains_key(eid) ==> {
                let item_id = old(self).cur().sprite_map()[eid].item_id;
                old(self).items@.contains_key(item_id) && spec_item_def(old(self).items@[item_id].def_id@) is Some
                    && old(self).player.character.inventory@.len() < crate::gameplay::inventory::INVENTORY_LIMIT ==> {
                    &&& r == Ok::<GameOutcome, GameError>(GameOutcome::Success)
                    &&& final(self).player.character.inventory@ == old(self).player.character.inventory@.push(item_id)
                    &&& !final(self).cur().sprite_map().contains_key(eid)
                    &&& final(self).player.character.base == old(self).player.character.base
                    &&& final(self).level_nr == old(self).level_nr
                }
            }),
            action is UnequipWeapon ==> old(self).unequip_effect(*final(self), true, r == Ok::<GameOutcome, GameError>(GameOutcome::Success))
                && r is Ok && (r == Ok::<GameOutcome, GameError>(GameOutcome::Success) || *final(self) == *old(self)),
            action is UnequipArmor ==> old(self).unequip_effect(*final(self), false, r == Ok::<GameOutcome, GameError>(GameOutcome::Success))
                && r is Ok && (r == Ok::<GameOutcome, GameError>(GameOutcome::Success) || *final(self) == *old(self)),
            action matches ActionKind::UseItem(id) ==> {
                &&& r matches Err(e) ==> !is_fatal(e)
                &&& !old(self).player.character.inventory@.contains(id) ==> r is Err && final(self).player == old(self).player
                &&& old(self).player.character.inventory@.contains(id) ==> {
                    &&& old(self).use_effect(*final(self), id, r == Ok::<GameOutcome, GameError>(GameOutcome::Success))
                    &&& r != Ok::<GameOutcome, GameError>(GameOutcome::Success) ==> *final(self) == *old(self) || r is Err
                }
            },
            action matches ActionKind::DropItem(id) ==> {
                &&& old(self).cur().is_occupied_spec(old(self).player.character.base.pos)
                    ==> r == Ok::<GameOutcome, GameError>(GameOutcome::Fail(FailReason::TileOccupied(old(self).player.character.base.pos)))
                    && *final(self) == *old(self)
                &&& old(self).drop_possible(id) ==> r == Ok::<GameOutcome, GameError>(GameOutcome::Success)
                &&& r == Ok::<GameOutcome, GameError>(GameOutcome::Success) ==> old(self).drop_done(*final(self), id)
            },
            action matches ActionKind::RangedAttack(id) ==> {
                &&& old(self).ranged_attack_effect(*final(self), id, r == Ok::<GameOutcome, GameError>(GameOutcome::Success))
                &&& r != Ok::<GameOutcome, GameError>(GameOutcome::Success) && r is Ok ==> *final(self) == *old(self)
                &&& r matches Err(e) ==> !is_fatal(e)
            },
            action matches ActionKind::TileInteraction(p) ==> (old(self).cur().world.tile_at(p.x as int, p.y as int).tile_type
                == TileType::Door(DoorType::Closed) ==> {
                &&& r == Ok::<GameOutcome, GameError>(GameOutcome::Success)
                &&& final(self).cur().world.tile_at(p.x as int, p.y as int).tile_type == TileType::Door(DoorType::Open)
                &&& final(self).player.character.base == old(self).player.character.base
                &&& final(self).level_nr == old(self).level_nr
            }),
    {
        let ghost buffs0 = self.player.character.active_buffs@;
        let r = match action {
            ActionKind::Wait => Ok(GameOutcome::Success),
            ActionKind::Move(direction) => self.move_player_character(PointVector::from_direction(direction)),
            ActionKind::Attack(npc_id) => self.player_attack_npc(npc_id),
            ActionKind::PickUpItem(entity_id) => self.pick_up_item(entity_id),
            ActionKind::DropItem(item_id) => self.drop_item(item_id),
            ActionKind::UseItem(item_id) => {
                let ghost before = *self;
                let r = self.use_item(item_id);
                proof {
                    if before.player.character.inventory@.contains(item_id) && before.item_kind(item_id) is Some
                        && before.item_kind(item_id).unwrap() is Potion {
                        let effect = before.item_kind(item_id).unwrap()->effect;
                        lemma_potion_effects(before.items@[item_id].def_id@);
                        let (count, since) = choose|count: u8, since: u64| self.player.character.active_buffs@
                            == buffs0 + potion_buffs(effect, count, since);
                        lemma_table_potion_buffs(effect, count, since);
                        lemma_dex_small_concat(buffs0, potion_buffs(effect, count, since));
                        lemma_poison_concat(buffs0, potion_buffs(effect, count, since));
                    }
                }
                r
            },
            ActionKind::UnequipWeapon => self.unequip_weapon(),
            ActionKind::UnequipArmor => self.unequip_armor(),
            ActionKind::TileInteraction(point) => self.tile_interaction(point, source),
            ActionKind::RangedAttack(npc_id) => self.player_ranged_attack_npc(npc_id),
        };
        proof {
            lemma_dex_small_dodge_fits(self.player.character.stats.abilities.dexterity,
                self.player.character.active_buffs@);
        }
        r
    }

    /// Takes the player's input and carries out the action it means (see
    /// [GameState::interpret_player_input]). Where the action succeeds, a
    /// round passes ([GameState::next_round]); where it fails, the reason
    /// is logged for the player, if it is one to tell; where it errs, the
    /// error is logged as a debug warning, unless the game cannot go on
    /// after it (see [is_fatal]): that error is returned.
    pub fn resolve_player_action<S: LevelSource>(&mut self, input: PlayerInput, source: &S) -> (r: Result<(), GameError>)
        requires
            old(self).ready_for_input(input),
        ensures
            final(self).npcs_can_act(),
            dex_amounts_small(final(self).player.character.active_buffs@),
            r matches Err(e) ==> is_fatal(e),
            final(self).round_nr == old(self).round_nr || final(self).round_nr == old(self).round_nr + 1,
            input is Wait ==> r is Ok && final(self).round_nr == old(self).round_nr + 1,
            input matches PlayerInput::Direction(d) ==> ({
                let t = old(self).target_of(d);
                let level = old(self).cur();
                let no_clip = old(self).game_rules.spec_bits() & NO_CLIP_BITS == NO_CLIP_BITS;
                level.world.spec_in_bounds(t.x as int, t.y as int) && !level.npc_at(t) && !level.sprite_at(t)
                    && !spec_is_interactable(level.world.tile_at(t.x as int, t.y as int).tile_type) ==> {
                    &&& spec_is_walkable(level.world.tile_at(t.x as int, t.y as int).tile_type) || no_clip ==> {
                        &&& r is Ok
                        &&& final(self).round_nr == old(self).round_nr + 1
                        &&& final(self).player.character.base.pos == t
                    }
                    &&& !spec_is_walkable(level.world.tile_at(t.x as int, t.y as int).tile_type) && !no_clip ==> {
                        &&& r is Ok
                        &&& final(self).round_nr == old(self).round_nr
                        &&& final(self).player == old(self).player
                        &&& final(self).levels == old(self).levels
                    }
                }
            }),
            input matches PlayerInput::Direction(d) ==> ({
                let t = old(self).target_of(d);
                !old(self).cur().world.spec_in_bounds(t.x as int, t.y as int) ==> r is Ok && *final(self) == *old(self)
            }),
            input matches PlayerInput::Direction(d) ==> ({
                let t = old(self).target_of(d);
                let level = old(self).cur();
                let here = level.world.spec_in_bounds(t.x as int, t.y as int);
                &&& here && level.npc_at(t) && old(self).spec_weapon_stats() is Ok ==> {
                    &&& r is Ok
                    &&& final(self).round_nr == old(self).round_nr + 1
                    &&& final(self).player.character.base == old(self).player.character.base
                }
                &&& here && !level.npc_at(t) && level.sprite_at(t) ==> {
                    let sid = level.first_sprite_at(t).base.id;
                    let item_id = level.sprite_map()[sid].item_id;
                    old(self).items@.contains_key(item_id) && spec_item_def(old(self).items@[item_id].def_id@) is Some
                        && old(self).player.character.inventory@.len() < crate::gameplay::inventory::INVENTORY_LIMIT ==> {
                        &&& r is Ok
                        &&& final(self).round_nr == old(self).round_nr + 1
                        &&& final(self).player.character.inventory@ == old(self).player.character.inventory@.push(item_id)
                        &&& !final(self).cur().sprite_map().contains_key(sid)
                        &&& final(self).player.character.base == old(self).player.character.base
                    }
                }
                &&& here && !level.npc_at(t) && !level.sprite_at(t)
                    && level.world.tile_at(t.x as int, t.y as int).tile_type == TileType::Door(DoorType::Closed) ==> {
                    &&& r is Ok
                    &&& final(self).round_nr == old(self).round_nr + 1
                    &&& final(self).cur().world.tile_at(t.x as int, t.y as int).tile_type == TileType::Door(DoorType::Open)
                    &&& final(self).player.character.base == old(self).player.character.base
                }
            }),
            final(self).level_nr == old(self).level_nr || final(self).level_nr == old(self).level_nr + 1
                || final(self).level_nr == old(self).level_nr - 1,
            input is UnequipWeapon ==> r is Ok
                && old(self).unequip_effect(*final(self), true, final(self).round_nr == old(self).round_nr + 1),
            input is UnequipArmor ==> r is Ok
                && old(self).unequip_effect(*final(self), false, final(self).round_nr == old(self).round_nr + 1),
            input matches PlayerInput::UseItem(id) ==> {
                &&& r is Ok
                &&& !old(self).player.character.inventory@.contains(id)
                    ==> final(self).round_nr == old(self).round_nr && final(self).player == old(self).player
                &&& old(self).player.character.inventory@.contains(id)
                    ==> old(self).use_effect(*final(self), id, final(self).round_nr == old(self).round_nr + 1)
            },
            input matches PlayerInput::DropItem(id) ==> {
                &&& old(self).cur().is_occupied_spec(old(self).player.character.base.pos)
                    ==> r is Ok && final(self).round_nr == old(self).round_nr && final(self).player == old(self).player
                &&& old(self).drop_possible(id) ==> r is Ok && final(self).round_nr == old(self).round_nr + 1
                    && old(self).drop_done(*final(self), id)
            },
            input matches PlayerInput::RangedAttack(id) ==> r is Ok
                && old(self).ranged_attack_effect(*final(self), id, final(self).round_nr == old(self).round_nr + 1),
    {
        let intended_action = match self.interpret_player_input(input) {
            Some(action) => action,
            None => { return Ok(()); },
        };
        proof {
            if let ActionKind::TileInteraction(p) = intended_action {
                assert(self.cur().world.wf());
            }
        }
        let ghost before = *self;
        let action_result = self.perform_action(intended_action, source);
        match action_result {
            Ok(GameOutcome::Success) => {
                proof {
                    let buffs = self.player.character.active_buffs@;
                    lemma_tick_keeps_dex_small(buffs);
                    lemma_dex_small_dodge_fits(self.player.character.stats.abilities.dexterity, buffs_after_tick(buffs));
                }
                let ghost acted = *self;
                self.next_round();
                proof {
                    lemma_tick_keeps_dex_small(before.player.character.active_buffs@);
                    if let ActionKind::TileInteraction(p) = intended_action {
                        if before.cur().world.tile_at(p.x as int, p.y as int).tile_type == TileType::Door(DoorType::Closed) {
                            let k = crate::world::worldspace::grid_index(acted.cur().world.width as int, p.x as int, p.y as int);
                            crate::world::worldspace::lemma_cell_index(acted.cur().world, p.x as int, p.y as int);
                            assert(self.cur().world.tiles@[k].tile_type == acted.cur().world.tiles@[k].tile_type);
                        }
                    }
                }
                Ok(())
            },
            Ok(GameOutcome::Fail(reason)) => {
                if let Some(log_data) = reason.notify_user() {
                    self.log.info(log_data);
                }
                Ok(())
            },
            Err(error) => {
                match error {
                    GameError::Data(DataError::StaticWorldNotFound(_)) => Err(error),
                    GameError::Data(DataError::InvalidWorldFormat(_)) => Err(error),
                    _ => {
                        self.log.debug_warn(error.describe());
                        Ok(())
                    },
                }
            },
        }
    }
}

} // verus!
