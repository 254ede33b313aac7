//! The cursor, which the player moves instead of the character to look at
//! things or to aim.

use vstd::prelude::*;

use crate::gameplay::entity_logic::Entity;
use crate::gameplay::game::{GameState, LevelSource};
use crate::gameplay::player_actions::{is_fatal, PlayerInput};
use crate::util::errors_results::{EngineError, FailReason, GameError, GameOutcome, GameResult};
use crate::util::text_log::LogData;
use crate::world::coordinate_system::{spec_add_vector, spec_direction_vector, Direction, Point};
use crate::world::level::Level;
use crate::world::tiles::spec_tile_name;
use crate::world::worldspace::{WORLD_HEIGHT, WORLD_WIDTH};

verus! {

/// The cursor: what it is for, and where it is.
#[derive(Clone, Copy, Debug, PartialEq, Eq, Structural)]
pub struct CursorState {
    pub kind: CursorMode,
    pub point: Point,
}

/// What the cursor is for.
#[derive(Clone, Copy, Debug, PartialEq, Eq, Structural)]
pub enum CursorMode {
    /// Describe what the cursor points at.
    Look,
    /// Attack at range what the cursor points at.
    RangedAttack,
}

/// The names a look at `p` tells: the tile's where nothing is on it, else
/// the first npc's and the first item's there.
pub open spec fn look_names(level: Level, p: Point) -> Seq<Seq<char>> {
    if !level.is_occupied_spec(p) {
        seq![spec_tile_name(level.world.tile_at(p.x as int, p.y as int).tile_type)@]
    } else {
        (if level.npc_at(p) { seq![level.first_npc_at(p).base.name@] } else { Seq::empty() })
            + (if level.sprite_at(p) { seq![level.first_sprite_at(p).base.name@] } else { Seq::empty() })
    }
}

/// Whether `after` is `before` with a look at each of `names` appended.
pub open spec fn logs_looks(before: Seq<LogData>, after: Seq<LogData>, names: Seq<Seq<char>>) -> bool {
    &&& after.len() == before.len() + names.len()
    &&& after.take(before.len() as int) == before
    &&& forall|i: int| 0 <= i < names.len() ==> (#[trigger] after[before.len() + i] matches LogData::LookAt { name }
            && name@ == names[i])
}

impl GameState {
    /// Whether the cursor, if there is one, points into the world.
    pub open spec fn cursor_in_world(&self) -> bool {
        self.cursor matches Some(c) ==> c.point.x < WORLD_WIDTH && c.point.y < WORLD_HEIGHT
    }

    /// Moves the cursor one step in `direction`; the move fails where it
    /// would leave the world.
    ///
    /// Errs where there is no cursor.
    pub fn move_cursor(&mut self, direction: Direction) -> (r: GameResult)
        requires
            old(self).wf(),
            old(self).cursor_in_world(),
        ensures
            final(self).cursor_in_world(),
            old(self).cursor is None ==> (r matches Err(e) && e == GameError::Engine(EngineError::CursorNotSet))
                && *final(self) == *old(self),
            old(self).cursor matches Some(c) ==> ({
                let p = spec_add_vector(c.point, spec_direction_vector(direction));
                if !old(self).cur().world.spec_in_bounds(p.x as int, p.y as int) {
                    r == Ok::<GameOutcome, GameError>(GameOutcome::Fail(FailReason::PointOutOfBounds(p)))
                        && *final(self) == *old(self)
                } else {
                    r == Ok::<GameOutcome, GameError>(GameOutcome::Success)
                        && *final(self) == (GameState { cursor: Some(CursorState { point: p, ..c }), ..*old(self) })
                }
            }),
    {
        let point = match self.cursor {
            Some(cursor_state) => cursor_state.point,
            None => { return Err(GameError::Engine(EngineError::CursorNotSet)); },
        };
        let new_point = point.add_direction(direction);
        if !self.current_world().is_in_bounds(new_point.x as isize, new_point.y as isize) {
            return Ok(GameOutcome::Fail(FailReason::PointOutOfBounds(new_point)));
        }
        if let Some(cursor) = self.cursor {
            self.cursor = Some(CursorState { point: new_point, ..cursor });
        }
        Ok(GameOutcome::Success)
    }
}

impl GameState {
    /// Tells in the log what is at `point`: the tile where nothing is on
    /// it, else the first npc and the first item there.
    pub fn look_at_point(&mut self, point: Point)
        requires
            old(self).wf(),
            point.x < WORLD_WIDTH,
            point.y < WORLD_HEIGHT,
        ensures
            logs_looks(old(self).log.messages@, final(self).log.messages@, look_names(old(self).cur(), point)),
            final(self).log.print_debug_info == old(self).log.print_debug_info,
            *final(self) == (GameState { log: final(self).log, ..*old(self) }),
    {
        let ghost level = self.cur();
        let ghost before = self.log.messages@;
        if !self.current_level().is_occupied(point) {
            proof {
                assert(point.y * 100 + point.x < 2500) by (nonlinear_arith)
                    requires point.x < 100, point.y < 25;
            }
            let tile_type = self.current_world().get_tile(point).tile_type;
            self.log.info(LogData::LookAt { name: tile_type.name().to_owned() });
            proof {
                assert(self.log.messages@.take(before.len() as int) =~= before);
            }
            return;
        }
        let ghost mut names: Seq<Seq<char>> = Seq::empty();
        if let Some(entity_id) = self.current_level().get_npc_at(point) {
            proof {
                let i = choose|i: int| 0 <= i < level.npcs@.len() && (#[trigger] level.npcs@[i]).base.pos == point
                    && level.npcs@[i].base.id == entity_id && forall|j: int| 0 <= j < i ==> level.npcs@[j].base.pos != point;
                assert(level.is_first_npc_at(i, point));
                assert(crate::world::level::npc_ids(level.npcs@)[i] == entity_id);
                assert(level.npc_index@[entity_id] == i);
            }
            if let Some(npc) = self.current_level().get_npc(entity_id) {
                let name = npc.name().to_owned();
                self.log.info(LogData::LookAt { name });
                proof {
                    names = names.push(level.first_npc_at(point).base.name@);
                }
            }
        }
        let ghost mid = self.log.messages@;
        if let Some(entity_id) = self.current_level().get_item_sprite_at(point) {
            proof {
                let i = choose|i: int| 0 <= i < level.item_sprites@.len()
                    && (#[trigger] level.item_sprites@[i]).base.pos == point && level.item_sprites@[i].base.id == entity_id
                    && forall|j: int| 0 <= j < i ==> level.item_sprites@[j].base.pos != point;
                assert(level.is_first_sprite_at(i, point));
                assert(crate::world::level::sprite_ids(level.item_sprites@)[i] == entity_id);
                assert(level.item_sprites_index@[entity_id] == i);
            }
            if let Some(item_sprite) = self.current_level().get_item_sprite(entity_id) {
                let name = item_sprite.name().to_owned();
                self.log.info(LogData::LookAt { name });
                proof {
                    names = names.push(level.first_sprite_at(point).base.name@);
                }
            }
        }
        proof {
            assert(names =~= look_names(level, point));
            assert(self.log.messages@.take(before.len() as int) =~= before);
            assert forall|i: int| 0 <= i < names.len() implies (#[trigger] self.log.messages@[before.len() + i]
                matches LogData::LookAt { name } && name@ == names[i]) by {
                if i == 0 && level.npc_at(point) {
                    assert(self.log.messages@[before.len() + i] == mid[before.len() + i]);
                }
            }
        }
    }

    /// Acts with the cursor on what it points at, which must be visible
    /// (else the action fails, and the player is told so): looks at it, or
    /// attacks the first npc there at range (see
    /// [GameState::resolve_player_action]).
    ///
    /// Errs where there is no cursor, and with the error the game cannot go
    /// on after, where the attack gives one.
    pub fn resolve_cursor_action<S: LevelSource>(&mut self, source: &S) -> (r: GameResult)
        requires
            old(self).wf(),
            old(self).cursor_in_world(),
            old(self).cursor matches Some(c) && c.kind == CursorMode::RangedAttack ==> old(self).ready_for_action(),
        ensures
            old(self).cursor is None ==> (r matches Err(e) && e == GameError::Engine(EngineError::CursorNotSet))
                && *final(self) == *old(self),
            old(self).cursor matches Some(c) ==> ({
                let tile = old(self).cur().world.tile_at(c.point.x as int, c.point.y as int);
                if !tile.visible {
                    &&& r == Ok::<GameOutcome, GameError>(GameOutcome::Fail(FailReason::TileNotVisible(c.point)))
                    &&& final(self).log.messages@ == old(self).log.messages@.push(LogData::TileNotVisible)
                    &&& *final(self) == (GameState { log: final(self).log, ..*old(self) })
                } else {
                    match c.kind {
                        CursorMode::Look => {
                            &&& r == Ok::<GameOutcome, GameError>(GameOutcome::Success)
                            &&& logs_looks(old(self).log.messages@, final(self).log.messages@,
                                    look_names(old(self).cur(), c.point))
                            &&& *final(self) == (GameState { log: final(self).log, ..*old(self) })
                        },
                        CursorMode::RangedAttack => {
                            &&& r matches Err(e) ==> is_fatal(e)
                            &&& r is Ok ==> r == Ok::<GameOutcome, GameError>(GameOutcome::Success)
                            &&& !old(self).cur().npc_at(c.point) ==> r == Ok::<GameOutcome, GameError>(GameOutcome::Success)
                                    && *final(self) == *old(self)
                            &&& old(self).cur().npc_at(c.point) ==> {
                                    &&& r == Ok::<GameOutcome, GameError>(GameOutcome::Success)
                                    &&& old(self).ranged_attack_effect(*final(self), old(self).cur().first_npc_at(c.point).base.id,
                                            final(self).round_nr == old(self).round_nr + 1)
                                }
                        },
                    }
                }
            }),
    {
        let cursor = match self.cursor {
            Some(cursor) => cursor,
            None => { return Err(GameError::Engine(EngineError::CursorNotSet)); },
        };
        proof {
            assert(cursor.point.y * 100 + cursor.point.x < 2500) by (nonlinear_arith)
                requires cursor.point.x < 100, cursor.point.y < 25;
        }
        if !self.current_world().get_tile(cursor.point).visible {
            self.log.info(LogData::TileNotVisible);
            return Ok(GameOutcome::Fail(FailReason::TileNotVisible(cursor.point)));
        }
        match cursor.kind {
            CursorMode::Look => {
                self.look_at_point(cursor.point);
                Ok(GameOutcome::Success)
            },
            CursorMode::RangedAttack => {
                if let Some(entity_id) = self.current_level().get_npc_at(cursor.point) {
                    match self.resolve_player_action(PlayerInput::RangedAttack(entity_id), source) {
                        Err(e) => { return Err(e); },
                        Ok(()) => {},
                    }
                }
                Ok(GameOutcome::Success)
            },
        }
    }
}

} // verus!
