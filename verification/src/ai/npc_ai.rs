//! The decisions of non-player characters.

use vstd::prelude::*;

use crate::ai::pathfinding::{a_star, always_allowed, is_step_path, short_route, step_allowed, unit_costs, unrefused_path};
use crate::gameplay::entity_logic::EntityId;
use crate::gameplay::game::GameState;
use crate::gameplay::player::dodge_fits;
use crate::util::errors_results::{EngineError, FailReason, GameError, GameOutcome, GameResult};
use crate::world::coordinate_system::{adjacent, spec_add_vector, spec_direction_vector, Direction, Point, PointVector};
use crate::world::level::Level;
use crate::world::tiles::{spec_is_walkable, Collision};
use crate::world::worldspace::{grid_index, WORLD_HEIGHT, WORLD_WIDTH};

verus! {

/// Within this distance an npc notices the player.
pub const AGGRO_RADIUS: usize = 6;

/// What an npc is up to.
#[derive(Clone, Copy, Debug, PartialEq, Eq, Structural, Default)]
pub enum NpcAiState {
    #[default]
    Inactive,
    Wandering,
    Aggressive,
}

/// What an npc does in its turn.
#[derive(Clone, Copy, Debug, PartialEq, Eq, Structural)]
pub enum NpcActionKind {
    Wait,
    Move(Direction),
    Attack,
}

/// Why an npc could not act.
#[derive(Clone, Copy, Debug, PartialEq, Eq, Structural)]
pub enum NpcAiError {
    /// The npc could not move; the reason is the rule that forbade it.
    MovementError(FailReason),
    NpcNotFound,
}

/// Whether an npc may step onto `p` of the level: a cell of the world, walkable,
/// and with no npc on it.
pub open spec fn npc_can_step(level: Level, p: Point) -> bool {
    &&& p.x <= 10_000 && p.y <= 10_000
    &&& grid_index(WORLD_WIDTH as int, p.x as int, p.y as int) < level.world.tiles@.len()
    &&& spec_is_walkable(level.world.tiles@[grid_index(WORLD_WIDTH as int, p.x as int, p.y as int)].tile_type)
    &&& !level.npc_at(p)
}

/// Whether `path` is a way for an npc from `start` to `goal` in the level: one
/// orthogonal step at a time, through no point twice, each point after the
/// start one that an npc may step onto.
pub open spec fn npc_route(level: Level, path: Seq<Point>, start: Point, goal: Point) -> bool {
    &&& path.len() >= 1
    &&& path[0] == start
    &&& path.last() == goal
    &&& is_step_path(path)
    &&& path.no_duplicates()
    &&& forall|k: int| 1 <= k < path.len() ==> npc_can_step(level, #[trigger] path[k])
}

/// Whether the level has a route for an npc from `start` to `goal` of at most
/// seven steps.
pub open spec fn npc_short_route(level: Level, start: Point, goal: Point) -> bool {
    exists|q: Seq<Point>| #[trigger] npc_route(level, q, start, goal) && q.len() <= 8
}

/// Whether stepping from `start` in direction `d` is the first step of a
/// route to `goal` than which no route is shorter.
pub open spec fn starts_shortest_route(level: Level, start: Point, goal: Point, d: Direction) -> bool {
    exists|path: Seq<Point>| #[trigger] npc_route(level, path, start, goal)
        && path.len() >= 2 && path[1] == spec_add_vector(start, spec_direction_vector(d))
        && forall|q: Seq<Point>| #[trigger] npc_route(level, q, start, goal) ==> path.len() <= q.len()
}

/// The number of orthogonal steps from `a` to `b` where nothing stands in the
/// way.
pub open spec fn step_distance(a: Point, b: Point) -> int {
    (if a.x >= b.x { a.x - b.x } else { b.x - a.x }) + (if a.y >= b.y { a.y - b.y } else { b.y - a.y })
}

/// A way of orthogonal steps has at least as many steps as the step
/// distance between its ends.
proof fn lemma_step_path_long(path: Seq<Point>)
    requires
        path.len() >= 1,
        is_step_path(path),
    ensures
        step_distance(path[0], path.last()) <= path.len() - 1,
    decreases path.len(),
{
    if path.len() > 1 {
        let rest = path.subrange(1, path.len() as int);
        assert forall|k: int| 0 <= k < rest.len() - 1 implies #[trigger] adjacent(rest[k], rest[k + 1]) by {
            assert(adjacent(path[k + 1], path[(k + 1) + 1]));
        }
        lemma_step_path_long(rest);
        assert(adjacent(path[0], path[1]));
    }
}

/// Law: the first step of a shortest route brings the npc one step nearer
/// its goal along the level's routes. The point it steps onto may be stepped
/// onto, and a route leads from it to the goal that is shorter than every
/// route from the start.
pub proof fn law_chase_step_closes_in(level: Level, start: Point, goal: Point, d: Direction)
    requires
        starts_shortest_route(level, start, goal, d),
    ensures
        npc_can_step(level, spec_add_vector(start, spec_direction_vector(d))),
        exists|rest: Seq<Point>| #[trigger] npc_route(level, rest, spec_add_vector(start, spec_direction_vector(d)), goal)
            && forall|q: Seq<Point>| #[trigger] npc_route(level, q, start, goal) ==> rest.len() + 1 <= q.len(),
{
    let next = spec_add_vector(start, spec_direction_vector(d));
    let path = choose|path: Seq<Point>| #[trigger] npc_route(level, path, start, goal)
        && path.len() >= 2 && path[1] == next
        && forall|q: Seq<Point>| #[trigger] npc_route(level, q, start, goal) ==> path.len() <= q.len();
    let rest = path.subrange(1, path.len() as int);
    assert(npc_can_step(level, path[1]));
    assert forall|k: int| 0 <= k < rest.len() - 1 implies #[trigger] adjacent(rest[k], rest[k + 1]) by {
        assert(adjacent(path[k + 1], path[(k + 1) + 1]));
    }
    assert forall|k: int| 1 <= k < rest.len() implies npc_can_step(level, #[trigger] rest[k]) by {
        assert(npc_can_step(level, path[k + 1]));
    }
    assert(rest.no_duplicates()) by {
        assert forall|i: int, j: int| 0 <= i < rest.len() && 0 <= j < rest.len() && i != j
            implies rest[i] != rest[j] by {
            assert(path[i + 1] != path[j + 1]);
        }
    }
    assert(npc_route(level, rest, next, goal));
}

/// Law: where a route from the npc to its goal runs straight (no more steps
/// than the step distance, as across open floor), the first step of a
/// shortest route lowers the step distance to the goal by one: the npc never
/// steps away from the player it chases.
pub proof fn law_chase_step_nears(level: Level, start: Point, goal: Point, d: Direction)
    requires
        starts_shortest_route(level, start, goal, d),
        exists|q: Seq<Point>| #[trigger] npc_route(level, q, start, goal) && q.len() == step_distance(start, goal) + 1,
    ensures
        step_distance(spec_add_vector(start, spec_direction_vector(d)), goal) == step_distance(start, goal) - 1,
{
    let next = spec_add_vector(start, spec_direction_vector(d));
    let straight = choose|q: Seq<Point>| #[trigger] npc_route(level, q, start, goal)
        && q.len() == step_distance(start, goal) + 1;
    let path = choose|path: Seq<Point>| #[trigger] npc_route(level, path, start, goal)
        && path.len() >= 2 && path[1] == next
        && forall|q: Seq<Point>| #[trigger] npc_route(level, q, start, goal) ==> path.len() <= q.len();
    assert(path.len() <= straight.len());
    let rest = path.subrange(1, path.len() as int);
    assert forall|k: int| 0 <= k < rest.len() - 1 implies #[trigger] adjacent(rest[k], rest[k + 1]) by {
        assert(adjacent(path[k + 1], path[(k + 1) + 1]));
    }
    lemma_step_path_long(rest);
    assert(adjacent(path[0], path[1]));
}

/// The squares next to `p` (up, right, down, left; at the edge, clamped).
pub open spec fn melee_area(p: Point) -> Seq<Point> {
    seq![spec_add_vector(p, spec_direction_vector(Direction::Up)), spec_add_vector(p, spec_direction_vector(Direction::Right)),
        spec_add_vector(p, spec_direction_vector(Direction::Down)), spec_add_vector(p, spec_direction_vector(Direction::Left))]
}

impl GameState {
    /// Whether the npcs can act in the current level: the player stands in
    /// the world, the player's dodge chance adds up within `u8`, and every
    /// npc's damage plus the level number fits an attack.
    pub open spec fn npcs_can_act(&self) -> bool {
        &&& self.wf()
        &&& self.player.character.base.pos.x < WORLD_WIDTH
        &&& self.player.character.base.pos.y < WORLD_HEIGHT
        &&& dodge_fits(self.player.character.stats.abilities.dexterity, self.player.character.active_buffs@)
        &&& self.level_nr <= crate::gameplay::combat::MAX_NPC_LEVEL
    }

    /// The direction of the first step of a shortest path (by [a_star]) from
    /// `start` to `goal` over walkable tiles without npcs, if there is one:
    /// the step leads onto a route to the goal, and no route is shorter.
    /// There is none from a point to itself; to a goal next to the start
    /// that may be stepped onto, it is the step onto the goal.
    pub fn next_step_toward(&self, start: Point, goal: Point) -> (r: Option<Direction>)
        requires
            self.level_nr < self.levels@.len(),
            start.x <= 10_000, start.y <= 10_000, goal.x <= 10_000, goal.y <= 10_000,
        ensures
            r matches Some(d) ==> npc_can_step(self.cur(), spec_add_vector(start, spec_direction_vector(d))),
            r matches Some(d) ==> exists|path: Seq<Point>| #[trigger] npc_route(self.cur(), path, start, goal)
                && path.len() >= 2 && path[1] == spec_add_vector(start, spec_direction_vector(d))
                && forall|q: Seq<Point>| #[trigger] npc_route(self.cur(), q, start, goal) ==> path.len() <= q.len(),
            start == goal ==> r is None,
            adjacent(start, goal) && npc_can_step(self.cur(), goal)
                ==> (r matches Some(d) && spec_add_vector(start, spec_direction_vector(d)) == goal),
            start != goal && npc_short_route(self.cur(), start, goal) ==> r is Some,
    {
        let level = self.current_level();
        let cost = |point: Point| -> (c: Option<usize>)
            ensures
                c is Some <==> npc_can_step(*level, point),
                c matches Some(v) ==> v == 1,
        {
            if point.x > 10_000 || point.y > 10_000 {
                return None;
            }
            let idx = point.y * WORLD_WIDTH + point.x;
            if idx >= level.world.tiles.len() {
                return None;
            }
            if !level.world.tiles[idx].tile_type.is_walkable() {
                return None;
            }
            if level.get_npc_at(point).is_some() {
                return None;
            }
            Some(1)
        };
        proof {
            assert(unit_costs(cost));
            if npc_can_step(*level, goal) {
                assert(always_allowed(cost, goal));
            }
            if npc_short_route(*level, start, goal) {
                let q = choose|q: Seq<Point>| #[trigger] npc_route(*level, q, start, goal) && q.len() <= 8;
                assert forall|k: int| 1 <= k < q.len() implies !call_ensures(cost, (#[trigger] q[k],), None::<usize>) by {
                    assert(npc_can_step(*level, q[k]));
                }
                assert(unrefused_path(cost, q, start));
                reveal(short_route);
                assert(short_route(cost, start, goal));
            }
        }
        let path = match a_star(start, goal, cost) {
            Some(path) => path,
            None => { return None; },
        };
        if path.len() < 2 {
            return None;
        }
        let next = path[1];
        proof {
            assert(step_allowed(cost, path@[1]));
            let c = choose|c: usize| #[trigger] call_ensures(cost, (path@[1],), Some(c));
            assert(npc_can_step(*level, path@[1]));
            assert forall|k: int| 1 <= k < path@.len() implies npc_can_step(*level, #[trigger] path@[k]) by {
                assert(step_allowed(cost, path@[k]));
                let c = choose|c: usize| #[trigger] call_ensures(cost, (path@[k],), Some(c));
            }
            assert(npc_route(*level, path@, start, goal));
            assert forall|q: Seq<Point>| #[trigger] npc_route(*level, q, start, goal) implies path@.len() <= q.len() by {
                assert forall|k: int| 1 <= k < q.len() implies !call_ensures(cost, (#[trigger] q[k],), None::<usize>) by {
                    assert(npc_can_step(*level, q[k]));
                }
                assert(unrefused_path(cost, q, start));
            }
        }
        let delta = next.sub(start);
        proof {
            let z: int = 0;
            assert(adjacent(path@[z], path@[z + 1]));
            if next.x == start.x + 1 {
                assert(spec_direction_vector(Direction::Right) == delta);
            } else if start.x == next.x + 1 {
                assert(spec_direction_vector(Direction::Left) == delta);
            } else if next.y == start.y + 1 {
                assert(spec_direction_vector(Direction::Down) == delta);
            } else {
                assert(spec_direction_vector(Direction::Up) == delta);
            }
            if adjacent(start, goal) && npc_can_step(*level, goal) {
                assert(next == goal);
                if goal.x == start.x + 1 {
                    assert(spec_direction_vector(Direction::Right) == delta);
                } else if start.x == goal.x + 1 {
                    assert(spec_direction_vector(Direction::Left) == delta);
                } else if goal.y == start.y + 1 {
                    assert(spec_direction_vector(Direction::Down) == delta);
                } else {
                    assert(spec_direction_vector(Direction::Up) == delta);
                }
            }
        }
        match delta.to_direction() {
            Ok(d) => {
                proof {
                    assert(spec_add_vector(start, spec_direction_vector(d)) == next);
                    assert(npc_route(self.cur(), path@, start, goal));
                }
                Some(d)
            },
            Err(_) => None,
        }
    }
}

/// Whether `points` holds `p`.
fn contains_point(points: &Vec<Point>, p: Point) -> (b: bool)
    ensures
        b == points@.contains(p),
{
    let mut i: usize = 0;
    while i < points.len()
        invariant
            i <= points.len(),
            forall|k: int| 0 <= k < i ==> points@[k] != p,
        decreases points.len() - i,
    {
        if points[i] == p {
            return true;
        }
        i = i + 1;
    }
    false
}

impl GameState {
    /// Whether the npc at `npc_pos` would be aggressive: the player stands
    /// within its detection radius, on a walkable tile.
    pub open spec fn spec_should_be_aggressive(&self, npc_pos: Point) -> bool {
        &&& self.cur().world.spec_in_radius(npc_pos, AGGRO_RADIUS as int, self.player.character.base.pos)
        &&& spec_is_walkable(self.cur().world.tile_at(self.player.character.base.pos.x as int,
                self.player.character.base.pos.y as int).tile_type)
    }

    /// Updates what the npc `npc_id` is up to: aggressive while the player
    /// stands within its detection radius on a walkable tile, wandering
    /// otherwise.
    pub fn npc_refresh_ai_state(&mut self, npc_id: EntityId) -> (r: Result<(), GameError>)
        requires
            old(self).npcs_can_act(),
        ensures
            final(self).npcs_can_act(),
            !old(self).cur().npc_map().contains_key(npc_id) ==> (r matches Err(e)
                && e == GameError::Engine(EngineError::NpcNotFound(npc_id)) && *final(self) == *old(self)),
            old(self).cur().npc_map().contains_key(npc_id) ==> {
                let npc = old(self).cur().npc_map()[npc_id];
                &&& r is Ok
                &&& final(self).cur().npc_map() == old(self).cur().npc_map().insert(npc_id,
                    crate::gameplay::entity_logic::Npc {
                        ai_state: if old(self).spec_should_be_aggressive(npc.base.pos) { NpcAiState::Aggressive }
                            else { NpcAiState::Wandering },
                        ..npc
                    })
            },
            final(self).player == old(self).player,
            final(self).log == old(self).log,
            final(self).level_nr == old(self).level_nr,
            final(self).cur().world == old(self).cur().world,
            final(self).cur().npcs@.len() == old(self).cur().npcs@.len(),
            final(self).cur().sprite_map() == old(self).cur().sprite_map(),
            final(self).levels@.len() == old(self).levels@.len(),
            final(self).id_system == old(self).id_system,
            final(self).items == old(self).items,
            final(self).round_nr == old(self).round_nr,
            final(self).rng == old(self).rng,
    {
        let npc_pos = match self.current_level().get_npc(npc_id) {
            Some(npc) => npc.base.pos,
            None => { return Err(GameError::Engine(EngineError::NpcNotFound(npc_id))); },
        };
        proof {
            let j = self.cur().npc_index@[npc_id] as int;
            assert(crate::world::level::npc_ids(self.cur().npcs@)[j] == npc_id);
            assert(self.cur().npcs@[j] == self.cur().npc_map()[npc_id]);
        }
        let player_pos = self.player.character.base.pos;
        let detectable_area = self.current_world().get_points_in_radius(npc_pos, AGGRO_RADIUS as isize);
        proof {
            assert(player_pos.y * 100 + player_pos.x < 2500) by (nonlinear_arith)
                requires player_pos.x < 100, player_pos.y < 25;
        }
        let player_reachable = self.current_world().get_tile(player_pos).tile_type.is_walkable();
        let should_be_aggressive = contains_point(&detectable_area, player_pos) && player_reachable;
        let state = if should_be_aggressive { NpcAiState::Aggressive } else { NpcAiState::Wandering };
        let ghost before = *self;
        self.current_level_mut().set_npc_ai_state(npc_id, state);
        proof {
            crate::gameplay::combat::lemma_levels_frame(before, *self);
        }
        Ok(())
    }
}

/// Keeping the level and the player's position and buffs, the npcs can
/// still act.
pub proof fn lemma_npcs_can_act_frame(before: GameState, after: GameState)
    requires
        before.npcs_can_act(),
        after.wf(),
        after.level_nr == before.level_nr,
        after.player.character.base.pos == before.player.character.base.pos,
        after.player.character.stats.abilities == before.player.character.stats.abilities,
        after.player.character.active_buffs@ == before.player.character.active_buffs@,
    ensures
        after.npcs_can_act(),
{
}

/// The npc `id` took its turn from `old` to `new`. Its state was refreshed:
/// aggressive where the player stands within its detection radius on a
/// walkable tile, wandering otherwise. An aggressive npc next to the player
/// attacked: it kept its place, the attack was logged, and the player's hit
/// points did not rise. Any other npc stayed where it was blocked, or
/// stepped onto a walkable neighbouring tile of the world; the player is
/// untouched.
pub open spec fn turn_taken(old: GameState, new: GameState, id: EntityId) -> bool {
    let npc = old.cur().npc_map()[id];
    let aggressive = old.spec_should_be_aggressive(npc.base.pos);
    let attacks = aggressive && melee_area(npc.base.pos).contains(old.player.character.base.pos);
    let after = new.cur().npc_map()[id];
    &&& new.cur().npc_map().contains_key(id)
    &&& after.ai_state == if aggressive { NpcAiState::Aggressive } else { NpcAiState::Wandering }
    &&& attacks ==> {
        &&& after.base.pos == npc.base.pos
        &&& new.log.messages@.len() == old.log.messages@.len() + 1
        &&& new.player.character.stats.base.hp_current <= old.player.character.stats.base.hp_current
    }
    &&& !attacks ==> {
        &&& new.player == old.player
        &&& after.base.pos == npc.base.pos || {
                &&& adjacent(npc.base.pos, after.base.pos)
                &&& old.cur().world.spec_in_bounds(after.base.pos.x as int, after.base.pos.y as int)
                &&& spec_is_walkable(old.cur().world.tile_at(after.base.pos.x as int, after.base.pos.y as int).tile_type)
            }
    }
}

impl GameState {
    /// Decides what the npc `npc_id` does this turn: nothing while inactive;
    /// a random step while wandering; while aggressive, an attack on a player
    /// next to it, else the first step of a path towards the player (a random
    /// step where there is none).
    pub fn npc_choose_action(&mut self, npc_id: EntityId) -> (r: Result<NpcActionKind, GameError>)
        requires
            old(self).npcs_can_act(),
        ensures
            final(self).same_but_rng(*old(self)),
            !old(self).cur().npc_map().contains_key(npc_id) ==> (r matches Err(e)
                && e == GameError::Engine(EngineError::NpcNotFound(npc_id))),
            old(self).cur().npc_map().contains_key(npc_id) ==> {
                let npc = old(self).cur().npc_map()[npc_id];
                &&& r is Ok
                &&& npc.ai_state == NpcAiState::Inactive ==> r == Ok::<NpcActionKind, GameError>(NpcActionKind::Wait)
                &&& npc.ai_state == NpcAiState::Wandering ==> (r matches Ok(a) && a is Move)
                &&& npc.ai_state == NpcAiState::Aggressive ==> if melee_area(npc.base.pos).contains(
                        old(self).player.character.base.pos) {
                        r == Ok::<NpcActionKind, GameError>(NpcActionKind::Attack)
                    } else {
                        r matches Ok(a) && a is Move
                    }
                &&& npc.ai_state == NpcAiState::Aggressive
                    && !melee_area(npc.base.pos).contains(old(self).player.character.base.pos)
                    && npc.base.pos != old(self).player.character.base.pos
                    && npc_short_route(old(self).cur(), npc.base.pos, old(self).player.character.base.pos)
                    ==> (r matches Ok(NpcActionKind::Move(d)) && starts_shortest_route(old(self).cur(), npc.base.pos,
                        old(self).player.character.base.pos, d))
            },
    {
        let (npc_pos, ai_state) = match self.current_level().get_npc(npc_id) {
            Some(npc) => (npc.base.pos, npc.ai_state),
            None => { return Err(GameError::Engine(EngineError::NpcNotFound(npc_id))); },
        };
        proof {
            let j = self.cur().npc_index@[npc_id] as int;
            assert(crate::world::level::npc_ids(self.cur().npcs@)[j] == npc_id);
            assert(self.cur().npcs@[j] == self.cur().npc_map()[npc_id]);
        }
        let player_pos = self.player.character.base.pos;
        let action = match ai_state {
            NpcAiState::Inactive => NpcActionKind::Wait,
            NpcAiState::Wandering => NpcActionKind::Move(Direction::random(&mut self.rng)),
            NpcAiState::Aggressive => {
                let up = npc_pos.add_direction(Direction::Up);
                let right = npc_pos.add_direction(Direction::Right);
                let down = npc_pos.add_direction(Direction::Down);
                let left = npc_pos.add_direction(Direction::Left);
                if up == player_pos || right == player_pos || down == player_pos || left == player_pos {
                    proof {
                        let m = melee_area(npc_pos);
                        if up == player_pos { assert(m[0] == player_pos); }
                        else if right == player_pos { assert(m[1] == player_pos); }
                        else if down == player_pos { assert(m[2] == player_pos); }
                        else { assert(m[3] == player_pos); }
                    }
                    NpcActionKind::Attack
                } else {
                    proof {
                        let m = melee_area(npc_pos);
                        assert(!m.contains(player_pos)) by {
                            assert(m[0] != player_pos && m[1] != player_pos && m[2] != player_pos && m[3] != player_pos);
                        }
                    }
                    match self.next_step_toward(npc_pos, player_pos) {
                        Some(next_step) => NpcActionKind::Move(next_step),
                        None => NpcActionKind::Move(Direction::random(&mut self.rng)),
                    }
                }
            },
        };
        Ok(action)
    }

    /// The npc `npc_id` takes its turn: its state is refreshed, it decides,
    /// and it acts (a failed step or attack is ignored).
    ///
    /// Errs, changing nothing, where the level has no such npc.
    pub fn npc_take_turn(&mut self, npc_id: EntityId) -> (r: GameResult)
        requires
            old(self).npcs_can_act(),
        ensures
            final(self).npcs_can_act(),
            !old(self).cur().npc_map().contains_key(npc_id) ==> (r matches Err(e)
                && e == GameError::Engine(EngineError::NpcNotFound(npc_id)) && *final(self) == *old(self)),
            old(self).cur().npc_map().contains_key(npc_id) ==> r == Ok::<GameOutcome, GameError>(GameOutcome::Success)
                && turn_taken(*old(self), *final(self), npc_id),
            final(self).player.character.base == old(self).player.character.base,
            final(self).player.character.stats.abilities == old(self).player.character.stats.abilities,
            final(self).player.character.stats.base.hp_current <= old(self).player.character.stats.base.hp_current,
            final(self).player.character.active_buffs@ == old(self).player.character.active_buffs@,
            final(self).player.character.inventory@ == old(self).player.character.inventory@,
            final(self).player.character.weapon == old(self).player.character.weapon,
            final(self).player.character.armor == old(self).player.character.armor,
            final(self).level_nr == old(self).level_nr,
            final(self).levels@.len() == old(self).levels@.len(),
            final(self).cur().npc_map().dom() == old(self).cur().npc_map().dom(),
            final(self).cur().sprite_map() == old(self).cur().sprite_map(),
            final(self).cur().world == old(self).cur().world,
            final(self).id_system == old(self).id_system,
            final(self).items == old(self).items,
            final(self).round_nr == old(self).round_nr,
    {
        match self.npc_refresh_ai_state(npc_id) {
            Err(e) => { return Err(e); },
            Ok(_) => {},
        }
        let ghost after_refresh = *self;
        let npc_action = match self.npc_choose_action(npc_id) {
            Ok(action) => action,
            Err(e) => { proof { assert(false); } return Err(e); },
        };
        proof {
            assert(self.npcs_can_act());
        }
        match npc_action {
            NpcActionKind::Wait => {},
            NpcActionKind::Move(direction) => {
                let delta = PointVector::from_direction(direction);
                proof {
                    let j = self.cur().npc_index@[npc_id] as int;
                    assert(crate::world::level::npc_ids(self.cur().npcs@)[j] == npc_id);
                    assert(self.cur().npcs@[j] == self.cur().npc_map()[npc_id]);
                }
                let ghost before_move = *self;
                let _ = self.move_npc(npc_id, delta.x, delta.y);
                proof {
                    lemma_npcs_can_act_frame(before_move, *self);
                }
            },
            NpcActionKind::Attack => {
                proof {
                    assert(self.levels@[self.level_nr as int].npc_map().contains_key(npc_id));
                }
                let ghost before_attack = *self;
                let _ = self.npc_attack_player(npc_id);
                proof {
                    lemma_npcs_can_act_frame(before_attack, *self);
                }
            },
        }
        Ok(GameOutcome::Success)
    }
}

impl GameState {
    /// Advances the game by one round (the game moves on with the player's
    /// actions, not with time): the player's buffs tick, every npc of the
    /// level takes its turn, the field of view is computed anew, and the
    /// round counter goes up.
    pub fn next_round(&mut self)
        requires
            old(self).npcs_can_act(),
            crate::gameplay::player::poison_upto(old(self).player.character.active_buffs@,
                old(self).player.character.active_buffs@.len()) <= u16::MAX,
            dodge_fits(old(self).player.character.stats.abilities.dexterity,
                crate::gameplay::player::buffs_after_tick(old(self).player.character.active_buffs@)),
            old(self).round_nr < u64::MAX,
        ensures
            final(self).npcs_can_act(),
            final(self).round_nr == old(self).round_nr + 1,
            exists|states: Seq<GameState>| #![trigger states.len()] {
                let ids = crate::world::level::npc_ids(old(self).cur().npcs@);
                &&& states.len() == ids.len() + 1
                &&& states[0].levels == old(self).levels
                &&& states[0].level_nr == old(self).level_nr
                &&& forall|u: int| 0 <= u < ids.len() ==> turn_taken(#[trigger] states[u], states[u + 1], ids[u])
                &&& crate::world::vision::fov_refreshed(states[ids.len() as int], *final(self))
            },
            final(self).player.character.active_buffs@
                == crate::gameplay::player::buffs_after_tick(old(self).player.character.active_buffs@),
            final(self).player.character.base == old(self).player.character.base,
            final(self).player.character.inventory@ == old(self).player.character.inventory@,
            final(self).player.character.weapon == old(self).player.character.weapon,
            final(self).player.character.armor == old(self).player.character.armor,
            final(self).player.character.stats.base.hp_current <= old(self).player.character.stats.base.hp_current,
            final(self).level_nr == old(self).level_nr,
            final(self).levels@.len() == old(self).levels@.len(),
            final(self).cur().npc_map().dom() == old(self).cur().npc_map().dom(),
            final(self).cur().sprite_map() == old(self).cur().sprite_map(),
            final(self).id_system == old(self).id_system,
            final(self).items == old(self).items,
            final(self).cur().world.width == old(self).cur().world.width,
            final(self).cur().world.tiles@.len() == old(self).cur().world.tiles@.len(),
            forall|k: int| 0 <= k < old(self).cur().world.tiles@.len() ==>
                (#[trigger] final(self).cur().world.tiles@[k]).tile_type == old(self).cur().world.tiles@[k].tile_type,
    {
        self.player.character.tick_buffs();
        let ghost after_tick = *self;
        proof {
            assert(self.npcs_can_act());
        }
        let mut npc_ids: Vec<EntityId> = Vec::new();
        let mut i: usize = 0;
        let n = self.current_level().npcs.len();
        while i < n
            invariant
                self.level_nr < self.levels@.len(),
                n == self.cur().npcs@.len(),
                i <= n,
                npc_ids@.len() == i,
                forall|k: int| 0 <= k < i ==> npc_ids@[k] == (#[trigger] self.cur().npcs@[k]).base.id,
            decreases n - i,
        {
            npc_ids.push(self.current_level().npcs[i].base.id);
            i = i + 1;
        }
        let ghost dom = self.cur().npc_map().dom();
        let ghost mut states: Seq<GameState> = seq![*self];
        proof {
            assert forall|k: int| 0 <= k < npc_ids@.len() implies dom.contains(#[trigger] npc_ids@[k]) by {
                assert(crate::world::level::npc_ids(self.cur().npcs@)[k] == npc_ids@[k]);
            }
        }
        let mut t: usize = 0;
        while t < npc_ids.len()
            invariant
                states.len() == t + 1,
                states[t as int] == *self,
                states[0].levels == old(self).levels,
                states[0].level_nr == old(self).level_nr,
                npc_ids@ == crate::world::level::npc_ids(old(self).cur().npcs@),
                forall|k: int| 0 <= k < npc_ids@.len() ==> dom.contains(#[trigger] npc_ids@[k]),
                forall|u: int| 0 <= u < t ==> turn_taken(#[trigger] states[u], states[u + 1], npc_ids@[u]),
                self.npcs_can_act(),
                t <= npc_ids@.len(),
                self.round_nr == old(self).round_nr,
                self.player.character.active_buffs@ == after_tick.player.character.active_buffs@,
                self.player.character.base == after_tick.player.character.base,
                self.player.character.inventory@ == after_tick.player.character.inventory@,
                self.player.character.weapon == old(self).player.character.weapon,
                self.player.character.armor == old(self).player.character.armor,
                self.player.character.stats.base.hp_current <= after_tick.player.character.stats.base.hp_current,
                self.level_nr == after_tick.level_nr,
                self.levels@.len() == after_tick.levels@.len(),
                self.cur().npc_map().dom() == dom,
                self.cur().sprite_map() == after_tick.cur().sprite_map(),
                self.id_system == after_tick.id_system,
                self.items == after_tick.items,
                self.cur().world == after_tick.cur().world,
            decreases npc_ids@.len() - t,
        {
            let _ = self.npc_take_turn(npc_ids[t]);
            proof {
                let old_states = states;
                states = states.push(*self);
                assert(dom.contains(npc_ids@[t as int]));
                assert forall|u: int| 0 <= u < t + 1 implies turn_taken(#[trigger] states[u], states[u + 1], npc_ids@[u]) by {
                    if u < t {
                        assert(states[u] == old_states[u] && states[u + 1] == old_states[u + 1]);
                    }
                }
            }
            t = t + 1;
        }
        let ghost before_fov = *self;
        self.compute_fov();
        proof {
            assert(self.cur().npc_map() =~= before_fov.cur().npc_map());
            assert(self.cur().sprite_map() =~= before_fov.cur().sprite_map());
        }
        self.round_nr = self.round_nr + 1;
    }
}

} // verus!
