//! The game state: the levels, the player, the log, the item register, and
//! the sources of randomness.

use std::collections::HashMap;

use rand::rngs::StdRng;
use vstd::prelude::*;

use crate::gameplay::cursor::CursorState;
use crate::gameplay::entity_logic::EntityId;
use crate::gameplay::game_items::{GameItem, GameItemId};
use crate::gameplay::player::Player;
use crate::util::errors_results::{GameError, IoError};
use crate::util::random::{fresh_seed, rng_from_seed, rng_next_u64};
use crate::util::rng::{Check, Roll};
use crate::util::strings::{decimal, join};
use crate::util::text_log::Log;
use crate::world::level::{Level, LevelEntrance};
use crate::world::world_data::WorldData;
use crate::world::worldspace::World;

verus! {

broadcast use vstd::std_specs::hash::group_hash_axioms;

/// Where the worlds of new levels come from: the handcrafted levels are
/// read from files, the others are generated from a seed. The front end
/// provides both; nothing is assumed of what they return.
pub trait LevelSource {
    /// The world data of handcrafted level `level_nr`, or the error of
    /// reading or parsing its file.
    fn load_static(&self, level_nr: usize) -> Result<WorldData, IoError>;

    /// The world data of a level generated from `seed`.
    fn generate(&self, seed: u64) -> WorldData;
}

/// The largest damage an npc definition has.
pub const MAX_NPC_DAMAGE: u16 = 7;

/// The counters that hand out identifiers for entities and items.
#[derive(Default, Debug)]
pub struct IdSystem {
    entity_id_counter: EntityId,
    item_id_counter: GameItemId,
}

impl IdSystem {
    /// The identifier the next entity gets.
    pub closed spec fn next_entity(&self) -> EntityId {
        self.entity_id_counter
    }

    /// The identifier the next item gets.
    pub closed spec fn next_item(&self) -> GameItemId {
        self.item_id_counter
    }

    /// Counters that start at zero.
    pub fn new() -> (ids: Self)
        ensures
            ids.next_entity() == 0,
            ids.next_item() == 0,
    {
        Self { entity_id_counter: 0, item_id_counter: 0 }
    }

    /// Whether another entity identifier can be handed out.
    pub fn next_entity_id_available(&self) -> (b: bool)
        ensures
            b == (self.next_entity() < EntityId::MAX),
    {
        self.entity_id_counter < EntityId::MAX
    }

    /// Whether `n` more item identifiers can be handed out.
    pub fn items_available(&self, n: u32) -> (b: bool)
        ensures
            b == (self.next_item() + n <= GameItemId::MAX),
    {
        self.item_id_counter as u64 + n as u64 <= GameItemId::MAX as u64
    }

    /// Whether another item identifier can be handed out.
    pub fn next_item_id_available(&self) -> (b: bool)
        ensures
            b == (self.next_item() < GameItemId::MAX),
    {
        self.item_id_counter < GameItemId::MAX
    }

    /// Hands out a new entity identifier: each is larger than every one
    /// handed out before.
    pub fn next_entity_id(&mut self) -> (id: EntityId)
        requires
            old(self).next_entity() < EntityId::MAX,
        ensures
            id == old(self).next_entity(),
            final(self).next_entity() == id + 1,
            final(self).next_item() == old(self).next_item(),
    {
        let id = self.entity_id_counter;
        self.entity_id_counter = self.entity_id_counter + 1;
        id
    }

    /// Hands out a new item identifier: each is larger than every one
    /// handed out before.
    pub fn next_item_id(&mut self) -> (id: GameItemId)
        requires
            old(self).next_item() < GameItemId::MAX,
        ensures
            id == old(self).next_item(),
            final(self).next_item() == id + 1,
            final(self).next_entity() == old(self).next_entity(),
    {
        let id = self.item_id_counter;
        self.item_id_counter = self.item_id_counter + 1;
        id
    }
}

/// Toggles that change how the game handles some events.
#[derive(Clone, Copy, Debug, PartialEq, Eq, Structural)]
pub struct GameRules {
    bits: u8,
}

/// The flag that lets the player walk through walls.
pub const NO_CLIP_BITS: u8 = 0b0000_0001;

/// The flag that makes the player immortal.
pub const GOD_MODE_BITS: u8 = 0b0000_0010;

impl GameRules {
    /// The set flags, as bits.
    pub closed spec fn spec_bits(&self) -> u8 {
        self.bits
    }

    /// No rule set.
    pub fn empty() -> (r: Self)
        ensures
            r.spec_bits() == 0,
    {
        Self { bits: 0 }
    }

    /// Walking through walls.
    pub fn no_clip() -> (r: Self)
        ensures
            r.spec_bits() == NO_CLIP_BITS,
    {
        Self { bits: NO_CLIP_BITS }
    }

    /// Immortality.
    pub fn god_mode() -> (r: Self)
        ensures
            r.spec_bits() == GOD_MODE_BITS,
    {
        Self { bits: GOD_MODE_BITS }
    }

    /// Whether every flag of `other` is set.
    pub fn contains(&self, other: GameRules) -> (b: bool)
        ensures
            b == (self.spec_bits() & other.spec_bits() == other.spec_bits()),
    {
        self.bits & other.bits == other.bits
    }

    /// Flips the flags of `other`.
    pub fn toggle(&mut self, other: GameRules)
        ensures
            final(self).spec_bits() == old(self).spec_bits() ^ other.spec_bits(),
    {
        self.bits = self.bits ^ other.bits;
    }
}

/// Toggling the same flags twice leaves the rules as they were.
pub proof fn law_toggle_twice(rules: u8, flags: u8)
    ensures
        (rules ^ flags) ^ flags == rules,
{
    assert((rules ^ flags) ^ flags == rules) by (bit_vector);
}

/// Toggling a single flag flips whether it is set, and no other flag.
pub proof fn law_toggle_flips_flag(rules: u8, flag: u8, other: u8)
    requires
        flag == NO_CLIP_BITS || flag == GOD_MODE_BITS,
        other == NO_CLIP_BITS || other == GOD_MODE_BITS,
    ensures
        ((rules ^ flag) & flag == flag) == !(rules & flag == flag),
        other != flag ==> (((rules ^ flag) & other == other) == (rules & other == other)),
{
    assert(((rules ^ 1u8) & 1u8 == 1u8) == !(rules & 1u8 == 1u8)) by (bit_vector);
    assert(((rules ^ 2u8) & 2u8 == 2u8) == !(rules & 2u8 == 2u8)) by (bit_vector);
    assert(((rules ^ 1u8) & 2u8 == 2u8) == (rules & 2u8 == 2u8)) by (bit_vector);
    assert(((rules ^ 2u8) & 1u8 == 1u8) == (rules & 1u8 == 1u8)) by (bit_vector);
}

/// The whole state of a running game.
pub struct GameState {
    /// Every level visited so far.
    pub levels: Vec<Level>,
    /// The level the player is on.
    pub level_nr: usize,
    /// The player and the player character.
    pub player: Player,
    /// The cursor, when the player controls one instead of the character.
    pub cursor: Option<CursorState>,
    /// The game's log.
    pub log: Log,
    /// The number of rounds played.
    pub round_nr: u64,
    /// Hands out identifiers for entities and items.
    pub id_system: IdSystem,
    /// Every item currently in play.
    pub items: HashMap<GameItemId, GameItem>,
    /// The generator all of the game's chance comes from.
    pub rng: StdRng,
    /// The generator the level seeds come from.
    pub proc_gen: StdRng,
    /// Toggles that change how the game handles some events.
    pub game_rules: GameRules,
}

impl GameState {
    /// The level the player is on exists, and the levels are consistent.
    pub open spec fn wf(&self) -> bool {
        &&& self.level_nr < self.levels@.len()
        &&& self.levels_wf()
    }

    /// Every level is consistent, and every entity and item identifier in
    /// use was handed out already.
    pub open spec fn levels_wf(&self) -> bool {
        &&& forall|i: int| 0 <= i < self.levels@.len() ==> (#[trigger] self.levels@[i]).wf()
        &&& forall|i: int, id: EntityId| 0 <= i < self.levels@.len()
                && #[trigger] self.levels@[i].npc_index@.contains_key(id) ==> id < self.id_system.next_entity()
        &&& forall|i: int, id: EntityId| 0 <= i < self.levels@.len()
                && #[trigger] self.levels@[i].item_sprites_index@.contains_key(id) ==> id < self.id_system.next_entity()
        &&& forall|id: GameItemId| #[trigger] self.items@.contains_key(id) ==> id < self.id_system.next_item()
        &&& forall|i: int, id: EntityId| 0 <= i < self.levels@.len() && #[trigger] self.levels@[i].npc_map().contains_key(id)
                ==> self.levels@[i].npc_map()[id].stats.damage <= MAX_NPC_DAMAGE
    }

    /// The level the player is on.
    pub open spec fn cur(&self) -> Level {
        self.levels@[self.level_nr as int]
    }

    /// A game state for tests: no levels, a default player, and generators
    /// seeded with fixed numbers.
    pub fn for_tests() -> (g: Self)
        ensures
            g.levels@.len() == 0,
            g.level_nr == 0,
            g.cursor is None,
            g.round_nr == 0,
            g.id_system.next_entity() == 0,
            g.id_system.next_item() == 0,
            g.items@ == Map::<GameItemId, GameItem>::empty(),
            g.game_rules.spec_bits() == 0,
            g.log.messages@.len() == 0,
    {
        Self {
            levels: Vec::new(),
            level_nr: 0,
            player: Player::new(999999),
            cursor: None,
            log: Log::new(false),
            round_nr: 0,
            id_system: IdSystem::new(),
            items: HashMap::new(),
            rng: rng_from_seed(73),
            proc_gen: rng_from_seed(42),
            game_rules: GameRules::empty(),
        }
    }

    /// The level the player is on.
    pub fn current_level(&self) -> (l: &Level)
        requires
            self.level_nr < self.levels@.len(),
        ensures
            *l == self.cur(),
    {
        &self.levels[self.level_nr]
    }

    /// The level the player is on, to change.
    pub fn current_level_mut(&mut self) -> (l: &mut Level)
        requires
            old(self).level_nr < old(self).levels@.len(),
        ensures
            *l == old(self).cur(),
            final(self).levels@ == old(self).levels@.update(old(self).level_nr as int, *final(l)),
            final(self).level_nr == old(self).level_nr,
            final(self).player == old(self).player,
            final(self).cursor == old(self).cursor,
            final(self).log == old(self).log,
            final(self).round_nr == old(self).round_nr,
            final(self).id_system == old(self).id_system,
            final(self).items == old(self).items,
            final(self).rng == old(self).rng,
            final(self).proc_gen == old(self).proc_gen,
            final(self).game_rules == old(self).game_rules,
    {
        let nr = self.level_nr;
        &mut self.levels[nr]
    }

    /// The world of the level the player is on.
    pub fn current_world(&self) -> (w: &World)
        requires
            self.level_nr < self.levels@.len(),
        ensures
            *w == self.cur().world,
    {
        &self.current_level().world
    }

    /// Rolls the dice with the game's generator.
    pub fn roll(&mut self, roll: &Roll) -> (result: i16)
        requires
            roll.fits(),
        ensures
            roll.spec_least() <= result <= roll.spec_most(),
            final(self).same_but_rng(*old(self)),
    {
        roll.roll(&mut self.rng)
    }

    /// Resolves a check with the game's generator.
    pub fn check(&mut self, check: &Check) -> (success: bool)
        requires
            check.spec_roll().fits(),
        ensures
            success ==> check.spec_roll().spec_most() >= check.spec_difficulty(),
            !success ==> check.spec_roll().spec_least() < check.spec_difficulty(),
            final(self).same_but_rng(*old(self)),
    {
        check.resolve(&mut self.rng)
    }

    /// Everything but the game's generator is as in `other`.
    pub open spec fn same_but_rng(&self, other: GameState) -> bool {
        &&& self.levels == other.levels
        &&& self.level_nr == other.level_nr
        &&& self.player == other.player
        &&& self.cursor == other.cursor
        &&& self.log == other.log
        &&& self.round_nr == other.round_nr
        &&& self.id_system == other.id_system
        &&& self.items == other.items
        &&& self.proc_gen == other.proc_gen
        &&& self.game_rules == other.game_rules
    }
}

impl GameState {
    /// A new game, its generators seeded by the operating system: see
    /// [GameState::with_seed].
    pub fn new<S: LevelSource>(source: &S) -> (r: Result<GameState, GameError>)
        ensures
            r matches Ok(g) ==> g.fresh(),
    {
        GameState::with_seed(fresh_seed(), source)
    }

    /// Whether this is a game as it starts: on its first level, the only
    /// one made, in round 0, with a fresh player character (entity 0)
    /// standing at the level's entry, no cursor and no game rule set.
    pub open spec fn fresh(&self) -> bool {
        let c = self.player.character;
        &&& self.wf()
        &&& self.level_nr == 0
        &&& self.levels@.len() == 1
        &&& self.round_nr == 0
        &&& self.cursor is None
        &&& self.game_rules.spec_bits() == 0
        &&& self.player.name@ == "Hero"@
        &&& c.base.id == 0
        &&& c.base.pos == self.cur().entry
        &&& c.base.pos.x < crate::world::worldspace::WORLD_WIDTH
        &&& c.base.pos.y < crate::world::worldspace::WORLD_HEIGHT
        &&& c.stats == crate::gameplay::player::spec_stats_from(crate::gameplay::player::AbilityScores {
                strength: 1, dexterity: 1, vitality: 1, perception: 1 })
        &&& c.inventory@.len() == 0
        &&& c.armor is None
        &&& c.weapon is None
        &&& c.active_buffs@.len() == 0
        &&& c.potion_usage@.len() == 0
    }

    /// A new game whose generator is seeded with `seed`; the level
    /// generator is seeded with the generator's first number. Both seeds
    /// are logged for debugging, the lore is told, and the player character
    /// enters the first level.
    ///
    /// Errs where the first level cannot be made or entered.
    pub fn with_seed<S: LevelSource>(seed: u64, source: &S) -> (r: Result<GameState, GameError>)
        ensures
            r matches Ok(g) ==> g.fresh(),
    {
        let mut rng = rng_from_seed(seed);
        let proc_gen_seed = rng_next_u64(&mut rng);
        let proc_gen = rng_from_seed(proc_gen_seed);
        let mut state = GameState {
            levels: Vec::new(),
            level_nr: 0,
            player: Player::new(0),
            cursor: None,
            log: Log::new(false),
            round_nr: 0,
            id_system: IdSystem::new(),
            items: HashMap::new(),
            rng,
            proc_gen,
            game_rules: GameRules::empty(),
        };
        state.log.debug_info(join("Current RNG Seed: ", decimal(seed).as_str()));
        state.log.debug_info(join("Current Level-Gen Seed: ", decimal(proc_gen_seed).as_str()));
        state.log.print_lore();
        let player_id = state.id_system.next_entity_id();
        state.player = Player::new(player_id);
        match state.goto_level(0, LevelEntrance::Entry, source) {
            Ok(()) => {},
            Err(e) => { return Err(e); },
        }
        Ok(state)
    }
}

} // verus!
