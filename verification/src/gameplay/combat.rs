//! Attacks between the player and the npcs.

use vstd::prelude::*;

use crate::data::item_defs::{lemma_weapon_ranges, lemma_weapon_rolls, spec_item_def};
use crate::gameplay::entity_logic::{hp_after_damage, BaseStats, EntityId, Npc, NpcStats};
use crate::util::errors_results::FailReason;
use crate::gameplay::game::{GameRules, GameState, GOD_MODE_BITS};
use crate::gameplay::game_items::{AttackRange, GameItemKindDef};
use crate::gameplay::player::{can_gain_experience, dodge_fits, melee_bonus_fits, melee_bonus_upto, ranged_bonus_upto,
    spec_gain_experience, dodge_upto, XP_PER_LEVEL};
use crate::world::coordinate_system::spec_distance_squared;
use crate::util::errors_results::{DataError, EngineError, GameError, GameOutcome, GameResult};
use crate::util::rng::{spec_upper_bound, DieSize, Roll};
use crate::util::strings::{decimal, join, signed_decimal, spec_decimal, spec_signed_decimal};
use crate::util::text_log::LogData;

verus! {

/// The deepest level number at which an npc's attack (its damage plus the
/// level number) still fits.
pub const MAX_NPC_LEVEL: usize = 32760;

/// The experience the player gains for killing an npc.
pub const KILL_EXPERIENCE: u32 = 25;

/// The chance (in percent) of an npc's attack to hit critically.
pub const NPC_CRIT_CHANCE: u8 = 5;

/// How an attack went.
#[derive(Clone, Copy, Debug, PartialEq, Eq, Structural)]
pub enum AttackDegree {
    /// The attack missed; nothing happens.
    Miss,
    /// The attack hits and deals the damage.
    Hit(u16),
    /// The attack hits critically and deals the damage (twice the attack's).
    CriticalHit(u16),
}

/// `a - b`, but at least 0.
pub open spec fn sat_sub(a: int, b: int) -> u16 {
    if a >= b { (a - b) as u16 } else { 0 }
}

/// How an attack goes when the defender's d100 shows `dodge_die` and the
/// attacker's d100 shows `crit_die`: the defender dodges when the die is at
/// most its dodge chance; otherwise the attack is critical when the die is
/// at most the crit chance, and deals twice the damage. Mitigation is taken
/// off the damage.
pub open spec fn spec_attack_outcome(dodge_die: u8, crit_die: u8, damage: u16, crit_chance: u8, dodge_chance: u8,
    mitigation: u16) -> AttackDegree
{
    if dodge_die <= dodge_chance {
        AttackDegree::Miss
    } else if crit_die <= crit_chance {
        AttackDegree::CriticalHit(sat_sub(2 * damage, mitigation as int))
    } else {
        AttackDegree::Hit(sat_sub(damage as int, mitigation as int))
    }
}

/// How an attack goes for the given dice; see [spec_attack_outcome].
pub fn attack_outcome(dodge_die: u8, crit_die: u8, damage: u16, crit_chance: u8, dodge_chance: u8,
    mitigation: u16) -> (d: AttackDegree)
    requires
        2 * damage <= u16::MAX,
    ensures
        d == spec_attack_outcome(dodge_die, crit_die, damage, crit_chance, dodge_chance, mitigation),
{
    if dodge_die <= dodge_chance {
        AttackDegree::Miss
    } else if crit_die <= crit_chance {
        let damage_unmitigated = 2 * damage;
        AttackDegree::CriticalHit(damage_unmitigated.saturating_sub(mitigation))
    } else {
        AttackDegree::Hit(damage.saturating_sub(mitigation))
    }
}

/// The damage an attack of the given degree deals.
pub open spec fn degree_damage(d: AttackDegree) -> u16 {
    match d {
        AttackDegree::Miss => 0,
        AttackDegree::Hit(x) => x,
        AttackDegree::CriticalHit(x) => x,
    }
}

/// `base` plus `bonus`, kept within `u16`.
pub open spec fn add_signed_clamped(base: u16, bonus: i16) -> u16 {
    if base + bonus < 0 { 0 } else if base + bonus > u16::MAX { u16::MAX } else { (base + bonus) as u16 }
}

fn add_signed_saturating(base: u16, bonus: i16) -> (r: u16)
    ensures
        r == add_signed_clamped(base, bonus),
{
    let sum = base as i32 + bonus as i32;
    if sum < 0 { 0 } else if sum > u16::MAX as i32 { u16::MAX } else { sum as u16 }
}

impl GameState {
    /// The damage roll, crit chance and range of the player's weapon (bare
    /// hands: 1d4, 5%, melee), or why they cannot be had.
    pub open spec fn spec_weapon_stats(&self) -> Result<(Roll, u8, AttackRange), GameError> {
        match self.player.character.weapon {
            None => Ok((Roll::spec_make(1, DieSize::D4, 0), 5u8, None::<usize>)),
            Some(w) => if !self.items@.contains_key(w.0) {
                Err(GameError::Engine(EngineError::UnregisteredItem(w.0)))
            } else {
                match spec_item_def(self.items@[w.0].def_id@) {
                    None => Err(GameError::Data(DataError::MissingItemDefinition(self.items@[w.0].def_id))),
                    Some(def) => match def.kind {
                        GameItemKindDef::Weapon { damage, crit_chance, range } => Ok((damage, crit_chance, range)),
                        kind => Err(GameError::Engine(EngineError::InvalidItem(kind))),
                    },
                }
            },
        }
    }

    /// The mitigation of the player's armor (none: 0), or why it cannot be had.
    pub open spec fn spec_armor_mitigation(&self) -> Result<u16, GameError> {
        match self.player.character.armor {
            None => Ok(0u16),
            Some(a) => if !self.items@.contains_key(a.0) {
                Err(GameError::Engine(EngineError::UnregisteredItem(a.0)))
            } else {
                match spec_item_def(self.items@[a.0].def_id@) {
                    None => Err(GameError::Data(DataError::MissingItemDefinition(self.items@[a.0].def_id))),
                    Some(def) => match def.kind {
                        GameItemKindDef::Armor { mitigation } => Ok(mitigation),
                        kind => Err(GameError::Engine(EngineError::InvalidItem(kind))),
                    },
                }
            },
        }
    }

    /// The mitigation the player's armor gives an attack on the player: that
    /// of the armor worn, none where no armor can be had.
    pub open spec fn defending_mitigation(&self) -> u16 {
        match self.spec_armor_mitigation() {
            Ok(m) => m,
            Err(_) => 0u16,
        }
    }

    /// The statistics of the player's weapon.
    pub fn get_player_weapon_stats(&self) -> (r: Result<(Roll, u8, AttackRange), GameError>)
        ensures
            r == self.spec_weapon_stats(),
    {
        match self.player.character.weapon {
            None => Ok((Roll::new(1, DieSize::D4), 5, None)),
            Some(weapon) => {
                let item = match self.get_item_by_id(weapon.0) {
                    Some(item) => item,
                    None => { return Err(GameError::Engine(EngineError::UnregisteredItem(weapon.0))); },
                };
                let item_def = match self.get_item_def_by_id(&item.def_id) {
                    Some(def) => def,
                    None => { return Err(GameError::Data(DataError::MissingItemDefinition(item.def_id))); },
                };
                match item_def.kind {
                    GameItemKindDef::Weapon { damage, crit_chance, range } => Ok((damage, crit_chance, range)),
                    kind => Err(GameError::Engine(EngineError::InvalidItem(kind))),
                }
            },
        }
    }

    /// The mitigation of the player's armor.
    pub fn get_player_armor_mitigation(&self) -> (r: Result<u16, GameError>)
        ensures
            r == self.spec_armor_mitigation(),
    {
        match self.player.character.armor {
            None => Ok(0),
            Some(armor) => {
                let item = match self.get_item_by_id(armor.0) {
                    Some(item) => item,
                    None => { return Err(GameError::Engine(EngineError::UnregisteredItem(armor.0))); },
                };
                let item_def = match self.get_item_def_by_id(&item.def_id) {
                    Some(def) => def,
                    None => { return Err(GameError::Data(DataError::MissingItemDefinition(item.def_id))); },
                };
                match item_def.kind {
                    GameItemKindDef::Armor { mitigation } => Ok(mitigation),
                    kind => Err(GameError::Engine(EngineError::InvalidItem(kind))),
                }
            },
        }
    }

    /// Rolls the dice of an attack: the defender's d100 against its dodge
    /// chance and, if it does not dodge, the attacker's d100 against its crit
    /// chance. The result is [spec_attack_outcome] for dice that chance picks.
    pub fn resolve_attack(&mut self, attacker_damage: u16, attacker_crit_chance: u8, defender_dodge_chance: u8,
        defender_mitigation: u16) -> (d: AttackDegree)
        requires
            2 * attacker_damage <= u16::MAX,
        ensures
            exists|dodge_die: u8, crit_die: u8| 1 <= dodge_die <= 100 && 1 <= crit_die <= 100
                && d == spec_attack_outcome(dodge_die, crit_die, attacker_damage, attacker_crit_chance,
                    defender_dodge_chance, defender_mitigation),
            final(self).same_but_rng(*old(self)),
    {
        let d100 = Roll::new(1, DieSize::D100);
        let dodge_die = self.roll(&d100) as u8;
        if dodge_die <= defender_dodge_chance {
            let d = attack_outcome(dodge_die, 1, attacker_damage, attacker_crit_chance, defender_dodge_chance,
                defender_mitigation);
            assert(1 <= dodge_die <= 100 && d == spec_attack_outcome(dodge_die, 1u8, attacker_damage,
                attacker_crit_chance, defender_dodge_chance, defender_mitigation));
            return d;
        }
        let crit_die = self.roll(&d100) as u8;
        let d = attack_outcome(dodge_die, crit_die, attacker_damage, attacker_crit_chance, defender_dodge_chance,
            defender_mitigation);
        assert(1 <= dodge_die <= 100 && 1 <= crit_die <= 100);
        d
    }

    /// The log line for the player's attack on an npc.
    pub open spec fn player_attack_line(npc_name: String, d: AttackDegree) -> LogData {
        match d {
            AttackDegree::Miss => LogData::PlayerAttackMiss { npc_name },
            AttackDegree::Hit(damage) => LogData::PlayerAttackHit { npc_name, damage },
            AttackDegree::CriticalHit(damage) => LogData::PlayerAttackHitCritical { npc_name, damage },
        }
    }

    /// Carries out the player's attack of degree `d` on the npc `npc_id` of
    /// the current level: the npc takes the damage; if that kills it, it is
    /// removed from the level and the player gains 25 experience. Each step
    /// is logged.
    pub fn apply_player_attack(&mut self, npc_id: EntityId, d: AttackDegree) -> (r: GameResult)
        requires
            old(self).wf(),
            old(self).cur().npc_map().contains_key(npc_id),
            can_gain_experience(old(self).player.character.stats, KILL_EXPERIENCE),
        ensures
            final(self).wf(),
            r == Ok::<GameOutcome, GameError>(GameOutcome::Success),
            ({
                let npc = old(self).cur().npc_map()[npc_id];
                let hp = hp_after_damage(npc.stats.base.hp_current, degree_damage(d));
                let hit = Npc { stats: NpcStats { base: BaseStats { hp_current: hp, ..npc.stats.base }, ..npc.stats }, ..npc };
                let (stats, levelled) = spec_gain_experience(old(self).player.character.stats, KILL_EXPERIENCE);
                let line = GameState::player_attack_line(npc.base.name, d);
                &&& hp > 0 ==> {
                    &&& final(self).cur().npc_map() == old(self).cur().npc_map().insert(npc_id, hit)
                    &&& final(self).player == old(self).player
                    &&& final(self).log.messages@ == old(self).log.messages@.push(line)
                }
                &&& hp == 0 ==> {
                    &&& final(self).cur().npc_map() == old(self).cur().npc_map().remove(npc_id)
                    &&& final(self).player.character.stats == stats
                    &&& final(self).player.character.same_but_stats(old(self).player.character)
                    &&& final(self).log.messages@ == old(self).log.messages@.push(line)
                            .push(LogData::NpcDied { npc_name: npc.base.name })
                            + if levelled { seq![LogData::LevelUp { new_level: stats.level }] } else { seq![] }
                }
            }),
            final(self).cur().world == old(self).cur().world,
            final(self).cur().sprite_map() == old(self).cur().sprite_map(),
            final(self).levels@.len() == old(self).levels@.len(),
            forall|i: int| 0 <= i < old(self).levels@.len() && i != old(self).level_nr
                ==> final(self).levels@[i] == old(self).levels@[i],
            final(self).level_nr == old(self).level_nr,
            final(self).cursor == old(self).cursor,
            final(self).round_nr == old(self).round_nr,
            final(self).id_system == old(self).id_system,
            final(self).items == old(self).items,
            final(self).rng == old(self).rng,
            final(self).proc_gen == old(self).proc_gen,
            final(self).game_rules == old(self).game_rules,
            final(self).log.print_debug_info == old(self).log.print_debug_info,
    {
        let ghost before = *self;
        let npc_name = match self.current_level().get_npc(npc_id) {
            Some(npc) => npc.base.name.clone(),
            None => { proof { assert(false); } String::new() },
        };
        let line = match d {
            AttackDegree::Miss => LogData::PlayerAttackMiss { npc_name },
            AttackDegree::Hit(damage) => LogData::PlayerAttackHit { npc_name, damage },
            AttackDegree::CriticalHit(damage) => LogData::PlayerAttackHitCritical { npc_name, damage },
        };
        let damage: u16 = match d {
            AttackDegree::Miss => 0,
            AttackDegree::Hit(x) => x,
            AttackDegree::CriticalHit(x) => x,
        };
        match d {
            AttackDegree::Miss => {},
            _ => { self.current_level_mut().npc_take_damage(npc_id, damage); },
        }
        proof {
            if d is Miss {
                assert(hp_after_damage(before.cur().npc_map()[npc_id].stats.base.hp_current, 0)
                    == before.cur().npc_map()[npc_id].stats.base.hp_current);
                assert(self.cur().npc_map() =~= before.cur().npc_map().insert(npc_id, before.cur().npc_map()[npc_id]));
            }
            lemma_levels_frame(before, *self);
        }
        self.log.info(line);

        let (alive, dead_name) = match self.current_level().get_npc(npc_id) {
            Some(npc) => (npc.stats.base.is_alive(), npc.base.name.clone()),
            None => { proof { assert(false); } (true, String::new()) },
        };
        if !alive {
            let ghost mid = *self;
            self.log.info(LogData::NpcDied { npc_name: dead_name });
            self.current_level_mut().despawn(npc_id);
            proof {
                lemma_levels_frame(mid, *self);
            }
            self.player_add_experience(KILL_EXPERIENCE);
        }
        Ok(GameOutcome::Success)
    }

    /// The player gains experience; a level-up is logged.
    pub fn player_add_experience(&mut self, amount: u32)
        requires
            can_gain_experience(old(self).player.character.stats, amount),
        ensures
            ({
                let (stats, levelled) = spec_gain_experience(old(self).player.character.stats, amount);
                &&& final(self).player.character.stats == stats
                &&& final(self).log.messages@ == old(self).log.messages@
                        + if levelled { seq![LogData::LevelUp { new_level: stats.level }] } else { seq![] }
            }),
            old(self).player.character.stats.experience + amount >= old(self).player.character.stats.level * XP_PER_LEVEL
                ==> final(self).player.character.stats.level == old(self).player.character.stats.level + 1
                && final(self).player.character.stats.base.hp_max == old(self).player.character.stats.base.hp_max + 10
                && final(self).player.character.stats.base.hp_current == final(self).player.character.stats.base.hp_max,
            final(self).player.character.same_but_stats(old(self).player.character),
            final(self).player.name == old(self).player.name,
            final(self).levels == old(self).levels,
            final(self).level_nr == old(self).level_nr,
            final(self).cursor == old(self).cursor,
            final(self).round_nr == old(self).round_nr,
            final(self).id_system == old(self).id_system,
            final(self).items == old(self).items,
            final(self).rng == old(self).rng,
            final(self).proc_gen == old(self).proc_gen,
            final(self).game_rules == old(self).game_rules,
            final(self).log.print_debug_info == old(self).log.print_debug_info,
    {
        let did_level_up = self.player.character.gain_experience(amount);
        if did_level_up {
            self.log.info(LogData::LevelUp { new_level: self.player.character.stats.level });
        }
        proof {
            assert(self.log.messages@ =~= old(self).log.messages@
                + if did_level_up { seq![LogData::LevelUp { new_level: self.player.character.stats.level }] } else { seq![] });
        }
    }

    /// Whether the player lives on: always in god mode, otherwise while the
    /// character has hit points left.
    pub fn player_is_alive(&self) -> (b: bool)
        ensures
            b == ((self.game_rules.spec_bits() & GOD_MODE_BITS == GOD_MODE_BITS)
                || self.player.character.stats.base.hp_current > 0),
    {
        if self.game_rules.contains(GameRules::god_mode()) {
            return true;
        }
        self.player.character.is_alive()
    }
}

/// The largest coordinate of the player's position that attacks at range
/// accept.
pub const MAX_ATTACK_COORD: usize = 10_000;

/// The ranged bonus never exceeds perception.
proof fn lemma_ranged_bonus_bound(perception: u8, buffs: Seq<crate::gameplay::buff_effects::ActiveBuff>, k: nat)
    ensures
        i16::MIN <= ranged_bonus_upto(perception, buffs, k) <= perception,
    decreases k,
{
    if k > 0 {
        lemma_ranged_bonus_bound(perception, buffs, (k - 1) as nat);
    }
}

/// The melee bonus never falls below `i16::MIN`.
proof fn lemma_melee_bonus_floor(strength: u8, buffs: Seq<crate::gameplay::buff_effects::ActiveBuff>, k: nat)
    ensures
        i16::MIN <= melee_bonus_upto(strength, buffs, k),
    decreases k,
{
    if k > 0 {
        lemma_melee_bonus_floor(strength, buffs, (k - 1) as nat);
    }
}

impl GameState {
    /// Whether the player's attack stays within the numbers' types: the
    /// melee bonus adds up within `i16` and leaves room for the weapon's
    /// roll (at most 13) and for doubling on a critical hit, and a kill's
    /// experience fits.
    pub open spec fn player_attack_fits(&self) -> bool {
        let c = self.player.character;
        &&& melee_bonus_fits(c.stats.abilities.strength, c.active_buffs@)
        &&& melee_bonus_upto(c.stats.abilities.strength, c.active_buffs@, c.active_buffs@.len()) <= 32743
        &&& can_gain_experience(c.stats, KILL_EXPERIENCE)
    }

    /// The player attacks the npc `npc_id` of the current level with the
    /// equipped weapon (or bare hands): the weapon's roll plus the melee
    /// bonus (the ranged bonus for a ranged weapon) is the damage, and the
    /// attack goes as [GameState::resolve_attack] and
    /// [GameState::apply_player_attack] say.
    ///
    /// Errs where the npc does not exist, or the weapon's statistics cannot
    /// be had.
    pub fn player_attack_npc(&mut self, npc_id: EntityId) -> (r: GameResult)
        requires
            old(self).wf(),
            old(self).player_attack_fits(),
        ensures
            final(self).wf(),
            !old(self).cur().npc_map().contains_key(npc_id) ==> (r matches Err(e)
                && e == GameError::Engine(EngineError::NpcNotFound(npc_id)) && *final(self) == *old(self)),
            old(self).cur().npc_map().contains_key(npc_id) && old(self).spec_weapon_stats() is Err ==>
                (r matches Err(e) && old(self).spec_weapon_stats() == Err::<(Roll, u8, AttackRange), GameError>(e)
                && *final(self) == *old(self)),
            old(self).cur().npc_map().contains_key(npc_id) && old(self).spec_weapon_stats() is Ok ==> {
                &&& r == Ok::<GameOutcome, GameError>(GameOutcome::Success)
                &&& final(self).cur().npc_map().contains_key(npc_id) ==>
                    final(self).cur().npc_map()[npc_id].stats.base.hp_current
                        <= old(self).cur().npc_map()[npc_id].stats.base.hp_current
                        && final(self).player == old(self).player
                &&& forall|k: EntityId| k != npc_id ==> (#[trigger] final(self).cur().npc_map().contains_key(k)
                        == old(self).cur().npc_map().contains_key(k))
                &&& forall|k: EntityId| k != npc_id && old(self).cur().npc_map().contains_key(k)
                        ==> #[trigger] final(self).cur().npc_map()[k] == old(self).cur().npc_map()[k]
            },
            final(self).cur().world == old(self).cur().world,
            final(self).cur().sprite_map() == old(self).cur().sprite_map(),
            final(self).level_nr == old(self).level_nr,
            final(self).levels@.len() == old(self).levels@.len(),
            final(self).id_system == old(self).id_system,
            final(self).items == old(self).items,
            final(self).round_nr == old(self).round_nr,
            final(self).player.character.base == old(self).player.character.base,
            final(self).player.character.active_buffs@ == old(self).player.character.active_buffs@,
    {
        let (npc_mitigation, npc_dodge_chance) = match self.current_level().get_npc(npc_id) {
            Some(npc) => (npc.stats.mitigation, npc.stats.dodge_chance()),
            None => { return Err(GameError::Engine(EngineError::NpcNotFound(npc_id))); },
        };
        let (weapon_damage, crit_chance, range) = match self.get_player_weapon_stats() {
            Ok(stats) => stats,
            Err(e) => { return Err(e); },
        };
        proof {
            Roll::lemma_make(1, DieSize::D4, 0);
            if let Some(w) = self.player.character.weapon {
                lemma_weapon_rolls(self.items@[w.0].def_id@);
            }
            lemma_ranged_bonus_bound(self.player.character.stats.abilities.perception,
                self.player.character.active_buffs@, self.player.character.active_buffs@.len());
            lemma_melee_bonus_floor(self.player.character.stats.abilities.strength,
                self.player.character.active_buffs@, self.player.character.active_buffs@.len());
        }
        let base_damage = if range.is_some() {
            self.player.character.attack_damage_bonus_ranged()
        } else {
            self.player.character.attack_damage_bonus_melee()
        };
        let rolled_damage = self.roll(&weapon_damage) as u16;
        let damage = add_signed_saturating(rolled_damage, base_damage);
        let ghost before_attack = *self;
        let attack_result = self.resolve_attack(damage, crit_chance, npc_dodge_chance, npc_mitigation);
        self.apply_player_attack(npc_id, attack_result)
    }

    /// The player attacks the npc `npc_id` at range: it must be an npc of
    /// the current level (else the action fails: invalid target), a weapon
    /// must be equipped (else it fails: empty slot), and the weapon must be
    /// a ranged one (else an error), reaching the npc (else it fails: out of
    /// range). Then the attack goes as [GameState::player_attack_npc] says.
    pub fn player_ranged_attack_npc(&mut self, npc_id: EntityId) -> (r: GameResult)
        requires
            old(self).wf(),
            old(self).player_attack_fits(),
            old(self).player.character.base.pos.x <= MAX_ATTACK_COORD,
            old(self).player.character.base.pos.y <= MAX_ATTACK_COORD,
        ensures
            final(self).wf(),
            !old(self).cur().npc_map().contains_key(npc_id) ==>
                r == Ok::<GameOutcome, GameError>(GameOutcome::Fail(FailReason::InvalidTarget(npc_id)))
                && *final(self) == *old(self),
            old(self).cur().npc_map().contains_key(npc_id) && old(self).player.character.weapon is None ==>
                r == Ok::<GameOutcome, GameError>(GameOutcome::Fail(FailReason::EquipmentSlotEmpty))
                && *final(self) == *old(self),
            old(self).cur().npc_map().contains_key(npc_id) && old(self).spec_weapon_stats() is Err ==>
                (r matches Err(e) && old(self).spec_weapon_stats() == Err::<(Roll, u8, AttackRange), GameError>(e)
                && *final(self) == *old(self)),
            (old(self).cur().npc_map().contains_key(npc_id) && old(self).player.character.weapon is Some
                && old(self).spec_weapon_stats() is Ok) ==> {
                let stats = old(self).spec_weapon_stats().unwrap();
                let npc_pos = old(self).cur().npc_map()[npc_id].base.pos;
                let player_pos = old(self).player.character.base.pos;
                match stats.2 {
                    None => r matches Err(e) && e == GameError::Engine(EngineError::InvalidItem(
                        spec_item_def(old(self).items@[old(self).player.character.weapon.unwrap().0].def_id@).unwrap().kind))
                        && *final(self) == *old(self),
                    Some(range) => if spec_distance_squared(player_pos, npc_pos) > range * range {
                        r == Ok::<GameOutcome, GameError>(GameOutcome::Fail(FailReason::OutOfRange))
                            && *final(self) == *old(self)
                    } else {
                        r == Ok::<GameOutcome, GameError>(GameOutcome::Success)
                    },
                }
            },
            final(self).level_nr == old(self).level_nr,
            final(self).levels@.len() == old(self).levels@.len(),
            final(self).id_system == old(self).id_system,
            final(self).items == old(self).items,
            final(self).round_nr == old(self).round_nr,
            final(self).player.character.base == old(self).player.character.base,
            final(self).player.character.active_buffs@ == old(self).player.character.active_buffs@,
    {
        let npc_pos = match self.current_level().get_npc(npc_id) {
            Some(npc) => npc.base.pos,
            None => { return Ok(GameOutcome::Fail(FailReason::InvalidTarget(npc_id))); },
        };
        let weapon_id = match self.player.character.weapon {
            Some(w) => w,
            None => { return Ok(GameOutcome::Fail(FailReason::EquipmentSlotEmpty)); },
        };
        let weapon_item = match self.get_item_by_id(weapon_id.0) {
            Some(item) => item,
            None => { return Err(GameError::Engine(EngineError::UnregisteredItem(weapon_id.0))); },
        };
        let weapon_def = match self.get_item_def_by_id(&weapon_item.def_id) {
            Some(def) => def,
            None => { return Err(GameError::Data(DataError::MissingItemDefinition(weapon_item.def_id))); },
        };
        let range = match weapon_def.kind {
            GameItemKindDef::Weapon { range: Some(range), .. } => range,
            kind => { return Err(GameError::Engine(EngineError::InvalidItem(kind))); },
        };
        proof {
            lemma_weapon_ranges(self.items@[weapon_id.0].def_id@);
            let npc = self.cur().npc_map()[npc_id];
            let j = self.cur().npc_index@[npc_id] as int;
            assert(crate::world::level::npc_ids(self.cur().npcs@)[j] == npc_id);
            assert(self.cur().npcs@[j] == npc);
            let p = self.player.character.base.pos;
            crate::ai::pathfinding::lemma_distance_bound(p, npc_pos, 10_000);
            assert(2 * (10_000int * 10_000int) <= isize::MAX) by (nonlinear_arith);
        }
        let player_pos = self.player.character.base.pos;
        if player_pos.distance_squared_from(npc_pos) > range * range {
            return Ok(GameOutcome::Fail(FailReason::OutOfRange));
        }
        self.player_attack_npc(npc_id)
    }

    /// The log line for an npc's attack on the player.
    pub open spec fn npc_attack_line(npc_name: String, d: AttackDegree) -> LogData {
        match d {
            AttackDegree::Miss => LogData::NpcAttackMiss { npc_name },
            AttackDegree::Hit(damage) => LogData::NpcAttackHit { npc_name, damage },
            AttackDegree::CriticalHit(damage) => LogData::NpcAttackHitCritical { npc_name, damage },
        }
    }

    /// Carries out an npc's attack of degree `d` on the player: the player
    /// character takes the damage, and the attack is logged.
    pub fn apply_npc_attack(&mut self, npc_name: String, d: AttackDegree)
        ensures
            final(self).player.character.stats.base.hp_current
                == hp_after_damage(old(self).player.character.stats.base.hp_current, degree_damage(d)),
            final(self).player.character.stats.base.hp_max == old(self).player.character.stats.base.hp_max,
            final(self).player.character.stats.abilities == old(self).player.character.stats.abilities,
            final(self).player.character.stats.level == old(self).player.character.stats.level,
            final(self).player.character.stats.experience == old(self).player.character.stats.experience,
            final(self).player.character.same_but_stats(old(self).player.character),
            final(self).player.name == old(self).player.name,
            final(self).log.messages@ == old(self).log.messages@.push(GameState::npc_attack_line(npc_name, d)),
            final(self).log.print_debug_info == old(self).log.print_debug_info,
            final(self).levels == old(self).levels,
            final(self).level_nr == old(self).level_nr,
            final(self).cursor == old(self).cursor,
            final(self).round_nr == old(self).round_nr,
            final(self).id_system == old(self).id_system,
            final(self).items == old(self).items,
            final(self).rng == old(self).rng,
            final(self).proc_gen == old(self).proc_gen,
            final(self).game_rules == old(self).game_rules,
    {
        match d {
            AttackDegree::Miss => {
                self.log.info(LogData::NpcAttackMiss { npc_name });
            },
            AttackDegree::Hit(damage) => {
                self.player.character.take_damage(damage);
                self.log.info(LogData::NpcAttackHit { npc_name, damage });
            },
            AttackDegree::CriticalHit(damage) => {
                self.player.character.take_damage(damage);
                self.log.info(LogData::NpcAttackHitCritical { npc_name, damage });
            },
        }
    }

    /// The npc `npc_id` of the current level attacks the player. Its damage
    /// grows with the depth: the npc's damage plus the level number. Its
    /// crit chance is 5%; the player's dodge chance and armor (none where
    /// the armor cannot be had) defend.
    ///
    /// Errs, changing nothing, where the npc does not exist.
    pub fn npc_attack_player(&mut self, npc_id: EntityId) -> (r: Result<(), GameError>)
        requires
            old(self).wf(),
            dodge_fits(old(self).player.character.stats.abilities.dexterity, old(self).player.character.active_buffs@),
            old(self).cur().npc_map().contains_key(npc_id) ==>
                old(self).level_nr <= MAX_NPC_LEVEL,
        ensures
            final(self).wf(),
            !old(self).cur().npc_map().contains_key(npc_id) ==> (r matches Err(e)
                && e == GameError::Engine(EngineError::NpcNotFound(npc_id)) && *final(self) == *old(self)),
            old(self).cur().npc_map().contains_key(npc_id) ==> {
                &&& r is Ok
                &&& final(self).player.character.stats.base.hp_current <= old(self).player.character.stats.base.hp_current
                &&& final(self).log.messages@.len() == old(self).log.messages@.len() + 1
                &&& exists|dodge_die: u8, crit_die: u8| 1 <= dodge_die <= 100 && 1 <= crit_die <= 100
                    && final(self).player.character.stats.base.hp_current == hp_after_damage(
                        old(self).player.character.stats.base.hp_current,
                        degree_damage(#[trigger] spec_attack_outcome(dodge_die, crit_die,
                            (old(self).cur().npc_map()[npc_id].stats.damage + old(self).level_nr) as u16, NPC_CRIT_CHANCE,
                            dodge_upto(old(self).player.character.stats.abilities.dexterity,
                                old(self).player.character.active_buffs@, old(self).player.character.active_buffs@.len()) as u8,
                            old(self).defending_mitigation())))
            },
            final(self).player.character.same_but_stats(old(self).player.character),
            final(self).player.character.stats.abilities == old(self).player.character.stats.abilities,
            final(self).player.character.stats.base.hp_max == old(self).player.character.stats.base.hp_max,
            final(self).player.character.stats.level == old(self).player.character.stats.level,
            final(self).player.character.stats.experience == old(self).player.character.stats.experience,
            final(self).player.name == old(self).player.name,
            final(self).round_nr == old(self).round_nr,
            final(self).levels == old(self).levels,
            final(self).level_nr == old(self).level_nr,
            final(self).id_system == old(self).id_system,
            final(self).items == old(self).items,
    {
        let (npc_name, npc_damage) = match self.current_level().get_npc(npc_id) {
            Some(npc) => (npc.base.name.clone(), npc.stats.damage),
            None => { return Err(GameError::Engine(EngineError::NpcNotFound(npc_id))); },
        };
        let attack_damage: u16 = npc_damage + self.level_nr as u16;
        let ghost before = *self;
        let mitigation = match self.get_player_armor_mitigation() {
            Ok(m) => m,
            Err(_) => 0,
        };
        let dodge = self.player.character.dodge_chance();
        let attack_result = self.resolve_attack(attack_damage, NPC_CRIT_CHANCE, dodge, mitigation);
        self.apply_npc_attack(npc_name, attack_result);
        proof {
            assert(mitigation == before.defending_mitigation());
            let (a, b) = choose|a: u8, b: u8| 1 <= a <= 100 && 1 <= b <= 100
                && attack_result == spec_attack_outcome(a, b, attack_damage, NPC_CRIT_CHANCE, dodge, mitigation);
            assert(attack_damage == (before.cur().npc_map()[npc_id].stats.damage + before.level_nr) as u16);
            assert(dodge == dodge_upto(before.player.character.stats.abilities.dexterity,
                before.player.character.active_buffs@, before.player.character.active_buffs@.len()) as u8);
            assert(before == *old(self));
            assert(self.player.character.stats.base.hp_current == hp_after_damage(
                old(self).player.character.stats.base.hp_current, degree_damage(spec_attack_outcome(a, b,
                (old(self).cur().npc_map()[npc_id].stats.damage + old(self).level_nr) as u16, NPC_CRIT_CHANCE,
                dodge_upto(old(self).player.character.stats.abilities.dexterity,
                    old(self).player.character.active_buffs@, old(self).player.character.active_buffs@.len()) as u8,
                old(self).defending_mitigation()))));
        }
        Ok(())
    }
}

/// Armor takes its mitigation off an attack: a hit that is neither dodged nor
/// critical deals the attack's damage less the mitigation (nothing where the
/// mitigation covers it), a critical hit twice the damage less the
/// mitigation, and for the same dice more mitigation never deals more.
pub proof fn law_mitigation_taken_off(dodge_die: u8, crit_die: u8, damage: u16, crit_chance: u8, dodge_chance: u8,
    mitigation: u16, more: u16)
    requires
        mitigation <= more,
        2 * damage <= u16::MAX,
    ensures
        dodge_die <= dodge_chance ==> degree_damage(spec_attack_outcome(dodge_die, crit_die, damage, crit_chance,
            dodge_chance, mitigation)) == 0,
        dodge_die > dodge_chance && crit_die > crit_chance ==> degree_damage(spec_attack_outcome(dodge_die, crit_die,
            damage, crit_chance, dodge_chance, mitigation)) == if damage >= mitigation { damage - mitigation } else { 0 },
        dodge_die > dodge_chance && crit_die <= crit_chance ==> degree_damage(spec_attack_outcome(dodge_die, crit_die,
            damage, crit_chance, dodge_chance, mitigation)) == if 2 * damage >= mitigation { 2 * damage - mitigation } else { 0 },
        degree_damage(spec_attack_outcome(dodge_die, crit_die, damage, crit_chance, dodge_chance, more))
            <= degree_damage(spec_attack_outcome(dodge_die, crit_die, damage, crit_chance, dodge_chance, mitigation)),
{
}

/// The player's armor is what defends the player: an attack on a player
/// wearing a registered armor whose definition gives mitigation `m` is
/// mitigated by `m`; on a player wearing none, by nothing.
pub proof fn law_worn_armor_defends(g: GameState, m: u16)
    ensures
        g.player.character.armor is None ==> g.defending_mitigation() == 0,
        g.player.character.armor is Some && g.items@.contains_key(g.player.character.armor.unwrap().0)
            && spec_item_def(g.items@[g.player.character.armor.unwrap().0].def_id@) is Some
            && spec_item_def(g.items@[g.player.character.armor.unwrap().0].def_id@)->0.kind
                == (GameItemKindDef::Armor { mitigation: m })
            ==> g.defending_mitigation() == m,
{
}

/// Changing only the current level, keeping it consistent and its
/// identifiers among the old ones, keeps the game state consistent.
pub proof fn lemma_levels_frame(before: GameState, after: GameState)
    requires
        before.wf(),
        after.levels@.len() == before.levels@.len(),
        after.level_nr == before.level_nr,
        after.id_system == before.id_system,
        after.items == before.items,
        forall|i: int| 0 <= i < before.levels@.len() && i != before.level_nr ==> after.levels@[i] == before.levels@[i],
        after.cur().wf(),
        forall|id: EntityId| #[trigger] after.cur().npc_map().contains_key(id) ==> before.cur().npc_map().contains_key(id)
            && after.cur().npc_map()[id].stats.damage == before.cur().npc_map()[id].stats.damage,
        forall|id: EntityId| #[trigger] after.cur().sprite_map().contains_key(id)
            ==> before.cur().sprite_map().contains_key(id),
    ensures
        after.wf(),
{
    assert forall|i: int| 0 <= i < after.levels@.len() implies (#[trigger] after.levels@[i]).wf() by {
        if i != before.level_nr as int {
            assert(after.levels@[i] == before.levels@[i]);
        }
    }
    assert forall|i: int, id: EntityId| 0 <= i < after.levels@.len()
        && #[trigger] after.levels@[i].npc_index@.contains_key(id) implies id < after.id_system.next_entity() by {
        if i != before.level_nr as int {
            assert(after.levels@[i] == before.levels@[i]);
        } else {
            assert(after.cur().npc_map().contains_key(id));
            assert(before.levels@[i].npc_index@.contains_key(id));
        }
    }
    assert forall|i: int, id: EntityId| 0 <= i < after.levels@.len()
        && #[trigger] after.levels@[i].npc_map().contains_key(id) implies
        after.levels@[i].npc_map()[id].stats.damage <= crate::gameplay::game::MAX_NPC_DAMAGE by {
        if i != before.level_nr as int {
            assert(after.levels@[i] == before.levels@[i]);
        }
    }
    assert forall|i: int, id: EntityId| 0 <= i < after.levels@.len()
        && #[trigger] after.levels@[i].item_sprites_index@.contains_key(id) implies id < after.id_system.next_entity() by {
        if i != before.level_nr as int {
            assert(after.levels@[i] == before.levels@[i]);
        } else {
            assert(after.cur().sprite_map().contains_key(id));
            assert(before.levels@[i].item_sprites_index@.contains_key(id));
        }
    }
}

/// The text of a roll's dice: amount, die and modifier, as in "2d6+1".
pub open spec fn roll_text(r: Roll) -> Seq<char> {
    spec_decimal(r.spec_dice_amount() as nat) + "d"@ + "D"@ + spec_decimal(spec_upper_bound(r.spec_dice_size()) as nat)
        + "+"@ + spec_signed_decimal(r.spec_modifier() as int)
}

/// The statistics of an item's kind as the inventory and the info display
/// show them after the item's name: damage and crit chance of a weapon,
/// mitigation of armor, nutrition of food; nothing for other kinds.
pub open spec fn spec_stats_text(kind: GameItemKindDef) -> Seq<char> {
    match kind {
        GameItemKindDef::Weapon { damage, crit_chance, .. } => " <"@ + roll_text(damage) + " DMG, "@
            + spec_decimal(crit_chance as nat) + "% CRIT>"@,
        GameItemKindDef::Armor { mitigation } => " <"@ + spec_decimal(mitigation as nat) + " MIT>"@,
        GameItemKindDef::Food { nutrition } => " <"@ + spec_decimal(nutrition as nat) + " NUT>"@,
        _ => Seq::empty(),
    }
}

/// The line that shows the player's weapon: its name and statistics,
/// "None" without a weapon, "Invalid weapon" where it cannot be looked up.
pub open spec fn spec_weapon_text(g: GameState) -> Seq<char> {
    match g.player.character.weapon {
        None => "None"@,
        Some(w) => if !g.items@.contains_key(w.0) {
            "Invalid weapon"@
        } else {
            match spec_item_def(g.items@[w.0].def_id@) {
                Some(def) => match def.kind {
                    GameItemKindDef::Weapon { .. } => def.name@ + spec_stats_text(def.kind),
                    _ => "Invalid weapon"@,
                },
                None => "Invalid weapon"@,
            }
        },
    }
}

/// The line that shows the player's armor: its name and mitigation,
/// "None" without armor, "Invalid armor" where it cannot be looked up.
pub open spec fn spec_armor_text(g: GameState) -> Seq<char> {
    match g.player.character.armor {
        None => "None"@,
        Some(a) => if !g.items@.contains_key(a.0) {
            "Invalid armor"@
        } else {
            match spec_item_def(g.items@[a.0].def_id@) {
                Some(def) => match def.kind {
                    GameItemKindDef::Armor { .. } => def.name@ + spec_stats_text(def.kind),
                    _ => "Invalid armor"@,
                },
                None => "Invalid armor"@,
            }
        },
    }
}

/// The text of a roll's dice.
fn format_roll(r: &Roll) -> (s: String)
    ensures
        s@ == roll_text(*r),
{
    let mut s = decimal(r.dice_amount() as u64);
    s.append("d");
    s.append("D");
    s.append(decimal(r.dice_size().upper_bound() as u64).as_str());
    s.append("+");
    s.append(signed_decimal(r.modifier() as i32).as_str());
    s
}

/// The statistics of an item's kind, as shown after the item's name.
pub fn stats_text(kind: &GameItemKindDef) -> (s: String)
    ensures
        s@ == spec_stats_text(*kind),
{
    let mut s = String::new();
    match kind {
        GameItemKindDef::Weapon { damage, crit_chance, .. } => {
            s.append(" <");
            s.append(format_roll(damage).as_str());
            s.append(" DMG, ");
            s.append(decimal(*crit_chance as u64).as_str());
            s.append("% CRIT>");
        },
        GameItemKindDef::Armor { mitigation } => {
            s.append(" <");
            s.append(decimal(*mitigation as u64).as_str());
            s.append(" MIT>");
        },
        GameItemKindDef::Food { nutrition } => {
            s.append(" <");
            s.append(decimal(*nutrition as u64).as_str());
            s.append(" NUT>");
        },
        _ => {},
    }
    s
}

impl GameState {
    /// The player's weapon as the info display shows it.
    pub fn format_weapon(&self) -> (s: String)
        ensures
            s@ == spec_weapon_text(*self),
    {
        match self.player.character.weapon {
            None => "None".to_owned(),
            Some(w) => {
                let item = match self.get_item_by_id(w.0) {
                    Some(item) => item,
                    None => { return "Invalid weapon".to_owned(); },
                };
                let def = match self.get_item_def_by_id(&item.def_id) {
                    Some(def) => def,
                    None => { return "Invalid weapon".to_owned(); },
                };
                match def.kind {
                    GameItemKindDef::Weapon { .. } => join(def.name, stats_text(&def.kind).as_str()),
                    _ => "Invalid weapon".to_owned(),
                }
            },
        }
    }

    /// The player's armor as the info display shows it.
    pub fn format_armor(&self) -> (s: String)
        ensures
            s@ == spec_armor_text(*self),
    {
        match self.player.character.armor {
            None => "None".to_owned(),
            Some(a) => {
                let item = match self.get_item_by_id(a.0) {
                    Some(item) => item,
                    None => { return "Invalid armor".to_owned(); },
                };
                let def = match self.get_item_def_by_id(&item.def_id) {
                    Some(def) => def,
                    None => { return "Invalid armor".to_owned(); },
                };
                match def.kind {
                    GameItemKindDef::Armor { .. } => join(def.name, stats_text(&def.kind).as_str()),
                    _ => "Invalid armor".to_owned(),
                }
            },
        }
    }
}

} // verus!
