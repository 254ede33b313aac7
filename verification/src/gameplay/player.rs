//! The player and the player character: statistics, classes, buffs.

use vstd::prelude::*;

use crate::gameplay::buff_effects::{ActiveBuff, PotionEffectDef, PotionType, PotionUsage};
use crate::gameplay::entity_logic::{hp_after_damage, BaseStats, Entity, EntityBase, EntityId, Movable};
use crate::gameplay::game_items::{ArmorItem, GameItemId, WeaponItem};
use crate::world::coordinate_system::Point;
use crate::world::tiles::Color;

verus! {

/// The largest dodge chance that buffs can bring the player to.
pub const MAX_BUFFED_DODGE: u8 = 100;

/// The largest dodge chance that dexterity alone gives.
pub const MAX_BASE_DODGE: u8 = 50;

/// Experience needed per character level to level up.
pub const XP_PER_LEVEL: u32 = 100;

pub struct Player {
    pub name: String,
    pub character: PlayerCharacter,
}

impl Player {
    pub fn new(id: EntityId) -> (p: Self)
        ensures
            p.name@ == "Hero"@,
            p.character.fresh(id),
    {
        Self { name: "Hero".to_owned(), character: PlayerCharacter::new(id) }
    }
}

pub struct PlayerCharacter {
    pub base: EntityBase,
    pub stats: PcStats,
    pub inventory: Vec<GameItemId>,
    pub class: CharacterClass,
    pub armor: Option<ArmorItem>,
    pub weapon: Option<WeaponItem>,
    pub active_buffs: Vec<ActiveBuff>,
    /// How often each kind of potion was drunk; each kind occurs at most once.
    pub potion_usage: Vec<(PotionType, PotionUsage)>,
}

/// The melee damage bonus after the first `k` buffs: strength, plus the
/// strength buffs, minus the fatigue penalties (never below `i16::MIN`).
pub open spec fn melee_bonus_upto(strength: u8, buffs: Seq<ActiveBuff>, k: nat) -> int
    decreases k,
{
    if k == 0 {
        strength as int
    } else {
        let b = melee_bonus_upto(strength, buffs, (k - 1) as nat);
        match buffs[k - 1].effect {
            PotionEffectDef::Strength { amount, .. } => b + amount,
            PotionEffectDef::Fatigue { strength_penalty, .. } =>
                if b - strength_penalty >= i16::MIN { b - strength_penalty } else { i16::MIN as int },
            _ => b,
        }
    }
}

/// Whether adding up the strength buffs never leaves `i16`.
pub open spec fn melee_bonus_fits(strength: u8, buffs: Seq<ActiveBuff>) -> bool {
    forall|k: nat| k < buffs.len() ==> (#[trigger] buffs[k as int].effect matches PotionEffectDef::Strength { amount, .. }
        ==> melee_bonus_upto(strength, buffs, k) + amount <= i16::MAX)
}

/// The ranged damage bonus after the first `k` buffs: perception minus the
/// fatigue penalties (never below `i16::MIN`).
pub open spec fn ranged_bonus_upto(perception: u8, buffs: Seq<ActiveBuff>, k: nat) -> int
    decreases k,
{
    if k == 0 {
        perception as int
    } else {
        let b = ranged_bonus_upto(perception, buffs, (k - 1) as nat);
        match buffs[k - 1].effect {
            PotionEffectDef::Fatigue { strength_penalty, .. } =>
                if b - strength_penalty >= i16::MIN { b - strength_penalty } else { i16::MIN as int },
            _ => b,
        }
    }
}

/// The dodge chance from dexterity alone: 5 plus half the dexterity, at most 50.
pub open spec fn base_dodge(dexterity: u8) -> int {
    if 5 + dexterity / 2 <= MAX_BASE_DODGE { 5 + dexterity / 2 } else { MAX_BASE_DODGE as int }
}

/// The dodge chance after the first `k` buffs: dexterity buffs raise it (up
/// to 100), cramps lower it (down to 0).
pub open spec fn dodge_upto(dexterity: u8, buffs: Seq<ActiveBuff>, k: nat) -> int
    decreases k,
{
    if k == 0 {
        base_dodge(dexterity)
    } else {
        let d = dodge_upto(dexterity, buffs, (k - 1) as nat);
        match buffs[k - 1].effect {
            PotionEffectDef::Dexterity { amount, .. } =>
                if d + amount <= MAX_BUFFED_DODGE { d + amount } else { MAX_BUFFED_DODGE as int },
            PotionEffectDef::Cramp { dexterity_penalty, .. } =>
                if d >= dexterity_penalty { d - dexterity_penalty } else { 0 },
            _ => d,
        }
    }
}

/// Whether adding a dexterity buff never leaves `u8` before it is capped.
pub open spec fn dodge_fits(dexterity: u8, buffs: Seq<ActiveBuff>) -> bool {
    forall|k: nat| k < buffs.len() ==> (#[trigger] buffs[k as int].effect matches PotionEffectDef::Dexterity { amount, .. }
        ==> dodge_upto(dexterity, buffs, k) + amount <= u8::MAX)
}

/// The poison damage of the first `k` buffs.
pub open spec fn poison_upto(buffs: Seq<ActiveBuff>, k: nat) -> int
    decreases k,
{
    if k == 0 {
        0
    } else {
        poison_upto(buffs, (k - 1) as nat) + match buffs[k - 1].effect {
            PotionEffectDef::Poison { damage_per_tick, .. } => damage_per_tick as int,
            _ => 0int,
        }
    }
}

/// A buff one round later.
pub open spec fn ticked(b: ActiveBuff) -> ActiveBuff {
    ActiveBuff { effect: b.effect, remaining_turns: if b.remaining_turns > 0 { (b.remaining_turns - 1) as u8 } else { 0 } }
}

/// The buffs one round later: each counted down, the expired ones gone.
pub open spec fn buffs_after_tick(buffs: Seq<ActiveBuff>) -> Seq<ActiveBuff> {
    buffs.map_values(|b: ActiveBuff| ticked(b)).filter(|b: ActiveBuff| b.remaining_turns > 0)
}

/// The statistics of a level-1 character with the given abilities.
pub open spec fn spec_stats_from(abilities: AbilityScores) -> PcStats {
    let hp_max = (10 + abilities.vitality * 10) as u16;
    PcStats { base: BaseStats { hp_max, hp_current: hp_max }, abilities, level: 1, experience: 0 }
}

impl PlayerCharacter {
    /// A character as [PlayerCharacter::new] makes it.
    pub open spec fn fresh(&self, id: EntityId) -> bool {
        &&& self.base.id == id
        &&& self.base.name@ == "Hero"@
        &&& self.base.pos == Point { x: 0, y: 0 }
        &&& self.base.glyph == '@'
        &&& self.base.style == Color::Yellow
        &&& self.stats == spec_stats_from(AbilityScores { strength: 1, dexterity: 1, vitality: 1, perception: 1 })
        &&& self.inventory@.len() == 0
        &&& self.class == CharacterClass::Wretch
        &&& self.armor is None
        &&& self.weapon is None
        &&& self.active_buffs@.len() == 0
        &&& self.potion_usage@.len() == 0
    }

    pub fn new(id: EntityId) -> (c: Self)
        ensures
            c.fresh(id),
    {
        Self {
            base: EntityBase { id, name: "Hero".to_owned(), pos: Point::new(0, 0), glyph: '@', style: Color::Yellow },
            stats: PcStats::new(),
            inventory: Vec::new(),
            class: CharacterClass::Wretch,
            armor: None,
            weapon: None,
            active_buffs: Vec::new(),
            potion_usage: Vec::new(),
        }
    }

    /// The melee damage bonus: strength, raised by strength buffs and
    /// lowered by fatigue.
    pub fn attack_damage_bonus_melee(&self) -> (bonus: i16)
        requires
            melee_bonus_fits(self.stats.abilities.strength, self.active_buffs@),
        ensures
            bonus == melee_bonus_upto(self.stats.abilities.strength, self.active_buffs@, self.active_buffs@.len()),
    {
        let mut bonus: i16 = self.stats.abilities.strength as i16;
        let mut i: usize = 0;
        while i < self.active_buffs.len()
            invariant
                i <= self.active_buffs.len(),
                melee_bonus_fits(self.stats.abilities.strength, self.active_buffs@),
                bonus == melee_bonus_upto(self.stats.abilities.strength, self.active_buffs@, i as nat),
            decreases self.active_buffs.len() - i,
        {
            proof {
                assert(self.active_buffs@[i as int].effect == self.active_buffs@[(i + 1) - 1].effect);
            }
            match self.active_buffs[i].effect {
                PotionEffectDef::Strength { amount, .. } => {
                    bonus = bonus + amount as i16;
                },
                PotionEffectDef::Fatigue { strength_penalty, .. } => {
                    bonus = if bonus as i32 - strength_penalty as i32 >= i16::MIN as i32 {
                        bonus - strength_penalty as i16
                    } else {
                        i16::MIN
                    };
                },
                _ => {},
            }
            i = i + 1;
        }
        bonus
    }

    /// The ranged damage bonus: perception, lowered by fatigue.
    pub fn attack_damage_bonus_ranged(&self) -> (bonus: i16)
        ensures
            bonus == ranged_bonus_upto(self.stats.abilities.perception, self.active_buffs@, self.active_buffs@.len()),
    {
        let mut bonus: i16 = self.stats.abilities.perception as i16;
        let mut i: usize = 0;
        while i < self.active_buffs.len()
            invariant
                i <= self.active_buffs.len(),
                bonus == ranged_bonus_upto(self.stats.abilities.perception, self.active_buffs@, i as nat),
            decreases self.active_buffs.len() - i,
        {
            proof {
                assert(self.active_buffs@[i as int].effect == self.active_buffs@[(i + 1) - 1].effect);
            }
            if let PotionEffectDef::Fatigue { strength_penalty, .. } = self.active_buffs[i].effect {
                bonus = if bonus as i32 - strength_penalty as i32 >= i16::MIN as i32 {
                    bonus - strength_penalty as i16
                } else {
                    i16::MIN
                };
            }
            i = i + 1;
        }
        bonus
    }

    /// The chance (in percent) to dodge an attack.
    pub fn dodge_chance(&self) -> (dodge: u8)
        requires
            dodge_fits(self.stats.abilities.dexterity, self.active_buffs@),
        ensures
            dodge == dodge_upto(self.stats.abilities.dexterity, self.active_buffs@, self.active_buffs@.len()),
    {
        let half = 5 + self.stats.abilities.dexterity / 2;
        let mut dodge: u8 = if half < MAX_BASE_DODGE { half } else { MAX_BASE_DODGE };
        let mut i: usize = 0;
        while i < self.active_buffs.len()
            invariant
                i <= self.active_buffs.len(),
                dodge_fits(self.stats.abilities.dexterity, self.active_buffs@),
                dodge == dodge_upto(self.stats.abilities.dexterity, self.active_buffs@, i as nat),
            decreases self.active_buffs.len() - i,
        {
            proof {
                assert(self.active_buffs@[i as int].effect == self.active_buffs@[(i + 1) - 1].effect);
            }
            match self.active_buffs[i].effect {
                PotionEffectDef::Dexterity { amount, .. } => {
                    let raised = dodge + amount;
                    dodge = if raised < MAX_BUFFED_DODGE { raised } else { MAX_BUFFED_DODGE };
                },
                PotionEffectDef::Cramp { dexterity_penalty, .. } => {
                    dodge = dodge.saturating_sub(dexterity_penalty);
                },
                _ => {},
            }
            i = i + 1;
        }
        dodge
    }

    pub fn take_damage(&mut self, amount: u16)
        ensures
            final(self).stats.base.hp_current == hp_after_damage(old(self).stats.base.hp_current, amount),
            final(self).stats.base.hp_max == old(self).stats.base.hp_max,
            final(self).stats.abilities == old(self).stats.abilities,
            final(self).stats.level == old(self).stats.level,
            final(self).stats.experience == old(self).stats.experience,
            final(self).same_but_stats(*old(self)),
    {
        self.stats.base.take_damage(amount);
    }

    pub fn heal(&mut self, amount: u16)
        ensures
            final(self).stats.base.hp_current == crate::gameplay::entity_logic::hp_after_heal(
                old(self).stats.base.hp_current, old(self).stats.base.hp_max, amount),
            final(self).stats.base.hp_max == old(self).stats.base.hp_max,
            final(self).stats.abilities == old(self).stats.abilities,
            final(self).stats.level == old(self).stats.level,
            final(self).stats.experience == old(self).stats.experience,
            final(self).same_but_stats(*old(self)),
    {
        self.stats.base.heal(amount);
    }

    pub fn is_alive(&self) -> (b: bool)
        ensures
            b == (self.stats.base.hp_current > 0),
    {
        self.stats.base.is_alive()
    }

    /// Everything but the statistics is as in `other`.
    pub open spec fn same_but_stats(&self, other: PlayerCharacter) -> bool {
        &&& self.base == other.base
        &&& self.inventory@ == other.inventory@
        &&& self.class == other.class
        &&& self.armor == other.armor
        &&& self.weapon == other.weapon
        &&& self.active_buffs@ == other.active_buffs@
        &&& self.potion_usage@ == other.potion_usage@
    }

    /// Adds experience points. Enough of them (100 per character level)
    /// level the character up; the points needed are used up.
    ///
    /// Returns whether the character levelled up.
    pub fn gain_experience(&mut self, amount: u32) -> (levelled_up: bool)
        requires
            can_gain_experience(old(self).stats, amount),
        ensures
            final(self).same_but_stats(*old(self)),
            (final(self).stats, levelled_up) == spec_gain_experience(old(self).stats, amount),
            levelled_up == (old(self).stats.experience + amount >= old(self).stats.level * XP_PER_LEVEL),
            !levelled_up ==> final(self).stats == (PcStats {
                experience: (old(self).stats.experience + amount) as u32, ..old(self).stats }),
            levelled_up ==> final(self).stats == (PcStats {
                experience: (old(self).stats.experience + amount - old(self).stats.level * XP_PER_LEVEL) as u32,
                ..spec_levelled_up(old(self).stats) }),
            levelled_up ==> {
                &&& final(self).stats.level == old(self).stats.level + 1
                &&& final(self).stats.base.hp_max == old(self).stats.base.hp_max + 10
                &&& final(self).stats.base.hp_current == final(self).stats.base.hp_max
                &&& final(self).stats.abilities.strength == old(self).stats.abilities.strength + 1
                &&& final(self).stats.abilities.dexterity == old(self).stats.abilities.dexterity + 1
                &&& final(self).stats.abilities.vitality == old(self).stats.abilities.vitality + 1
                &&& final(self).stats.abilities.perception == old(self).stats.abilities.perception + 1
                &&& final(self).stats.experience == old(self).stats.experience + amount - old(self).stats.level * XP_PER_LEVEL
            },
            !levelled_up ==> final(self).stats.base == old(self).stats.base
                && final(self).stats.level == old(self).stats.level
                && final(self).stats.experience == old(self).stats.experience + amount,
    {
        self.stats.experience = self.stats.experience + amount;

        let required_xp = self.stats.level as u32 * XP_PER_LEVEL;
        if self.stats.experience >= required_xp {
            self.stats.experience = self.stats.experience - required_xp;
            self.level_up();
            return true;
        }
        false
    }

    fn level_up(&mut self)
        requires
            old(self).stats.level < u8::MAX,
            old(self).stats.abilities.strength < u8::MAX,
            old(self).stats.abilities.dexterity < u8::MAX,
            old(self).stats.abilities.vitality < u8::MAX,
            old(self).stats.abilities.perception < u8::MAX,
            old(self).stats.base.hp_max + 10 <= u16::MAX,
        ensures
            final(self).same_but_stats(*old(self)),
            final(self).stats == spec_levelled_up(old(self).stats),
            final(self).stats.level == old(self).stats.level + 1,
            final(self).stats.base.hp_max == old(self).stats.base.hp_max + 10,
            final(self).stats.base.hp_current == final(self).stats.base.hp_max,
            final(self).stats.abilities.strength == old(self).stats.abilities.strength + 1,
            final(self).stats.abilities.dexterity == old(self).stats.abilities.dexterity + 1,
            final(self).stats.abilities.vitality == old(self).stats.abilities.vitality + 1,
            final(self).stats.abilities.perception == old(self).stats.abilities.perception + 1,
            final(self).stats.experience == old(self).stats.experience,
    {
        self.stats.level = self.stats.level + 1;
        self.stats.abilities.strength = self.stats.abilities.strength + 1;
        self.stats.abilities.dexterity = self.stats.abilities.dexterity + 1;
        self.stats.abilities.vitality = self.stats.abilities.vitality + 1;
        self.stats.abilities.perception = self.stats.abilities.perception + 1;
        self.stats.base.hp_max = self.stats.base.hp_max + 10;
        self.stats.base.hp_current = self.stats.base.hp_max;
    }

    /// One round passes for the buffs: poison deals its damage, every buff
    /// counts down, and the expired ones are removed.
    pub fn tick_buffs(&mut self)
        requires
            poison_upto(old(self).active_buffs@, old(self).active_buffs@.len()) <= u16::MAX,
        ensures
            final(self).stats.base.hp_current == hp_after_damage(old(self).stats.base.hp_current,
                poison_upto(old(self).active_buffs@, old(self).active_buffs@.len()) as u16),
            final(self).stats.base.hp_max == old(self).stats.base.hp_max,
            final(self).stats.abilities == old(self).stats.abilities,
            final(self).stats.level == old(self).stats.level,
            final(self).stats.experience == old(self).stats.experience,
            final(self).active_buffs@ == buffs_after_tick(old(self).active_buffs@),
            final(self).base == old(self).base,
            final(self).inventory@ == old(self).inventory@,
            final(self).class == old(self).class,
            final(self).armor == old(self).armor,
            final(self).weapon == old(self).weapon,
            final(self).potion_usage@ == old(self).potion_usage@,
    {
        let ghost buffs = self.active_buffs@;
        let mut damage_accrued: u16 = 0;
        let mut kept: Vec<ActiveBuff> = Vec::new();
        let mut i: usize = 0;
        while i < self.active_buffs.len()
            invariant
                i <= self.active_buffs.len(),
                buffs == self.active_buffs@,
                poison_upto(buffs, buffs.len()) <= u16::MAX,
                damage_accrued == poison_upto(buffs, i as nat),
                kept@ == buffs.take(i as int).map_values(|b: ActiveBuff| ticked(b)).filter(
                    |b: ActiveBuff| b.remaining_turns > 0),
            decreases self.active_buffs.len() - i,
        {
            proof {
                lemma_poison_monotone(buffs, (i + 1) as nat, buffs.len());
                reveal(Seq::filter);
                let m = buffs.take(i + 1).map_values(|b: ActiveBuff| ticked(b));
                assert(m.drop_last() == buffs.take(i as int).map_values(|b: ActiveBuff| ticked(b)));
                assert(m.last() == ticked(buffs[i as int]));
            }
            let buff = self.active_buffs[i];
            if let PotionEffectDef::Poison { damage_per_tick, .. } = buff.effect {
                damage_accrued = damage_accrued + damage_per_tick;
            }
            let remaining = if buff.remaining_turns > 0 { buff.remaining_turns - 1 } else { 0 };
            if remaining > 0 {
                kept.push(ActiveBuff { effect: buff.effect, remaining_turns: remaining });
            }
            i = i + 1;
        }
        proof {
            assert(buffs.take(buffs.len() as int) == buffs);
        }
        self.take_damage(damage_accrued);
        self.active_buffs = kept;
    }

    /// Applies a class: its ability scores, and the statistics of a level-1
    /// character with them.
    pub fn apply_class(&mut self, class: CharacterClass)
        ensures
            final(self).class == class,
            final(self).stats == spec_stats_from(spec_class_abilities(class)),
            final(self).base == old(self).base,
            final(self).inventory@ == old(self).inventory@,
            final(self).armor == old(self).armor,
            final(self).weapon == old(self).weapon,
            final(self).active_buffs@ == old(self).active_buffs@,
            final(self).potion_usage@ == old(self).potion_usage@,
    {
        let abilities = AbilityScores::from_class(class);
        self.stats = PcStats::from_abilities(abilities);
        self.class = class;
    }
}

/// The statistics after gaining `amount` experience, and whether the
/// character levelled up: 100 points per character level level it up, and
/// are used up.
pub open spec fn spec_gain_experience(s: PcStats, amount: u32) -> (PcStats, bool) {
    let xp = s.experience + amount;
    if xp >= s.level * XP_PER_LEVEL {
        (PcStats { experience: (xp - s.level * XP_PER_LEVEL) as u32, ..spec_levelled_up(s) }, true)
    } else {
        (PcStats { experience: xp as u32, ..s }, false)
    }
}

/// A level-up restores full health: where gaining experience levels the
/// character up, it has one more level, ten more maximum hit points, and as
/// many hit points as its new maximum; otherwise its hit points, maximum and
/// level stay.
pub proof fn law_level_up_heals(s: PcStats, amount: u32)
    requires
        can_gain_experience(s, amount),
    ensures
        spec_gain_experience(s, amount).1 ==> {
            let t = spec_gain_experience(s, amount).0;
            &&& t.level == s.level + 1
            &&& t.base.hp_max == s.base.hp_max + 10
            &&& t.base.hp_current == t.base.hp_max
        },
        !spec_gain_experience(s, amount).1 ==> spec_gain_experience(s, amount).0.base == s.base
            && spec_gain_experience(s, amount).0.level == s.level,
        spec_gain_experience(s, amount).1 == (s.experience + amount >= s.level * XP_PER_LEVEL),
{
}

/// Whether gaining `amount` experience (and perhaps a level) keeps every
/// statistic within its type.
pub open spec fn can_gain_experience(s: PcStats, amount: u32) -> bool {
    &&& s.experience + amount <= u32::MAX
    &&& s.level < u8::MAX
    &&& s.abilities.strength < u8::MAX
    &&& s.abilities.dexterity < u8::MAX
    &&& s.abilities.vitality < u8::MAX
    &&& s.abilities.perception < u8::MAX
    &&& s.base.hp_max + 10 <= u16::MAX
}

/// Poison damage only adds up.
proof fn lemma_poison_monotone(buffs: Seq<ActiveBuff>, a: nat, b: nat)
    requires
        a <= b <= buffs.len(),
    ensures
        poison_upto(buffs, a) <= poison_upto(buffs, b),
    decreases b - a,
{
    if a < b {
        lemma_poison_monotone(buffs, a, (b - 1) as nat);
    }
}

/// The statistics after a level-up: one more level, one more point in each
/// ability, ten more maximum hit points, and full health.
pub open spec fn spec_levelled_up(s: PcStats) -> PcStats {
    PcStats {
        base: BaseStats { hp_max: (s.base.hp_max + 10) as u16, hp_current: (s.base.hp_max + 10) as u16 },
        abilities: AbilityScores {
            strength: (s.abilities.strength + 1) as u8,
            dexterity: (s.abilities.dexterity + 1) as u8,
            vitality: (s.abilities.vitality + 1) as u8,
            perception: (s.abilities.perception + 1) as u8,
        },
        level: (s.level + 1) as u8,
        experience: s.experience,
    }
}

impl Entity for PlayerCharacter {
    fn name(&self) -> (n: &str)
        ensures
            n@ == self.base.name@,
    {
        self.base.name.as_str()
    }

    fn id(&self) -> (i: EntityId)
        ensures
            i == self.base.id,
    {
        self.base.id
    }

    fn pos(&self) -> (p: Point)
        ensures
            p == self.base.pos,
    {
        self.base.pos
    }
}

impl Movable for PlayerCharacter {
    fn move_to(&mut self, point: Point)
        ensures
            final(self).base.pos == point,
            final(self).base.id == old(self).base.id,
            final(self).base.name == old(self).base.name,
            final(self).base.glyph == old(self).base.glyph,
            final(self).base.style == old(self).base.style,
            final(self).stats == old(self).stats,
            final(self).inventory@ == old(self).inventory@,
            final(self).class == old(self).class,
            final(self).armor == old(self).armor,
            final(self).weapon == old(self).weapon,
            final(self).active_buffs@ == old(self).active_buffs@,
            final(self).potion_usage@ == old(self).potion_usage@,
    {
        self.base.pos.x = point.x;
        self.base.pos.y = point.y;
    }
}

#[derive(Clone, Copy, Debug, PartialEq, Eq, Structural)]
pub struct PcStats {
    pub base: BaseStats,
    pub abilities: AbilityScores,
    pub level: u8,
    pub experience: u32,
}

impl PcStats {
    /// The statistics of a new level-1 character with all abilities at 1.
    pub fn new() -> (s: Self)
        ensures
            s == spec_stats_from(AbilityScores { strength: 1, dexterity: 1, vitality: 1, perception: 1 }),
    {
        let vitality: u16 = 1;
        let hp_max: u16 = 10 + vitality * 10;
        Self {
            base: BaseStats { hp_max, hp_current: hp_max },
            abilities: AbilityScores::new(1, 1, 1, 1),
            level: 1,
            experience: 0,
        }
    }

    /// The statistics of a level-1 character with the given abilities:
    /// ten hit points plus ten per point of vitality.
    pub fn from_abilities(abilities: AbilityScores) -> (s: Self)
        ensures
            s == spec_stats_from(abilities),
    {
        let hp_max: u16 = 10 + abilities.vitality as u16 * 10;
        Self { base: BaseStats { hp_max, hp_current: hp_max }, abilities, level: 1, experience: 0 }
    }
}

#[derive(Clone, Copy, Debug, PartialEq, Eq, Structural)]
pub struct AbilityScores {
    pub strength: u8,
    pub dexterity: u8,
    pub vitality: u8,
    pub perception: u8,
}

/// The ability scores a class starts with.
pub open spec fn spec_class_abilities(class: CharacterClass) -> AbilityScores {
    match class {
        CharacterClass::Wretch => AbilityScores { strength: 1, dexterity: 1, vitality: 1, perception: 1 },
        CharacterClass::Barbarian => AbilityScores { strength: 3, dexterity: 2, vitality: 1, perception: 1 },
        CharacterClass::Knight => AbilityScores { strength: 2, dexterity: 1, vitality: 3, perception: 1 },
        CharacterClass::Ranger => AbilityScores { strength: 1, dexterity: 1, vitality: 2, perception: 3 },
    }
}

impl AbilityScores {
    pub fn new(strength: u8, dexterity: u8, vitality: u8, perception: u8) -> (a: Self)
        ensures
            a == (AbilityScores { strength, dexterity, vitality, perception }),
    {
        Self { strength, dexterity, vitality, perception }
    }

    /// The ability scores a class starts with.
    pub fn from_class(class: CharacterClass) -> (a: Self)
        ensures
            a == spec_class_abilities(class),
    {
        match class {
            CharacterClass::Wretch => AbilityScores::new(1, 1, 1, 1),
            CharacterClass::Barbarian => AbilityScores::new(3, 2, 1, 1),
            CharacterClass::Knight => AbilityScores::new(2, 1, 3, 1),
            CharacterClass::Ranger => AbilityScores::new(1, 1, 2, 3),
        }
    }
}

/// The playable classes; each determines the starting abilities.
#[derive(Clone, Copy, Debug, PartialEq, Eq, Structural, Default)]
pub enum CharacterClass {
    #[default]
    Wretch,
    Barbarian,
    Knight,
    Ranger,
}

/// The name of a class.
pub open spec fn spec_class_name(class: CharacterClass) -> &'static str {
    match class {
        CharacterClass::Wretch => "Wretch",
        CharacterClass::Barbarian => "Barbarian",
        CharacterClass::Knight => "Knight",
        CharacterClass::Ranger => "Ranger",
    }
}

/// The class a name stands for: a name that is none of the classes' names
/// stands for the Wretch.
pub open spec fn spec_class_from_name(name: Seq<char>) -> CharacterClass {
    if name == "Barbarian"@ {
        CharacterClass::Barbarian
    } else if name == "Knight"@ {
        CharacterClass::Knight
    } else if name == "Ranger"@ {
        CharacterClass::Ranger
    } else {
        CharacterClass::Wretch
    }
}

impl CharacterClass {
    /// The name of the class, as shown to the player.
    pub fn name(&self) -> (s: &'static str)
        ensures
            s == spec_class_name(*self),
    {
        match self {
            CharacterClass::Wretch => "Wretch",
            CharacterClass::Barbarian => "Barbarian",
            CharacterClass::Knight => "Knight",
            CharacterClass::Ranger => "Ranger",
        }
    }

    /// The class with the given name (the Wretch for any other name).
    pub fn from_name(name: &str) -> (c: Self)
        ensures
            c == spec_class_from_name(name@),
    {
        if crate::util::strings::str_eq(name, "Barbarian") {
            CharacterClass::Barbarian
        } else if crate::util::strings::str_eq(name, "Knight") {
            CharacterClass::Knight
        } else if crate::util::strings::str_eq(name, "Ranger") {
            CharacterClass::Ranger
        } else {
            CharacterClass::Wretch
        }
    }
}

/// Whether no dexterity buff adds more than 155: then adding one to a dodge
/// chance (at most 100) never leaves `u8`.
pub open spec fn dex_amounts_small(buffs: Seq<ActiveBuff>) -> bool {
    forall|k: int| 0 <= k < buffs.len() ==> (#[trigger] buffs[k].effect matches PotionEffectDef::Dexterity { amount, .. }
        ==> amount <= 155)
}

/// The dodge chance never exceeds 100.
pub proof fn lemma_dodge_at_most_100(dexterity: u8, buffs: Seq<ActiveBuff>, k: nat)
    ensures
        0 <= dodge_upto(dexterity, buffs, k) <= 100,
    decreases k,
{
    if k > 0 {
        lemma_dodge_at_most_100(dexterity, buffs, (k - 1) as nat);
    }
}

/// Small dexterity buffs keep the dodge chance within `u8`.
pub proof fn lemma_dex_small_dodge_fits(dexterity: u8, buffs: Seq<ActiveBuff>)
    requires
        dex_amounts_small(buffs),
    ensures
        dodge_fits(dexterity, buffs),
{
    assert forall|k: nat| k < buffs.len() implies (#[trigger] buffs[k as int].effect matches PotionEffectDef::Dexterity { amount, .. }
        ==> dodge_upto(dexterity, buffs, k) + amount <= u8::MAX) by {
        lemma_dodge_at_most_100(dexterity, buffs, k);
    }
}

/// A round passing keeps the dexterity buffs small.
pub proof fn lemma_tick_keeps_dex_small(buffs: Seq<ActiveBuff>)
    requires
        dex_amounts_small(buffs),
    ensures
        dex_amounts_small(buffs_after_tick(buffs)),
{
    let m = buffs.map_values(|b: ActiveBuff| ticked(b));
    let after = buffs_after_tick(buffs);
    assert forall|k: int| 0 <= k < after.len() implies (#[trigger] after[k].effect matches PotionEffectDef::Dexterity { amount, .. }
        ==> amount <= 155) by {
        assert(after.contains(after[k]));
        m.lemma_filter_contains_rev(|b: ActiveBuff| b.remaining_turns > 0, after[k]);
        let j = choose|j: int| 0 <= j < m.len() && m[j] == after[k];
        assert(m[j].effect == buffs[j].effect);
    }
}

/// The poison of two buff lists together is the poison of each.
pub proof fn lemma_poison_concat(a: Seq<ActiveBuff>, b: Seq<ActiveBuff>)
    ensures
        poison_upto(a + b, (a + b).len()) == poison_upto(a, a.len()) + poison_upto(b, b.len()),
    decreases b.len(),
{
    if b.len() > 0 {
        let b1 = b.drop_last();
        lemma_poison_concat(a, b1);
        assert((a + b).drop_last() == a + b1);
        lemma_poison_prefix(a + b, (a + b).len() - 1);
        lemma_poison_prefix(b, b.len() - 1);
        assert((a + b)[(a + b).len() - 1] == b[b.len() - 1]);
    }
}

/// The poison of the first `k` buffs only depends on those buffs.
pub proof fn lemma_poison_prefix(s: Seq<ActiveBuff>, k: int)
    requires
        0 <= k <= s.len(),
    ensures
        poison_upto(s, k as nat) == poison_upto(s.take(k), k as nat),
    decreases k,
{
    if k > 0 {
        lemma_poison_prefix(s, k - 1);
        lemma_poison_prefix(s.take(k), k - 1);
        assert(s.take(k).take(k - 1) == s.take(k - 1));
    }
}

} // verus!
