//! Potions and the effects they leave on the player character.

use vstd::prelude::*;

use crate::gameplay::entity_logic::hp_after_heal;
use crate::gameplay::game::GameState;
use crate::util::strings::{decimal, join, spec_decimal};
use crate::util::text_log::LogData;

verus! {

/// The kinds of potion effects.
#[derive(Clone, Copy, Debug, PartialEq, Eq, Structural, Hash)]
pub enum PotionType {
    Heal,
    Strength,
    Dexterity,
    Poison,
    Fatigue,
    Cramp,
}

/// A potion effect and its strength.
#[derive(Clone, Copy, Debug, PartialEq, Eq, Structural)]
pub enum PotionEffectDef {
    Heal { amount: u16 },
    Strength { amount: u8, duration: u8 },
    Dexterity { amount: u8, duration: u8 },
    Poison { damage_per_tick: u16, duration: u8 },
    Fatigue { strength_penalty: u8, duration: u8 },
    Cramp { dexterity_penalty: u8, duration: u8 },
}

/// How often a kind of potion was drunk, and in which round last.
#[derive(Clone, Copy, Debug, PartialEq, Eq, Structural)]
pub struct PotionUsage {
    pub count: u8,
    pub last_used: u64,
}

/// An effect that lasts for some more rounds.
#[derive(Clone, Copy, Debug, PartialEq, Eq, Structural)]
pub struct ActiveBuff {
    pub effect: PotionEffectDef,
    pub remaining_turns: u8,
}

/// The kind of a potion effect.
pub open spec fn spec_potion_type(effect: PotionEffectDef) -> PotionType {
    match effect {
        PotionEffectDef::Heal { .. } => PotionType::Heal,
        PotionEffectDef::Strength { .. } => PotionType::Strength,
        PotionEffectDef::Dexterity { .. } => PotionType::Dexterity,
        PotionEffectDef::Poison { .. } => PotionType::Poison,
        PotionEffectDef::Fatigue { .. } => PotionType::Fatigue,
        PotionEffectDef::Cramp { .. } => PotionType::Cramp,
    }
}

impl PotionEffectDef {
    /// The kind of the effect.
    pub fn potion_type(&self) -> (t: PotionType)
        ensures
            t == spec_potion_type(*self),
    {
        match self {
            PotionEffectDef::Heal { .. } => PotionType::Heal,
            PotionEffectDef::Strength { .. } => PotionType::Strength,
            PotionEffectDef::Dexterity { .. } => PotionType::Dexterity,
            PotionEffectDef::Poison { .. } => PotionType::Poison,
            PotionEffectDef::Fatigue { .. } => PotionType::Fatigue,
            PotionEffectDef::Cramp { .. } => PotionType::Cramp,
        }
    }
}

/// The usage record of a kind of potion, if it was drunk before.
pub open spec fn usage_of(usage: Seq<(PotionType, PotionUsage)>, t: PotionType) -> Option<PotionUsage>
    decreases usage.len(),
{
    if usage.len() == 0 {
        None
    } else if usage[0].0 == t {
        Some(usage[0].1)
    } else {
        usage_of(usage.drop_first(), t)
    }
}

/// Each kind of potion has at most one usage record.
pub open spec fn usage_wf(usage: Seq<(PotionType, PotionUsage)>) -> bool {
    forall|i: int, j: int| 0 <= i < j < usage.len() ==> usage[i].0 != usage[j].0
}

/// The poison an overdose of healing potions brings.
pub open spec fn heal_overdose() -> ActiveBuff {
    ActiveBuff { effect: PotionEffectDef::Poison { damage_per_tick: 2, duration: 10 }, remaining_turns: 10 }
}

/// The poison an overdose of strength or dexterity potions brings.
pub open spec fn boost_overdose() -> ActiveBuff {
    ActiveBuff { effect: PotionEffectDef::Poison { damage_per_tick: 2, duration: 5 }, remaining_turns: 5 }
}

/// The buffs a potion adds when it is the `count`-th of its kind drunk,
/// `since` rounds after the one before. Healing heals; from the third
/// healing potion within 30 rounds on, it also poisons. From the third
/// strength (dexterity) potion on, it fatigues (cramps) by half its amount
/// instead, and from the fourth on it also poisons.
pub open spec fn potion_buffs(effect: PotionEffectDef, count: u8, since: u64) -> Seq<ActiveBuff> {
    match effect {
        PotionEffectDef::Heal { .. } =>
            if count >= 3 && since < 30 { seq![heal_overdose()] } else { seq![] },
        PotionEffectDef::Strength { amount, duration } =>
            if count < 3 {
                seq![ActiveBuff { effect, remaining_turns: duration }]
            } else {
                seq![ActiveBuff { effect: PotionEffectDef::Fatigue { strength_penalty: amount / 2, duration },
                    remaining_turns: duration }] + if count >= 4 { seq![boost_overdose()] } else { seq![] }
            },
        PotionEffectDef::Dexterity { amount, duration } =>
            if count < 3 {
                seq![ActiveBuff { effect, remaining_turns: duration }]
            } else {
                seq![ActiveBuff { effect: PotionEffectDef::Cramp { dexterity_penalty: amount / 2, duration },
                    remaining_turns: duration }] + if count >= 4 { seq![boost_overdose()] } else { seq![] }
            },
        PotionEffectDef::Poison { duration, .. } => seq![ActiveBuff { effect, remaining_turns: duration }],
        PotionEffectDef::Fatigue { duration, .. } => seq![ActiveBuff { effect, remaining_turns: duration }],
        PotionEffectDef::Cramp { duration, .. } => seq![ActiveBuff { effect, remaining_turns: duration }],
    }
}

/// The message for a strength potion.
pub open spec fn strength_message(amount: u8, duration: u8) -> Seq<char> {
    "Strength increased by "@ + spec_decimal(amount as nat) + " for "@ + spec_decimal(duration as nat) + " turns."@
}

/// The message for a strength potion too many.
pub open spec fn fatigue_message(penalty: u8, duration: u8) -> Seq<char> {
    "Fatigued! Strength reduced by "@ + spec_decimal(penalty as nat) + " for "@ + spec_decimal(duration as nat) + " turns."@
}

/// The message for a dexterity potion.
pub open spec fn dexterity_message(amount: u8, duration: u8) -> Seq<char> {
    "Dexterity increased by "@ + spec_decimal(amount as nat) + " for "@ + spec_decimal(duration as nat) + " turns."@
}

/// The message for a dexterity potion too many.
pub open spec fn cramp_message(penalty: u8, duration: u8) -> Seq<char> {
    "You have cramps! Dexterity reduced by "@ + spec_decimal(penalty as nat) + " for "@ + spec_decimal(duration as nat) + " turns."@
}

/// Whether `after` is the log `before` after drinking the potion: what it
/// tells, one entry each, and "overdose" where it poisons.
pub open spec fn potion_log(before: Seq<LogData>, after: Seq<LogData>, effect: PotionEffectDef, count: u8, since: u64) -> bool {
    match effect {
        PotionEffectDef::Heal { amount } =>
            after == before.push(LogData::PlayerHealed { amount })
                + if count >= 3 && since < 30 { seq![LogData::Overdose] } else { seq![] },
        PotionEffectDef::Strength { amount, duration } => {
            let text = if count < 3 { strength_message(amount, duration) } else { fatigue_message(amount / 2, duration) };
            &&& after.len() == before.len() + 1 + (if count >= 4 { 1int } else { 0 })
            &&& after.take(before.len() as int) == before
            &&& after[before.len() as int] matches LogData::Plain(t) && t@ == text
            &&& count >= 4 ==> after.last() == LogData::Overdose
        },
        PotionEffectDef::Dexterity { amount, duration } => {
            let text = if count < 3 { dexterity_message(amount, duration) } else { cramp_message(amount / 2, duration) };
            &&& after.len() == before.len() + 1 + (if count >= 4 { 1int } else { 0 })
            &&& after.take(before.len() as int) == before
            &&& after[before.len() as int] matches LogData::Plain(t) && t@ == text
            &&& count >= 4 ==> after.last() == LogData::Overdose
        },
        _ => after == before,
    }
}

/// The text "`first` `a` `middle` `b` `last`", with the numbers in decimal.
fn numbered_message(first: &str, a: u8, middle: &str, b: u8, last: &str) -> (s: String)
    ensures
        s@ == first@ + spec_decimal(a as nat) + middle@ + spec_decimal(b as nat) + last@,
{
    let s1 = join(first, decimal(a as u64).as_str());
    let s2 = join(s1.as_str(), middle);
    let s3 = join(s2.as_str(), decimal(b as u64).as_str());
    let s4 = join(s3.as_str(), last);
    proof {
        assert(s4@ =~= first@ + spec_decimal(a as nat) + middle@ + spec_decimal(b as nat) + last@);
    }
    s4
}

impl GameState {
    /// Counts one more potion of the given kind as drunk in this round, and
    /// returns how many were drunk with it, and how many rounds ago the one
    /// before was (0 for the first).
    fn count_potion_use(&mut self, potion_type: PotionType) -> (r: (u8, u64))
        requires
            usage_wf(old(self).player.character.potion_usage@),
            usage_of(old(self).player.character.potion_usage@, potion_type) matches Some(u) ==>
                u.count < u8::MAX && u.last_used <= old(self).round_nr,
        ensures
            usage_wf(final(self).player.character.potion_usage@),
            r.0 == match usage_of(old(self).player.character.potion_usage@, potion_type) {
                Some(u) => (u.count + 1) as u8,
                None => 1u8,
            },
            r.1 == match usage_of(old(self).player.character.potion_usage@, potion_type) {
                Some(u) => (old(self).round_nr - u.last_used) as u64,
                None => 0u64,
            },
            usage_of(final(self).player.character.potion_usage@, potion_type)
                == Some(PotionUsage { count: r.0, last_used: old(self).round_nr }),
            forall|t: PotionType| t != potion_type ==> usage_of(final(self).player.character.potion_usage@, t)
                == usage_of(old(self).player.character.potion_usage@, t),
            final(self).player.character.base == old(self).player.character.base,
            final(self).player.character.stats == old(self).player.character.stats,
            final(self).player.character.inventory@ == old(self).player.character.inventory@,
            final(self).player.character.class == old(self).player.character.class,
            final(self).player.character.armor == old(self).player.character.armor,
            final(self).player.character.weapon == old(self).player.character.weapon,
            final(self).player.character.active_buffs@ == old(self).player.character.active_buffs@,
            final(self).player.name == old(self).player.name,
            final(self).levels == old(self).levels,
            final(self).level_nr == old(self).level_nr,
            final(self).cursor == old(self).cursor,
            final(self).log == old(self).log,
            final(self).round_nr == old(self).round_nr,
            final(self).id_system == old(self).id_system,
            final(self).items == old(self).items,
            final(self).rng == old(self).rng,
            final(self).proc_gen == old(self).proc_gen,
            final(self).game_rules == old(self).game_rules,
    {
        let round = self.round_nr;
        let ghost usage = self.player.character.potion_usage@;
        let mut i: usize = 0;
        while i < self.player.character.potion_usage.len()
            invariant
                i <= usage.len(),
                usage == self.player.character.potion_usage@,
                *self == *old(self),
                round == old(self).round_nr,
                usage_wf(usage),
                usage_of(usage, potion_type) matches Some(u) ==> u.count < u8::MAX && u.last_used <= round,
                forall|j: int| 0 <= j < i ==> usage[j].0 != potion_type,
            decreases usage.len() - i,
        {
            let entry = self.player.character.potion_usage[i];
            if entry.0 == potion_type {
                proof {
                    lemma_usage_found(usage, i as int, potion_type);
                }
                let count = entry.1.count + 1;
                let since = round - entry.1.last_used;
                let record = (potion_type, PotionUsage { count, last_used: round });
                self.player.character.potion_usage.set(i, record);
                proof {
                    lemma_usage_found(usage.update(i as int, record), i as int, potion_type);
                    assert forall|a: int, b: int| 0 <= a < b < usage.len() implies
                        usage.update(i as int, record)[a].0 != usage.update(i as int, record)[b].0 by {
                        assert(usage.update(i as int, record)[a].0 == usage[a].0);
                        assert(usage.update(i as int, record)[b].0 == usage[b].0);
                    }
                    assert forall|t: PotionType| t != potion_type implies
                        usage_of(usage.update(i as int, record), t) == usage_of(usage, t) by {
                        lemma_usage_update_other(usage, i as int, record, t);
                    }
                }
                return (count, since);
            }
            i = i + 1;
        }
        proof {
            lemma_usage_none(usage, potion_type);
        }
        let record = (potion_type, PotionUsage { count: 1, last_used: round });
        self.player.character.potion_usage.push(record);
        proof {
            lemma_usage_found(usage.push(record), usage.len() as int, potion_type);
            assert forall|t: PotionType| t != potion_type implies
                usage_of(usage.push(record), t) == usage_of(usage, t) by {
                lemma_usage_push_other(usage, record, t);
            }
        }
        (1, 0)
    }

    /// Drinks a potion: heals, or adds buffs, as [potion_buffs] says, and
    /// tells the player.
    pub fn apply_potion_effect(&mut self, effect: PotionEffectDef)
        requires
            usage_wf(old(self).player.character.potion_usage@),
            usage_of(old(self).player.character.potion_usage@, spec_potion_type(effect)) matches Some(u) ==>
                u.count < u8::MAX && u.last_used <= old(self).round_nr,
        ensures
            usage_wf(final(self).player.character.potion_usage@),
            ({
                let old_usage = usage_of(old(self).player.character.potion_usage@, spec_potion_type(effect));
                let count: u8 = match old_usage { Some(u) => (u.count + 1) as u8, None => 1u8 };
                let since: u64 = match old_usage { Some(u) => (old(self).round_nr - u.last_used) as u64, None => 0u64 };
                &&& usage_of(final(self).player.character.potion_usage@, spec_potion_type(effect))
                        == Some(PotionUsage { count, last_used: old(self).round_nr })
                &&& final(self).player.character.active_buffs@
                        == old(self).player.character.active_buffs@ + potion_buffs(effect, count, since)
                &&& potion_log(old(self).log.messages@, final(self).log.messages@, effect, count, since)
            }),
            forall|t: PotionType| t != spec_potion_type(effect) ==> usage_of(final(self).player.character.potion_usage@, t)
                == usage_of(old(self).player.character.potion_usage@, t),
            final(self).player.character.stats.base.hp_current == match effect {
                PotionEffectDef::Heal { amount } => hp_after_heal(old(self).player.character.stats.base.hp_current,
                    old(self).player.character.stats.base.hp_max, amount),
                _ => old(self).player.character.stats.base.hp_current,
            },
            final(self).player.character.stats.base.hp_max == old(self).player.character.stats.base.hp_max,
            final(self).player.character.stats.abilities == old(self).player.character.stats.abilities,
            final(self).player.character.stats.level == old(self).player.character.stats.level,
            final(self).player.character.stats.experience == old(self).player.character.stats.experience,
            final(self).player.character.base == old(self).player.character.base,
            final(self).player.character.inventory@ == old(self).player.character.inventory@,
            final(self).player.character.armor == old(self).player.character.armor,
            final(self).player.character.weapon == old(self).player.character.weapon,
            final(self).player.name == old(self).player.name,
            final(self).levels == old(self).levels,
            final(self).level_nr == old(self).level_nr,
            final(self).cursor == old(self).cursor,
            final(self).round_nr == old(self).round_nr,
            final(self).id_system == old(self).id_system,
            final(self).items == old(self).items,
            final(self).rng == old(self).rng,
            final(self).proc_gen == old(self).proc_gen,
            final(self).game_rules == old(self).game_rules,
            final(self).log.print_debug_info == old(self).log.print_debug_info,
    {
        let potion_type = effect.potion_type();
        let (usage_count, rounds_since_last_use) = self.count_potion_use(potion_type);
        let ghost buffs_before = self.player.character.active_buffs@;
        let ghost log_before = self.log.messages@;

        match effect {
            PotionEffectDef::Heal { amount } => {
                self.player.character.heal(amount);
                self.log.info(LogData::PlayerHealed { amount });
                if usage_count >= 3 && rounds_since_last_use < 30 {
                    self.player.character.active_buffs.push(ActiveBuff {
                        effect: PotionEffectDef::Poison { damage_per_tick: 2, duration: 10 },
                        remaining_turns: 10,
                    });
                    self.log.info(LogData::Overdose);
                }
                proof {
                    assert(self.player.character.active_buffs@ =~= buffs_before
                        + potion_buffs(effect, usage_count, rounds_since_last_use));
                    assert(self.log.messages@ =~= log_before.push(LogData::PlayerHealed { amount })
                        + if usage_count >= 3 && rounds_since_last_use < 30 { seq![LogData::Overdose] } else { seq![] });
                }
            },
            PotionEffectDef::Strength { amount, duration } => {
                if usage_count < 3 {
                    self.player.character.active_buffs.push(ActiveBuff { effect, remaining_turns: duration });
                    let message = numbered_message("Strength increased by ", amount, " for ", duration, " turns.");
                    self.log.info(LogData::Plain(message));
                } else {
                    let strength_penalty: u8 = amount / 2;
                    self.player.character.active_buffs.push(ActiveBuff {
                        effect: PotionEffectDef::Fatigue { strength_penalty, duration },
                        remaining_turns: duration,
                    });
                    let message = numbered_message("Fatigued! Strength reduced by ", strength_penalty, " for ",
                        duration, " turns.");
                    self.log.info(LogData::Plain(message));
                    if usage_count >= 4 {
                        self.player.character.active_buffs.push(ActiveBuff {
                            effect: PotionEffectDef::Poison { damage_per_tick: 2, duration: 5 },
                            remaining_turns: 5,
                        });
                        self.log.info(LogData::Overdose);
                    }
                }
                proof {
                    assert(self.player.character.active_buffs@ =~= buffs_before
                        + potion_buffs(effect, usage_count, rounds_since_last_use));
                    assert(self.log.messages@.take(log_before.len() as int) =~= log_before);
                }
            },
            PotionEffectDef::Dexterity { amount, duration } => {
                if usage_count < 3 {
                    self.player.character.active_buffs.push(ActiveBuff { effect, remaining_turns: duration });
                    let message = numbered_message("Dexterity increased by ", amount, " for ", duration, " turns.");
                    self.log.info(LogData::Plain(message));
                } else {
                    let dexterity_penalty: u8 = amount / 2;
                    self.player.character.active_buffs.push(ActiveBuff {
                        effect: PotionEffectDef::Cramp { dexterity_penalty, duration },
                        remaining_turns: duration,
                    });
                    let message = numbered_message("You have cramps! Dexterity reduced by ", dexterity_penalty,
                        " for ", duration, " turns.");
                    self.log.info(LogData::Plain(message));
                    if usage_count >= 4 {
                        self.player.character.active_buffs.push(ActiveBuff {
                            effect: PotionEffectDef::Poison { damage_per_tick: 2, duration: 5 },
                            remaining_turns: 5,
                        });
                        self.log.info(LogData::Overdose);
                    }
                }
                proof {
                    assert(self.player.character.active_buffs@ =~= buffs_before
                        + potion_buffs(effect, usage_count, rounds_since_last_use));
                    assert(self.log.messages@.take(log_before.len() as int) =~= log_before);
                }
            },
            PotionEffectDef::Poison { duration, .. } => {
                self.player.character.active_buffs.push(ActiveBuff { effect, remaining_turns: duration });
                proof {
                    assert(self.player.character.active_buffs@ =~= buffs_before
                        + potion_buffs(effect, usage_count, rounds_since_last_use));
                }
            },
            PotionEffectDef::Fatigue { duration, .. } => {
                self.player.character.active_buffs.push(ActiveBuff { effect, remaining_turns: duration });
                proof {
                    assert(self.player.character.active_buffs@ =~= buffs_before
                        + potion_buffs(effect, usage_count, rounds_since_last_use));
                }
            },
            PotionEffectDef::Cramp { duration, .. } => {
                self.player.character.active_buffs.push(ActiveBuff { effect, remaining_turns: duration });
                proof {
                    assert(self.player.character.active_buffs@ =~= buffs_before
                        + potion_buffs(effect, usage_count, rounds_since_last_use));
                }
            },
        }
    }
}

/// The record found for a kind is the first one of that kind.
proof fn lemma_usage_found(usage: Seq<(PotionType, PotionUsage)>, i: int, t: PotionType)
    requires
        0 <= i < usage.len(),
        usage[i].0 == t,
        forall|j: int| 0 <= j < i ==> usage[j].0 != t,
    ensures
        usage_of(usage, t) == Some(usage[i].1),
    decreases i,
{
    if i > 0 {
        assert forall|j: int| 0 <= j < i - 1 implies usage.drop_first()[j].0 != t by {
            assert(usage.drop_first()[j] == usage[j + 1]);
        }
        lemma_usage_found(usage.drop_first(), i - 1, t);
    }
}

/// A kind that occurs nowhere has no record.
proof fn lemma_usage_none(usage: Seq<(PotionType, PotionUsage)>, t: PotionType)
    requires
        forall|j: int| 0 <= j < usage.len() ==> usage[j].0 != t,
    ensures
        usage_of(usage, t) is None,
    decreases usage.len(),
{
    if usage.len() > 0 {
        assert forall|j: int| 0 <= j < usage.len() - 1 implies usage.drop_first()[j].0 != t by {
            assert(usage.drop_first()[j] == usage[j + 1]);
        }
        lemma_usage_none(usage.drop_first(), t);
    }
}

/// Replacing a record by one of the same kind leaves the other kinds' records.
proof fn lemma_usage_update_other(usage: Seq<(PotionType, PotionUsage)>, i: int, record: (PotionType, PotionUsage), t: PotionType)
    requires
        0 <= i < usage.len(),
        usage[i].0 == record.0,
        t != record.0,
    ensures
        usage_of(usage.update(i, record), t) == usage_of(usage, t),
    decreases usage.len(),
{
    let u = usage.update(i, record);
    if i == 0 {
        assert(u.drop_first() =~= usage.drop_first());
        assert(u[0].0 != t);
    } else {
        assert(u[0] == usage[0]);
        assert(u.drop_first() =~= usage.drop_first().update(i - 1, record));
        lemma_usage_update_other(usage.drop_first(), i - 1, record, t);
    }
}

/// Adding a record leaves the other kinds' records.
proof fn lemma_usage_push_other(usage: Seq<(PotionType, PotionUsage)>, record: (PotionType, PotionUsage), t: PotionType)
    requires
        t != record.0,
    ensures
        usage_of(usage.push(record), t) == usage_of(usage, t),
    decreases usage.len(),
{
    let u = usage.push(record);
    if usage.len() == 0 {
        assert(u[0] == record);
        assert(u.drop_first().len() == 0);
        assert(usage_of(u.drop_first(), t) is None);
        assert(usage_of(u, t) == usage_of(u.drop_first(), t));
    } else {
        assert(u[0] == usage[0]);
        assert(u.drop_first() =~= usage.drop_first().push(record));
        lemma_usage_push_other(usage.drop_first(), record, t);
    }
}

} // verus!
