//! Checking, before an input is taken, that the game can take it.

use vstd::prelude::*;

use crate::gameplay::buff_effects::{usage_of, usage_wf, ActiveBuff, PotionEffectDef, PotionType, PotionUsage};
use crate::gameplay::combat::{KILL_EXPERIENCE, MAX_NPC_LEVEL};
use crate::gameplay::game::GameState;
use crate::gameplay::game_items::GameItemKindDef;
use crate::gameplay::player::{
    dex_amounts_small, lemma_dex_small_dodge_fits, melee_bonus_fits, melee_bonus_upto,
    poison_upto, PcStats,
};
use crate::gameplay::player_actions::PlayerInput;
use crate::world::tiles::TileType;
use crate::world::worldspace::{WORLD_HEIGHT, WORLD_WIDTH};

verus! {

/// Whether the strength buffs add up within `i16`, to at most 32743.
fn melee_bonus_in_range(strength: u8, buffs: &Vec<ActiveBuff>) -> (b: bool)
    ensures
        b == (melee_bonus_fits(strength, buffs@) && melee_bonus_upto(strength, buffs@, buffs@.len()) <= 32743),
{
    let mut bonus: i32 = strength as i32;
    let mut i: usize = 0;
    while i < buffs.len()
        invariant
            i <= buffs@.len(),
            bonus == melee_bonus_upto(strength, buffs@, i as nat),
            i16::MIN <= bonus <= i16::MAX,
            forall|k: nat| k < i ==> (#[trigger] buffs@[k as int].effect matches PotionEffectDef::Strength { amount, .. }
                ==> melee_bonus_upto(strength, buffs@, k) + amount <= i16::MAX),
        decreases buffs@.len() - i,
    {
        proof {
            assert(buffs@[i as int].effect == buffs@[(i + 1) - 1].effect);
        }
        match buffs[i].effect {
            PotionEffectDef::Strength { amount, .. } => {
                if bonus + amount as i32 > i16::MAX as i32 {
                    return false;
                }
                bonus = bonus + amount as i32;
            },
            PotionEffectDef::Fatigue { strength_penalty, .. } => {
                bonus = if bonus - strength_penalty as i32 >= i16::MIN as i32 {
                    bonus - strength_penalty as i32
                } else {
                    i16::MIN as i32
                };
            },
            _ => {},
        }
        i = i + 1;
    }
    bonus <= 32743
}

/// Whether every dexterity buff is small.
fn dex_buffs_small(buffs: &Vec<ActiveBuff>) -> (b: bool)
    ensures
        b == dex_amounts_small(buffs@),
{
    let mut i: usize = 0;
    while i < buffs.len()
        invariant
            i <= buffs@.len(),
            forall|k: int| 0 <= k < i ==> (#[trigger] buffs@[k].effect matches PotionEffectDef::Dexterity { amount, .. }
                ==> amount <= 155),
        decreases buffs@.len() - i,
    {
        if let PotionEffectDef::Dexterity { amount, .. } = buffs[i].effect {
            if amount > 155 {
                return false;
            }
        }
        i = i + 1;
    }
    true
}

/// Poison damage only adds up.
proof fn lemma_poison_grows(buffs: Seq<ActiveBuff>, a: nat, b: nat)
    requires
        a <= b <= buffs.len(),
    ensures
        poison_upto(buffs, a) <= poison_upto(buffs, b),
    decreases b - a,
{
    if a < b {
        lemma_poison_grows(buffs, a, (b - 1) as nat);
    }
}

/// Whether the poison damage, two more included, fits `u16`.
fn poison_has_room(buffs: &Vec<ActiveBuff>) -> (b: bool)
    ensures
        b == (poison_upto(buffs@, buffs@.len()) + 2 <= u16::MAX),
{
    let mut total: u32 = 0;
    let mut i: usize = 0;
    while i < buffs.len()
        invariant
            i <= buffs@.len(),
            total == poison_upto(buffs@, i as nat),
            total + 2 <= u16::MAX,
        decreases buffs@.len() - i,
    {
        proof {
            assert(buffs@[i as int].effect == buffs@[(i + 1) - 1].effect);
        }
        if let PotionEffectDef::Poison { damage_per_tick, .. } = buffs[i].effect {
            if total + damage_per_tick as u32 + 2 > u16::MAX as u32 {
                proof {
                    lemma_poison_grows(buffs@, (i + 1) as nat, buffs@.len());
                }
                return false;
            }
            total = total + damage_per_tick as u32;
        }
        i = i + 1;
    }
    true
}

/// The record of a kind of potion is the first one listed for it.
proof fn lemma_usage_of_entry(usage: Seq<(PotionType, PotionUsage)>, t: PotionType)
    ensures
        usage_of(usage, t) matches Some(u) ==> exists|i: int| 0 <= i < usage.len() && usage[i] == (t, u),
    decreases usage.len(),
{
    if usage.len() > 0 && usage[0].0 != t {
        lemma_usage_of_entry(usage.drop_first(), t);
        if let Some(u) = usage_of(usage, t) {
            let i = choose|i: int| 0 <= i < usage.drop_first().len() && usage.drop_first()[i] == (t, u);
            assert(usage[i + 1] == (t, u));
        }
    }
}

/// Where each kind has one record, every record is the one found for it.
proof fn lemma_usage_entry_found(usage: Seq<(PotionType, PotionUsage)>, i: int)
    requires
        usage_wf(usage),
        0 <= i < usage.len(),
    ensures
        usage_of(usage, usage[i].0) == Some(usage[i].1),
    decreases usage.len(),
{
    if i > 0 {
        let rest = usage.drop_first();
        assert(usage_wf(rest)) by {
            assert forall|a: int, b: int| 0 <= a < b < rest.len() implies rest[a].0 != rest[b].0 by {
                assert(rest[a] == usage[a + 1] && rest[b] == usage[b + 1]);
            }
        }
        assert(rest[i - 1] == usage[i]);
        lemma_usage_entry_found(rest, i - 1);
        assert(usage[0].0 != usage[i].0);
    }
}

impl GameState {
    /// Whether each kind of potion has one record, and each record can
    /// count one more potion drunk no later than now.
    fn potion_usage_ok(&self) -> (b: bool)
        ensures
            b == self.potion_usage_fits(),
    {
        let usage = &self.player.character.potion_usage;
        let mut i: usize = 0;
        while i < usage.len()
            invariant
                i <= usage@.len(),
                usage@ == self.player.character.potion_usage@,
                forall|a: int, b: int| 0 <= a < b < usage@.len() && a < i ==> usage@[a].0 != usage@[b].0,
                forall|a: int| 0 <= a < i ==> (#[trigger] usage@[a]).1.count < u8::MAX
                    && usage@[a].1.last_used <= self.round_nr,
            decreases usage@.len() - i,
        {
            let mut j: usize = i + 1;
            while j < usage.len()
                invariant
                    i < j <= usage@.len(),
                    usage@ == self.player.character.potion_usage@,
                    forall|b: int| i < b < j ==> usage@[i as int].0 != usage@[b].0,
                decreases usage@.len() - j,
            {
                if usage[i].0 == usage[j].0 {
                    proof {
                        assert(!usage_wf(usage@));
                    }
                    return false;
                }
                j = j + 1;
            }
            if usage[i].1.count == u8::MAX || usage[i].1.last_used > self.round_nr {
                proof {
                    assert(forall|a: int, b: int| 0 <= a < b < usage@.len() && a <= i ==> usage@[a].0 != usage@[b].0);
                    if usage_wf(usage@) {
                        lemma_usage_entry_found(usage@, i as int);
                        assert(usage_of(usage@, usage@[i as int].0) == Some(usage@[i as int].1));
                    }
                }
                return false;
            }
            i = i + 1;
        }
        proof {
            assert forall|t: PotionType| (#[trigger] usage_of(usage@, t)) is Some
                implies usage_of(usage@, t).unwrap().count < u8::MAX && usage_of(usage@, t).unwrap().last_used <= self.round_nr by {
                lemma_usage_of_entry(usage@, t);
            }
        }
        true
    }

    /// Whether the game can take any input: see [GameState::ready_for_action].
    /// (The levels' consistency, which every operation of the game keeps,
    /// is taken for granted.)
    pub fn is_ready_for_action(&self) -> (b: bool)
        requires
            self.wf(),
        ensures
            b == self.ready_for_action(),
    {
        let c = &self.player.character;
        let stats: PcStats = c.stats;
        let can_gain = stats.experience as u64 + KILL_EXPERIENCE as u64 <= u32::MAX as u64
            && stats.level < u8::MAX && stats.abilities.strength < u8::MAX && stats.abilities.dexterity < u8::MAX
            && stats.abilities.vitality < u8::MAX && stats.abilities.perception < u8::MAX
            && stats.base.hp_max as u32 + 10 <= u16::MAX as u32;
        let dex_small = dex_buffs_small(&c.active_buffs);
        proof {
            if dex_small {
                lemma_dex_small_dodge_fits(stats.abilities.dexterity, c.active_buffs@);
            }
        }
        c.base.pos.x < WORLD_WIDTH && c.base.pos.y < WORLD_HEIGHT && dex_small
            && self.level_nr < MAX_NPC_LEVEL
            && melee_bonus_in_range(stats.abilities.strength, &c.active_buffs)
            && can_gain
            && self.potion_usage_ok()
            && poison_has_room(&c.active_buffs)
            && self.round_nr < u64::MAX
            && self.id_system.next_entity_id_available()
            && self.current_level().item_sprites.len() < usize::MAX
    }

    /// Whether the game can take the input `input`: see
    /// [GameState::ready_for_input]. (The levels' consistency is taken for
    /// granted.)
    pub fn is_ready_for_input(&self, input: PlayerInput) -> (b: bool)
        requires
            self.wf(),
        ensures
            b == self.ready_for_input(input),
    {
        if !self.is_ready_for_action() {
            return false;
        }
        match input {
            PlayerInput::UseItem(id) => {
                match self.get_item_by_id(id) {
                    Some(item) => match self.get_item_def_by_id(&item.def_id) {
                        Some(def) => match def.kind {
                            GameItemKindDef::Food { nutrition } =>
                                self.player.character.stats.base.hp_current as u32 + nutrition as u32 <= u16::MAX as u32,
                            _ => true,
                        },
                        None => true,
                    },
                    None => true,
                }
            },
            PlayerInput::Direction(d) => {
                let t = self.player.character.base.pos.get_adjacent(d);
                if !self.current_world().is_in_bounds(t.x as isize, t.y as isize) {
                    return true;
                }
                proof {
                    assert(t.y * 100 + t.x < 2500) by (nonlinear_arith)
                        requires t.x < 100, t.y < 25;
                }
                match self.current_world().get_tile(t).tile_type {
                    TileType::StairsUp => self.level_nr >= 1,
                    _ => true,
                }
            },
            _ => true,
        }
    }
}

} // verus!
