//! The definitions of the npcs of the game.

use vstd::prelude::*;

use crate::gameplay::entity_logic::{BaseStats, NpcStats};
use crate::util::strings::str_eq;
use crate::world::tiles::Color;

verus! {

/// The identifier of an npc definition.
pub type NpcDefId = String;

/// What every npc of a kind starts out as.
#[derive(Clone, Copy, Debug)]
pub struct NpcDef {
    pub name: &'static str,
    pub glyph: char,
    pub style: Color,
    pub stats: NpcStats,
}

/// The number of npc definitions.
pub const NPC_DEF_COUNT: usize = 12;

/// An npc definition from its name, look and statistics (starting at full health).
pub open spec fn npc_def(name: &'static str, glyph: char, style: Color, hp: u16, damage: u16, dodge: u8, mitigation: u16) -> NpcDef {
    NpcDef { name, glyph, style, stats: NpcStats { base: BaseStats { hp_max: hp, hp_current: hp }, damage, dodge, mitigation } }
}

fn make_npc_def(name: &'static str, glyph: char, style: Color, hp: u16, damage: u16, dodge: u8, mitigation: u16) -> (d: NpcDef)
    ensures
        d == npc_def(name, glyph, style, hp, damage, dodge, mitigation),
{
    NpcDef { name, glyph, style, stats: NpcStats { base: BaseStats { hp_max: hp, hp_current: hp }, damage, dodge, mitigation } }
}

/// The identifier of the `k`-th npc definition.
pub open spec fn spec_npc_def_id(k: int) -> &'static str {
    if k == 0 {
        "goblin"
    } else if k == 1 {
        "funny_frog"
    } else if k == 2 {
        "orc"
    } else if k == 3 {
        "skeleton"
    } else if k == 4 {
        "giant_rat"
    } else if k == 5 {
        "bandit"
    } else if k == 6 {
        "dark_mage"
    } else if k == 7 {
        "wolf"
    } else if k == 8 {
        "slime"
    } else if k == 9 {
        "zombie"
    } else if k == 10 {
        "assassin"
    } else {
        "cultist"
    }
}

/// The npc defined under an identifier, if any.
pub open spec fn spec_npc_def(id: Seq<char>) -> Option<NpcDef> {
    if id == "goblin"@ {
        Some(npc_def("Goblin", 'g', Color::Green, 10, 2, 10, 0))
    } else if id == "funny_frog"@ {
        Some(npc_def("Funny Frog", 'f', Color::LightGreen, 5, 0, 20, 0))
    } else if id == "orc"@ {
        Some(npc_def("Orc", 'O', Color::Gray, 20, 5, 0, 2))
    } else if id == "skeleton"@ {
        Some(npc_def("Skeleton", 's', Color::Gray, 12, 3, 5, 1))
    } else if id == "giant_rat"@ {
        Some(npc_def("Giant Albino Rat", 'R', Color::White, 8, 2, 15, 0))
    } else if id == "bandit"@ {
        Some(npc_def("Bandit", 'B', Color::Yellow, 16, 4, 10, 1))
    } else if id == "dark_mage"@ {
        Some(npc_def("Dark Mage", 'M', Color::Magenta, 10, 6, 5, 0))
    } else if id == "wolf"@ {
        Some(npc_def("Wolf", 'W', Color::Gray, 14, 4, 20, 0))
    } else if id == "slime"@ {
        Some(npc_def("Slime", 'S', Color::Blue, 18, 3, 0, 3))
    } else if id == "zombie"@ {
        Some(npc_def("Zombie", 'Z', Color::Green, 22, 4, 0, 2))
    } else if id == "assassin"@ {
        Some(npc_def("Assassin", 'A', Color::Red, 12, 7, 25, 0))
    } else if id == "cultist"@ {
        Some(npc_def("Cultist", 'C', Color::Red, 14, 5, 8, 1))
    } else {
        None
    }
}

/// The npc defined under an identifier, if any.
pub fn get_npc_def(id: &str) -> (r: Option<NpcDef>)
    ensures
        r == spec_npc_def(id@),
{
    if str_eq(id, "goblin") {
        Some(make_npc_def("Goblin", 'g', Color::Green, 10, 2, 10, 0))
    } else if str_eq(id, "funny_frog") {
        Some(make_npc_def("Funny Frog", 'f', Color::LightGreen, 5, 0, 20, 0))
    } else if str_eq(id, "orc") {
        Some(make_npc_def("Orc", 'O', Color::Gray, 20, 5, 0, 2))
    } else if str_eq(id, "skeleton") {
        Some(make_npc_def("Skeleton", 's', Color::Gray, 12, 3, 5, 1))
    } else if str_eq(id, "giant_rat") {
        Some(make_npc_def("Giant Albino Rat", 'R', Color::White, 8, 2, 15, 0))
    } else if str_eq(id, "bandit") {
        Some(make_npc_def("Bandit", 'B', Color::Yellow, 16, 4, 10, 1))
    } else if str_eq(id, "dark_mage") {
        Some(make_npc_def("Dark Mage", 'M', Color::Magenta, 10, 6, 5, 0))
    } else if str_eq(id, "wolf") {
        Some(make_npc_def("Wolf", 'W', Color::Gray, 14, 4, 20, 0))
    } else if str_eq(id, "slime") {
        Some(make_npc_def("Slime", 'S', Color::Blue, 18, 3, 0, 3))
    } else if str_eq(id, "zombie") {
        Some(make_npc_def("Zombie", 'Z', Color::Green, 22, 4, 0, 2))
    } else if str_eq(id, "assassin") {
        Some(make_npc_def("Assassin", 'A', Color::Red, 12, 7, 25, 0))
    } else if str_eq(id, "cultist") {
        Some(make_npc_def("Cultist", 'C', Color::Red, 14, 5, 8, 1))
    } else {
        None
    }
}

/// The identifier of the `k`-th npc definition.
pub fn npc_def_id(k: usize) -> (id: &'static str)
    requires
        k < NPC_DEF_COUNT,
    ensures
        id == spec_npc_def_id(k as int),
{
    if k == 0 {
        "goblin"
    } else if k == 1 {
        "funny_frog"
    } else if k == 2 {
        "orc"
    } else if k == 3 {
        "skeleton"
    } else if k == 4 {
        "giant_rat"
    } else if k == 5 {
        "bandit"
    } else if k == 6 {
        "dark_mage"
    } else if k == 7 {
        "wolf"
    } else if k == 8 {
        "slime"
    } else if k == 9 {
        "zombie"
    } else if k == 10 {
        "assassin"
    } else {
        "cultist"
    }
}

/// Every npc definition with its identifier.
pub fn npc_defs() -> (defs: Vec<(&'static str, NpcDef)>)
    ensures
        defs@.len() == NPC_DEF_COUNT,
        forall|k: int| 0 <= k < NPC_DEF_COUNT ==> (#[trigger] defs@[k]).0 == spec_npc_def_id(k)
            && spec_npc_def(defs@[k].0@) == Some(defs@[k].1),
{
    let mut defs: Vec<(&'static str, NpcDef)> = Vec::new();
    let mut k: usize = 0;
    while k < NPC_DEF_COUNT
        invariant
            k <= NPC_DEF_COUNT,
            defs@.len() == k,
            forall|j: int| 0 <= j < k ==> (#[trigger] defs@[j]).0 == spec_npc_def_id(j)
                && spec_npc_def(defs@[j].0@) == Some(defs@[j].1),
        decreases NPC_DEF_COUNT - k,
    {
        let id = npc_def_id(k);
        let def = get_npc_def(id);
        proof {
            reveal_strlit("goblin");
            reveal_strlit("funny_frog");
            reveal_strlit("orc");
            reveal_strlit("skeleton");
            reveal_strlit("giant_rat");
            reveal_strlit("bandit");
            reveal_strlit("dark_mage");
            reveal_strlit("wolf");
            reveal_strlit("slime");
            reveal_strlit("zombie");
            reveal_strlit("assassin");
            reveal_strlit("cultist");
        }
        match def {
            Some(d) => { defs.push((id, d)); },
            None => { proof { assert(false); } },
        }
        k = k + 1;
    }
    defs
}

/// No npc definition deals more than 7 damage.
pub proof fn lemma_npc_damage(id: Seq<char>)
    ensures
        spec_npc_def(id) matches Some(d) ==> d.stats.damage <= 7,
{
}

} // verus!
