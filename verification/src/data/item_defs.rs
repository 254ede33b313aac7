//! The definitions of the items of the game.

use vstd::prelude::*;

use crate::gameplay::buff_effects::PotionEffectDef;
use crate::gameplay::game_items::{AttackRange, GameItemKindDef};
use crate::util::rng::{DieSize, Roll};
use crate::util::strings::str_eq;
use crate::world::tiles::Color;

verus! {

/// The identifier of an item definition.
pub type GameItemDefId = String;

/// What every item of a kind is.
#[derive(Clone, Copy, Debug)]
pub struct GameItemDef {
    pub name: &'static str,
    pub glyph: char,
    pub style: Color,
    pub kind: GameItemKindDef,
}

/// The number of item definitions.
pub const ITEM_DEF_COUNT: usize = 28;

/// How far a shortbow reaches. The item table marks bows only as ranged;
/// their reach is set here.
pub const SHORTBOW_RANGE: usize = 6;

/// How far a longbow reaches.
pub const LONGBOW_RANGE: usize = 8;

pub open spec fn item_def(name: &'static str, glyph: char, style: Color, kind: GameItemKindDef) -> GameItemDef {
    GameItemDef { name, glyph, style, kind }
}

fn make_item_def(name: &'static str, glyph: char, style: Color, kind: GameItemKindDef) -> (d: GameItemDef)
    ensures
        d == item_def(name, glyph, style, kind),
{
    GameItemDef { name, glyph, style, kind }
}

fn weapon_def(
    name: &'static str,
    glyph: char,
    style: Color,
    dice_amount: u8,
    dice_size: DieSize,
    modifier: i16,
    crit_chance: u8,
    range: AttackRange,
) -> (d: GameItemDef)
    requires
        0 <= modifier <= 10,
    ensures
        d == item_def(name, glyph, style,
            GameItemKindDef::Weapon { damage: Roll::spec_make(dice_amount, dice_size, modifier), crit_chance, range }),
{
    let damage = Roll::new(dice_amount, dice_size).add_modifier(modifier);
    GameItemDef { name, glyph, style, kind: GameItemKindDef::Weapon { damage, crit_chance, range } }
}

/// The identifier of the `k`-th item definition.
pub open spec fn spec_item_def_id(k: int) -> &'static str {
    if k == 0 {
        "weapon_sword_rusty"
    } else if k == 1 {
        "weapon_bow_short"
    } else if k == 2 {
        "weapon_bow_long"
    } else if k == 3 {
        "weapon_mace"
    } else if k == 4 {
        "weapon_axe_iron"
    } else if k == 5 {
        "weapon_dagger"
    } else if k == 6 {
        "weapon_warhammer"
    } else if k == 7 {
        "weapon_short_sword"
    } else if k == 8 {
        "weapon_spear"
    } else if k == 9 {
        "armor_leather"
    } else if k == 10 {
        "armor_chainmail"
    } else if k == 11 {
        "armor_plate"
    } else if k == 12 {
        "armor_helmet"
    } else if k == 13 {
        "armor_gauntlets"
    } else if k == 14 {
        "armor_shield"
    } else if k == 15 {
        "armor_cloak"
    } else if k == 16 {
        "food_cake"
    } else if k == 17 {
        "food_grapefruit"
    } else if k == 18 {
        "food_honey"
    } else if k == 19 {
        "food_fish"
    } else if k == 20 {
        "food_mushroom"
    } else if k == 21 {
        "food_meat"
    } else if k == 22 {
        "food_apple"
    } else if k == 23 {
        "food_bread"
    } else if k == 24 {
        "food_cheese"
    } else if k == 25 {
        "potion_healing_small"
    } else if k == 26 {
        "potion_strength"
    } else {
        "potion_dexterity"
    }
}

/// The item defined under an identifier, if any.
pub open spec fn spec_item_def(id: Seq<char>) -> Option<GameItemDef> {
    if id == "weapon_sword_rusty"@ {
        Some(item_def("Rusty Sword", '/', Color::Gray, GameItemKindDef::Weapon { damage: Roll::spec_make(0, DieSize::D10, 5), crit_chance: 5, range: None }))
    } else if id == "weapon_bow_short"@ {
        Some(item_def("Shortbow", 'D', Color::Gray, GameItemKindDef::Weapon { damage: Roll::spec_make(0, DieSize::D6, 3), crit_chance: 5, range: Some(SHORTBOW_RANGE) }))
    } else if id == "weapon_bow_long"@ {
        Some(item_def("Longbow", 'D', Color::DarkGray, GameItemKindDef::Weapon { damage: Roll::spec_make(1, DieSize::D10, 0), crit_chance: 7, range: Some(LONGBOW_RANGE) }))
    } else if id == "weapon_mace"@ {
        Some(item_def("Iron Mace", '/', Color::Yellow, GameItemKindDef::Weapon { damage: Roll::spec_make(2, DieSize::D10, 0), crit_chance: 5, range: None }))
    } else if id == "weapon_axe_iron"@ {
        Some(item_def("Iron Axe", '/', Color::DarkGray, GameItemKindDef::Weapon { damage: Roll::spec_make(2, DieSize::D6, 0), crit_chance: 7, range: None }))
    } else if id == "weapon_dagger"@ {
        Some(item_def("Sharp Dagger", '\\', Color::White, GameItemKindDef::Weapon { damage: Roll::spec_make(1, DieSize::D8, 0), crit_chance: 15, range: None }))
    } else if id == "weapon_warhammer"@ {
        Some(item_def("Warhammer", '/', Color::Red, GameItemKindDef::Weapon { damage: Roll::spec_make(2, DieSize::D12, 0), crit_chance: 5, range: None }))
    } else if id == "weapon_short_sword"@ {
        Some(item_def("Short Sword", '/', Color::Gray, GameItemKindDef::Weapon { damage: Roll::spec_make(1, DieSize::D10, 1), crit_chance: 10, range: None }))
    } else if id == "weapon_spear"@ {
        Some(item_def("Spear", '/', Color::White, GameItemKindDef::Weapon { damage: Roll::spec_make(2, DieSize::D6, 0), crit_chance: 8, range: None }))
    } else if id == "armor_leather"@ {
        Some(item_def("Leather Armor", 'A', Color::Yellow, GameItemKindDef::Armor { mitigation: 2 }))
    } else if id == "armor_chainmail"@ {
        Some(item_def("Chainmail Armor", 'A', Color::LightBlue, GameItemKindDef::Armor { mitigation: 4 }))
    } else if id == "armor_plate"@ {
        Some(item_def("Plate Armor", 'A', Color::Gray, GameItemKindDef::Armor { mitigation: 6 }))
    } else if id == "armor_helmet"@ {
        Some(item_def("Steel Helmet", 'A', Color::Gray, GameItemKindDef::Armor { mitigation: 2 }))
    } else if id == "armor_gauntlets"@ {
        Some(item_def("Iron Gauntlets", 'A', Color::DarkGray, GameItemKindDef::Armor { mitigation: 1 }))
    } else if id == "armor_shield"@ {
        Some(item_def("Wooden Shield", 'A', Color::Yellow, GameItemKindDef::Armor { mitigation: 3 }))
    } else if id == "armor_cloak"@ {
        Some(item_def("Cloak of Shadows", 'A', Color::Black, GameItemKindDef::Armor { mitigation: 2 }))
    } else if id == "food_cake"@ {
        Some(item_def("Cake", '%', Color::Red, GameItemKindDef::Food { nutrition: 1 }))
    } else if id == "food_grapefruit"@ {
        Some(item_def("Grapefruit", '%', Color::LightRed, GameItemKindDef::Food { nutrition: 2 }))
    } else if id == "food_honey"@ {
        Some(item_def("Honey Jar", '%', Color::Yellow, GameItemKindDef::Food { nutrition: 4 }))
    } else if id == "food_fish"@ {
        Some(item_def("Cooked Fish", '%', Color::Blue, GameItemKindDef::Food { nutrition: 6 }))
    } else if id == "food_mushroom"@ {
        Some(item_def("Mushroom", '%', Color::Green, GameItemKindDef::Food { nutrition: 1 }))
    } else if id == "food_meat"@ {
        Some(item_def("Cooked Meat", '%', Color::Red, GameItemKindDef::Food { nutrition: 7 }))
    } else if id == "food_apple"@ {
        Some(item_def("Apple", '%', Color::Red, GameItemKindDef::Food { nutrition: 2 }))
    } else if id == "food_bread"@ {
        Some(item_def("Loaf of Bread", '%', Color::Yellow, GameItemKindDef::Food { nutrition: 5 }))
    } else if id == "food_cheese"@ {
        Some(item_def("Cheese", '%', Color::LightYellow, GameItemKindDef::Food { nutrition: 3 }))
    } else if id == "potion_healing_small"@ {
        Some(item_def("Small Healing Potion", '!', Color::Magenta, GameItemKindDef::Potion { effect: PotionEffectDef::Heal { amount: 20 } }))
    } else if id == "potion_strength"@ {
        Some(item_def("Potion of Strength", '!', Color::Magenta, GameItemKindDef::Potion { effect: PotionEffectDef::Strength { amount: 3, duration: 100 } }))
    } else if id == "potion_dexterity"@ {
        Some(item_def("Potion of Dexterity", '!', Color::Blue, GameItemKindDef::Potion { effect: PotionEffectDef::Dexterity { amount: 2, duration: 100 } }))
    } else {
        None
    }
}

/// The item defined under an identifier, if any.
pub fn get_item_def(id: &str) -> (r: Option<GameItemDef>)
    ensures
        r == spec_item_def(id@),
{
    if str_eq(id, "weapon_sword_rusty") {
        Some(weapon_def("Rusty Sword", '/', Color::Gray, 0, DieSize::D10, 5, 5, None))
    } else if str_eq(id, "weapon_bow_short") {
        Some(weapon_def("Shortbow", 'D', Color::Gray, 0, DieSize::D6, 3, 5, Some(SHORTBOW_RANGE)))
    } else if str_eq(id, "weapon_bow_long") {
        Some(weapon_def("Longbow", 'D', Color::DarkGray, 1, DieSize::D10, 0, 7, Some(LONGBOW_RANGE)))
    } else if str_eq(id, "weapon_mace") {
        Some(weapon_def("Iron Mace", '/', Color::Yellow, 2, DieSize::D10, 0, 5, None))
    } else if str_eq(id, "weapon_axe_iron") {
        Some(weapon_def("Iron Axe", '/', Color::DarkGray, 2, DieSize::D6, 0, 7, None))
    } else if str_eq(id, "weapon_dagger") {
        Some(weapon_def("Sharp Dagger", '\\', Color::White, 1, DieSize::D8, 0, 15, None))
    } else if str_eq(id, "weapon_warhammer") {
        Some(weapon_def("Warhammer", '/', Color::Red, 2, DieSize::D12, 0, 5, None))
    } else if str_eq(id, "weapon_short_sword") {
        Some(weapon_def("Short Sword", '/', Color::Gray, 1, DieSize::D10, 1, 10, None))
    } else if str_eq(id, "weapon_spear") {
        Some(weapon_def("Spear", '/', Color::White, 2, DieSize::D6, 0, 8, None))
    } else if str_eq(id, "armor_leather") {
        Some(make_item_def("Leather Armor", 'A', Color::Yellow, GameItemKindDef::Armor { mitigation: 2 }))
    } else if str_eq(id, "armor_chainmail") {
        Some(make_item_def("Chainmail Armor", 'A', Color::LightBlue, GameItemKindDef::Armor { mitigation: 4 }))
    } else if str_eq(id, "armor_plate") {
        Some(make_item_def("Plate Armor", 'A', Color::Gray, GameItemKindDef::Armor { mitigation: 6 }))
    } else if str_eq(id, "armor_helmet") {
        Some(make_item_def("Steel Helmet", 'A', Color::Gray, GameItemKindDef::Armor { mitigation: 2 }))
    } else if str_eq(id, "armor_gauntlets") {
        Some(make_item_def("Iron Gauntlets", 'A', Color::DarkGray, GameItemKindDef::Armor { mitigation: 1 }))
    } else if str_eq(id, "armor_shield") {
        Some(make_item_def("Wooden Shield", 'A', Color::Yellow, GameItemKindDef::Armor { mitigation: 3 }))
    } else if str_eq(id, "armor_cloak") {
        Some(make_item_def("Cloak of Shadows", 'A', Color::Black, GameItemKindDef::Armor { mitigation: 2 }))
    } else if str_eq(id, "food_cake") {
        Some(make_item_def("Cake", '%', Color::Red, GameItemKindDef::Food { nutrition: 1 }))
    } else if str_eq(id, "food_grapefruit") {
        Some(make_item_def("Grapefruit", '%', Color::LightRed, GameItemKindDef::Food { nutrition: 2 }))
    } else if str_eq(id, "food_honey") {
        Some(make_item_def("Honey Jar", '%', Color::Yellow, GameItemKindDef::Food { nutrition: 4 }))
    } else if str_eq(id, "food_fish") {
        Some(make_item_def("Cooked Fish", '%', Color::Blue, GameItemKindDef::Food { nutrition: 6 }))
    } else if str_eq(id, "food_mushroom") {
        Some(make_item_def("Mushroom", '%', Color::Green, GameItemKindDef::Food { nutrition: 1 }))
    } else if str_eq(id, "food_meat") {
        Some(make_item_def("Cooked Meat", '%', Color::Red, GameItemKindDef::Food { nutrition: 7 }))
    } else if str_eq(id, "food_apple") {
        Some(make_item_def("Apple", '%', Color::Red, GameItemKindDef::Food { nutrition: 2 }))
    } else if str_eq(id, "food_bread") {
        Some(make_item_def("Loaf of Bread", '%', Color::Yellow, GameItemKindDef::Food { nutrition: 5 }))
    } else if str_eq(id, "food_cheese") {
        Some(make_item_def("Cheese", '%', Color::LightYellow, GameItemKindDef::Food { nutrition: 3 }))
    } else if str_eq(id, "potion_healing_small") {
        Some(make_item_def("Small Healing Potion", '!', Color::Magenta, GameItemKindDef::Potion { effect: PotionEffectDef::Heal { amount: 20 } }))
    } else if str_eq(id, "potion_strength") {
        Some(make_item_def("Potion of Strength", '!', Color::Magenta, GameItemKindDef::Potion { effect: PotionEffectDef::Strength { amount: 3, duration: 100 } }))
    } else if str_eq(id, "potion_dexterity") {
        Some(make_item_def("Potion of Dexterity", '!', Color::Blue, GameItemKindDef::Potion { effect: PotionEffectDef::Dexterity { amount: 2, duration: 100 } }))
    } else {
        None
    }
}

/// The identifier of the `k`-th item definition.
pub fn item_def_id(k: usize) -> (id: &'static str)
    requires
        k < ITEM_DEF_COUNT,
    ensures
        id == spec_item_def_id(k as int),
{
    if k == 0 {
        "weapon_sword_rusty"
    } else if k == 1 {
        "weapon_bow_short"
    } else if k == 2 {
        "weapon_bow_long"
    } else if k == 3 {
        "weapon_mace"
    } else if k == 4 {
        "weapon_axe_iron"
    } else if k == 5 {
        "weapon_dagger"
    } else if k == 6 {
        "weapon_warhammer"
    } else if k == 7 {
        "weapon_short_sword"
    } else if k == 8 {
        "weapon_spear"
    } else if k == 9 {
        "armor_leather"
    } else if k == 10 {
        "armor_chainmail"
    } else if k == 11 {
        "armor_plate"
    } else if k == 12 {
        "armor_helmet"
    } else if k == 13 {
        "armor_gauntlets"
    } else if k == 14 {
        "armor_shield"
    } else if k == 15 {
        "armor_cloak"
    } else if k == 16 {
        "food_cake"
    } else if k == 17 {
        "food_grapefruit"
    } else if k == 18 {
        "food_honey"
    } else if k == 19 {
        "food_fish"
    } else if k == 20 {
        "food_mushroom"
    } else if k == 21 {
        "food_meat"
    } else if k == 22 {
        "food_apple"
    } else if k == 23 {
        "food_bread"
    } else if k == 24 {
        "food_cheese"
    } else if k == 25 {
        "potion_healing_small"
    } else if k == 26 {
        "potion_strength"
    } else {
        "potion_dexterity"
    }
}

/// Every item definition with its identifier.
pub fn item_defs() -> (defs: Vec<(&'static str, GameItemDef)>)
    ensures
        defs@.len() == ITEM_DEF_COUNT,
        forall|k: int| 0 <= k < ITEM_DEF_COUNT ==> (#[trigger] defs@[k]).0 == spec_item_def_id(k)
            && spec_item_def(defs@[k].0@) == Some(defs@[k].1),
{
    let mut defs: Vec<(&'static str, GameItemDef)> = Vec::new();
    let mut k: usize = 0;
    while k < ITEM_DEF_COUNT
        invariant
            k <= ITEM_DEF_COUNT,
            defs@.len() == k,
            forall|j: int| 0 <= j < k ==> (#[trigger] defs@[j]).0 == spec_item_def_id(j)
                && spec_item_def(defs@[j].0@) == Some(defs@[j].1),
        decreases ITEM_DEF_COUNT - k,
    {
        let id = item_def_id(k);
        let def = get_item_def(id);
        proof {
            reveal_strlit("weapon_sword_rusty");
            reveal_strlit("weapon_bow_short");
            reveal_strlit("weapon_bow_long");
            reveal_strlit("weapon_mace");
            reveal_strlit("weapon_axe_iron");
            reveal_strlit("weapon_dagger");
            reveal_strlit("weapon_warhammer");
            reveal_strlit("weapon_short_sword");
            reveal_strlit("weapon_spear");
            reveal_strlit("armor_leather");
            reveal_strlit("armor_chainmail");
            reveal_strlit("armor_plate");
            reveal_strlit("armor_helmet");
            reveal_strlit("armor_gauntlets");
            reveal_strlit("armor_shield");
            reveal_strlit("armor_cloak");
            reveal_strlit("food_cake");
            reveal_strlit("food_grapefruit");
            reveal_strlit("food_honey");
            reveal_strlit("food_fish");
            reveal_strlit("food_mushroom");
            reveal_strlit("food_meat");
            reveal_strlit("food_apple");
            reveal_strlit("food_bread");
            reveal_strlit("food_cheese");
            reveal_strlit("potion_healing_small");
            reveal_strlit("potion_strength");
            reveal_strlit("potion_dexterity");
        }
        match def {
            Some(d) => { defs.push((id, d)); },
            None => { proof { assert(false); } },
        }
        k = k + 1;
    }
    defs
}

/// Every weapon of the table does between 0 and 24 damage.
pub proof fn lemma_weapon_rolls(id: Seq<char>)
    ensures
        spec_item_def(id) matches Some(d) ==> (d.kind matches GameItemKindDef::Weapon { damage, .. } ==> {
            &&& damage.fits()
            &&& 0 <= damage.spec_least()
            &&& damage.spec_most() <= 24
        }),
{
    Roll::lemma_make(0, DieSize::D10, 5);
    Roll::lemma_make(0, DieSize::D6, 3);
    Roll::lemma_make(1, DieSize::D10, 0);
    Roll::lemma_make(2, DieSize::D10, 0);
    Roll::lemma_make(2, DieSize::D6, 0);
    Roll::lemma_make(1, DieSize::D8, 0);
    Roll::lemma_make(2, DieSize::D12, 0);
    Roll::lemma_make(1, DieSize::D10, 1);
}

/// Every ranged weapon of the table reaches at most 8.
pub proof fn lemma_weapon_ranges(id: Seq<char>)
    ensures
        spec_item_def(id) matches Some(d) ==> (d.kind matches GameItemKindDef::Weapon { range, .. } ==> (
            range matches Some(r) ==> r <= 8)),
{
}

/// The potions of the table heal by 20, or strengthen by 3 or quicken by 2
/// for 100 rounds.
pub proof fn lemma_potion_effects(id: Seq<char>)
    ensures
        spec_item_def(id) matches Some(d) ==> (d.kind matches GameItemKindDef::Potion { effect } ==> {
            ||| effect == PotionEffectDef::Heal { amount: 20 }
            ||| effect == PotionEffectDef::Strength { amount: 3, duration: 100 }
            ||| effect == PotionEffectDef::Dexterity { amount: 2, duration: 100 }
        }),
{
}

} // verus!
