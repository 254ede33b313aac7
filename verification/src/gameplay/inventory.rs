//! The player's inventory and equipment.

use vstd::prelude::*;

use crate::data::item_defs::spec_item_def;
use crate::gameplay::buff_effects::{spec_potion_type, usage_of, usage_wf, PotionEffectDef, PotionType};
use crate::gameplay::entity_logic::hp_after_heal;
use crate::gameplay::game::GameState;
use crate::gameplay::game_items::{ArmorItem, GameItemId, GameItemKindDef, WeaponItem};
use crate::util::errors_results::{DataError, EngineError, FailReason, GameError, GameOutcome, GameResult};
use crate::util::text_log::LogData;
use crate::util::strings::{decimal, join, spec_decimal};
use crate::util::text_log::appends_text;

verus! {

/// The inventory holds at most this many items.
pub const INVENTORY_LIMIT: usize = 26;

/// The first position of `x` in `s` (`s.len()` where it does not occur).
pub open spec fn first_pos(s: Seq<GameItemId>, x: GameItemId) -> int
    decreases s.len(),
{
    if s.len() == 0 {
        0
    } else if s[0] == x {
        0
    } else {
        1 + first_pos(s.drop_first(), x)
    }
}

/// The inventory without the first occurrence of `x`: the last item takes
/// its place.
pub open spec fn inv_without(s: Seq<GameItemId>, x: GameItemId) -> Seq<GameItemId> {
    s.update(first_pos(s, x), s.last()).drop_last()
}

/// The debug message logged when the inventory is full.
pub open spec fn inventory_full_message(id: GameItemId) -> Seq<char> {
    "Inventory full. Couldn't add item "@ + spec_decimal(id as nat)
}

/// The debug message logged when an item to remove is not in the inventory.
pub open spec fn not_in_inventory_message(id: GameItemId) -> Seq<char> {
    "Couldn't remove item "@ + spec_decimal(id as nat) + ": the item is not in the inventory"@
}

proof fn lemma_first_pos(s: Seq<GameItemId>, x: GameItemId)
    ensures
        0 <= first_pos(s, x) <= s.len(),
        first_pos(s, x) < s.len() <==> s.contains(x),
        first_pos(s, x) < s.len() ==> s[first_pos(s, x)] == x,
        forall|j: int| 0 <= j < first_pos(s, x) ==> s[j] != x,
    decreases s.len(),
{
    if s.len() > 0 && s[0] != x {
        lemma_first_pos(s.drop_first(), x);
        if s.contains(x) {
            let j = choose|j: int| 0 <= j < s.len() && s[j] == x;
            assert(s.drop_first()[j - 1] == x);
        }
        if s.drop_first().contains(x) {
            let j = choose|j: int| 0 <= j < s.drop_first().len() && s.drop_first()[j] == x;
            assert(s[j + 1] == x);
        }
        assert forall|j: int| 0 <= j < first_pos(s, x) implies s[j] != x by {
            if j > 0 {
                assert(s[j] == s.drop_first()[j - 1]);
            }
        }
    } else if s.len() > 0 {
        assert(s.contains(x)) by { assert(s[0] == x); }
    }
}

/// An item not in `s`, pushed onto it, is first found at the end.
proof fn lemma_first_pos_of_pushed(s: Seq<GameItemId>, x: GameItemId)
    requires
        !s.contains(x),
    ensures
        first_pos(s.push(x), x) == s.len(),
    decreases s.len(),
{
    if s.len() > 0 {
        assert(s[0] != x) by {
            if s[0] == x {
                assert(s.contains(x));
            }
        }
        assert(s.push(x).drop_first() =~= s.drop_first().push(x));
        assert(!s.drop_first().contains(x)) by {
            if s.drop_first().contains(x) {
                let j = choose|j: int| 0 <= j < s.drop_first().len() && s.drop_first()[j] == x;
                assert(s[j + 1] == x);
            }
        }
        lemma_first_pos_of_pushed(s.drop_first(), x);
    }
}

/// Adding an item that is not in the inventory and then taking it out
/// again gives back the inventory as it was, in the same order
/// ([GameState::add_item_to_inv] pushes, [GameState::remove_item_from_inv]
/// takes out the first occurrence).
pub proof fn law_add_then_remove_restores(s: Seq<GameItemId>, x: GameItemId)
    requires
        !s.contains(x),
    ensures
        inv_without(s.push(x), x) == s,
{
    lemma_first_pos_of_pushed(s, x);
    assert(inv_without(s.push(x), x) =~= s);
}

/// Taking an item out of the inventory takes out one copy of it and keeps
/// every other item (the order aside).
pub proof fn law_remove_takes_one_copy(s: Seq<GameItemId>, x: GameItemId)
    requires
        s.contains(x),
    ensures
        inv_without(s, x).len() == s.len() - 1,
        inv_without(s, x).to_multiset() == s.to_multiset().remove(x),
{
    broadcast use vstd::seq_lib::group_to_multiset_ensures;
    lemma_first_pos(s, x);
    let i = first_pos(s, x);
    let u = s.update(i, s.last());
    let w = u.drop_last();
    vstd::seq_lib::to_multiset_update(s, i, s.last());
    assert(u =~= w.push(s.last()));
    vstd::seq_lib::to_multiset_build(w, s.last());
    assert(s.to_multiset().count(x) > 0);
    assert forall|v: GameItemId| #[trigger] w.to_multiset().count(v) == s.to_multiset().remove(x).count(v) by {
        broadcast use vstd::multiset::group_multiset_axioms;
        assert(u.to_multiset().count(v) == w.to_multiset().count(v) + if v == s.last() { 1int } else { 0int });
    }
    assert(w.to_multiset() =~= s.to_multiset().remove(x));
}

/// Adding an item and taking it out again keeps the inventory's items,
/// whether or not the item was there before.
pub proof fn law_add_then_remove_keeps_items(s: Seq<GameItemId>, x: GameItemId)
    ensures
        inv_without(s.push(x), x).to_multiset() == s.to_multiset(),
{
    broadcast use vstd::seq_lib::group_to_multiset_ensures;
    assert(s.push(x).contains(x)) by {
        assert(s.push(x)[s.len() as int] == x);
    }
    law_remove_takes_one_copy(s.push(x), x);
    vstd::seq_lib::to_multiset_build(s, x);
    assert(s.to_multiset().insert(x).remove(x) =~= s.to_multiset());
}

impl GameState {
    /// Everything but the player character and the log is as in `other`.
    pub open spec fn same_but_player(&self, other: GameState) -> bool {
        &&& self.levels == other.levels
        &&& self.level_nr == other.level_nr
        &&& self.cursor == other.cursor
        &&& self.round_nr == other.round_nr
        &&& self.id_system == other.id_system
        &&& self.items == other.items
        &&& self.rng == other.rng
        &&& self.proc_gen == other.proc_gen
        &&& self.game_rules == other.game_rules
        &&& self.player.name == other.player.name
        &&& self.log.print_debug_info == other.log.print_debug_info
    }

    /// Only the inventory of the player character differs from `other`.
    pub open spec fn only_inventory_changed(&self, other: GameState) -> bool {
        &&& self.same_but_player(other)
        &&& self.player.character.base == other.player.character.base
        &&& self.player.character.stats == other.player.character.stats
        &&& self.player.character.class == other.player.character.class
        &&& self.player.character.armor == other.player.character.armor
        &&& self.player.character.weapon == other.player.character.weapon
        &&& self.player.character.active_buffs@ == other.player.character.active_buffs@
        &&& self.player.character.potion_usage@ == other.player.character.potion_usage@
    }

    /// Puts an item into the inventory. A full inventory (26 items) takes
    /// nothing more: the action fails.
    pub fn add_item_to_inv(&mut self, item_id: GameItemId) -> (r: GameResult)
        ensures
            final(self).only_inventory_changed(*old(self)),
            old(self).player.character.inventory@.len() <= INVENTORY_LIMIT
                ==> final(self).player.character.inventory@.len() <= INVENTORY_LIMIT,
            old(self).player.character.inventory@.len() >= INVENTORY_LIMIT ==> {
                &&& r == Ok::<GameOutcome, GameError>(GameOutcome::Fail(FailReason::InventoryFull))
                &&& final(self).player.character.inventory@ == old(self).player.character.inventory@
                &&& appends_text(old(self).log.messages@, final(self).log.messages@, inventory_full_message(item_id), 1)
            },
            old(self).player.character.inventory@.len() < INVENTORY_LIMIT ==> {
                &&& r == Ok::<GameOutcome, GameError>(GameOutcome::Success)
                &&& final(self).player.character.inventory@ == old(self).player.character.inventory@.push(item_id)
                &&& final(self).log == old(self).log
            },
    {
        if self.player.character.inventory.len() >= INVENTORY_LIMIT {
            let message = join("Inventory full. Couldn't add item ", decimal(item_id as u64).as_str());
            self.log.debug_info(message);
            return Ok(GameOutcome::Fail(FailReason::InventoryFull));
        }
        self.player.character.inventory.push(item_id);
        Ok(GameOutcome::Success)
    }

    /// Where in the inventory an item is, if it is there.
    fn inventory_position(&self, item_id: GameItemId) -> (r: Option<usize>)
        ensures
            r is None <==> !self.player.character.inventory@.contains(item_id),
            r matches Some(i) ==> i == first_pos(self.player.character.inventory@, item_id)
                && i < self.player.character.inventory@.len(),
    {
        proof {
            lemma_first_pos(self.player.character.inventory@, item_id);
        }
        let mut i: usize = 0;
        while i < self.player.character.inventory.len()
            invariant
                i <= self.player.character.inventory@.len(),
                i <= first_pos(self.player.character.inventory@, item_id),
                0 <= first_pos(self.player.character.inventory@, item_id) <= self.player.character.inventory@.len(),
                first_pos(self.player.character.inventory@, item_id) < self.player.character.inventory@.len()
                    ==> self.player.character.inventory@[first_pos(self.player.character.inventory@, item_id)] == item_id,
                forall|j: int| 0 <= j < first_pos(self.player.character.inventory@, item_id)
                    ==> self.player.character.inventory@[j] != item_id,
                first_pos(self.player.character.inventory@, item_id) < self.player.character.inventory@.len()
                    <==> self.player.character.inventory@.contains(item_id),
            decreases self.player.character.inventory.len() - i,
        {
            if self.player.character.inventory[i] == item_id {
                return Some(i);
            }
            i = i + 1;
        }
        None
    }

    /// Takes an item out of the inventory (the last item takes its place).
    ///
    /// Errs, changing only the log, where the item is not in the inventory.
    pub fn remove_item_from_inv(&mut self, item_id: GameItemId) -> (r: GameResult)
        ensures
            final(self).only_inventory_changed(*old(self)),
            old(self).player.character.inventory@.contains(item_id) ==> {
                &&& r == Ok::<GameOutcome, GameError>(GameOutcome::Success)
                &&& final(self).player.character.inventory@ == inv_without(old(self).player.character.inventory@, item_id)
                &&& final(self).log == old(self).log
            },
            !old(self).player.character.inventory@.contains(item_id) ==> {
                &&& r matches Err(e) && e == GameError::Engine(EngineError::ItemNotInInventory(item_id))
                &&& final(self).player.character.inventory@ == old(self).player.character.inventory@
                &&& appends_text(old(self).log.messages@, final(self).log.messages@, not_in_inventory_message(item_id), 1)
            },
    {
        match self.inventory_position(item_id) {
            Some(found_item) => {
                self.player.character.inventory.swap_remove(found_item);
                Ok(GameOutcome::Success)
            },
            None => {
                let message = join(join("Couldn't remove item ", decimal(item_id as u64).as_str()).as_str(),
                    ": the item is not in the inventory");
                self.log.debug_info(message);
                Err(GameError::Engine(EngineError::ItemNotInInventory(item_id)))
            },
        }
    }

    /// Puts on the armor `item_id` from the inventory; the armor worn before
    /// goes back into the inventory.
    pub fn use_armor(&mut self, item_id: GameItemId) -> (r: GameResult)
        ensures
            final(self).same_but_player(*old(self)),
            final(self).player.character.base == old(self).player.character.base,
            final(self).player.character.stats == old(self).player.character.stats,
            final(self).player.character.weapon == old(self).player.character.weapon,
            final(self).player.character.active_buffs@ == old(self).player.character.active_buffs@,
            old(self).player.character.inventory@.contains(item_id) ==> {
                let inv = inv_without(old(self).player.character.inventory@, item_id);
                &&& r == Ok::<GameOutcome, GameError>(GameOutcome::Success)
                &&& final(self).player.character.armor == Some(ArmorItem(item_id))
                &&& final(self).player.character.inventory@ == match old(self).player.character.armor {
                        Some(old_armor) => if inv.len() < INVENTORY_LIMIT { inv.push(old_armor.0) } else { inv },
                        None => inv,
                    }
            },
            !old(self).player.character.inventory@.contains(item_id) ==> {
                &&& r matches Err(e) && e == GameError::Engine(EngineError::ItemNotInInventory(item_id))
                &&& final(self).player.character.inventory@ == old(self).player.character.inventory@
                &&& final(self).player.character.armor == old(self).player.character.armor
            },
    {
        match self.remove_item_from_inv(item_id) {
            Err(e) => { return Err(e); },
            Ok(_) => {},
        }
        if let Some(old_armor) = self.player.character.armor {
            self.player.character.armor = None;
            match self.add_item_to_inv(old_armor.0) {
                Err(e) => { return Err(e); },
                Ok(_) => {},
            }
        }
        self.player.character.armor = Some(ArmorItem(item_id));
        Ok(GameOutcome::Success)
    }

    /// Takes up the weapon `item_id` from the inventory; the weapon wielded
    /// before goes back into the inventory.
    pub fn use_weapon(&mut self, item_id: GameItemId) -> (r: GameResult)
        ensures
            final(self).same_but_player(*old(self)),
            final(self).player.character.base == old(self).player.character.base,
            final(self).player.character.stats == old(self).player.character.stats,
            final(self).player.character.armor == old(self).player.character.armor,
            final(self).player.character.active_buffs@ == old(self).player.character.active_buffs@,
            old(self).player.character.inventory@.contains(item_id) ==> {
                let inv = inv_without(old(self).player.character.inventory@, item_id);
                &&& r == Ok::<GameOutcome, GameError>(GameOutcome::Success)
                &&& final(self).player.character.weapon == Some(WeaponItem(item_id))
                &&& final(self).player.character.inventory@ == match old(self).player.character.weapon {
                        Some(old_weapon) => if inv.len() < INVENTORY_LIMIT { inv.push(old_weapon.0) } else { inv },
                        None => inv,
                    }
            },
            !old(self).player.character.inventory@.contains(item_id) ==> {
                &&& r matches Err(e) && e == GameError::Engine(EngineError::ItemNotInInventory(item_id))
                &&& final(self).player.character.inventory@ == old(self).player.character.inventory@
                &&& final(self).player.character.weapon == old(self).player.character.weapon
            },
    {
        match self.remove_item_from_inv(item_id) {
            Err(e) => { return Err(e); },
            Ok(_) => {},
        }
        if let Some(old_weapon) = self.player.character.weapon {
            self.player.character.weapon = None;
            match self.add_item_to_inv(old_weapon.0) {
                Err(e) => { return Err(e); },
                Ok(_) => {},
            }
        }
        self.player.character.weapon = Some(WeaponItem(item_id));
        Ok(GameOutcome::Success)
    }

    /// Takes off the armor into the inventory; fails where no armor is worn,
    /// and keeps the armor on where the inventory is full.
    pub fn unequip_armor(&mut self) -> (r: GameResult)
        ensures
            final(self).same_but_player(*old(self)),
            final(self).player.character.base == old(self).player.character.base,
            final(self).player.character.stats == old(self).player.character.stats,
            final(self).player.character.weapon == old(self).player.character.weapon,
            final(self).player.character.active_buffs@ == old(self).player.character.active_buffs@,
            final(self).player.character.potion_usage@ == old(self).player.character.potion_usage@,
            old(self).player.character.armor is None ==> {
                &&& r == Ok::<GameOutcome, GameError>(GameOutcome::Fail(FailReason::CannotUnequipEmptySlot))
                &&& *final(self) == *old(self)
            },
            old(self).player.character.armor is Some && old(self).player.character.inventory@.len() < INVENTORY_LIMIT ==> {
                &&& final(self).player.character.armor is None
                &&& r == Ok::<GameOutcome, GameError>(GameOutcome::Success)
                &&& final(self).player.character.inventory@ == old(self).player.character.inventory@.push(old(self).player.character.armor.unwrap().0)
            },
            old(self).player.character.armor is Some && old(self).player.character.inventory@.len() >= INVENTORY_LIMIT ==> {
                &&& r == Ok::<GameOutcome, GameError>(GameOutcome::Fail(FailReason::InventoryFull))
                &&& *final(self) == *old(self)
            },
    {
        if let Some(armor_item) = self.player.character.armor {
            if self.player.character.inventory.len() >= INVENTORY_LIMIT {
                return Ok(GameOutcome::Fail(FailReason::InventoryFull));
            }
            self.player.character.armor = None;
            self.add_item_to_inv(armor_item.0)
        } else {
            Ok(GameOutcome::Fail(FailReason::CannotUnequipEmptySlot))
        }
    }

    /// Puts the weapon away into the inventory; fails where none is wielded,
    /// and keeps the weapon in hand where the inventory is full.
    pub fn unequip_weapon(&mut self) -> (r: GameResult)
        ensures
            final(self).same_but_player(*old(self)),
            final(self).player.character.base == old(self).player.character.base,
            final(self).player.character.stats == old(self).player.character.stats,
            final(self).player.character.armor == old(self).player.character.armor,
            final(self).player.character.active_buffs@ == old(self).player.character.active_buffs@,
            final(self).player.character.potion_usage@ == old(self).player.character.potion_usage@,
            old(self).player.character.weapon is None ==> {
                &&& r == Ok::<GameOutcome, GameError>(GameOutcome::Fail(FailReason::CannotUnequipEmptySlot))
                &&& *final(self) == *old(self)
            },
            old(self).player.character.weapon is Some && old(self).player.character.inventory@.len() < INVENTORY_LIMIT ==> {
                &&& final(self).player.character.weapon is None
                &&& r == Ok::<GameOutcome, GameError>(GameOutcome::Success)
                &&& final(self).player.character.inventory@ == old(self).player.character.inventory@.push(old(self).player.character.weapon.unwrap().0)
            },
            old(self).player.character.weapon is Some && old(self).player.character.inventory@.len() >= INVENTORY_LIMIT ==> {
                &&& r == Ok::<GameOutcome, GameError>(GameOutcome::Fail(FailReason::InventoryFull))
                &&& *final(self) == *old(self)
            },
    {
        if let Some(weapon_item) = self.player.character.weapon {
            if self.player.character.inventory.len() >= INVENTORY_LIMIT {
                return Ok(GameOutcome::Fail(FailReason::InventoryFull));
            }
            self.player.character.weapon = None;
            self.add_item_to_inv(weapon_item.0)
        } else {
            Ok(GameOutcome::Fail(FailReason::CannotUnequipEmptySlot))
        }
    }
}

/// The debug message logged when an item to use is not in the inventory.
pub open spec fn cannot_use_message(id: GameItemId) -> Seq<char> {
    "Couldn't use item "@ + spec_decimal(id as nat) + ": the item is not in the inventory"@
}

impl GameState {
    /// Whether every potion kind has at most one usage record, and every
    /// record can count one more use in this round.
    pub open spec fn potion_usage_fits(&self) -> bool {
        &&& usage_wf(self.player.character.potion_usage@)
        &&& forall|t: PotionType| #[trigger] usage_of(self.player.character.potion_usage@, t) matches Some(u)
                ==> u.count < u8::MAX && u.last_used <= self.round_nr
    }

    /// The kind of the registered item `item_id`, if it is registered and
    /// defined.
    pub open spec fn item_kind(&self, item_id: GameItemId) -> Option<GameItemKindDef> {
        if self.items@.contains_key(item_id) {
            match spec_item_def(self.items@[item_id].def_id@) {
                Some(def) => Some(def.kind),
                None => None,
            }
        } else {
            None
        }
    }

    /// Eats the food `item_id` of the given nutrition: the character heals
    /// by it (up to the maximum), the item leaves the inventory and the
    /// register, and the meal is logged.
    pub fn use_food(&mut self, item_id: GameItemId, nutrition: u16) -> (r: GameResult)
        requires
            old(self).wf(),
            old(self).player.character.stats.base.hp_current + nutrition <= u16::MAX,
        ensures
            final(self).wf(),
            final(self).player.character.stats.base.hp_current == hp_after_heal(
                old(self).player.character.stats.base.hp_current, old(self).player.character.stats.base.hp_max, nutrition),
            final(self).player.character.stats.base.hp_max == old(self).player.character.stats.base.hp_max,
            !old(self).player.character.inventory@.contains(item_id) ==> (r matches Err(e)
                && e == GameError::Engine(EngineError::ItemNotInInventory(item_id))),
            old(self).player.character.inventory@.contains(item_id) && !old(self).items@.contains_key(item_id)
                ==> (r matches Err(e) && e == GameError::Engine(EngineError::UnregisteredItem(item_id))),
            old(self).player.character.inventory@.contains(item_id) && old(self).items@.contains_key(item_id) ==> {
                &&& final(self).player.character.inventory@ == inv_without(old(self).player.character.inventory@, item_id)
                &&& spec_item_def(old(self).items@[item_id].def_id@) is None ==> (r matches Err(e)
                    && e == GameError::Data(DataError::MissingItemDefinition(old(self).items@[item_id].def_id)))
                &&& spec_item_def(old(self).items@[item_id].def_id@) is Some ==> {
                    &&& r == Ok::<GameOutcome, GameError>(GameOutcome::Success)
                    &&& final(self).items@ == old(self).items@.remove(item_id)
                    &&& final(self).log.messages@[old(self).log.messages@.len() as int] matches LogData::PlayerEats { item_name }
                        && item_name@ == spec_item_def(old(self).items@[item_id].def_id@).unwrap().name@
                }
            },
            final(self).levels == old(self).levels,
            final(self).level_nr == old(self).level_nr,
            final(self).id_system == old(self).id_system,
            final(self).player.character.base == old(self).player.character.base,
            final(self).player.character.armor == old(self).player.character.armor,
            final(self).player.character.weapon == old(self).player.character.weapon,
            final(self).player.character.active_buffs@ == old(self).player.character.active_buffs@,
            final(self).player.character.potion_usage@ == old(self).player.character.potion_usage@,
            final(self).player.character.stats.abilities == old(self).player.character.stats.abilities,
            final(self).round_nr == old(self).round_nr,
    {
        let hp = self.player.character.stats.base.hp_current + nutrition;
        let hp_max = self.player.character.stats.base.hp_max;
        self.player.character.stats.base.hp_current = if hp < hp_max { hp } else { hp_max };
        match self.remove_item_from_inv(item_id) {
            Err(e) => { return Err(e); },
            Ok(_) => {},
        }
        let item = match self.get_item_by_id(item_id) {
            Some(item) => item,
            None => { return Err(GameError::Engine(EngineError::UnregisteredItem(item_id))); },
        };
        let def = match self.get_item_def_by_id(&item.def_id) {
            Some(def) => def,
            None => { return Err(GameError::Data(DataError::MissingItemDefinition(item.def_id))); },
        };
        let ghost base = old(self).log.messages@.len();
        self.log.info(LogData::PlayerEats { item_name: def.name.to_owned() });
        let ghost mid = self.log.messages@;
        match self.deregister_item(item_id) {
            Err(e) => { return Err(e); },
            Ok(_) => {},
        }
        proof {
            assert(self.log.messages@.take(mid.len() as int)[base as int] == mid[base as int]);
        }
        Ok(GameOutcome::Success)
    }

    /// Drinks the potion `item_id`: it leaves the inventory and the
    /// register, and its effect applies.
    pub fn use_potion(&mut self, item_id: GameItemId, effect: PotionEffectDef) -> (r: GameResult)
        requires
            old(self).wf(),
            old(self).potion_usage_fits(),
            old(self).player.character.inventory@.contains(item_id),
            old(self).items@.contains_key(item_id),
        ensures
            final(self).wf(),
            r == Ok::<GameOutcome, GameError>(GameOutcome::Success),
            final(self).player.character.inventory@ == inv_without(old(self).player.character.inventory@, item_id),
            final(self).items@ == old(self).items@.remove(item_id),
            exists|count: u8, since: u64| final(self).player.character.active_buffs@
                == old(self).player.character.active_buffs@ + crate::gameplay::buff_effects::potion_buffs(effect, count, since),
            final(self).player.character.base == old(self).player.character.base,
            final(self).player.character.stats.abilities == old(self).player.character.stats.abilities,
            usage_wf(final(self).player.character.potion_usage@),
            final(self).levels == old(self).levels,
            final(self).level_nr == old(self).level_nr,
            final(self).id_system == old(self).id_system,
            final(self).round_nr == old(self).round_nr,
    {
        match self.remove_item_from_inv(item_id) {
            Err(e) => { proof { assert(false); } return Err(e); },
            Ok(_) => {},
        }
        let ghost t = spec_potion_type(effect);
        assert(usage_of(self.player.character.potion_usage@, t) matches Some(u) ==> u.count < u8::MAX && u.last_used <= self.round_nr);
        let ghost old_usage = usage_of(self.player.character.potion_usage@, t);
        let ghost count: u8 = match old_usage { Some(u) => (u.count + 1) as u8, None => 1u8 };
        let ghost since: u64 = match old_usage { Some(u) => (self.round_nr - u.last_used) as u64, None => 0u64 };
        let ghost buffs_before = self.player.character.active_buffs@;
        self.apply_potion_effect(effect);
        assert(self.player.character.active_buffs@ == buffs_before
            + crate::gameplay::buff_effects::potion_buffs(effect, count, since));
        match self.deregister_item(item_id) {
            Err(e) => { proof { assert(false); } return Err(e); },
            Ok(_) => {},
        }
        Ok(GameOutcome::Success)
    }

    /// Uses an item from the inventory, as its kind says: armor is put on,
    /// a weapon taken up, food eaten, a potion drunk; a key cannot be used
    /// (the action fails).
    ///
    /// Errs where the item is not in the inventory, not registered, or not
    /// defined.
    pub fn use_item(&mut self, item_id: GameItemId) -> (r: GameResult)
        requires
            old(self).wf(),
            old(self).potion_usage_fits(),
            old(self).item_kind(item_id) matches Some(GameItemKindDef::Food { nutrition })
                ==> old(self).player.character.stats.base.hp_current + nutrition <= u16::MAX,
        ensures
            final(self).wf(),
            !old(self).player.character.inventory@.contains(item_id) ==> {
                &&& r matches Err(e) && e == GameError::Engine(EngineError::ItemNotInInventory(item_id))
                &&& appends_text(old(self).log.messages@, final(self).log.messages@, cannot_use_message(item_id), 1)
                &&& final(self).player == old(self).player
            },
            old(self).player.character.inventory@.contains(item_id) && !old(self).items@.contains_key(item_id)
                ==> (r matches Err(e) && e == GameError::Engine(EngineError::UnregisteredItem(item_id))
                && *final(self) == *old(self)),
            old(self).player.character.inventory@.contains(item_id) && old(self).items@.contains_key(item_id)
                && spec_item_def(old(self).items@[item_id].def_id@) is None ==> (r matches Err(e)
                && e == GameError::Data(DataError::MissingItemDefinition(old(self).items@[item_id].def_id))
                && *final(self) == *old(self)),
            old(self).player.character.inventory@.contains(item_id) ==> match old(self).item_kind(item_id) {
                Some(GameItemKindDef::Armor { .. }) => r == Ok::<GameOutcome, GameError>(GameOutcome::Success)
                    && final(self).player.character.armor == Some(ArmorItem(item_id)),
                Some(GameItemKindDef::Weapon { .. }) => r == Ok::<GameOutcome, GameError>(GameOutcome::Success)
                    && final(self).player.character.weapon == Some(WeaponItem(item_id)),
                Some(GameItemKindDef::Food { nutrition }) => r == Ok::<GameOutcome, GameError>(GameOutcome::Success)
                    && final(self).items@ == old(self).items@.remove(item_id)
                    && final(self).player.character.stats.base.hp_current == hp_after_heal(
                        old(self).player.character.stats.base.hp_current, old(self).player.character.stats.base.hp_max,
                        nutrition),
                Some(GameItemKindDef::Potion { .. }) => r == Ok::<GameOutcome, GameError>(GameOutcome::Success)
                    && final(self).items@ == old(self).items@.remove(item_id),
                Some(GameItemKindDef::Key) => r == Ok::<GameOutcome, GameError>(GameOutcome::Fail(FailReason::NoInteraction))
                    && *final(self) == *old(self),
                None => true,
            },
            old(self).player.character.inventory@.contains(item_id) ==>
                (old(self).item_kind(item_id) matches Some(GameItemKindDef::Potion { effect }) ==>
                exists|count: u8, since: u64| final(self).player.character.active_buffs@
                    == old(self).player.character.active_buffs@ + crate::gameplay::buff_effects::potion_buffs(effect, count, since)),
            !(old(self).player.character.inventory@.contains(item_id)
                && old(self).item_kind(item_id) is Some && old(self).item_kind(item_id).unwrap() is Potion) ==>
                final(self).player.character.active_buffs@ == old(self).player.character.active_buffs@,
            final(self).player.character.base == old(self).player.character.base,
            final(self).player.character.stats.abilities == old(self).player.character.stats.abilities,
            final(self).levels == old(self).levels,
            final(self).level_nr == old(self).level_nr,
            final(self).id_system == old(self).id_system,
            final(self).round_nr == old(self).round_nr,
            r matches Err(e) ==> e is Engine || e matches GameError::Data(DataError::MissingItemDefinition(_)),
    {
        if self.inventory_position(item_id).is_none() {
            let message = join(join("Couldn't use item ", decimal(item_id as u64).as_str()).as_str(),
                ": the item is not in the inventory");
            self.log.debug_info(message);
            return Err(GameError::Engine(EngineError::ItemNotInInventory(item_id)));
        }
        let item = match self.get_item_by_id(item_id) {
            Some(item) => item,
            None => { return Err(GameError::Engine(EngineError::UnregisteredItem(item_id))); },
        };
        let item_def = match self.get_item_def_by_id(&item.def_id) {
            Some(def) => def,
            None => { return Err(GameError::Data(DataError::MissingItemDefinition(item.def_id))); },
        };
        match item_def.kind {
            GameItemKindDef::Armor { .. } => self.use_armor(item_id),
            GameItemKindDef::Weapon { .. } => self.use_weapon(item_id),
            GameItemKindDef::Food { nutrition } => self.use_food(item_id, nutrition),
            GameItemKindDef::Potion { effect } => self.use_potion(item_id, effect),
            GameItemKindDef::Key => Ok(GameOutcome::Fail(FailReason::NoInteraction)),
        }
    }
}

} // verus!
