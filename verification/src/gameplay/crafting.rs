//! Crafting: items of the inventory made into another.

use vstd::prelude::*;

use crate::gameplay::game::GameState;
use crate::gameplay::game_items::GameItemId;
use crate::gameplay::inventory::{inv_without, INVENTORY_LIMIT};

verus! {

/// A recipe: the items it takes, and the item it makes.
pub struct CraftingRecipe {
    pub input: Vec<GameItemId>,
    pub output: GameItemId,
}

/// The inventory after taking out each of `items` in turn (an item that is
/// no longer there is skipped).
pub open spec fn inv_after_taking(inv: Seq<GameItemId>, items: Seq<GameItemId>) -> Seq<GameItemId>
    decreases items.len(),
{
    if items.len() == 0 {
        inv
    } else {
        let before = inv_after_taking(inv, items.drop_last());
        if before.contains(items.last()) { inv_without(before, items.last()) } else { before }
    }
}

/// Whether `seq` holds `x`.
fn holds(seq: &Vec<GameItemId>, x: GameItemId) -> (b: bool)
    ensures
        b == seq@.contains(x),
{
    let mut i: usize = 0;
    while i < seq.len()
        invariant
            i <= seq.len(),
            forall|k: int| 0 <= k < i ==> seq@[k] != x,
        decreases seq.len() - i,
    {
        if seq[i] == x {
            return true;
        }
        i = i + 1;
    }
    false
}

impl GameState {
    /// Crafts by the recipe, where every input item is in the inventory:
    /// the inputs are taken out in turn, and the output goes in (where the
    /// inventory has room). Returns whether the recipe could be used.
    pub fn craft(&mut self, recipe: &CraftingRecipe) -> (crafted: bool)
        ensures
            crafted == forall|k: int| 0 <= k < recipe.input@.len()
                ==> old(self).player.character.inventory@.contains(#[trigger] recipe.input@[k]),
            !crafted ==> *final(self) == *old(self),
            crafted ==> {
                let taken = inv_after_taking(old(self).player.character.inventory@, recipe.input@);
                final(self).player.character.inventory@
                    == if taken.len() < INVENTORY_LIMIT { taken.push(recipe.output) } else { taken }
            },
            final(self).only_inventory_changed(*old(self)),
    {
        let mut i: usize = 0;
        while i < recipe.input.len()
            invariant
                i <= recipe.input@.len(),
                forall|k: int| 0 <= k < i ==> self.player.character.inventory@.contains(#[trigger] recipe.input@[k]),
            decreases recipe.input.len() - i,
        {
            if !holds(&self.player.character.inventory, recipe.input[i]) {
                return false;
            }
            i = i + 1;
        }
        let mut j: usize = 0;
        while j < recipe.input.len()
            invariant
                j <= recipe.input@.len(),
                self.player.character.inventory@ == inv_after_taking(old(self).player.character.inventory@,
                    recipe.input@.take(j as int)),
                self.only_inventory_changed(*old(self)),
            decreases recipe.input.len() - j,
        {
            proof {
                assert(recipe.input@.take(j + 1).drop_last() =~= recipe.input@.take(j as int));
            }
            let _ = self.remove_item_from_inv(recipe.input[j]);
            j = j + 1;
        }
        proof {
            assert(recipe.input@.take(recipe.input@.len() as int) =~= recipe.input@);
        }
        let _ = self.add_item_to_inv(recipe.output);
        true
    }
}

} // verus!
