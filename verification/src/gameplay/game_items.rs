//! Items: their static definitions, the registered instances, and the
//! sprites of items lying on the ground.

use vstd::prelude::*;

use crate::data::item_defs::{get_item_def, spec_item_def, GameItemDef, GameItemDefId};
use crate::gameplay::buff_effects::PotionEffectDef;
use crate::gameplay::entity_logic::{Entity, EntityBase, EntityId};
use crate::gameplay::game::GameState;
use crate::util::errors_results::{DataError, EngineError, GameError};
use crate::util::rng::Roll;
use crate::util::strings::{decimal, join, spec_decimal};
use crate::util::text_log::appends_text;
use crate::world::coordinate_system::Point;
use crate::world::tiles::Color;

verus! {

/// The kind of an item and its statistics.
#[derive(Clone, Copy, Debug, PartialEq, Eq, Structural)]
pub enum GameItemKindDef {
    Weapon { damage: Roll, crit_chance: u8, range: AttackRange },
    Armor { mitigation: u16 },
    Food { nutrition: u16 },
    Potion { effect: PotionEffectDef },
    Key,
}

/// The name of an item kind.
pub open spec fn spec_kind_name(kind: GameItemKindDef) -> &'static str {
    match kind {
        GameItemKindDef::Weapon { .. } => "Weapon",
        GameItemKindDef::Armor { .. } => "Armor",
        GameItemKindDef::Food { .. } => "Food",
        GameItemKindDef::Potion { .. } => "Potion",
        GameItemKindDef::Key => "Key",
    }
}

impl GameItemKindDef {
    /// The name of the kind, as shown to the player.
    pub fn name(&self) -> (s: &'static str)
        ensures
            s == spec_kind_name(*self),
    {
        match self {
            GameItemKindDef::Weapon { .. } => "Weapon",
            GameItemKindDef::Armor { .. } => "Armor",
            GameItemKindDef::Food { .. } => "Food",
            GameItemKindDef::Potion { .. } => "Potion",
            GameItemKindDef::Key => "Key",
        }
    }
}

/// The range of an attack: `None` is melee (a range of 1), `Some(range)`
/// a ranged attack.
pub type AttackRange = Option<usize>;

/// The id of an item equipped as armor.
#[derive(Clone, Copy, Debug, PartialEq, Eq, Structural)]
pub struct ArmorItem(pub GameItemId);

/// The id of an item equipped as weapon.
#[derive(Clone, Copy, Debug, PartialEq, Eq, Structural)]
pub struct WeaponItem(pub GameItemId);

/// The id of a registered item.
pub type GameItemId = u32;

/// A registered item: an instance of an item definition.
#[derive(Clone, Debug)]
pub struct GameItem {
    pub def_id: String,
}

/// An item lying on the ground, as an entity of the level.
#[derive(Clone, Debug)]
pub struct GameItemSprite {
    pub base: EntityBase,
    pub item_id: GameItemId,
}

impl Entity for GameItemSprite {
    fn name(&self) -> (n: &str)
        ensures
            n@ == self.base.name@,
    {
        self.base.name.as_str()
    }

    fn id(&self) -> (i: EntityId)
        ensures
            i == self.base.id,
    {
        self.base.id
    }

    fn pos(&self) -> (p: Point)
        ensures
            p == self.base.pos,
    {
        self.base.pos
    }
}

impl GameItemSprite {
    pub fn new(id: EntityId, name: String, pos: Point, glyph: char, style: Color, item_id: GameItemId) -> (s: Self)
        ensures
            s.base.id == id,
            s.base.name == name,
            s.base.pos == pos,
            s.base.glyph == glyph,
            s.base.style == style,
            s.item_id == item_id,
    {
        Self { base: EntityBase { id, name, pos, glyph, style }, item_id }
    }
}

/// The debug message logged when an item is registered.
pub open spec fn registered_message(def_id: Seq<char>, id: GameItemId) -> Seq<char> {
    "Registered item "@ + def_id + " (ID: "@ + spec_decimal(id as nat) + ")"@
}

/// The debug message logged when an item is deregistered.
pub open spec fn deregistered_message(id: GameItemId) -> Seq<char> {
    "Deregistered item "@ + spec_decimal(id as nat)
}

impl GameState {
    /// Everything but the item register, the identifier counters and the
    /// log is as in `other`.
    pub open spec fn same_but_items(&self, other: GameState) -> bool {
        &&& self.levels == other.levels
        &&& self.level_nr == other.level_nr
        &&& self.player == other.player
        &&& self.cursor == other.cursor
        &&& self.round_nr == other.round_nr
        &&& self.rng == other.rng
        &&& self.proc_gen == other.proc_gen
        &&& self.game_rules == other.game_rules
        &&& self.log.print_debug_info == other.log.print_debug_info
    }

    /// Adds an item of the kind `def_id` to the register under a new item
    /// identifier, which it returns. Items must be registered before they
    /// are spawned or put into the inventory.
    ///
    /// Fails with a data error where no item is defined under `def_id`.
    pub fn register_item(&mut self, def_id: &GameItemDefId) -> (r: Result<GameItemId, GameError>)
        requires
            old(self).levels_wf(),
            old(self).id_system.next_item() < GameItemId::MAX,
        ensures
            final(self).levels_wf(),
            final(self).same_but_items(*old(self)),
            final(self).id_system.next_entity() == old(self).id_system.next_entity(),
            r is Ok <==> spec_item_def(def_id@) is Some,
            r matches Err(e) ==> e == GameError::Data(DataError::MissingItemDefinition(*def_id))
                && *final(self) == *old(self),
            r matches Ok(id) ==> {
                &&& id == old(self).id_system.next_item()
                &&& final(self).id_system.next_item() == id + 1
                &&& final(self).items@.dom() == old(self).items@.dom().insert(id)
                &&& final(self).items@[id].def_id == *def_id
                &&& forall|k: GameItemId| #[trigger] old(self).items@.contains_key(k) ==> final(self).items@[k] == old(self).items@[k]
                &&& appends_text(old(self).log.messages@, final(self).log.messages@, registered_message(def_id@, id), 1)
            },
    {
        if get_item_def(def_id.as_str()).is_none() {
            return Err(GameError::Data(DataError::MissingItemDefinition(def_id.clone())));
        }
        let id: GameItemId = self.id_system.next_item_id();
        self.items.insert(id, GameItem { def_id: def_id.clone() });

        let message = join(join(join("Registered item ", def_id.as_str()).as_str(), " (ID: ").as_str(),
            join(decimal(id as u64).as_str(), ")").as_str());
        proof {
            assert(message@ =~= registered_message(def_id@, id));
        }
        self.log.debug_info(message);
        Ok(id)
    }

    /// Removes an item from the register.
    ///
    /// Errs, changing nothing, where no item is registered under `item_id`.
    pub fn deregister_item(&mut self, item_id: GameItemId) -> (r: Result<(), GameError>)
        requires
            old(self).levels_wf(),
        ensures
            final(self).levels_wf(),
            final(self).same_but_items(*old(self)),
            final(self).id_system == old(self).id_system,
            r is Ok <==> old(self).items@.contains_key(item_id),
            r matches Err(e) ==> e == GameError::Engine(EngineError::UnregisteredItem(item_id))
                && *final(self) == *old(self),
            r is Ok ==> {
                &&& final(self).items@ == old(self).items@.remove(item_id)
                &&& appends_text(old(self).log.messages@, final(self).log.messages@, deregistered_message(item_id), 1)
            },
    {
        if !self.items.contains_key(&item_id) {
            return Err(GameError::Engine(EngineError::UnregisteredItem(item_id)));
        }
        self.items.remove(&item_id);
        let message = join("Deregistered item ", decimal(item_id as u64).as_str());
        self.log.debug_info(message);
        Ok(())
    }

    /// The registered item with the given identifier, if any.
    pub fn get_item_by_id(&self, item_id: GameItemId) -> (r: Option<GameItem>)
        ensures
            r is Some <==> self.items@.contains_key(item_id),
            r matches Some(item) ==> item == self.items@[item_id],
    {
        match self.items.get(&item_id) {
            Some(item) => Some(GameItem { def_id: item.def_id.clone() }),
            None => None,
        }
    }

    /// The item defined under an identifier, if any.
    pub fn get_item_def_by_id(&self, item_def_id: &GameItemDefId) -> (r: Option<GameItemDef>)
        ensures
            r == spec_item_def(item_def_id@),
    {
        get_item_def(item_def_id.as_str())
    }

    /// Makes a sprite, with a new entity identifier, for the registered item
    /// `item_id` to lie at `pos`. It is not spawned into any level yet.
    ///
    /// Errs where the item is not registered, or its kind is not defined.
    pub fn create_item_sprite(&mut self, item_id: GameItemId, pos: Point) -> (r: Result<GameItemSprite, GameError>)
        requires
            old(self).id_system.next_entity() < EntityId::MAX,
        ensures
            final(self).id_system.next_item() == old(self).id_system.next_item(),
            final(self).levels == old(self).levels,
            final(self).player == old(self).player,
            final(self).log == old(self).log,
            final(self).items == old(self).items,
            final(self).level_nr == old(self).level_nr,
            final(self).cursor == old(self).cursor,
            final(self).round_nr == old(self).round_nr,
            final(self).rng == old(self).rng,
            final(self).proc_gen == old(self).proc_gen,
            final(self).game_rules == old(self).game_rules,
            !old(self).items@.contains_key(item_id) ==> (r matches Err(e)
                && e == GameError::Engine(EngineError::UnregisteredItem(item_id))),
            old(self).items@.contains_key(item_id) && spec_item_def(old(self).items@[item_id].def_id@) is None
                ==> (r matches Err(e)
                && e == GameError::Data(DataError::MissingItemDefinition(old(self).items@[item_id].def_id))),
            r is Err ==> final(self).id_system == old(self).id_system,
            r is Ok <==> old(self).items@.contains_key(item_id) && spec_item_def(old(self).items@[item_id].def_id@) is Some,
            r matches Ok(sprite) ==> {
                let def = spec_item_def(old(self).items@[item_id].def_id@).unwrap();
                &&& old(self).items@.contains_key(item_id)
                &&& spec_item_def(old(self).items@[item_id].def_id@) is Some
                &&& sprite.base.id == old(self).id_system.next_entity()
                &&& final(self).id_system.next_entity() == old(self).id_system.next_entity() + 1
                &&& sprite.base.name@ == def.name@
                &&& sprite.base.pos == pos
                &&& sprite.base.glyph == def.glyph
                &&& sprite.base.style == def.style
                &&& sprite.item_id == item_id
            },
    {
        let item = match self.get_item_by_id(item_id) {
            Some(item) => item,
            None => {
                return Err(GameError::Engine(EngineError::UnregisteredItem(item_id)));
            },
        };
        let item_def = match self.get_item_def_by_id(&item.def_id) {
            Some(def) => def,
            None => {
                return Err(GameError::Data(DataError::MissingItemDefinition(item.def_id)));
            },
        };
        let entity_id = self.id_system.next_entity_id();
        let sprite = GameItemSprite::new(entity_id, item_def.name.to_owned(), pos, item_def.glyph, item_def.style, item_id);
        Ok(sprite)
    }
}

} // verus!
