//! The outcomes of the game's actions and the errors that can occur.

use vstd::prelude::*;

use crate::gameplay::entity_logic::EntityId;
use crate::gameplay::game_items::{spec_kind_name, GameItemId, GameItemKindDef};
use crate::util::strings::{decimal, join, spec_decimal};
use crate::util::text_log::LogData;
use crate::world::coordinate_system::Point;

verus! {

/// The outcome of an action within the rules of the game.
///
/// Example: a player tries to move into a wall. The game answers
/// `GameOutcome::Fail(FailReason::TileNotWalkable(..))`: the move is illegal.
#[derive(Debug)]
pub enum GameOutcome {
    /// The action is successful and can be completed.
    Success,
    /// The action was unsuccessful for the given reason and is not completed.
    Fail(FailReason),
}

/// Reasons for which an action answers `GameOutcome::Fail`: anything the
/// rules of the game forbid.
#[derive(Clone, Copy, Debug, PartialEq, Eq, Structural)]
pub enum FailReason {
    /// The point is out of bounds.
    PointOutOfBounds(Point),
    /// The target tile is not walkable (e.g. walking against a wall).
    TileNotWalkable(Point),
    /// The inventory cannot take in any more items.
    InventoryFull,
    /// The equipment slot is already empty.
    CannotUnequipEmptySlot,
    /// The action needs an equipped item, but the slot is empty.
    EquipmentSlotEmpty,
    /// The targeted entity cannot be targeted by this action.
    InvalidTarget(EntityId),
    /// The target is out of the weapon's range.
    OutOfRange,
    /// Something already lies on the tile.
    TileOccupied(Point),
    /// The tile offers no interaction.
    NoInteraction,
    /// The tile is not visible to the player.
    TileNotVisible(Point),
}

/// The message, if any, that tells the player of a failure.
pub open spec fn spec_notify_user(reason: FailReason) -> Option<LogData> {
    match reason {
        FailReason::InventoryFull => Some(LogData::InventoryFull),
        FailReason::CannotUnequipEmptySlot => Some(LogData::EquipmentSlotEmpty),
        FailReason::EquipmentSlotEmpty => Some(LogData::EquipmentSlotEmpty),
        FailReason::NoInteraction => Some(LogData::NoInteraction),
        FailReason::TileNotVisible(_) => Some(LogData::TileNotVisible),
        _ => None,
    }
}

impl FailReason {
    /// How (if at all) the player is told of the failure. Some things are
    /// worth telling (a full inventory); others go without saying (not being
    /// able to walk into a wall).
    pub fn notify_user(&self) -> (r: Option<LogData>)
        ensures
            r == spec_notify_user(*self),
    {
        match self {
            FailReason::InventoryFull => Some(LogData::InventoryFull),
            FailReason::CannotUnequipEmptySlot => Some(LogData::EquipmentSlotEmpty),
            FailReason::EquipmentSlotEmpty => Some(LogData::EquipmentSlotEmpty),
            FailReason::NoInteraction => Some(LogData::NoInteraction),
            FailReason::TileNotVisible(_) => Some(LogData::TileNotVisible),
            _ => None,
        }
    }
}

/// The result of an action: the program either fails (`Err`), or succeeds
/// and the rules either allow the action or forbid it (`Ok(outcome)`).
pub type GameResult = Result<GameOutcome, GameError>;

/// The errors that can occur in the game.
#[derive(Debug)]
pub enum GameError {
    /// Failure of the game's engine (player, npcs, world).
    Engine(EngineError),
    /// Failure of the game's data (invalid ids, missing static data).
    Data(DataError),
    /// Failure of loading or parsing game files.
    Io(IoError),
}

/// Failure of the game's engine.
#[derive(Debug)]
pub enum EngineError {
    /// No item of the given id is registered.
    UnregisteredItem(GameItemId),
    /// The item's kind is not valid for the action (a sword is no armor).
    InvalidItem(GameItemKindDef),
    /// No npc of the given id exists in the current level.
    NpcNotFound(EntityId),
    /// No item sprite of the given id exists in the current level.
    ItemSpriteNotFound(EntityId),
    /// The item is not in the player's inventory.
    ItemNotInInventory(GameItemId),
    /// Spawning an entity at the given point failed.
    SpawningError(Point),
    /// A cursor action was asked for, but no cursor is set.
    CursorNotSet,
}

/// Failure of the game's data.
#[derive(Debug)]
pub enum DataError {
    /// No item is defined under the given id.
    MissingItemDefinition(String),
    /// No npc is defined under the given id.
    MissingNpcDefinition(String),
    /// No static world is defined for the given number.
    StaticWorldNotFound(usize),
    /// The world data of the given level does not fit the world.
    InvalidWorldFormat(usize),
}

/// Failure of reading or parsing a game file; the message is the one of
/// the underlying error.
#[derive(Debug)]
pub enum IoError {
    /// Reading the map file has failed.
    MapReadFailed(String),
    /// Parsing the map file has failed.
    MapParseFailed(String),
}

/// The text of a number in the debug log.
pub open spec fn num_text(n: int) -> Seq<char> {
    spec_decimal(n as nat)
}

/// The debug log's description of an engine error.
pub open spec fn spec_engine_text(e: EngineError) -> Seq<char> {
    match e {
        EngineError::UnregisteredItem(id) => "No item of id "@ + num_text(id as int) + " registered"@,
        EngineError::InvalidItem(kind) => "Item of kind "@ + spec_kind_name(kind)@
            + " cannot be used for this action."@,
        EngineError::NpcNotFound(id) => "Npc of id "@ + num_text(id as int) + " does not exist"@,
        EngineError::ItemSpriteNotFound(id) => "Item Sprite of id "@ + num_text(id as int)
            + " does not exist"@,
        EngineError::ItemNotInInventory(id) => "Inventory operation not possible, because item of id "@
            + num_text(id as int) + " is not in inventory."@,
        EngineError::SpawningError(p) => "Could not spawn entity, because point (x: "@
            + num_text(p.x as int) + ", y: "@ + num_text(p.y as int) + ") is not available"@,
        EngineError::CursorNotSet => "No cursor is set"@,
    }
}

/// The debug log's description of a data error.
pub open spec fn spec_data_text(e: DataError) -> Seq<char> {
    match e {
        DataError::MissingItemDefinition(id) => "Item of def_id "@ + id@ + " not defined"@,
        DataError::MissingNpcDefinition(id) => "Npc of def_id "@ + id@ + " not defined"@,
        DataError::StaticWorldNotFound(n) => "No static world definied for id "@ + num_text(n as int),
        DataError::InvalidWorldFormat(n) => "WorldData for "@ + num_text(n as int)
            + " does not fit requirements"@,
    }
}

/// The debug log's description of a file error.
pub open spec fn spec_io_text(e: IoError) -> Seq<char> {
    match e {
        IoError::MapReadFailed(m) => "Couldn't load map file: "@ + m@,
        IoError::MapParseFailed(m) => "Couldn't parse map file: "@ + m@,
    }
}

/// The debug log's description of an error.
pub open spec fn spec_error_text(e: GameError) -> Seq<char> {
    match e {
        GameError::Engine(inner) => "Engine Error: "@ + spec_engine_text(inner),
        GameError::Data(inner) => "Data Error: "@ + spec_data_text(inner),
        GameError::Io(inner) => "Io Error: "@ + spec_io_text(inner),
    }
}

impl GameError {
    /// A description of the error for the debug log.
    pub fn describe(&self) -> (s: String)
        ensures
            s@ == spec_error_text(*self),
    {
        match self {
            GameError::Engine(e) => join("Engine Error: ", e.describe().as_str()),
            GameError::Data(e) => join("Data Error: ", e.describe().as_str()),
            GameError::Io(e) => join("Io Error: ", e.describe().as_str()),
        }
    }
}

/// `a`, then the decimal notation of `n`, then `b`.
fn around_number(a: &str, n: u64, b: &str) -> (s: String)
    ensures
        s@ == a@ + spec_decimal(n as nat) + b@,
{
    let s = join(join(a, decimal(n).as_str()).as_str(), b);
    s
}

impl EngineError {
    /// A description of the error for the debug log.
    pub fn describe(&self) -> (s: String)
        ensures
            s@ == spec_engine_text(*self),
    {
        match self {
            EngineError::UnregisteredItem(item_id) => around_number("No item of id ", *item_id as u64, " registered"),
            EngineError::InvalidItem(kind) => join(join("Item of kind ", kind.name()).as_str(),
                " cannot be used for this action."),
            EngineError::NpcNotFound(npc_id) => around_number("Npc of id ", *npc_id as u64, " does not exist"),
            EngineError::ItemSpriteNotFound(sprite_id) => around_number("Item Sprite of id ",
                *sprite_id as u64, " does not exist"),
            EngineError::ItemNotInInventory(item_id) => around_number(
                "Inventory operation not possible, because item of id ", *item_id as u64,
                " is not in inventory."),
            EngineError::SpawningError(point) => {
                let head = around_number("Could not spawn entity, because point (x: ", point.x as u64, ", y: ");
                around_number(head.as_str(), point.y as u64, ") is not available")
            },
            EngineError::CursorNotSet => "No cursor is set".to_owned(),
        }
    }
}

impl DataError {
    /// A description of the error for the debug log.
    pub fn describe(&self) -> (s: String)
        ensures
            s@ == spec_data_text(*self),
    {
        match self {
            DataError::MissingItemDefinition(id) => join(join("Item of def_id ", id.as_str()).as_str(), " not defined"),
            DataError::MissingNpcDefinition(id) => join(join("Npc of def_id ", id.as_str()).as_str(), " not defined"),
            DataError::StaticWorldNotFound(id) => join("No static world definied for id ", decimal(*id as u64).as_str()),
            DataError::InvalidWorldFormat(id) => around_number("WorldData for ", *id as u64,
                " does not fit requirements"),
        }
    }
}

impl IoError {
    /// A description of the error for the debug log.
    pub fn describe(&self) -> (s: String)
        ensures
            s@ == spec_io_text(*self),
    {
        match self {
            IoError::MapReadFailed(message) => join("Couldn't load map file: ", message.as_str()),
            IoError::MapParseFailed(message) => join("Couldn't parse map file: ", message.as_str()),
        }
    }
}

} // verus!
