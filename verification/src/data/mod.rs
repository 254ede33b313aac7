pub mod levels;
pub mod npc_defs;
pub mod item_defs;
