pub mod armor;
pub mod buff_effects;
pub mod entity_logic;
pub mod game_items;
pub mod player;
pub mod cursor;
pub mod game;
pub mod inventory;
pub mod combat;
pub mod player_actions;
pub mod crafting;
pub mod readiness;
