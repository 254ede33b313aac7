pub mod pathfinding;
pub mod npc_ai;
pub mod path_cost;
