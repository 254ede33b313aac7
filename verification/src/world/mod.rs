pub mod coordinate_system;
pub mod tiles;
pub mod worldspace;
pub mod world_data;
pub mod level;
pub mod vision;
pub mod level_loading;
