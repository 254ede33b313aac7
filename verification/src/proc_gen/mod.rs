pub mod bsp;
pub mod corridors;
pub mod mst;
pub mod proc_gen_room;
pub mod population;
pub mod proc_gen_level;
pub mod forest_rank;
