pub mod random;
pub mod rng;
pub mod errors_results;
pub mod text_log;
pub mod strings;
pub mod rational;
pub mod command_handler;
pub mod input_handler;
