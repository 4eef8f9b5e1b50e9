pub mod chunk_manager;
pub mod world;
