pub mod client;
pub mod entity;
pub mod network;
pub mod player;
pub mod world;
