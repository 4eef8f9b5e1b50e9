pub mod peers;
pub mod player;
pub mod server;
pub mod server_settings;
pub mod stream;
pub mod world;
