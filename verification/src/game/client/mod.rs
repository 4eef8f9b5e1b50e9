pub mod chunk_renderer;
pub mod client;
pub mod mesher;
pub mod window;
