//! World-data backbone of a networked voxel world: the block and chunk
//! model, terrain generation, the chunk stores, the view-delta streamer, the
//! wire protocol and the face-culling mesher.

pub mod game;
pub mod server;
pub mod util;
