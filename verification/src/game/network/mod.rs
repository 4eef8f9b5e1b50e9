pub mod frame;
pub mod packet;
pub mod wire;
