use vstd::prelude::*;

pub mod server_join;

verus! {

/// Names a window of the client.
#[derive(Clone, Copy, PartialEq, Eq, Structural, Debug)]
pub enum WindowId {
    ServerJoin,
    PacketDebugger,
}

} // verus!
