use vstd::prelude::*;

verus! {

/// How far around a player the server streams chunks, in chunks.
#[derive(Debug, Clone, Copy, PartialEq, Eq, Structural)]
pub struct ServerSettings {
    pub vertical_render_distance: usize,
    pub horizontal_render_distance: usize,
}

} // verus!
