use vstd::prelude::*;

verus! {

/// One of the six axis-aligned faces of a block.
#[derive(Clone, Copy, PartialEq, Eq, Structural, Debug)]
pub enum Side {
    /// Y+
    Top,
    /// Y-
    Bottom,
    /// Z+
    Right,
    /// Z-
    Left,
    /// X+
    Front,
    /// X-
    Back,
}

impl Side {
    /// The step, per axis, from a cell to its neighbour across this face.
    pub open spec fn normal(self) -> (int, int, int) {
        match self {
            Side::Top => (0, 1, 0),
            Side::Bottom => (0, -1, 0),
            Side::Right => (0, 0, 1),
            Side::Left => (0, 0, -1),
            Side::Front => (1, 0, 0),
            Side::Back => (-1, 0, 0),
        }
    }
}

} // verus!
