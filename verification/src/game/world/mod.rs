use vstd::prelude::*;

pub mod chunk;
pub mod chunk_manager;
pub mod position;
pub mod world;
pub mod worldgen;

verus! {

/// Identifies a block type. `AIR` is the reserved empty value.
#[derive(Clone, Copy, PartialEq, Eq, Structural, Hash, Debug)]
pub struct BlockId(pub u16);

impl BlockId {
    /// The empty block.
    pub open spec fn spec_air() -> BlockId {
        BlockId(0)
    }

    /// The plain terrain block.
    pub open spec fn spec_test() -> BlockId {
        BlockId(1)
    }

    /// The panel block.
    pub open spec fn spec_panel() -> BlockId {
        BlockId(2)
    }

    #[verifier::when_used_as_spec(spec_air)]
    pub fn air() -> (block: BlockId)
        ensures
            block == BlockId::spec_air(),
    {
        BlockId(0)
    }

    #[verifier::when_used_as_spec(spec_test)]
    pub fn test() -> (block: BlockId)
        ensures
            block == BlockId::spec_test(),
    {
        BlockId(1)
    }

    #[verifier::when_used_as_spec(spec_panel)]
    pub fn panel() -> (block: BlockId)
        ensures
            block == BlockId::spec_panel(),
    {
        BlockId(2)
    }

    /// Whether this is the empty block.
    pub fn is_air(&self) -> (air: bool)
        ensures
            air == (self.0 == 0),
    {
        self.0 == 0
    }
}

} // verus!
