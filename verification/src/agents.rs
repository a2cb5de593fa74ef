use vstd::prelude::*;
use crate::coords::ChunkCoordinates;

verus! {

/// What an agent is to the cursor: the cursor's own agent, one that shares
/// its chunk, or one that is elsewhere.
#[derive(PartialEq, Eq, Structural, Clone, Copy, Debug)]
pub enum AgentType {
    Main,
    NearMain,
    FarMain,
}

impl AgentType {
    /// The kind of an agent once the cursor is taken into account. An agent
    /// that the grid lists with the cursor is near it; one whose record names
    /// another chunk than the cursor's is far from it; one whose record names
    /// the cursor's chunk but that the grid does not list there stays what
    /// it was.
    pub open spec fn retyped(
        self,
        coords: ChunkCoordinates,
        cursor: ChunkCoordinates,
        listed_with_cursor: bool,
    ) -> AgentType {
        if listed_with_cursor {
            AgentType::NearMain
        } else if coords != cursor {
            AgentType::FarMain
        } else {
            self
        }
    }

    /// Computes `retyped`.
    pub fn retype(
        self,
        coords: ChunkCoordinates,
        cursor: ChunkCoordinates,
        listed_with_cursor: bool,
    ) -> (kind: AgentType)
        ensures
            kind == self.retyped(coords, cursor, listed_with_cursor),
    {
        if listed_with_cursor {
            AgentType::NearMain
        } else if coords != cursor {
            AgentType::FarMain
        } else {
            self
        }
    }
}

} // verus!
