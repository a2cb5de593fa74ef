use vstd::prelude::*;

verus! {

/// What the grid keeps of an entity: an opaque number that the caller hands out.
pub type EntityId = u64;

/// Integer coordinates of one chunk of the grid: `x` is the column, `y` the row.
#[derive(PartialEq, Eq, Structural, PartialOrd, Clone, Copy, Debug)]
pub struct ChunkCoordinates {
    pub x: usize,
    pub y: usize,
}

impl ChunkCoordinates {
    pub fn new(x: usize, y: usize) -> (coords: Self)
        ensures
            coords.x == x,
            coords.y == y,
    {
        ChunkCoordinates { x, y }
    }
}

/// The chunk in which an entity was last seen. The caller keeps one for each
/// entity; the grid itself never stores it.
#[derive(PartialEq, Eq, Structural, Clone, Copy, Debug)]
pub struct Chunkable {
    pub coords: ChunkCoordinates,
}

/// One entity as a tick finds it: which entity, the chunk on its record, and
/// the position at which it stands now, counted in half units.
#[derive(PartialEq, Eq, Structural, Clone, Copy, Debug)]
pub struct Sighting {
    pub entity: EntityId,
    pub chunkable: Chunkable,
    pub x: i64,
    pub y: i64,
}

/// Why the grid turned a request down.
#[derive(PartialEq, Eq, Structural, Clone, Copy, Debug)]
pub enum GridError {
    /// A dimension is zero, or a chunk is larger than the canvas.
    Config,
    /// The chunk coordinates lie outside the grid.
    OutOfRange,
}

} // verus!
