//! A uniform grid over a bounded plane that keeps, chunk by chunk, the
//! entities that currently stand in each chunk.
//!
//! The sizes of the canvas and of a chunk are whole numbers of world units.
//! Positions are counted in half units: the position `p` is the point at
//! `p / 2` world units, so the centre of every chunk is a position, whatever
//! the sizes. The plane is centred on the origin; a position outside it
//! belongs to the nearest chunk.

pub mod agents;
pub mod coords;
pub mod grid;
pub mod laws;
pub mod simulation;

pub use agents::AgentType;
pub use coords::{ChunkCoordinates, Chunkable, EntityId, GridError, Sighting};
pub use grid::Grid;
pub use simulation::Simulation;
