use vstd::prelude::*;
use crate::coords::{ChunkCoordinates, Chunkable, EntityId, Sighting};

verus! {

/// `v`, held into `[lo, hi]`.
pub open spec fn clamp(v: int, lo: int, hi: int) -> int {
    if v < lo {
        lo
    } else if v > hi {
        hi
    } else {
        v
    }
}

/// The index, along one axis, of the chunk that holds the position `pos`,
/// which is counted in half units. The axis has length `extent`, is centred
/// on the origin and is cut into chunks of length `step`: shift the origin to
/// the low edge, divide by the length of a chunk rounding down, clamp. In
/// half units the shift is `extent` and a chunk is `2 * step` long.
pub open spec fn axis_index(pos: int, extent: int, step: int) -> int {
    clamp((pos + extent) / (2 * step), 0, extent / step - 1)
}

/// The middle, along one axis, of the chunk with the given index, counted in
/// half units: twice `index * step - extent / 2 + step / 2`, with nothing
/// rounded.
pub open spec fn axis_center(index: int, extent: int, step: int) -> int {
    2 * index * step - extent + step
}

/// The test that a value is not `e`.
pub open spec fn other_than(e: EntityId) -> spec_fn(EntityId) -> bool {
    |x: EntityId| x != e
}

/// Dimensions from which a grid can be made: all positive, the canvas no
/// larger than 32 bits can say, and at least one whole chunk along each axis.
pub open spec fn valid_dimensions(canvas_w: int, canvas_h: int, chunk_w: int, chunk_h: int) -> bool {
    &&& 0 < canvas_w <= u32::MAX
    &&& 0 < canvas_h <= u32::MAX
    &&& chunk_w > 0
    &&& chunk_h > 0
    &&& canvas_w / chunk_w >= 1
    &&& canvas_h / chunk_h >= 1
}

/// The grid as a mathematical value: its dimensions, and for each chunk the
/// entities that it lists, oldest first.
#[verifier::ext_equal]
pub struct Grid {
    pub canvas_w: int,
    pub canvas_h: int,
    pub chunk_w: int,
    pub chunk_h: int,
    pub chunks: Map<ChunkCoordinates, Seq<EntityId>>,
}

impl Grid {
    /// Number of columns.
    pub open spec fn cols(self) -> int {
        self.canvas_w / self.chunk_w
    }

    /// Number of rows.
    pub open spec fn rows(self) -> int {
        self.canvas_h / self.chunk_h
    }

    /// Whether `c` names a chunk of this grid.
    pub open spec fn has_chunk(self, c: ChunkCoordinates) -> bool {
        c.x < self.cols() && c.y < self.rows()
    }

    /// The dimensions are valid and the grid lists entities for exactly its
    /// own chunks.
    pub open spec fn wf(self) -> bool {
        &&& valid_dimensions(self.canvas_w, self.canvas_h, self.chunk_w, self.chunk_h)
        &&& forall|c: ChunkCoordinates| #[trigger] self.chunks.dom().contains(c) <==> self.has_chunk(c)
    }

    /// The entities listed in chunk `c`, oldest first.
    pub open spec fn cell(self, c: ChunkCoordinates) -> Seq<EntityId> {
        self.chunks[c]
    }

    /// The grid of the given dimensions in which every chunk is empty.
    pub open spec fn empty(canvas_w: int, canvas_h: int, chunk_w: int, chunk_h: int) -> Grid {
        Grid {
            canvas_w,
            canvas_h,
            chunk_w,
            chunk_h,
            chunks: Map::new(
                |c: ChunkCoordinates| c.x < canvas_w / chunk_w && c.y < canvas_h / chunk_h,
                |c: ChunkCoordinates| Seq::<EntityId>::empty(),
            ),
        }
    }

    /// The chunk that holds the position `(x, y)`, counted in half units; a
    /// position outside the canvas belongs to the nearest chunk.
    pub open spec fn chunk_coords(self, x: int, y: int) -> ChunkCoordinates {
        ChunkCoordinates {
            x: axis_index(x, self.canvas_w, self.chunk_w) as usize,
            y: axis_index(y, self.canvas_h, self.chunk_h) as usize,
        }
    }

    /// The centre of chunk `c`, counted in half units.
    pub open spec fn global_coords(self, c: ChunkCoordinates) -> (int, int) {
        (
            axis_center(c.x as int, self.canvas_w, self.chunk_w),
            axis_center(c.y as int, self.canvas_h, self.chunk_h),
        )
    }

    /// This grid with `e` appended to chunk `c`.
    pub open spec fn with_entity(self, c: ChunkCoordinates, e: EntityId) -> Grid {
        Grid { chunks: self.chunks.insert(c, self.chunks[c].push(e)), ..self }
    }

    /// This grid without the first occurrence of `e` in chunk `c`; the same
    /// grid if the chunk does not list `e`.
    pub open spec fn without_entity(self, c: ChunkCoordinates, e: EntityId) -> Grid {
        Grid { chunks: self.chunks.insert(c, self.chunks[c].remove_value(e)), ..self }
    }

    /// This grid after `e` has moved from chunk `from` to chunk `to`: unchanged
    /// if the two are the same chunk; otherwise `e` leaves `from`, if it was
    /// listed there, and joins `to` at the end.
    pub open spec fn relocated(self, e: EntityId, from: ChunkCoordinates, to: ChunkCoordinates) -> Grid {
        if from == to {
            self
        } else {
            self.without_entity(from, e).with_entity(to, e)
        }
    }

    /// The chunk reached from `c` by `dx` columns and `dy` rows, or the nearest
    /// chunk of the grid if that leads beyond an edge.
    pub open spec fn neighbour(self, c: ChunkCoordinates, dx: int, dy: int) -> ChunkCoordinates {
        ChunkCoordinates {
            x: clamp(c.x + dx, 0, self.cols() - 1) as usize,
            y: clamp(c.y + dy, 0, self.rows() - 1) as usize,
        }
    }

    /// The entities that chunk `c` lists beside `e`, oldest first.
    pub open spec fn companions(self, c: ChunkCoordinates, e: EntityId) -> Seq<EntityId> {
        self.cell(c).filter(other_than(e))
    }

    /// The chunk in which a sighting finds its entity.
    pub open spec fn sighted_chunk(self, s: Sighting) -> ChunkCoordinates {
        self.chunk_coords(s.x as int, s.y as int)
    }

    /// The sighting with its record brought up to date.
    pub open spec fn up_to_date(self, s: Sighting) -> Sighting {
        Sighting { chunkable: Chunkable { coords: self.sighted_chunk(s) }, ..s }
    }

    /// The sightings with each record brought up to date.
    pub open spec fn all_up_to_date(self, sightings: Seq<Sighting>) -> Seq<Sighting> {
        Seq::new(sightings.len(), |i: int| self.up_to_date(sightings[i]))
    }

    /// This grid after a tick: each sighted entity in turn has moved from the
    /// chunk on its record to the chunk of its position.
    pub open spec fn after_sightings(self, sightings: Seq<Sighting>) -> Grid
        decreases sightings.len(),
    {
        if sightings.len() == 0 {
            self
        } else {
            let last = sightings.last();
            self.after_sightings(sightings.drop_last()).relocated(
                last.entity,
                last.chunkable.coords,
                self.sighted_chunk(last),
            )
        }
    }

    /// The grid lists no entity twice, no two sightings are of one entity, and
    /// the grid lists each sighted entity in the chunk on its record.
    pub open spec fn agrees_with(self, sightings: Seq<Sighting>) -> bool {
        &&& self.is_partition()
        &&& forall|i: int, j: int|
            0 <= i < j < sightings.len() ==> (#[trigger] sightings[i]).entity
                != (#[trigger] sightings[j]).entity
        &&& forall|i: int|
            0 <= i < sightings.len() ==> self.holds(
                (#[trigger] sightings[i]).chunkable.coords,
                sightings[i].entity,
            )
    }

    /// Whether chunk `c` of this grid lists `e`.
    pub open spec fn holds(self, c: ChunkCoordinates, e: EntityId) -> bool {
        self.has_chunk(c) && self.cell(c).contains(e)
    }

    /// Whether some chunk lists `e`.
    pub open spec fn tracks(self, e: EntityId) -> bool {
        exists|c: ChunkCoordinates| self.holds(c, e)
    }

    /// No entity is listed twice: not twice in one chunk, and not in two chunks.
    pub open spec fn is_partition(self) -> bool {
        &&& forall|c: ChunkCoordinates| self.has_chunk(c) ==> (#[trigger] self.cell(c)).no_duplicates()
        &&& forall|a: ChunkCoordinates, b: ChunkCoordinates, e: EntityId|
            #[trigger] self.holds(a, e) && #[trigger] self.holds(b, e) ==> a == b
    }
}

} // verus!
