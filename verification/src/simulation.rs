use vstd::prelude::*;
use crate::coords::{ChunkCoordinates, Chunkable, EntityId, GridError, Sighting};
use crate::grid::{axis_center, axis_index, clamp, other_than, valid_dimensions, Grid};
use crate::laws::{
    lemma_add_entity, lemma_axis_whole_canvas, lemma_center_inside_canvas, lemma_relocate_keeps_partition, lemma_remove_entity,
    lemma_tick_keeps_agreement,
};

verus! {

/// The grid itself: a canvas cut into chunks of one size, and for each chunk
/// the entities that stand in it.
pub struct Simulation {
    canvas_w: u32,
    canvas_h: u32,
    chunk_w: u32,
    chunk_h: u32,
    /// One list of entities for each chunk, by row and then by column.
    chunks: Vec<Vec<Vec<EntityId>>>,
}

impl View for Simulation {
    type V = Grid;

    closed spec fn view(&self) -> Grid {
        Grid {
            canvas_w: self.canvas_w as int,
            canvas_h: self.canvas_h as int,
            chunk_w: self.chunk_w as int,
            chunk_h: self.chunk_h as int,
            chunks: Map::new(
                |c: ChunkCoordinates|
                    c.x < self.canvas_w as int / self.chunk_w as int
                    && c.y < self.canvas_h as int / self.chunk_h as int,
                |c: ChunkCoordinates| self.chunks@[c.y as int]@[c.x as int]@,
            ),
        }
    }
}

impl Simulation {
    /// The rows are as many as the grid has, and each is as long as the grid
    /// is wide.
    pub closed spec fn wf(&self) -> bool {
        &&& valid_dimensions(
            self.canvas_w as int,
            self.canvas_h as int,
            self.chunk_w as int,
            self.chunk_h as int,
        )
        &&& self.chunks@.len() == self.canvas_h as int / self.chunk_h as int
        &&& forall|r: int|
            0 <= r < self.chunks@.len() ==> (#[trigger] self.chunks@[r])@.len()
                == self.canvas_w as int / self.chunk_w as int
    }

    /// A well-formed grid has a well-formed value.
    pub proof fn lemma_view_wf(&self)
        requires
            self.wf(),
        ensures
            self@.wf(),
    {
    }

    /// An empty grid over a canvas of `canvas_w` by `canvas_h`, cut into
    /// chunks of `chunk_w` by `chunk_h`. What is left of the canvas beyond the
    /// last whole chunk belongs to no chunk of its own.
    pub fn new(canvas_w: u32, canvas_h: u32, chunk_w: u32, chunk_h: u32) -> (made: Result<
        Simulation,
        GridError,
    >)
        ensures
            made is Ok <==> valid_dimensions(
                canvas_w as int,
                canvas_h as int,
                chunk_w as int,
                chunk_h as int,
            ),
            made matches Ok(s) ==> s.wf() && s@ == Grid::empty(
                canvas_w as int,
                canvas_h as int,
                chunk_w as int,
                chunk_h as int,
            ),
            made matches Err(e) ==> e == GridError::Config,
    {
        if canvas_w == 0 || canvas_h == 0 || chunk_w == 0 || chunk_h == 0 {
            return Err(GridError::Config);
        }
        let cols: usize = (canvas_w / chunk_w) as usize;
        let rows: usize = (canvas_h / chunk_h) as usize;
        if cols == 0 || rows == 0 {
            return Err(GridError::Config);
        }
        let mut chunks: Vec<Vec<Vec<EntityId>>> = Vec::new();
        for y in 0..rows
            invariant
                chunks@.len() == y,
                forall|r: int|
                    0 <= r < y ==> {
                        &&& (#[trigger] chunks@[r])@.len() == cols
                        &&& forall|c: int| 0 <= c < cols ==> (#[trigger] chunks@[r]@[c])@.len() == 0
                    },
        {
            let mut row: Vec<Vec<EntityId>> = Vec::new();
            for x in 0..cols
                invariant
                    row@.len() == x,
                    forall|c: int| 0 <= c < x ==> (#[trigger] row@[c])@.len() == 0,
            {
                row.push(Vec::new());
            }
            chunks.push(row);
        }
        let made = Simulation { canvas_w, canvas_h, chunk_w, chunk_h, chunks };
        assert(made@ =~~= Grid::empty(
            canvas_w as int,
            canvas_h as int,
            chunk_w as int,
            chunk_h as int,
        ));
        Ok(made)
    }

    /// Width of the canvas.
    pub fn canvas_w(&self) -> (w: u32)
        ensures
            w == self@.canvas_w,
    {
        self.canvas_w
    }

    /// Height of the canvas.
    pub fn canvas_h(&self) -> (h: u32)
        ensures
            h == self@.canvas_h,
    {
        self.canvas_h
    }

    /// Width of one chunk.
    pub fn chunk_w(&self) -> (w: u32)
        ensures
            w == self@.chunk_w,
    {
        self.chunk_w
    }

    /// Height of one chunk.
    pub fn chunk_h(&self) -> (h: u32)
        ensures
            h == self@.chunk_h,
    {
        self.chunk_h
    }

    /// How many chunks the grid has along each axis: `x` columns and `y` rows.
    pub fn get_chunk_limits(&self) -> (limits: ChunkCoordinates)
        requires
            self.wf(),
        ensures
            limits.x == self@.cols(),
            limits.y == self@.rows(),
            limits.x >= 1,
            limits.y >= 1,
    {
        ChunkCoordinates {
            x: (self.canvas_w / self.chunk_w) as usize,
            y: (self.canvas_h / self.chunk_h) as usize,
        }
    }

    /// Whether `coords` names a chunk of this grid.
    pub fn has_chunk(&self, coords: ChunkCoordinates) -> (inside: bool)
        requires
            self.wf(),
        ensures
            inside == self@.has_chunk(coords),
    {
        let limits = self.get_chunk_limits();
        coords.x < limits.x && coords.y < limits.y
    }

    /// Appends `entity` to the chunk at `coords`. Whether some chunk lists the
    /// entity already is not looked at: that is the caller's to know.
    pub fn add_entity(&mut self, coords: ChunkCoordinates, entity: EntityId) -> (done: Result<
        (),
        GridError,
    >)
        requires
            old(self).wf(),
        ensures
            final(self).wf(),
            done is Ok <==> old(self)@.has_chunk(coords),
            done is Ok ==> final(self)@ == old(self)@.with_entity(coords, entity),
            done matches Err(e) ==> e == GridError::OutOfRange && final(self)@ == old(self)@,
            done is Ok && old(self)@.is_partition() && !old(self)@.tracks(entity)
                ==> final(self)@.is_partition(),
    {
        if !self.has_chunk(coords) {
            return Err(GridError::OutOfRange);
        }
        self.chunks[coords.y][coords.x].push(entity);
        proof {
            assert(self@ =~~= old(self)@.with_entity(coords, entity));
            lemma_add_entity(old(self)@, coords, entity);
        }
        Ok(())
    }

    /// The entities that the chunk at `coords` lists now, oldest first, as a
    /// list of the caller's own.
    pub fn get_chunk_entities(&self, coords: ChunkCoordinates) -> (listed: Result<
        Vec<EntityId>,
        GridError,
    >)
        requires
            self.wf(),
        ensures
            listed is Ok <==> self@.has_chunk(coords),
            listed matches Ok(entities) ==> entities@ == self@.cell(coords),
            listed matches Err(e) ==> e == GridError::OutOfRange,
    {
        if !self.has_chunk(coords) {
            return Err(GridError::OutOfRange);
        }
        let entities = self.chunks[coords.y][coords.x].clone();
        assert(entities@ =~= self@.cell(coords));
        Ok(entities)
    }

    /// The chunk that holds the position `(x, y)`, counted in half units.
    /// Every position has one: a position outside the canvas belongs to the
    /// nearest chunk.
    pub fn get_chunk_coords(&self, x: i64, y: i64) -> (coords: ChunkCoordinates)
        requires
            self.wf(),
        ensures
            coords == self@.chunk_coords(x as int, y as int),
            self@.has_chunk(coords),
    {
        ChunkCoordinates {
            x: axis_index_of(x, self.canvas_w, self.chunk_w),
            y: axis_index_of(y, self.canvas_h, self.chunk_h),
        }
    }

    /// The centre of the chunk at `coords`, counted in half units: the exact
    /// middle of the chunk, which lies strictly inside the canvas.
    pub fn get_global_coords(&self, coords: ChunkCoordinates) -> (center: Result<
        (i64, i64),
        GridError,
    >)
        requires
            self.wf(),
        ensures
            center is Ok <==> self@.has_chunk(coords),
            center matches Ok(at) ==> {
                &&& (at.0 as int, at.1 as int) == self@.global_coords(coords)
                &&& -self@.canvas_w < at.0 < self@.canvas_w
                &&& -self@.canvas_h < at.1 < self@.canvas_h
            },
            center matches Err(e) ==> e == GridError::OutOfRange,
    {
        if !self.has_chunk(coords) {
            return Err(GridError::OutOfRange);
        }
        proof {
            lemma_center_inside_canvas(self@, coords);
        }
        Ok(
            (
                axis_center_of(coords.x, self.canvas_w, self.chunk_w),
                axis_center_of(coords.y, self.canvas_h, self.chunk_h),
            ),
        )
    }

    /// Takes the first occurrence of `entity` out of the chunk at `coords`,
    /// and says whether there was one.
    pub fn remove_entity(&mut self, coords: ChunkCoordinates, entity: EntityId) -> (removed: Result<
        bool,
        GridError,
    >)
        requires
            old(self).wf(),
        ensures
            final(self).wf(),
            removed is Ok <==> old(self)@.has_chunk(coords),
            removed matches Ok(was_listed) ==> {
                &&& was_listed == old(self)@.cell(coords).contains(entity)
                &&& final(self)@ == old(self)@.without_entity(coords, entity)
            },
            removed matches Err(e) ==> e == GridError::OutOfRange && final(self)@ == old(self)@,
            old(self)@.is_partition() ==> final(self)@.is_partition(),
            removed == Ok::<bool, GridError>(true) && old(self)@.is_partition()
                ==> !final(self)@.tracks(entity),
    {
        if !self.has_chunk(coords) {
            return Err(GridError::OutOfRange);
        }
        proof {
            lemma_remove_entity(old(self)@, coords, entity);
        }
        let found = first_index_of(&self.chunks[coords.y][coords.x], entity);
        match found {
            Some(index) => {
                self.chunks[coords.y][coords.x].remove(index);
                assert(self@ =~~= old(self)@.without_entity(coords, entity));
                Ok(true)
            },
            None => {
                assert(self@ =~~= old(self)@.without_entity(coords, entity));
                Ok(false)
            },
        }
    }

    /// Moves `entity` from the chunk at `from` to the chunk at `to`. Nothing
    /// changes if the two are the same chunk. Otherwise the first occurrence
    /// of the entity leaves `from`, if there is one, and the entity joins `to`
    /// at the end, whether or not it was found. Coordinates outside the grid
    /// are turned down before anything else is looked at.
    pub fn change_entity_sector(
        &mut self,
        entity: EntityId,
        from: ChunkCoordinates,
        to: ChunkCoordinates,
    ) -> (done: Result<(), GridError>)
        requires
            old(self).wf(),
        ensures
            final(self).wf(),
            done is Ok <==> old(self)@.has_chunk(from) && old(self)@.has_chunk(to),
            done is Ok ==> final(self)@ == old(self)@.relocated(entity, from, to),
            done matches Err(e) ==> e == GridError::OutOfRange && final(self)@ == old(self)@,
            from == to ==> final(self)@ == old(self)@,
            done is Ok && old(self)@.is_partition() && (old(self)@.holds(from, entity)
                || !old(self)@.tracks(entity)) ==> final(self)@.is_partition(),
    {
        if !self.has_chunk(from) || !self.has_chunk(to) {
            return Err(GridError::OutOfRange);
        }
        proof {
            if old(self)@.is_partition() && (old(self)@.holds(from, entity) || !old(self)@.tracks(
                entity,
            )) {
                lemma_relocate_keeps_partition(old(self)@, entity, from, to);
            }
        }
        if from == to {
            return Ok(());
        }
        let found = first_index_of(&self.chunks[from.y][from.x], entity);
        if let Some(index) = found {
            self.chunks[from.y][from.x].remove(index);
        }
        assert(self@ =~~= old(self)@.without_entity(from, entity));
        self.chunks[to.y][to.x].push(entity);
        assert(self@ =~~= old(self)@.relocated(entity, from, to));
        Ok(())
    }

    /// One entity's share of a tick: finds the chunk of its new position
    /// `(x, y)`, counted in half units, moves it there in the grid if that is
    /// not the chunk on its record, brings the record up to date, and says
    /// whether it moved. A record that names no chunk of this grid is turned
    /// down and nothing changes.
    pub fn update_chunkable(
        &mut self,
        entity: EntityId,
        chunkable: &mut Chunkable,
        x: i64,
        y: i64,
    ) -> (moved: Result<bool, GridError>)
        requires
            old(self).wf(),
        ensures
            final(self).wf(),
            moved is Ok <==> old(self)@.has_chunk(old(chunkable).coords),
            moved matches Ok(changed) ==> {
                &&& final(chunkable).coords == old(self)@.chunk_coords(x as int, y as int)
                &&& changed == (final(chunkable).coords != old(chunkable).coords)
                &&& final(self)@ == old(self)@.relocated(
                    entity,
                    old(chunkable).coords,
                    final(chunkable).coords,
                )
            },
            moved matches Err(e) ==> {
                &&& e == GridError::OutOfRange
                &&& final(self)@ == old(self)@
                &&& *final(chunkable) == *old(chunkable)
            },
            moved is Ok && old(self)@.is_partition() && old(self)@.holds(
                old(chunkable).coords,
                entity,
            ) ==> final(self)@.is_partition() && final(self)@.holds(final(chunkable).coords, entity),
    {
        let coords = self.get_chunk_coords(x, y);
        let last = chunkable.coords;
        proof {
            if old(self)@.is_partition() && old(self)@.holds(last, entity) {
                lemma_relocate_keeps_partition(old(self)@, entity, last, coords);
            }
        }
        if coords == last {
            return Ok(false);
        }
        match self.change_entity_sector(entity, last, coords) {
            Ok(()) => {
                chunkable.coords = coords;
                Ok(true)
            },
            Err(e) => Err(e),
        }
    }

    /// A whole tick: takes the sighted entities in turn, moves each in the
    /// grid from the chunk on its record to the chunk of its position, and
    /// brings the record up to date. If some record names no chunk of this
    /// grid, the tick is turned down as a whole and nothing changes.
    pub fn update_chunkables(&mut self, sightings: &mut Vec<Sighting>) -> (done: Result<
        (),
        GridError,
    >)
        requires
            old(self).wf(),
        ensures
            final(self).wf(),
            done is Ok <==> forall|i: int|
                0 <= i < old(sightings)@.len() ==> old(self)@.has_chunk(
                    (#[trigger] old(sightings)@[i]).chunkable.coords,
                ),
            done is Ok ==> {
                &&& final(self)@ == old(self)@.after_sightings(old(sightings)@)
                &&& final(sightings)@ == old(self)@.all_up_to_date(old(sightings)@)
            },
            done matches Err(e) ==> {
                &&& e == GridError::OutOfRange
                &&& final(self)@ == old(self)@
                &&& final(sightings)@ == old(sightings)@
            },
            done is Ok && old(self)@.agrees_with(old(sightings)@) ==> final(self)@.agrees_with(
                final(sightings)@,
            ),
    {
        let ghost before = self@;
        let ghost seen = sightings@;
        let count = sightings.len();
        for index in 0..count
            invariant
                self.wf(),
                self@ == before,
                sightings@ == seen,
                count == seen.len(),
                forall|i: int|
                    0 <= i < index ==> before.has_chunk((#[trigger] seen[i]).chunkable.coords),
        {
            if !self.has_chunk(sightings[index].chunkable.coords) {
                return Err(GridError::OutOfRange);
            }
        }
        for index in 0..count
            invariant
                self.wf(),
                before.wf(),
                count == seen.len(),
                sightings@.len() == count,
                forall|i: int|
                    0 <= i < count ==> before.has_chunk((#[trigger] seen[i]).chunkable.coords),
                self@ == before.after_sightings(seen.take(index as int)),
                self@.canvas_w == before.canvas_w,
                self@.canvas_h == before.canvas_h,
                self@.chunk_w == before.chunk_w,
                self@.chunk_h == before.chunk_h,
                forall|i: int| 0 <= i < index ==> sightings@[i] == before.up_to_date(seen[i]),
                forall|i: int| index <= i < count ==> sightings@[i] == seen[i],
        {
            let mut sighting = sightings[index];
            proof {
                assert(seen.take(index + 1).drop_last() =~= seen.take(index as int));
                assert(seen.take(index + 1).last() == seen[index as int]);
            }
            let _ = self.update_chunkable(
                sighting.entity,
                &mut sighting.chunkable,
                sighting.x,
                sighting.y,
            );
            sightings[index] = sighting;
        }
        proof {
            assert(seen.take(count as int) =~= seen);
            assert(sightings@ =~= before.all_up_to_date(seen));
            if before.agrees_with(seen) {
                lemma_tick_keeps_agreement(before, seen);
            }
        }
        Ok(())
    }

    /// The entities that the chunk at `coords` lists beside `entity`, oldest
    /// first: those that share the chunk with it.
    pub fn get_chunk_companions(&self, coords: ChunkCoordinates, entity: EntityId) -> (listed: Result<
        Vec<EntityId>,
        GridError,
    >)
        requires
            self.wf(),
        ensures
            listed is Ok <==> self@.has_chunk(coords),
            listed matches Ok(others) ==> others@ == self@.companions(coords, entity),
            listed matches Err(e) ==> e == GridError::OutOfRange,
    {
        if !self.has_chunk(coords) {
            return Err(GridError::OutOfRange);
        }
        let list = &self.chunks[coords.y][coords.x];
        let ghost beside = other_than(entity);
        let mut others: Vec<EntityId> = Vec::new();
        assert(list@.take(0).filter(beside) =~= Seq::<EntityId>::empty()) by {
            reveal(Seq::filter);
        }
        for index in 0..list.len()
            invariant
                beside == other_than(entity),
                others@ == list@.take(index as int).filter(beside),
        {
            proof {
                assert(list@.take(index + 1) =~= list@.take(index as int).push(list@[index as int]));
                list@.take(index as int).lemma_filter_push(list@[index as int], beside);
            }
            if list[index] != entity {
                others.push(list[index]);
            }
        }
        assert(list@.take(list@.len() as int) =~= list@);
        Ok(others)
    }

    /// The chunk reached from `coords` by `dx` columns and `dy` rows, or the
    /// nearest chunk of the grid if that leads beyond an edge.
    pub fn get_neighbour_chunk(&self, coords: ChunkCoordinates, dx: i64, dy: i64) -> (reached:
        ChunkCoordinates)
        requires
            self.wf(),
        ensures
            reached == self@.neighbour(coords, dx as int, dy as int),
            self@.has_chunk(reached),
    {
        let limits = self.get_chunk_limits();
        ChunkCoordinates {
            x: axis_step(coords.x, dx, limits.x),
            y: axis_step(coords.y, dy, limits.y),
        }
    }
}

/// Computes `axis_index` without leaving the machine's integers.
fn axis_index_of(pos: i64, extent: u32, step: u32) -> (index: usize)
    requires
        step > 0,
        extent as int / step as int >= 1,
    ensures
        index == axis_index(pos as int, extent as int, step as int),
        index < extent as int / step as int,
{
    let reach: i64 = extent as i64;
    let last: u32 = extent / step - 1;
    if pos < -reach {
        assert((pos + reach) / (2 * step) < 0) by (nonlinear_arith)
            requires
                pos + reach < 0,
                step > 0,
        ;
        0
    } else if pos >= reach {
        proof {
            lemma_axis_whole_canvas(pos as int, extent as int, step as int);
        }
        last as usize
    } else {
        let offset: u64 = (pos + reach) as u64;
        let index: u64 = offset / (2 * (step as u64));
        if index > last as u64 {
            last as usize
        } else {
            index as usize
        }
    }
}

/// Computes `axis_center` without leaving the machine's integers.
fn axis_center_of(index: usize, extent: u32, step: u32) -> (center: i64)
    requires
        step > 0,
        index < extent as int / step as int,
    ensures
        center == axis_center(index as int, extent as int, step as int),
{
    assert(0 <= index * step <= extent && 2 * index * step == 2 * (index * step)) by (nonlinear_arith)
        requires
            step > 0,
            0 <= index < extent as int / step as int,
    ;
    2 * ((index as i64) * (step as i64)) - extent as i64 + step as i64
}

/// `index + delta`, held into `[0, count - 1]`.
fn axis_step(index: usize, delta: i64, count: usize) -> (reached: usize)
    requires
        count >= 1,
    ensures
        reached == clamp(index + delta, 0, count - 1),
        reached < count,
{
    let target: i128 = index as i128 + delta as i128;
    if target < 0 {
        0
    } else if target > (count - 1) as i128 {
        count - 1
    } else {
        target as usize
    }
}

/// Where `entity` first occurs in `list`.
fn first_index_of(list: &Vec<EntityId>, entity: EntityId) -> (found: Option<usize>)
    ensures
        found matches Some(index) ==> index < list@.len() && list@.index_of_first(entity) == Some(
            index as int,
        ),
        found is None ==> list@.index_of_first(entity) is None,
        found is Some <==> list@.contains(entity),
{
    proof {
        list@.index_of_first_ensures(entity);
    }
    let mut index: usize = 0;
    while index < list.len()
        invariant
            index <= list@.len(),
            forall|j: int| 0 <= j < index ==> list@[j] != entity,
        decreases list@.len() - index,
    {
        if list[index] == entity {
            proof {
                list@.index_of_first_ensures(entity);
                assert(list@[index as int] == entity);
            }
            return Some(index);
        }
        index += 1;
    }
    None
}

} // verus!
