use vstd::prelude::*;
use crate::coords::{ChunkCoordinates, EntityId, Sighting};
use crate::grid::{axis_center, axis_index, valid_dimensions, Grid};

verus! {

/// Taking the first occurrence of `e` out of `s` leaves every other value
/// where it was listed, and leaves no `e` at all if `s` listed nothing twice.
pub proof fn lemma_remove_value(s: Seq<EntityId>, e: EntityId)
    ensures
        forall|x: EntityId| x != e ==> (#[trigger] s.remove_value(e).contains(x) <==> s.contains(x)),
        s.remove_value(e).contains(e) ==> s.contains(e),
        s.no_duplicates() ==> s.remove_value(e).no_duplicates(),
        s.no_duplicates() ==> !s.remove_value(e).contains(e),
        !s.contains(e) ==> s.remove_value(e) == s,
{
    s.index_of_first_ensures(e);
    match s.index_of_first(e) {
        Some(i) => {
            let r = s.remove(i);
            assert(r == s.remove_value(e));
            assert forall|x: EntityId| x != e implies (#[trigger] r.contains(x) <==> s.contains(x)) by {
                if r.contains(x) {
                    let k = choose|k: int| 0 <= k < r.len() && r[k] == x;
                    if k < i {
                        assert(s[k] == x);
                    } else {
                        assert(s[k + 1] == x);
                    }
                }
                if s.contains(x) {
                    let k = choose|k: int| 0 <= k < s.len() && s[k] == x;
                    if k < i {
                        assert(r[k] == x);
                    } else {
                        assert(r[k - 1] == x);
                    }
                }
            }
            if s.no_duplicates() {
                assert forall|a: int, b: int| 0 <= a < r.len() && 0 <= b < r.len() && a != b implies r[a]
                    != r[b] by {
                    let sa = if a < i { a } else { a + 1 };
                    let sb = if b < i { b } else { b + 1 };
                    assert(r[a] == s[sa]);
                    assert(r[b] == s[sb]);
                }
                if r.contains(e) {
                    let k = choose|k: int| 0 <= k < r.len() && r[k] == e;
                    let sk = if k < i { k } else { k + 1 };
                    assert(r[k] == s[sk]);
                    assert(s[sk] == s[i]);
                }
            }
        },
        None => {},
    }
}

/// Appending `e` to `s` adds `e` to what `s` lists and nothing else; nothing
/// is listed twice afterwards exactly if nothing was and `e` is new.
pub proof fn lemma_push(s: Seq<EntityId>, e: EntityId)
    ensures
        forall|x: EntityId| #[trigger] s.push(e).contains(x) <==> (s.contains(x) || x == e),
        s.push(e).no_duplicates() <==> (s.no_duplicates() && !s.contains(e)),
{
    let p = s.push(e);
    assert forall|x: EntityId| #[trigger] p.contains(x) <==> (s.contains(x) || x == e) by {
        if p.contains(x) {
            let k = choose|k: int| 0 <= k < p.len() && p[k] == x;
            if k < s.len() {
                assert(s[k] == x);
            }
        }
        if s.contains(x) {
            let k = choose|k: int| 0 <= k < s.len() && s[k] == x;
            assert(p[k] == x);
        }
        if x == e {
            assert(p[s.len() as int] == x);
        }
    }
    if s.no_duplicates() && !s.contains(e) {
        assert forall|a: int, b: int| 0 <= a < p.len() && 0 <= b < p.len() && a != b implies p[a]
            != p[b] by {
            if a < s.len() {
                assert(s[a] == p[a]);
            }
            if b < s.len() {
                assert(s[b] == p[b]);
            }
        }
    }
    if p.no_duplicates() {
        assert forall|a: int, b: int| 0 <= a < s.len() && 0 <= b < s.len() && a != b implies s[a]
            != s[b] by {
            assert(s[a] == p[a]);
            assert(s[b] == p[b]);
        }
        if s.contains(e) {
            let k = choose|k: int| 0 <= k < s.len() && s[k] == e;
            assert(p[k] == p[s.len() as int]);
        }
    }
}

/// A grid made empty is well formed, lists no entity, and so lists none twice.
pub proof fn lemma_empty_grid(canvas_w: int, canvas_h: int, chunk_w: int, chunk_h: int)
    requires
        valid_dimensions(canvas_w, canvas_h, chunk_w, chunk_h),
    ensures
        Grid::empty(canvas_w, canvas_h, chunk_w, chunk_h).wf(),
        Grid::empty(canvas_w, canvas_h, chunk_w, chunk_h).is_partition(),
        forall|e: EntityId| !Grid::empty(canvas_w, canvas_h, chunk_w, chunk_h).tracks(e),
{
    let g = Grid::empty(canvas_w, canvas_h, chunk_w, chunk_h);
    assert forall|c: ChunkCoordinates, e: EntityId| !g.holds(c, e) by {
        if g.has_chunk(c) {
            assert(g.cell(c) =~= Seq::<EntityId>::empty());
        }
    }
}

/// Adding an entity changes the list of one chunk and nothing else. If no
/// entity was listed twice and the new one was listed nowhere, no entity is
/// listed twice afterwards.
pub proof fn lemma_add_entity(g: Grid, c: ChunkCoordinates, e: EntityId)
    requires
        g.wf(),
        g.has_chunk(c),
    ensures
        g.with_entity(c, e).wf(),
        g.with_entity(c, e).cell(c) == g.cell(c).push(e),
        forall|d: ChunkCoordinates| d != c ==> #[trigger] g.with_entity(c, e).cell(d) == g.cell(d),
        forall|d: ChunkCoordinates, x: EntityId|
            #[trigger] g.with_entity(c, e).holds(d, x) <==> (g.holds(d, x) || (d == c && x == e)),
        g.is_partition() && !g.tracks(e) ==> g.with_entity(c, e).is_partition(),
{
    let h = g.with_entity(c, e);
    lemma_push(g.cell(c), e);
    assert forall|d: ChunkCoordinates, x: EntityId|
        #[trigger] h.holds(d, x) <==> (g.holds(d, x) || (d == c && x == e)) by {
        if d != c {
            assert(h.cell(d) == g.cell(d));
        }
    }
    if g.is_partition() && !g.tracks(e) {
        assert(!g.holds(c, e));
        assert forall|d: ChunkCoordinates| h.has_chunk(d) implies (#[trigger] h.cell(d)).no_duplicates() by {
            if d != c {
                assert(h.cell(d) == g.cell(d));
            }
        }
        assert forall|a: ChunkCoordinates, b: ChunkCoordinates, x: EntityId|
            #[trigger] h.holds(a, x) && #[trigger] h.holds(b, x) implies a == b by {
            if x == e {
                assert(!g.holds(a, e));
                assert(!g.holds(b, e));
            } else {
                assert(g.holds(a, x));
                assert(g.holds(b, x));
            }
        }
    }
}

/// Removing an entity from a chunk changes the list of that chunk and nothing
/// else, and lists no entity that was not listed before. If no entity was
/// listed twice, none is afterwards, and the removed one is listed nowhere
/// unless another chunk listed it.
pub proof fn lemma_remove_entity(g: Grid, c: ChunkCoordinates, e: EntityId)
    requires
        g.wf(),
        g.has_chunk(c),
    ensures
        g.without_entity(c, e).wf(),
        g.without_entity(c, e).cell(c) == g.cell(c).remove_value(e),
        forall|d: ChunkCoordinates| d != c ==> #[trigger] g.without_entity(c, e).cell(d) == g.cell(d),
        forall|d: ChunkCoordinates, x: EntityId|
            x != e ==> (#[trigger] g.without_entity(c, e).holds(d, x) <==> g.holds(d, x)),
        forall|d: ChunkCoordinates| #[trigger] g.without_entity(c, e).holds(d, e) ==> g.holds(d, e),
        !g.holds(c, e) ==> g.without_entity(c, e) == g,
        g.is_partition() ==> g.without_entity(c, e).is_partition(),
        g.is_partition() && (g.holds(c, e) || !g.tracks(e)) ==> !g.without_entity(c, e).tracks(e),
{
    let h = g.without_entity(c, e);
    lemma_remove_value(g.cell(c), e);
    assert forall|d: ChunkCoordinates, x: EntityId| x != e implies (#[trigger] h.holds(d, x)
        <==> g.holds(d, x)) by {
        if d != c {
            assert(h.cell(d) == g.cell(d));
        }
    }
    assert forall|d: ChunkCoordinates| #[trigger] h.holds(d, e) implies g.holds(d, e) by {
        if d != c {
            assert(h.cell(d) == g.cell(d));
        }
    }
    if !g.holds(c, e) {
        assert(h.chunks =~= g.chunks);
    }
    if g.is_partition() {
        assert forall|d: ChunkCoordinates| h.has_chunk(d) implies (#[trigger] h.cell(d)).no_duplicates() by {
            if d != c {
                assert(h.cell(d) == g.cell(d));
            }
        }
        assert forall|a: ChunkCoordinates, b: ChunkCoordinates, x: EntityId|
            #[trigger] h.holds(a, x) && #[trigger] h.holds(b, x) implies a == b by {
            if x == e {
                assert(g.holds(a, e));
                assert(g.holds(b, e));
            } else {
                assert(g.holds(a, x));
                assert(g.holds(b, x));
            }
        }
        if g.holds(c, e) || !g.tracks(e) {
            assert forall|d: ChunkCoordinates| !h.holds(d, e) by {
                if h.holds(d, e) {
                    assert(g.holds(d, e));
                    if g.holds(c, e) {
                        assert(d == c);
                    }
                }
            }
        }
    }
}

/// Moving an entity to the chunk it is in changes nothing.
pub proof fn lemma_relocate_same_chunk(g: Grid, e: EntityId, c: ChunkCoordinates)
    ensures
        g.relocated(e, c, c) == g,
{
}

/// Moving an entity between two chunks changes the lists of those two and of
/// no other chunk, and leaves every other entity in the chunks that listed
/// it.
pub proof fn lemma_relocate_frame(g: Grid, e: EntityId, from: ChunkCoordinates, to: ChunkCoordinates)
    requires
        g.wf(),
        g.has_chunk(from),
        g.has_chunk(to),
    ensures
        g.relocated(e, from, to).wf(),
        forall|d: ChunkCoordinates| g.relocated(e, from, to).has_chunk(d) == g.has_chunk(d),
        forall|d: ChunkCoordinates|
            d != from && d != to ==> #[trigger] g.relocated(e, from, to).cell(d) == g.cell(d),
        forall|d: ChunkCoordinates, x: EntityId|
            x != e ==> (#[trigger] g.relocated(e, from, to).holds(d, x) <==> g.holds(d, x)),
        from != to ==> g.relocated(e, from, to).cell(from) == g.cell(from).remove_value(e),
        from != to ==> g.relocated(e, from, to).cell(to) == g.cell(to).push(e),
{
    if from != to {
        let mid = g.without_entity(from, e);
        lemma_remove_entity(g, from, e);
        lemma_add_entity(mid, to, e);
        let h = g.relocated(e, from, to);
        assert forall|d: ChunkCoordinates, x: EntityId| x != e implies (#[trigger] h.holds(d, x)
            <==> g.holds(d, x)) by {
            assert(h.holds(d, x) <==> mid.holds(d, x));
            assert(mid.holds(d, x) <==> g.holds(d, x));
        }
        assert(mid.cell(to) == g.cell(to));
        assert forall|d: ChunkCoordinates| d != from && d != to implies #[trigger] h.cell(d)
            == g.cell(d) by {
            assert(h.cell(d) == mid.cell(d));
            assert(mid.cell(d) == g.cell(d));
        }
    }
}

/// If no entity is listed twice, and the one that moves is listed in the
/// chunk it is said to leave, or is listed nowhere, then no entity is listed
/// twice after the move.
pub proof fn lemma_relocate_keeps_partition(
    g: Grid,
    e: EntityId,
    from: ChunkCoordinates,
    to: ChunkCoordinates,
)
    requires
        g.wf(),
        g.has_chunk(from),
        g.has_chunk(to),
        g.is_partition(),
        g.holds(from, e) || !g.tracks(e),
    ensures
        g.relocated(e, from, to).is_partition(),
        from != to ==> g.relocated(e, from, to).holds(to, e),
{
    if from != to {
        let mid = g.without_entity(from, e);
        lemma_remove_entity(g, from, e);
        lemma_add_entity(mid, to, e);
    }
}

/// An entity that is listed once, in the chunk it leaves, is afterwards not
/// listed there, and is listed exactly once in the chunk it moves to.
pub proof fn lemma_relocate_moves(g: Grid, e: EntityId, from: ChunkCoordinates, to: ChunkCoordinates)
    requires
        g.wf(),
        g.has_chunk(from),
        g.has_chunk(to),
        from != to,
        g.is_partition(),
        g.holds(from, e),
    ensures
        !g.relocated(e, from, to).cell(from).contains(e),
        g.relocated(e, from, to).cell(to).to_multiset().count(e) == 1,
        forall|d: ChunkCoordinates| g.relocated(e, from, to).holds(d, e) <==> d == to,
{
    let mid = g.without_entity(from, e);
    let h = g.relocated(e, from, to);
    lemma_remove_entity(g, from, e);
    lemma_add_entity(mid, to, e);
    lemma_relocate_frame(g, e, from, to);
    lemma_remove_value(g.cell(from), e);
    assert(!mid.holds(from, e));
    assert(h.cell(from) == mid.cell(from));
    assert(!g.holds(to, e));
    g.cell(to).to_multiset_ensures();
    assert(g.cell(to).to_multiset().count(e) == 0);
    assert(h.cell(to).to_multiset() =~= g.cell(to).to_multiset().insert(e));
    assert forall|d: ChunkCoordinates| h.holds(d, e) <==> d == to by {
        assert(!mid.holds(d, e));
    }
}

/// Along one axis, the middle of a chunk lies in that chunk.
pub proof fn lemma_axis_center_maps_back(index: int, extent: int, step: int)
    requires
        step > 0,
        0 <= index < extent / step,
    ensures
        axis_index(axis_center(index, extent, step), extent, step) == index,
{
    let shifted = axis_center(index, extent, step) + extent;
    assert(shifted == index * (2 * step) + step) by (nonlinear_arith)
        requires
            shifted == 2 * index * step - extent + step + extent,
    ;
    vstd::arithmetic::div_mod::lemma_fundamental_div_mod_converse(shifted, 2 * step, index, step);
}

/// Along one axis, the middle of a chunk lies strictly inside the canvas.
pub proof fn lemma_axis_center_inside(index: int, extent: int, step: int)
    requires
        step > 0,
        0 <= index < extent / step,
    ensures
        -extent < axis_center(index, extent, step) < extent,
{
    assert(0 <= 2 * index * step && 2 * index * step + 2 * step <= 2 * extent) by (nonlinear_arith)
        requires
            step > 0,
            0 <= index < extent / step,
    ;
}

/// Along one axis, every position has a chunk: one left of the canvas the
/// first, one right of it the last.
pub proof fn lemma_axis_index_clamped(pos: int, extent: int, step: int)
    requires
        step > 0,
        extent / step >= 1,
    ensures
        0 <= axis_index(pos, extent, step) < extent / step,
        pos < -extent ==> axis_index(pos, extent, step) == 0,
        pos >= extent ==> axis_index(pos, extent, step) == extent / step - 1,
{
    if pos < -extent {
        assert((pos + extent) / (2 * step) < 0) by (nonlinear_arith)
            requires
                pos + extent < 0,
                step > 0,
        ;
    }
    if pos >= extent {
        assert(extent >= 0) by (nonlinear_arith)
            requires
                step > 0,
                extent / step >= 1,
        ;
        lemma_axis_whole_canvas(pos, extent, step);
    }
}

/// Along one axis, a position at or beyond the high edge of the canvas lies
/// at least as many chunk lengths from the low edge as the axis has chunks.
pub proof fn lemma_axis_whole_canvas(pos: int, extent: int, step: int)
    requires
        step > 0,
        extent >= 0,
        pos >= extent,
    ensures
        (pos + extent) / (2 * step) >= extent / step,
{
    vstd::arithmetic::div_mod::lemma_div_is_ordered(2 * extent, pos + extent, 2 * step);
    vstd::arithmetic::div_mod::lemma_div_multiples_vanish_quotient(2, extent, step);
}

/// The centre of a chunk maps back to that chunk.
pub proof fn lemma_center_maps_back(g: Grid, c: ChunkCoordinates)
    requires
        g.wf(),
        g.has_chunk(c),
    ensures
        g.chunk_coords(g.global_coords(c).0, g.global_coords(c).1) == c,
{
    lemma_axis_center_maps_back(c.x as int, g.canvas_w, g.chunk_w);
    lemma_axis_center_maps_back(c.y as int, g.canvas_h, g.chunk_h);
}

/// The centre of a chunk lies strictly inside the canvas, which in half
/// units reaches from `-canvas_w` to `canvas_w` and from `-canvas_h` to
/// `canvas_h`.
pub proof fn lemma_center_inside_canvas(g: Grid, c: ChunkCoordinates)
    requires
        g.wf(),
        g.has_chunk(c),
    ensures
        -g.canvas_w < g.global_coords(c).0 < g.canvas_w,
        -g.canvas_h < g.global_coords(c).1 < g.canvas_h,
{
    lemma_axis_center_inside(c.x as int, g.canvas_w, g.chunk_w);
    lemma_axis_center_inside(c.y as int, g.canvas_h, g.chunk_h);
}

/// Every position maps to a chunk of the grid. A position beyond an edge of
/// the canvas maps to the first or the last column or row, by the side it is
/// on.
pub proof fn lemma_chunk_coords_clamped(g: Grid, x: int, y: int)
    requires
        g.wf(),
    ensures
        g.has_chunk(g.chunk_coords(x, y)),
        x < -g.canvas_w ==> g.chunk_coords(x, y).x == 0,
        x >= g.canvas_w ==> g.chunk_coords(x, y).x == g.cols() - 1,
        y < -g.canvas_h ==> g.chunk_coords(x, y).y == 0,
        y >= g.canvas_h ==> g.chunk_coords(x, y).y == g.rows() - 1,
{
    lemma_axis_index_clamped(x, g.canvas_w, g.chunk_w);
    lemma_axis_index_clamped(y, g.canvas_h, g.chunk_h);
    lemma_chunk_counts(g);
}

/// A well-formed grid has at least one column and one row, and no more of
/// either than chunk coordinates can count.
pub proof fn lemma_chunk_counts(g: Grid)
    requires
        g.wf(),
    ensures
        1 <= g.cols() <= u32::MAX,
        1 <= g.rows() <= u32::MAX,
{
    vstd::arithmetic::div_mod::lemma_div_nonincreasing(g.canvas_w, g.chunk_w);
    vstd::arithmetic::div_mod::lemma_div_nonincreasing(g.canvas_h, g.chunk_h);
}

/// A tick keeps the grid well formed and its dimensions as they were, and
/// leaves every entity that was not sighted in the chunks that listed it.
pub proof fn lemma_tick_frame(g: Grid, sightings: Seq<Sighting>)
    requires
        g.wf(),
        forall|i: int|
            0 <= i < sightings.len() ==> g.has_chunk((#[trigger] sightings[i]).chunkable.coords),
    ensures
        g.after_sightings(sightings).wf(),
        g.after_sightings(sightings).canvas_w == g.canvas_w,
        g.after_sightings(sightings).canvas_h == g.canvas_h,
        g.after_sightings(sightings).chunk_w == g.chunk_w,
        g.after_sightings(sightings).chunk_h == g.chunk_h,
        forall|d: ChunkCoordinates, x: EntityId|
            (forall|i: int| 0 <= i < sightings.len() ==> (#[trigger] sightings[i]).entity != x) ==> (
            #[trigger] g.after_sightings(sightings).holds(d, x) <==> g.holds(d, x)),
    decreases sightings.len(),
{
    if sightings.len() > 0 {
        let last = sightings.last();
        let head = sightings.drop_last();
        let mid = g.after_sightings(head);
        let to = g.sighted_chunk(last);
        assert forall|i: int| 0 <= i < head.len() implies g.has_chunk(
            (#[trigger] head[i]).chunkable.coords,
        ) by {
            assert(head[i] == sightings[i]);
        }
        lemma_tick_frame(g, head);
        lemma_chunk_coords_clamped(g, last.x as int, last.y as int);
        assert(mid.has_chunk(last.chunkable.coords));
        lemma_relocate_frame(mid, last.entity, last.chunkable.coords, to);
        let end = g.after_sightings(sightings);
        assert forall|d: ChunkCoordinates, x: EntityId|
            (forall|i: int| 0 <= i < sightings.len() ==> (#[trigger] sightings[i]).entity
                != x) implies (#[trigger] end.holds(d, x) <==> g.holds(d, x)) by {
            assert(sightings[sightings.len() - 1].entity != x);
            assert forall|i: int| 0 <= i < head.len() implies (#[trigger] head[i]).entity != x by {
                assert(head[i] == sightings[i]);
            }
            assert(end.holds(d, x) <==> mid.holds(d, x));
            assert(mid.holds(d, x) <==> g.holds(d, x));
        }
    }
}

/// If the grid lists no entity twice and lists each sighted entity in the
/// chunk on its record, then after the tick it still lists no entity twice,
/// and lists each sighted entity in the chunk of its position, which is then
/// the chunk on its record.
pub proof fn lemma_tick_keeps_agreement(g: Grid, sightings: Seq<Sighting>)
    requires
        g.wf(),
        g.agrees_with(sightings),
    ensures
        g.after_sightings(sightings).agrees_with(g.all_up_to_date(sightings)),
    decreases sightings.len(),
{
    let end = g.after_sightings(sightings);
    let now = g.all_up_to_date(sightings);
    if sightings.len() > 0 {
        let last = sightings.last();
        let head = sightings.drop_last();
        let mid = g.after_sightings(head);
        let to = g.sighted_chunk(last);
        assert forall|i: int| 0 <= i < head.len() implies g.holds(
            (#[trigger] head[i]).chunkable.coords,
            head[i].entity,
        ) by {
            assert(head[i] == sightings[i]);
        }
        assert forall|i: int, j: int| 0 <= i < j < head.len() implies (#[trigger] head[i]).entity
            != (#[trigger] head[j]).entity by {
            assert(head[i] == sightings[i]);
            assert(head[j] == sightings[j]);
        }
        lemma_tick_keeps_agreement(g, head);
        lemma_tick_frame(g, head);
        lemma_chunk_coords_clamped(g, last.x as int, last.y as int);
        assert forall|i: int| 0 <= i < head.len() implies (#[trigger] head[i]).entity
            != last.entity by {
            assert(head[i] == sightings[i]);
            assert(last == sightings[sightings.len() - 1]);
        }
        assert(g.holds(last.chunkable.coords, last.entity));
        assert(mid.holds(last.chunkable.coords, last.entity));
        lemma_relocate_keeps_partition(mid, last.entity, last.chunkable.coords, to);
        lemma_relocate_frame(mid, last.entity, last.chunkable.coords, to);
        assert forall|i: int| 0 <= i < now.len() implies end.holds(
            (#[trigger] now[i]).chunkable.coords,
            now[i].entity,
        ) by {
            if i < head.len() {
                let before = g.all_up_to_date(head);
                assert(before[i] == now[i]);
                assert(mid.holds(before[i].chunkable.coords, before[i].entity));
                assert(head[i].entity != last.entity);
            }
        }
        assert forall|i: int, j: int| 0 <= i < j < now.len() implies (#[trigger] now[i]).entity
            != (#[trigger] now[j]).entity by {
            assert(now[i].entity == sightings[i].entity);
            assert(now[j].entity == sightings[j].entity);
        }
    } else {
        assert(now =~= sightings);
    }
}

} // verus!
