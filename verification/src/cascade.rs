//! The cascading reveal: from a revealed `Empty` cell the reveal spreads to
//! the covered, unmarked cells around it, and on from those that are `Empty`
//! in turn, until cells with bombs around them stop it.

use crate::board::{Board, BoardState, UncoverOutcome};
use crate::coordinates::Coordinates;
use crate::events::{BoardCompletedEvent, BombExplosionEvent};
use crate::tile_map::{neighbors_of, TileMap};
use bevy::ecs::entity::Entity;
use vstd::prelude::*;

verus! {

/// The reveal spreads from `from` to `to`: `from` is an `Empty` cell of the
/// grid, and `to` is one of the cells around it, covered and not marked.
pub open spec fn spreads(
    tile_map: &TileMap,
    state: BoardState,
    from: Coordinates,
    to: Coordinates,
) -> bool {
    &&& tile_map.in_grid(from.x as int, from.y as int)
    &&& tile_map.tile_at(from.x as int, from.y as int) is Empty
    &&& neighbors_of(from).contains(to)
    &&& state.uncoverable(to)
}

/// A way that the reveal takes: it starts on a cell that is covered and not
/// marked, and spreads from each cell of the path to the next.
pub open spec fn is_cascade_path(
    tile_map: &TileMap,
    state: BoardState,
    path: Seq<Coordinates>,
) -> bool {
    &&& path.len() > 0
    &&& state.uncoverable(path[0])
    &&& forall|i: int|
        0 <= i < path.len() - 1 ==> #[trigger] spreads(tile_map, state, path[i], path[i + 1])
}

/// Whether a reveal of `start` in the play state `state` gets to `target`.
pub open spec fn cascade_reaches(
    tile_map: &TileMap,
    state: BoardState,
    start: Coordinates,
    target: Coordinates,
) -> bool {
    exists|path: Seq<Coordinates>|
        #[trigger] is_cascade_path(tile_map, state, path) && path[0] == start && path.last()
            == target
}

/// A reveal of a covered, unmarked cell gets to that cell.
pub proof fn lemma_reaches_start(tile_map: &TileMap, state: BoardState, start: Coordinates)
    requires
        state.uncoverable(start),
    ensures
        cascade_reaches(tile_map, state, start, start),
{
    let path = seq![start];
    assert(is_cascade_path(tile_map, state, path));
    assert(path[0] == start && path.last() == start);
}

/// Where the reveal got to a cell and spreads on from it, it gets to the
/// next cell too.
pub proof fn lemma_reaches_next(
    tile_map: &TileMap,
    state: BoardState,
    start: Coordinates,
    from: Coordinates,
    to: Coordinates,
)
    requires
        cascade_reaches(tile_map, state, start, from),
        spreads(tile_map, state, from, to),
    ensures
        cascade_reaches(tile_map, state, start, to),
{
    let path = choose|path: Seq<Coordinates>|
        #[trigger] is_cascade_path(tile_map, state, path) && path[0] == start && path.last()
            == from;
    let longer = path.push(to);
    assert forall|i: int| 0 <= i < longer.len() - 1 implies #[trigger] spreads(
        tile_map,
        state,
        longer[i],
        longer[i + 1],
    ) by {
        if i < path.len() - 1 {
            assert(spreads(tile_map, state, path[i], path[i + 1]));
        }
    }
    assert(is_cascade_path(tile_map, state, longer));
    assert(longer[0] == start && longer.last() == to);
}

/// The reveal gets to covered, unmarked cells only. No reveal of a cell
/// that is marked or already revealed gets anywhere.
pub proof fn lemma_reached_is_uncoverable(
    tile_map: &TileMap,
    state: BoardState,
    start: Coordinates,
    target: Coordinates,
)
    requires
        cascade_reaches(tile_map, state, start, target),
    ensures
        state.uncoverable(start),
        state.uncoverable(target),
{
    let path = choose|path: Seq<Coordinates>|
        #[trigger] is_cascade_path(tile_map, state, path) && path[0] == start && path.last()
            == target;
    if path.len() > 1 {
        assert(spreads(tile_map, state, path[path.len() - 2], path[path.len() - 2 + 1]));
    }
}

/// On a generated mine field the reveal gets to no bomb but the one it
/// started on, and from a bomb it gets nowhere else.
pub proof fn lemma_reached_is_no_bomb(
    tile_map: &TileMap,
    state: BoardState,
    start: Coordinates,
    target: Coordinates,
)
    requires
        tile_map.wf(),
        tile_map.labelled(),
        cascade_reaches(tile_map, state, start, target),
        target != start,
    ensures
        !tile_map.bomb_at(target.x as int, target.y as int),
        !tile_map.bomb_at(start.x as int, start.y as int),
{
    let path = choose|path: Seq<Coordinates>|
        #[trigger] is_cascade_path(tile_map, state, path) && path[0] == start && path.last()
            == target;
    assert(path.len() > 1);
    assert(spreads(tile_map, state, path[0], path[0int + 1]));
    let before = path[path.len() - 2];
    assert(spreads(tile_map, state, before, path[path.len() - 2 + 1]));
    tile_map.lemma_empty_has_no_bomb_neighbor(before, target);
}

/// A set of cells that holds `start` and, with each of its cells, the cells
/// to which the reveal spreads from there, holds every cell that the reveal
/// of `start` gets to.
pub proof fn lemma_closed_set_holds_reached(
    tile_map: &TileMap,
    state: BoardState,
    start: Coordinates,
    closed: Set<Coordinates>,
    target: Coordinates,
)
    requires
        closed.contains(start),
        forall|from: Coordinates, to: Coordinates|
            closed.contains(from) && #[trigger] spreads(tile_map, state, from, to)
                ==> closed.contains(to),
        cascade_reaches(tile_map, state, start, target),
    ensures
        closed.contains(target),
{
    let path = choose|path: Seq<Coordinates>|
        #[trigger] is_cascade_path(tile_map, state, path) && path[0] == start && path.last()
            == target;
    lemma_path_stays_in_closed_set(tile_map, state, path, closed, path.len() - 1);
}

proof fn lemma_path_stays_in_closed_set(
    tile_map: &TileMap,
    state: BoardState,
    path: Seq<Coordinates>,
    closed: Set<Coordinates>,
    upto: int,
)
    requires
        is_cascade_path(tile_map, state, path),
        closed.contains(path[0]),
        forall|from: Coordinates, to: Coordinates|
            closed.contains(from) && #[trigger] spreads(tile_map, state, from, to)
                ==> closed.contains(to),
        0 <= upto < path.len(),
    ensures
        closed.contains(path[upto]),
    decreases upto,
{
    if upto > 0 {
        lemma_path_stays_in_closed_set(tile_map, state, path, closed, upto - 1);
        assert(spreads(tile_map, state, path[upto - 1], path[upto - 1 + 1]));
    }
}

/// The cells that a reveal of `start` gets to.
pub open spec fn reached(tile_map: &TileMap, state: BoardState, start: Coordinates) -> Set<
    Coordinates,
> {
    Set::new(|c: Coordinates| cascade_reaches(tile_map, state, start, c))
}

/// The play state after a reveal of `start` has spread as far as it goes:
/// the cells that it got to are no longer covered, the marks are as they
/// were.
pub open spec fn after_cascade(
    tile_map: &TileMap,
    state: BoardState,
    start: Coordinates,
) -> BoardState {
    BoardState {
        covered: state.covered.remove_keys(reached(tile_map, state, start)),
        marked: state.marked,
    }
}

/// What a reveal and all that it spread to brought about.
#[derive(Debug)]
pub struct CascadeReport {
    /// The revealed cells in the order of their reveal, each with the cover
    /// that was taken off.
    pub revealed: Vec<(Coordinates, Entity)>,
    /// Present if one of the reveals left as many cells covered as there
    /// are bombs.
    pub completed: Option<BoardCompletedEvent>,
    /// Present if the reveal started on a bomb.
    pub exploded: Option<BombExplosionEvent>,
}

impl CascadeReport {
    /// Whether this is what a reveal of `start` brings about on the mine
    /// field `tile_map` in the play state `before`: every cell that the
    /// reveal gets to is listed once with its cover, and no other cell. The
    /// number of covered cells falls by one with each reveal, so one of the
    /// reveals leaves as many as there are bombs exactly when that number
    /// lies between the count after the cascade and the count before it.
    pub open spec fn is_cascade_of(
        &self,
        tile_map: &TileMap,
        before: BoardState,
        start: Coordinates,
    ) -> bool {
        &&& forall|i: int|
            0 <= i < self.revealed@.len() ==> {
                let (cell, cover) = #[trigger] self.revealed@[i];
                &&& cascade_reaches(tile_map, before, start, cell)
                &&& cover == before.covered[cell]
            }
        &&& forall|c: Coordinates|
            cascade_reaches(tile_map, before, start, c) ==> exists|i: int|
                0 <= i < self.revealed@.len() && (#[trigger] self.revealed@[i]).0 == c
        &&& forall|i: int, j: int|
            0 <= i < j < self.revealed@.len() ==> (#[trigger] self.revealed@[i]).0 != (
            #[trigger] self.revealed@[j]).0
        &&& self.exploded.is_some() == (before.uncoverable(start) && tile_map.bomb_at(
            start.x as int,
            start.y as int,
        ))
        &&& self.completed.is_some() == (after_cascade(tile_map, before, start).covered.len()
            <= tile_map.bomb_count() < before.covered.len())
    }
}

/// What the loop of the cascade keeps true of the cells revealed so far
/// and of those that still wait: both were reached, and wherever the reveal
/// spreads from a revealed cell, it has arrived or is waiting.
spec fn cascade_in_progress(
    tile_map: &TileMap,
    first: BoardState,
    now: BoardState,
    start: Coordinates,
    pending: Seq<Coordinates>,
) -> bool {
    &&& first.wf()
    &&& first.uncoverable(start)
    &&& now.marked == first.marked
    &&& now.covered.submap_of(first.covered)
    &&& forall|c: Coordinates|
        first.covered.contains_key(c) && !now.covered.contains_key(c) ==> cascade_reaches(
            tile_map,
            first,
            start,
            c,
        )
    &&& forall|i: int|
        0 <= i < pending.len() ==> cascade_reaches(tile_map, first, start, #[trigger] pending[i])
    &&& forall|from: Coordinates, to: Coordinates|
        first.covered.contains_key(from) && !now.covered.contains_key(from) && #[trigger] spreads(
            tile_map,
            first,
            from,
            to,
        ) ==> !now.covered.contains_key(to) || pending.contains(to)
    &&& !now.covered.contains_key(start) || pending.contains(start)
}

/// What the loop keeps true of the list of revealed cells: it holds the
/// cells revealed so far, each once and with its cover.
spec fn revealed_so_far(first: BoardState, now: BoardState, revealed: Seq<(Coordinates, Entity)>) -> bool {
    &&& forall|i: int|
        0 <= i < revealed.len() ==> {
            let (cell, cover) = #[trigger] revealed[i];
            &&& first.covered.contains_key(cell)
            &&& !now.covered.contains_key(cell)
            &&& cover == first.covered[cell]
        }
    &&& forall|c: Coordinates|
        first.covered.contains_key(c) && !now.covered.contains_key(c) ==> exists|i: int|
            0 <= i < revealed.len() && (#[trigger] revealed[i]).0 == c
    &&& forall|i: int, j: int|
        0 <= i < j < revealed.len() ==> (#[trigger] revealed[i]).0 != (#[trigger] revealed[j]).0
}

/// A value is in two lists put together if it is in one of them.
proof fn lemma_contains_in_joined(a: Seq<Coordinates>, b: Seq<Coordinates>, c: Coordinates)
    ensures
        (a + b).contains(c) <==> a.contains(c) || b.contains(c),
{
    if a.contains(c) {
        let i = choose|i: int| 0 <= i < a.len() && a[i] == c;
        assert((a + b)[i] == c);
    }
    if b.contains(c) {
        let i = choose|i: int| 0 <= i < b.len() && b[i] == c;
        assert((a + b)[a.len() + i] == c);
    }
    if (a + b).contains(c) {
        let i = choose|i: int| 0 <= i < (a + b).len() && (a + b)[i] == c;
        if i < a.len() {
            assert(a[i] == c);
        } else {
            assert(b[i - a.len()] == c);
        }
    }
}

/// The loop's facts hold again after the pending cell `cell` was taken up
/// and found revealed already.
proof fn lemma_cascade_skips(
    tile_map: &TileMap,
    first: BoardState,
    now: BoardState,
    start: Coordinates,
    pending: Seq<Coordinates>,
    cell: Coordinates,
)
    requires
        cascade_in_progress(tile_map, first, now, start, pending.push(cell)),
        now.wf(),
        !now.covered.contains_key(cell),
    ensures
        cascade_in_progress(tile_map, first, now, start, pending),
        now.uncover(cell) == now,
{
    let more = pending.push(cell);
    assert forall|i: int| 0 <= i < pending.len() implies cascade_reaches(
        tile_map,
        first,
        start,
        #[trigger] pending[i],
    ) by {
        assert(more[i] == pending[i]);
    }
    assert forall|c: Coordinates| more.contains(c) && c != cell implies pending.contains(c) by {
        let i = choose|i: int| 0 <= i < more.len() && more[i] == c;
        assert(pending[i] == c);
    }
    assert(now.covered.remove(cell) =~= now.covered);
    assert(now.marked.remove(cell) =~= now.marked);
}

/// The loop's facts hold again after the pending cell `cell` was revealed
/// and the cells to which the reveal spreads from it were put in line.
proof fn lemma_cascade_advances(
    tile_map: &TileMap,
    first: BoardState,
    now: BoardState,
    start: Coordinates,
    pending: Seq<Coordinates>,
    cell: Coordinates,
    next: Seq<Coordinates>,
)
    requires
        cascade_in_progress(tile_map, first, now, start, pending.push(cell)),
        now.wf(),
        now.covered.contains_key(cell),
        tile_map.in_grid(cell.x as int, cell.y as int),
        next == if tile_map.tile_at(cell.x as int, cell.y as int) is Empty {
            now.uncover(cell).uncoverable_among(neighbors_of(cell))
        } else {
            Seq::empty()
        },
    ensures
        cascade_in_progress(tile_map, first, now.uncover(cell), start, pending + next),
        now.uncover(cell).marked == now.marked,
        now.uncover(cell).covered.len() + 1 == now.covered.len(),
{
    let more = pending.push(cell);
    let after = now.uncover(cell);
    let joined = pending + next;
    assert(more[pending.len() as int] == cell);
    lemma_reached_is_uncoverable(tile_map, first, start, cell);
    assert(after.marked =~= now.marked);
    now.covered.lemma_remove_key_len(cell);
    assert forall|c: Coordinates| more.contains(c) && c != cell implies pending.contains(c) by {
        let i = choose|i: int| 0 <= i < more.len() && more[i] == c;
        assert(pending[i] == c);
    }
    assert forall|i: int| 0 <= i < joined.len() implies cascade_reaches(
        tile_map,
        first,
        start,
        #[trigger] joined[i],
    ) by {
        if i < pending.len() {
            assert(more[i] == pending[i]);
        } else {
            let to = next[i - pending.len()];
            assert(next.contains(to));
            after.lemma_uncoverable_among(neighbors_of(cell), to);
            assert(spreads(tile_map, first, cell, to));
            lemma_reaches_next(tile_map, first, start, cell, to);
        }
    }
    assert forall|from: Coordinates, to: Coordinates|
        first.covered.contains_key(from) && !after.covered.contains_key(from) && #[trigger] spreads(
            tile_map,
            first,
            from,
            to,
        ) implies !after.covered.contains_key(to) || joined.contains(to) by {
        lemma_contains_in_joined(pending, next, to);
        if after.covered.contains_key(to) {
            if from == cell {
                after.lemma_uncoverable_among(neighbors_of(cell), to);
            } else {
                assert(more.contains(to));
            }
        }
    }
    lemma_contains_in_joined(pending, next, start);
}

/// The list of revealed cells is in order again after `cell` was revealed
/// and put at its end with its cover.
proof fn lemma_reveal_is_listed(
    first: BoardState,
    now: BoardState,
    revealed: Seq<(Coordinates, Entity)>,
    cell: Coordinates,
    cover: Entity,
)
    requires
        revealed_so_far(first, now, revealed),
        now.covered.submap_of(first.covered),
        now.covered.contains_key(cell),
        cover == now.covered[cell],
    ensures
        revealed_so_far(first, now.uncover(cell), revealed.push((cell, cover))),
{
    let after = now.uncover(cell);
    let list = revealed.push((cell, cover));
    assert(list[revealed.len() as int] == (cell, cover));
    assert forall|i: int| 0 <= i < list.len() implies ({
        let (c, e) = #[trigger] list[i];
        &&& first.covered.contains_key(c)
        &&& !after.covered.contains_key(c)
        &&& e == first.covered[c]
    }) by {
        if i < revealed.len() {
            assert(list[i] == revealed[i]);
        }
    }
    assert forall|c: Coordinates|
        first.covered.contains_key(c) && !after.covered.contains_key(c) implies exists|i: int|
        0 <= i < list.len() && (#[trigger] list[i]).0 == c by {
        if c == cell {
            assert(list[revealed.len() as int].0 == c);
        } else {
            let i = choose|i: int| 0 <= i < revealed.len() && (#[trigger] revealed[i]).0 == c;
            assert(list[i].0 == c);
        }
    }
    assert forall|i: int, j: int| 0 <= i < j < list.len() implies (#[trigger] list[i]).0 != (
    #[trigger] list[j]).0 by {
        if j < revealed.len() {
            assert(revealed[i].0 != revealed[j].0);
        } else {
            assert(!now.covered.contains_key(revealed[i].0));
        }
    }
}

/// With no cell left waiting, the reveal has got everywhere: the cells
/// revealed are the cells that it reaches, and the list holds them all.
proof fn lemma_cascade_is_done(
    tile_map: &TileMap,
    first: BoardState,
    last: BoardState,
    start: Coordinates,
    pending: Seq<Coordinates>,
    revealed: Seq<(Coordinates, Entity)>,
)
    requires
        cascade_in_progress(tile_map, first, last, start, pending),
        revealed_so_far(first, last, revealed),
        pending.len() == 0,
    ensures
        last == after_cascade(tile_map, first, start),
        !last.covered.contains_key(start),
        forall|i: int|
            0 <= i < revealed.len() ==> {
                let (cell, cover) = #[trigger] revealed[i];
                &&& cascade_reaches(tile_map, first, start, cell)
                &&& cover == first.covered[cell]
            },
        forall|c: Coordinates|
            cascade_reaches(tile_map, first, start, c) ==> exists|i: int|
                0 <= i < revealed.len() && (#[trigger] revealed[i]).0 == c,
        forall|i: int, j: int|
            0 <= i < j < revealed.len() ==> (#[trigger] revealed[i]).0 != (#[trigger] revealed[j]).0,
{
    let closed = Set::new(
        |c: Coordinates| first.covered.contains_key(c) && !last.covered.contains_key(c),
    );
    assert(!pending.contains(start));
    assert forall|c: Coordinates| cascade_reaches(tile_map, first, start, c) implies closed.contains(
        c,
    ) by {
        assert forall|from: Coordinates, to: Coordinates|
            closed.contains(from) && #[trigger] spreads(
                tile_map,
                first,
                from,
                to,
            ) implies closed.contains(to) by {
            assert(!pending.contains(to));
        }
        lemma_closed_set_holds_reached(tile_map, first, start, closed, c);
    }
    let gone = reached(tile_map, first, start);
    assert forall|c: Coordinates| last.covered.contains_key(c) <==> first.covered.remove_keys(
        gone,
    ).contains_key(c) by {
        if last.covered.contains_key(c) {
            assert(first.covered.contains_key(c));
            assert(!closed.contains(c));
        }
    }
    assert(last.covered =~= first.covered.remove_keys(gone));
    assert forall|c: Coordinates|
        cascade_reaches(tile_map, first, start, c) implies exists|i: int|
        0 <= i < revealed.len() && (#[trigger] revealed[i]).0 == c by {
        assert(closed.contains(c));
    }
}

impl Board {
    /// Reveals `start` and lets the reveal spread as far as it goes, all in
    /// one call. A `start` that is marked or already revealed changes
    /// nothing. Marked cells are never revealed on the way.
    pub fn uncover_cascade(&mut self, start: &Coordinates) -> (report: CascadeReport)
        requires
            old(self).wf(),
        ensures
            final(self).wf(),
            final(self)@ == after_cascade(old(self).tile_map(), old(self)@, *start),
            report.is_cascade_of(old(self).tile_map(), old(self)@, *start),
            final(self).tile_map() == old(self).tile_map(),
            final(self).bounds() == old(self).bounds(),
            final(self).tile_size() == old(self).tile_size(),
            final(self).entity() == old(self).entity(),
    {
        let ghost first = self@;
        let ghost tile_map = self.tile_map();
        let mut revealed: Vec<(Coordinates, Entity)> = Vec::new();
        let mut exploded: Option<BombExplosionEvent> = None;
        let mut completed: Option<BoardCompletedEvent> = None;
        proof {
            self.lemma_wf();
        }
        if self.tile_to_uncover(start).is_none() {
            proof {
                assert forall|c: Coordinates| !cascade_reaches(tile_map, first, *start, c) by {
                    if cascade_reaches(tile_map, first, *start, c) {
                        lemma_reached_is_uncoverable(tile_map, first, *start, c);
                    }
                }
                assert(first.covered.remove_keys(reached(tile_map, first, *start))
                    =~= first.covered);
            }
            return CascadeReport { revealed, completed, exploded };
        }
        let mut pending: Vec<Coordinates> = Vec::new();
        pending.push(*start);
        proof {
            assert(pending@[0] == *start);
            lemma_reaches_start(tile_map, first, *start);
        }
        while pending.len() > 0
            invariant
                self.wf(),
                self.tile_map() == tile_map,
                tile_map == old(self).tile_map(),
                first == old(self)@,
                self.bounds() == old(self).bounds(),
                self.tile_size() == old(self).tile_size(),
                self.entity() == old(self).entity(),
                cascade_in_progress(tile_map, first, self@, *start, pending@),
                revealed_so_far(first, self@, revealed@),
                exploded.is_some() == (!self@.covered.contains_key(*start) && tile_map.bomb_at(
                    start.x as int,
                    start.y as int,
                )),
                self@.covered.len() <= first.covered.len(),
                completed.is_some() == (self@.covered.len() <= tile_map.bomb_count()
                    < first.covered.len()),
            decreases self@.covered.len(), pending.len(),
        {
            let ghost now = self@;
            let ghost waiting = pending@.drop_last();
            let ghost in_line = pending@;
            let cell = pending.pop().unwrap();
            proof {
                self.lemma_wf();
                assert(waiting.push(cell) =~= in_line);
            }
            let UncoverOutcome { cover, completed: won, exploded: boom, mut next } = self.uncover(
                &cell,
            );
            match cover {
                Some(entity) => {
                    proof {
                        lemma_cascade_advances(tile_map, first, now, *start, waiting, cell, next@);
                        if cell != *start {
                            assert(cascade_reaches(tile_map, first, *start, cell));
                            lemma_reached_is_no_bomb(tile_map, first, *start, cell);
                        }
                        lemma_reveal_is_listed(first, now, revealed@, cell, entity);
                    }
                    revealed.push((cell, entity));
                    if boom.is_some() {
                        exploded = boom;
                    }
                    if won.is_some() {
                        completed = won;
                    }
                    pending.append(&mut next);
                },
                None => {
                    proof {
                        lemma_cascade_skips(tile_map, first, now, *start, waiting, cell);
                    }
                },
            }
        }
        let ghost listed = revealed@;
        proof {
            lemma_cascade_is_done(tile_map, first, self@, *start, pending@, listed);
        }
        let report = CascadeReport { revealed, completed, exploded };
        assert(report.revealed@ == listed);
        report
    }
}

} // verus!
