//! The play state on top of a generated mine field: which cells are still
//! covered, which are marked, and where the board lies on the screen.

use crate::bounds::Bounds2;
use crate::coordinates::Coordinates;
use crate::covered::{covered_entries, CoveredTiles};
use crate::events::{BoardCompletedEvent, BombExplosionEvent};
use crate::tile::Tile;
use crate::tile_map::{neighbors_of, TileMap};
use bevy::ecs::entity::Entity;
use vstd::prelude::*;

verus! {

/// The play state as mathematics: the covered cells, each with the entity of
/// its cover, and the marked cells.
pub struct BoardState {
    pub covered: Map<Coordinates, Entity>,
    pub marked: Set<Coordinates>,
}

impl BoardState {
    /// Finitely many cells are covered, and only covered cells are marked.
    pub open spec fn wf(self) -> bool {
        &&& self.covered.dom().finite()
        &&& self.marked.subset_of(self.covered.dom())
    }

    /// A cell that a reveal may take: covered and not marked.
    pub open spec fn uncoverable(self, coords: Coordinates) -> bool {
        self.covered.contains_key(coords) && !self.marked.contains(coords)
    }

    /// The cover to take off for a reveal of `coords`, if the cell is
    /// covered and not marked.
    pub open spec fn tile_to_uncover(self, coords: Coordinates) -> Option<Entity> {
        if self.uncoverable(coords) {
            Some(self.covered[coords])
        } else {
            None
        }
    }

    /// Of `candidates`, in their order, the covers that a reveal may take
    /// off: those of the cells that are covered and not marked.
    pub open spec fn covers_among(self, candidates: Seq<Coordinates>) -> Seq<Entity>
        decreases candidates.len(),
    {
        if candidates.len() == 0 {
            Seq::empty()
        } else {
            let before = self.covers_among(candidates.drop_last());
            match self.tile_to_uncover(candidates.last()) {
                Some(entity) => before.push(entity),
                None => before,
            }
        }
    }

    /// Of `candidates`, in their order, the cells that a reveal may take:
    /// those that are covered and not marked.
    pub open spec fn uncoverable_among(self, candidates: Seq<Coordinates>) -> Seq<Coordinates>
        decreases candidates.len(),
    {
        if candidates.len() == 0 {
            Seq::empty()
        } else {
            let before = self.uncoverable_among(candidates.drop_last());
            if self.uncoverable(candidates.last()) {
                before.push(candidates.last())
            } else {
                before
            }
        }
    }

    /// The state after `coords` was revealed: no longer covered, no longer
    /// marked.
    pub open spec fn uncover(self, coords: Coordinates) -> BoardState {
        BoardState { covered: self.covered.remove(coords), marked: self.marked.remove(coords) }
    }

    /// The state after the mark of `coords` was toggled: a covered cell
    /// changes between marked and unmarked, any other cell changes nothing.
    pub open spec fn toggle_mark(self, coords: Coordinates) -> BoardState {
        if !self.covered.contains_key(coords) {
            self
        } else if self.marked.contains(coords) {
            BoardState { covered: self.covered, marked: self.marked.remove(coords) }
        } else {
            BoardState { covered: self.covered, marked: self.marked.insert(coords) }
        }
    }
}

/// Taking one entry out of a list without repetitions takes its value out
/// of the set of the list's values.
proof fn lemma_remove_from_marked(list: Seq<Coordinates>, at: int)
    requires
        list.no_duplicates(),
        0 <= at < list.len(),
    ensures
        list.remove(at).no_duplicates(),
        list.remove(at).to_set() == list.to_set().remove(list[at]),
{
    let rest = list.remove(at);
    assert forall|c: Coordinates| rest.to_set().contains(c) <==> list.to_set().remove(
        list[at],
    ).contains(c) by {
        if rest.contains(c) {
            let i = choose|i: int| 0 <= i < rest.len() && rest[i] == c;
            if i < at {
                assert(list[i] == c);
            } else {
                assert(list[i + 1] == c);
            }
        }
        if list.contains(c) && c != list[at] {
            let i = choose|i: int| 0 <= i < list.len() && list[i] == c;
            if i < at {
                assert(rest[i] == c);
            } else {
                assert(rest[i - 1] == c);
            }
        }
    }
    assert(rest.to_set() =~= list.to_set().remove(list[at]));
}

/// Adding a value that a list without repetitions lacks adds it to the set
/// of the list's values.
proof fn lemma_push_to_marked(list: Seq<Coordinates>, c: Coordinates)
    requires
        list.no_duplicates(),
        !list.contains(c),
    ensures
        list.push(c).no_duplicates(),
        list.push(c).to_set() == list.to_set().insert(c),
{
    let more = list.push(c);
    assert forall|d: Coordinates| more.to_set().contains(d) <==> list.to_set().insert(c).contains(
        d,
    ) by {
        if more.contains(d) {
            let i = choose|i: int| 0 <= i < more.len() && more[i] == d;
            if i < list.len() {
                assert(list[i] == d);
            }
        }
        if list.contains(d) {
            let i = choose|i: int| 0 <= i < list.len() && list[i] == d;
            assert(more[i] == d);
        }
        if d == c {
            assert(more[list.len() as int] == c);
        }
    }
    assert(more.to_set() =~= list.to_set().insert(c));
}

impl BoardState {
    /// What a toggle of the mark of `coords` returns: the cell's cover and
    /// whether the cell is marked afterwards, or `None` for a cell that is
    /// not covered.
    pub open spec fn toggle_result(self, coords: Coordinates) -> Option<(Entity, bool)> {
        if self.covered.contains_key(coords) {
            Some((self.covered[coords], !self.marked.contains(coords)))
        } else {
            None
        }
    }

    /// A revealed cell is neither covered nor marked, whether or not it was
    /// marked before, and to reveal it a second time changes nothing more.
    pub proof fn lemma_uncover_idempotent(self, coords: Coordinates)
        ensures
            !self.uncover(coords).covered.contains_key(coords),
            !self.uncover(coords).marked.contains(coords),
            self.wf() ==> self.uncover(coords).wf(),
            self.uncover(coords).uncover(coords) == self.uncover(coords),
    {
        let once = self.uncover(coords);
        assert(once.covered.remove(coords) =~= once.covered);
        assert(once.marked.remove(coords) =~= once.marked);
    }

    /// A reveal takes one cell from the covered cells if the cell was
    /// covered, and none otherwise.
    pub proof fn lemma_uncover_count(self, coords: Coordinates)
        requires
            self.wf(),
        ensures
            self.uncover(coords).covered.len() == if self.covered.contains_key(coords) {
                self.covered.len() - 1
            } else {
                self.covered.len() as int
            },
    {
        if self.covered.contains_key(coords) {
            self.covered.lemma_remove_key_len(coords);
        } else {
            assert(self.covered.remove(coords) =~= self.covered);
        }
    }

    /// Two toggles of the mark of a covered cell leave it as it was. Both
    /// return the cell's cover; the first returns the opposite of the mark
    /// that the cell had, the second the mark that it had.
    pub proof fn lemma_toggle_mark_twice(self, coords: Coordinates)
        requires
            self.wf(),
            self.covered.contains_key(coords),
        ensures
            self.toggle_mark(coords).wf(),
            self.toggle_mark(coords).marked.contains(coords) != self.marked.contains(coords),
            self.toggle_mark(coords).toggle_mark(coords) == self,
            self.toggle_result(coords) == Some(
                (self.covered[coords], !self.marked.contains(coords)),
            ),
            self.toggle_mark(coords).toggle_result(coords) == Some(
                (self.covered[coords], self.marked.contains(coords)),
            ),
    {
        let twice = self.toggle_mark(coords).toggle_mark(coords);
        assert(twice.marked =~= self.marked);
    }

    /// The mark of a revealed cell cannot be toggled: the toggle returns
    /// nothing and changes nothing.
    pub proof fn lemma_toggle_mark_revealed(self, coords: Coordinates)
        requires
            !self.covered.contains_key(coords),
        ensures
            self.toggle_result(coords).is_none(),
            self.toggle_mark(coords) == self,
    {
    }

    /// The cells picked from `candidates` are the candidates that are covered
    /// and not marked.
    pub proof fn lemma_uncoverable_among(self, candidates: Seq<Coordinates>, coords: Coordinates)
        ensures
            self.uncoverable_among(candidates).contains(coords) <==> candidates.contains(coords)
                && self.uncoverable(coords),
        decreases candidates.len(),
    {
        if candidates.len() > 0 {
            let front = candidates.drop_last();
            let last = candidates.last();
            self.lemma_uncoverable_among(front, coords);
            let found = self.uncoverable_among(front);
            if candidates.contains(coords) {
                let i = choose|i: int| 0 <= i < candidates.len() && candidates[i] == coords;
                if i < front.len() {
                    assert(front[i] == coords);
                }
            }
            if front.contains(coords) {
                let i = choose|i: int| 0 <= i < front.len() && front[i] == coords;
                assert(candidates[i] == coords);
            }
            if self.uncoverable(last) {
                let all = found.push(last);
                assert(all[found.len() as int] == last);
                if found.contains(coords) {
                    let i = choose|i: int| 0 <= i < found.len() && found[i] == coords;
                    assert(all[i] == coords);
                }
                if all.contains(coords) {
                    let i = choose|i: int| 0 <= i < all.len() && all[i] == coords;
                    if i < found.len() {
                        assert(found[i] == coords);
                    }
                }
            }
            assert(candidates[candidates.len() - 1] == last);
        }
    }

    /// A marked cell stays covered and is never handed out for a reveal:
    /// not on its own, and not among the neighbors of another cell.
    pub proof fn lemma_marked_is_protected(self, coords: Coordinates, candidates: Seq<Coordinates>)
        requires
            self.wf(),
            self.marked.contains(coords),
        ensures
            self.covered.contains_key(coords),
            self.tile_to_uncover(coords).is_none(),
            !self.uncoverable_among(candidates).contains(coords),
            self.covers_among(candidates) == self.covers_among(
                candidates.filter(|c: Coordinates| c != coords),
            ),
        decreases candidates.len(),
    {
        let others = |c: Coordinates| c != coords;
        if candidates.len() > 0 {
            let front = candidates.drop_last();
            self.lemma_marked_is_protected(coords, front);
            reveal(Seq::filter);
            assert(candidates.filter(others) == if others(candidates.last()) {
                front.filter(others).push(candidates.last())
            } else {
                front.filter(others)
            });
            if others(candidates.last()) {
                assert(front.filter(others).push(candidates.last()).drop_last() =~= front.filter(
                    others,
                ));
            }
            if self.uncoverable(candidates.last()) {
                let found = self.uncoverable_among(front);
                assert forall|i: int| 0 <= i < found.push(candidates.last()).len() implies found.push(
                    candidates.last(),
                )[i] != coords by {
                    if i < found.len() {
                        assert(found.contains(found[i]));
                    }
                }
            }
        } else {
            reveal(Seq::filter);
            assert(candidates.filter(others) =~= Seq::<Coordinates>::empty());
        }
    }
}

/// What the reveal of one cell brought about.
#[derive(Debug)]
pub struct UncoverOutcome {
    /// The cover that was taken off; `None` where the cell was revealed
    /// before, and then nothing else happened either.
    pub cover: Option<Entity>,
    /// Present if the reveal left as many cells covered as there are bombs.
    pub completed: Option<BoardCompletedEvent>,
    /// Present if the revealed cell held a bomb.
    pub exploded: Option<BombExplosionEvent>,
    /// The cells to which the reveal goes on next: the neighbors of a
    /// revealed `Empty` cell that are covered and not marked.
    pub next: Vec<Coordinates>,
}

impl UncoverOutcome {
    /// Whether this is what the reveal of `coords` brings about on the mine
    /// field `tile_map` in the play state `before`.
    pub open spec fn is_reveal_of(
        &self,
        tile_map: &TileMap,
        before: BoardState,
        coords: Coordinates,
    ) -> bool {
        let after = before.uncover(coords);
        if before.covered.contains_key(coords) {
            &&& self.cover == Some(before.covered[coords])
            &&& self.completed.is_some() == (after.covered.len() == tile_map.bomb_count())
            &&& self.exploded.is_some() == tile_map.bomb_at(coords.x as int, coords.y as int)
            &&& self.next@ == if tile_map.tile_at(coords.x as int, coords.y as int) is Empty {
                after.uncoverable_among(neighbors_of(coords))
            } else {
                Seq::empty()
            }
        } else {
            &&& self.cover.is_none()
            &&& self.completed.is_none()
            &&& self.exploded.is_none()
            &&& self.next@ == Seq::<Coordinates>::empty()
        }
    }
}

/// A board in play.
#[derive(Debug)]
pub struct Board {
    tile_map: TileMap,
    bounds: Bounds2,
    tile_size: u32,
    covered_tiles: CoveredTiles,
    marked_tiles: Vec<Coordinates>,
    entity: Entity,
}

impl View for Board {
    type V = BoardState;

    closed spec fn view(&self) -> BoardState {
        BoardState {
            covered: covered_entries(self.covered_tiles),
            marked: self.marked_tiles@.to_set(),
        }
    }
}

impl Board {
    /// The mine field under the covers, as contracts speak of it.
    pub closed spec fn spec_tile_map(&self) -> &TileMap {
        &self.tile_map
    }

    /// The rectangle that the board takes up, as contracts speak of it.
    pub closed spec fn spec_bounds(&self) -> Bounds2 {
        self.bounds
    }

    /// The length of a tile's side, as contracts speak of it.
    pub closed spec fn spec_tile_size(&self) -> u32 {
        self.tile_size
    }

    /// The board's own entity, as contracts speak of it.
    pub closed spec fn spec_entity(&self) -> Entity {
        self.entity
    }

    /// What holds of every board that this module hands out: the mine field
    /// is generated, only cells of the grid are covered, only covered cells
    /// are marked and none twice, and the rectangle is the grid measured in
    /// tiles of the board's size.
    pub closed spec fn wf(&self) -> bool {
        &&& self.tile_map.wf()
        &&& self.tile_map.labelled()
        &&& self@.wf()
        &&& forall|c: Coordinates| #[trigger]
            self@.covered.contains_key(c) ==> self.tile_map.in_grid(c.x as int, c.y as int)
        &&& self.marked_tiles@.no_duplicates()
        &&& self.tile_size > 0
        &&& self.bounds.size.0 == self.tile_map.width() * self.tile_size
        &&& self.bounds.size.1 == self.tile_map.height() * self.tile_size
    }

    /// How many cells of a grid `width` wide come before `coords`, rows from
    /// the first to the last and each row from left to right.
    pub open spec fn scan_index(width: int, coords: Coordinates) -> int {
        coords.y * width + coords.x
    }

    /// Sets up the board for a generated mine field with every cell covered
    /// and none marked. `covers` holds the cover entities row by row, that of
    /// the cell `(x, y)` at `y * width + x`. The board's rectangle starts at
    /// `position` and gives each tile a square of side `tile_size`.
    pub fn new(
        tile_map: TileMap,
        position: (i64, i64),
        tile_size: u32,
        covers: &Vec<Entity>,
        entity: Entity,
    ) -> (board: Board)
        requires
            tile_map.wf(),
            tile_map.labelled(),
            tile_size > 0,
            covers.len() == tile_map.width() * tile_map.height(),
        ensures
            board.wf(),
            *board.tile_map() == tile_map,
            board.tile_size() == tile_size,
            board.entity() == entity,
            board.bounds().position == position,
            board.bounds().size.0 == tile_map.width() * tile_size,
            board.bounds().size.1 == tile_map.height() * tile_size,
            board@.marked == Set::<Coordinates>::empty(),
            board@.covered.len() == tile_map.width() * tile_map.height(),
            forall|c: Coordinates| #[trigger]
                board@.covered.contains_key(c) <==> tile_map.in_grid(c.x as int, c.y as int),
            forall|c: Coordinates|
                tile_map.in_grid(c.x as int, c.y as int) ==> #[trigger] board@.covered[c]
                    == covers[Self::scan_index(tile_map.width() as int, c)],
    {
        let width = tile_map.width();
        let height = tile_map.height();
        let mut covered_tiles = CoveredTiles::with_capacity(covers.len());
        let mut next: usize = 0;
        let mut y: u16 = 0;
        while y < height
            invariant
                y <= height,
                covers.len() == width * height,
                next == y * width,
                covered_entries(covered_tiles).dom().finite(),
                covered_entries(covered_tiles).dom().len() == next,
                forall|c: Coordinates|
                    covered_entries(covered_tiles).contains_key(c) <==> c.x < width && c.y < y,
                forall|c: Coordinates|
                    c.x < width && c.y < y ==> covered_entries(covered_tiles)[c]
                        == covers[Self::scan_index(width as int, c)],
            decreases height - y,
        {
            let mut x: u16 = 0;
            while x < width
                invariant
                    y < height,
                    x <= width,
                    covers.len() == width * height,
                    next == y * width + x,
                    covered_entries(covered_tiles).dom().finite(),
                    covered_entries(covered_tiles).dom().len() == next,
                    forall|c: Coordinates|
                        covered_entries(covered_tiles).contains_key(c) <==> c.x < width && (c.y < y
                            || (c.y == y && c.x < x)),
                    forall|c: Coordinates|
                        c.x < width && (c.y < y || (c.y == y && c.x < x)) ==> covered_entries(
                            covered_tiles,
                        )[c] == covers[Self::scan_index(width as int, c)],
                decreases width - x,
            {
                proof {
                    assert(y * width + x < width * height) by (nonlinear_arith)
                        requires
                            0 <= x < width,
                            0 <= y < height,
                    ;
                }
                covered_tiles.insert(Coordinates { x, y }, covers[next]);
                next = next + 1;
                x = x + 1;
            }
            proof {
                assert((y + 1) * width == y * width + width) by (nonlinear_arith);
            }
            y = y + 1;
        }
        proof {
            assert(height * width == width * height) by (nonlinear_arith);
            assert(width * tile_size <= 0xffff * 0xffff_ffff && height * tile_size <= 0xffff
                * 0xffff_ffff) by (nonlinear_arith)
                requires
                    width <= 0xffff,
                    height <= 0xffff,
                    tile_size <= 0xffff_ffff,
            ;
        }
        let size = (width as u64 * tile_size as u64, height as u64 * tile_size as u64);
        Board {
            tile_map,
            bounds: Bounds2 { position, size },
            tile_size,
            covered_tiles,
            marked_tiles: Vec::new(),
            entity,
        }
    }

    /// The mine field under the covers.
    #[verifier::when_used_as_spec(spec_tile_map)]
    pub fn tile_map(&self) -> (map: &TileMap)
        ensures
            map == self.tile_map(),
    {
        &self.tile_map
    }

    /// The rectangle that the board takes up.
    #[verifier::when_used_as_spec(spec_bounds)]
    pub fn bounds(&self) -> (bounds: Bounds2)
        ensures
            bounds == self.bounds(),
    {
        self.bounds
    }

    /// The length of a tile's side.
    #[verifier::when_used_as_spec(spec_tile_size)]
    pub fn tile_size(&self) -> (size: u32)
        ensures
            size == self.tile_size(),
    {
        self.tile_size
    }

    /// The entity that stands for the board as a whole.
    #[verifier::when_used_as_spec(spec_entity)]
    pub fn entity(&self) -> (entity: Entity)
        ensures
            entity == self.entity(),
    {
        self.entity
    }

    /// The cover to take off for a reveal of `coords`. A marked cell is
    /// protected: it gives none, like a cell that is already revealed.
    pub fn tile_to_uncover(&self, coords: &Coordinates) -> (cover: Option<&Entity>)
        requires
            self.wf(),
        ensures
            cover == match self@.tile_to_uncover(*coords) {
                Some(entity) => Some(&entity),
                None => None,
            },
    {
        if self.is_marked(coords) {
            None
        } else {
            self.covered_tiles.get(coords)
        }
    }

    /// Whether `coords` is still covered.
    pub fn is_covered(&self, coords: &Coordinates) -> (covered: bool)
        ensures
            covered == self@.covered.contains_key(*coords),
    {
        self.covered_tiles.get(coords).is_some()
    }

    /// How many cells are still covered.
    pub fn covered_count(&self) -> (count: usize)
        ensures
            count == self@.covered.len(),
    {
        self.covered_tiles.len()
    }

    /// The marked cells, each of them once.
    pub fn marked_tiles(&self) -> (marked: &Vec<Coordinates>)
        ensures
            marked@.to_set() == self@.marked,
            self.wf() ==> marked@.no_duplicates(),
    {
        &self.marked_tiles
    }

    /// Whether `coords` is marked.
    pub fn is_marked(&self, coords: &Coordinates) -> (marked: bool)
        ensures
            marked == self@.marked.contains(*coords),
    {
        let mut i: usize = 0;
        while i < self.marked_tiles.len()
            invariant
                i <= self.marked_tiles.len(),
                forall|j: int| 0 <= j < i ==> self.marked_tiles[j] != *coords,
            decreases self.marked_tiles.len() - i,
        {
            if self.marked_tiles[i] == *coords {
                return true;
            }
            i = i + 1;
        }
        false
    }

    /// The covers around `coords` that a reveal may take off: those of the
    /// neighbors that are covered and not marked, in the order of
    /// [`neighbors_of`].
    pub fn adjacent_covered_tiles(&self, coords: &Coordinates) -> (covers: Vec<Entity>)
        requires
            self.wf(),
        ensures
            covers@ == self@.covers_among(neighbors_of(*coords)),
    {
        let around = self.tile_map.surrounding_tiles(*coords);
        let mut covers: Vec<Entity> = Vec::new();
        let mut i: usize = 0;
        while i < around.len()
            invariant
                self.wf(),
                i <= around.len(),
                covers@ == self@.covers_among(around@.take(i as int)),
            decreases around.len() - i,
        {
            proof {
                assert(around@.take(i + 1).drop_last() =~= around@.take(i as int));
            }
            match self.tile_to_uncover(&around[i]) {
                Some(entity) => {
                    covers.push(*entity);
                },
                None => {},
            }
            i = i + 1;
        }
        proof {
            assert(around@.take(around.len() as int) =~= around@);
        }
        covers
    }

    /// The neighbors of `coords` that a reveal may take: those that are
    /// covered and not marked, in the order of [`neighbors_of`].
    pub fn adjacent_uncoverable(&self, coords: &Coordinates) -> (cells: Vec<Coordinates>)
        requires
            self.wf(),
        ensures
            cells@ == self@.uncoverable_among(neighbors_of(*coords)),
    {
        let around = self.tile_map.surrounding_tiles(*coords);
        let mut cells: Vec<Coordinates> = Vec::new();
        let mut i: usize = 0;
        while i < around.len()
            invariant
                self.wf(),
                i <= around.len(),
                cells@ == self@.uncoverable_among(around@.take(i as int)),
            decreases around.len() - i,
        {
            proof {
                assert(around@.take(i + 1).drop_last() =~= around@.take(i as int));
            }
            if self.tile_to_uncover(&around[i]).is_some() {
                cells.push(around[i]);
            }
            i = i + 1;
        }
        proof {
            assert(around@.take(around.len() as int) =~= around@);
        }
        cells
    }

    /// The position of the pointer `position` on the board, taken relative
    /// to the middle of the window: `None` outside the board's rectangle,
    /// else the cell whose tile holds the point. A point on the line between
    /// two tiles belongs to the tile that begins there.
    pub fn mouse_position(&self, window_size: (u32, u32), position: (i32, i32)) -> (cell: Option<
        Coordinates,
    >)
        requires
            self.wf(),
        ensures
            cell == self.cell_under(
                position.0 - window_size.0 / 2,
                position.1 - window_size.1 / 2,
            ),
            cell matches Some(c) ==> self.tile_map().in_grid(c.x as int, c.y as int),
    {
        // the pointer as seen from the middle of the window
        let x: i64 = position.0 as i64 - (window_size.0 / 2) as i64;
        let y: i64 = position.1 as i64 - (window_size.1 / 2) as i64;
        if !self.bounds.in_bounds((x, y)) {
            return None;
        }
        // the distance from the rectangle's corner, in tiles
        let column: i128 = (x as i128 - self.bounds.position.0 as i128) / (self.tile_size as i128);
        let row: i128 = (y as i128 - self.bounds.position.1 as i128) / (self.tile_size as i128);
        proof {
            let ts = self.tile_size as int;
            let w = self.tile_map.width() as int;
            let h = self.tile_map.height() as int;
            assert(0 <= (x - self.bounds.position.0) / ts < w) by (nonlinear_arith)
                requires
                    0 <= x - self.bounds.position.0 < w * ts,
                    ts > 0,
            ;
            assert(0 <= (y - self.bounds.position.1) / ts < h) by (nonlinear_arith)
                requires
                    0 <= y - self.bounds.position.1 < h * ts,
                    ts > 0,
            ;
        }
        Some(Coordinates { x: column as u16, y: row as u16 })
    }

    /// The cell whose tile holds the point `(x, y)`, if the board's rectangle
    /// holds it: the distance from the rectangle's corner, divided by the
    /// tile size and rounded down.
    pub open spec fn cell_under(&self, x: int, y: int) -> Option<Coordinates> {
        if self.bounds().contains(x, y) {
            Some(
                Coordinates {
                    x: ((x - self.bounds().position.0) / (self.tile_size() as int)) as u16,
                    y: ((y - self.bounds().position.1) / (self.tile_size() as int)) as u16,
                },
            )
        } else {
            None
        }
    }

    /// What holds of a well-formed board: its mine field is generated, only
    /// finitely many cells are covered, all of them in the grid, and only
    /// covered cells are marked.
    pub proof fn lemma_wf(&self)
        requires
            self.wf(),
        ensures
            self.tile_map().wf(),
            self.tile_map().labelled(),
            self@.wf(),
            forall|c: Coordinates| #[trigger]
                self@.covered.contains_key(c) ==> self.tile_map().in_grid(c.x as int, c.y as int),
    {
    }

    /// A point outside the board's rectangle is over no cell.
    pub proof fn lemma_pointer_outside(&self, x: int, y: int)
        requires
            !self.bounds().contains(x, y),
        ensures
            self.cell_under(x, y).is_none(),
    {
    }

    /// The corner of the board's rectangle is over the cell `(0, 0)`.
    pub proof fn lemma_pointer_at_origin(&self)
        requires
            self.wf(),
        ensures
            self.cell_under(self.bounds().position.0 as int, self.bounds().position.1 as int)
                == Some(Coordinates { x: 0, y: 0 }),
    {
        let ts = self.tile_size as int;
        let w = self.tile_map.width() as int;
        let h = self.tile_map.height() as int;
        self.tile_map.lemma_not_empty();
        assert(0 < w * ts && 0 < h * ts && 0int / ts == 0) by (nonlinear_arith)
            requires
                ts > 0,
                w > 0,
                h > 0,
        ;
    }

    /// Takes `coords` out of the marked cells and returns it, or `None` where
    /// it is not marked.
    fn unmark_tile(&mut self, coords: &Coordinates) -> (unmarked: Option<Coordinates>)
        requires
            old(self).marked_tiles@.no_duplicates(),
        ensures
            final(self).marked_tiles@.no_duplicates(),
            final(self)@.marked == old(self)@.marked.remove(*coords),
            final(self)@.covered == old(self)@.covered,
            final(self).tile_map == old(self).tile_map,
            final(self).bounds == old(self).bounds,
            final(self).tile_size == old(self).tile_size,
            final(self).entity == old(self).entity,
            unmarked == if old(self)@.marked.contains(*coords) {
                Some(*coords)
            } else {
                None
            },
    {
        let mut i: usize = 0;
        while i < self.marked_tiles.len()
            invariant
                *self == *old(self),
                self.marked_tiles@.no_duplicates(),
                i <= self.marked_tiles.len(),
                forall|j: int| 0 <= j < i ==> self.marked_tiles[j] != *coords,
            decreases self.marked_tiles.len() - i,
        {
            if self.marked_tiles[i] == *coords {
                proof {
                    lemma_remove_from_marked(self.marked_tiles@, i as int);
                }
                let unmarked = self.marked_tiles.remove(i);
                return Some(unmarked);
            }
            i = i + 1;
        }
        proof {
            assert(!self.marked_tiles@.contains(*coords));
            assert(self@.marked.remove(*coords) =~= self@.marked);
        }
        None
    }

    /// Reveals `coords`: the cell loses its mark, if it had one, and its
    /// cover, which is returned. A cell that is already revealed gives `None`
    /// and nothing changes.
    pub fn try_uncover_tile(&mut self, coords: &Coordinates) -> (cover: Option<Entity>)
        requires
            old(self).wf(),
        ensures
            final(self).wf(),
            final(self)@ == old(self)@.uncover(*coords),
            cover == if old(self)@.covered.contains_key(*coords) {
                Some(old(self)@.covered[*coords])
            } else {
                None
            },
            final(self).tile_map() == old(self).tile_map(),
            final(self).bounds() == old(self).bounds(),
            final(self).tile_size() == old(self).tile_size(),
            final(self).entity() == old(self).entity(),
    {
        if self.is_marked(coords) {
            self.unmark_tile(coords);
        } else {
            proof {
                assert(self@.marked.remove(*coords) =~= self@.marked);
            }
        }
        self.covered_tiles.remove(coords)
    }

    /// Reveals `coords`, marked or not, and reports what follows from it:
    /// the cover to take away, whether the board is now completed, whether a
    /// bomb went off, and where the reveal spreads next. It spreads from an
    /// `Empty` cell only, never from a bomb or from a cell with bombs around
    /// it.
    pub fn uncover(&mut self, coords: &Coordinates) -> (outcome: UncoverOutcome)
        requires
            old(self).wf(),
        ensures
            final(self).wf(),
            final(self)@ == old(self)@.uncover(*coords),
            outcome.is_reveal_of(old(self).tile_map(), old(self)@, *coords),
            final(self).tile_map() == old(self).tile_map(),
            final(self).bounds() == old(self).bounds(),
            final(self).tile_size() == old(self).tile_size(),
            final(self).entity() == old(self).entity(),
    {
        let cover = self.try_uncover_tile(coords);
        if cover.is_none() {
            return UncoverOutcome { cover, completed: None, exploded: None, next: Vec::new() };
        }
        let completed = if self.is_completed() {
            Some(BoardCompletedEvent)
        } else {
            None
        };
        let (exploded, next) = match self.tile_map.tile(*coords) {
            Some(Tile::Bomb) => (Some(BombExplosionEvent), Vec::new()),
            Some(Tile::Empty) => (None, self.adjacent_uncoverable(coords)),
            _ => (None, Vec::new()),
        };
        UncoverOutcome { cover, completed, exploded, next }
    }

    /// Marks `coords` if it is covered and unmarked, unmarks it if it is
    /// marked. Returns the cell's cover and whether the cell is marked now,
    /// or `None` for a cell that is not covered, which cannot be marked.
    pub fn try_toggle_mark(&mut self, coords: &Coordinates) -> (toggled: Option<(Entity, bool)>)
        requires
            old(self).wf(),
        ensures
            final(self).wf(),
            final(self)@ == old(self)@.toggle_mark(*coords),
            toggled == old(self)@.toggle_result(*coords),
            final(self).tile_map() == old(self).tile_map(),
            final(self).bounds() == old(self).bounds(),
            final(self).tile_size() == old(self).tile_size(),
            final(self).entity() == old(self).entity(),
    {
        let entity = match self.covered_tiles.get(coords) {
            Some(entity) => *entity,
            None => {
                return None;
            },
        };
        let mark = if self.is_marked(coords) {
            self.unmark_tile(coords);
            false
        } else {
            proof {
                lemma_push_to_marked(self.marked_tiles@, *coords);
            }
            self.marked_tiles.push(*coords);
            true
        };
        Some((entity, mark))
    }

    /// Whether every cell without a bomb is revealed: as many cells are
    /// covered as there are bombs.
    pub fn is_completed(&self) -> (done: bool)
        requires
            self.wf(),
        ensures
            done == (self@.covered.len() == self.tile_map().bomb_count()),
    {
        self.tile_map.bomb_count() as usize == self.covered_tiles.len()
    }
}

} // verus!
