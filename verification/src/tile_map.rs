//! The mine field: a grid of tiles, its generation and its adjacency queries.

use crate::coordinates::Coordinates;
use crate::random::random_below;
use crate::text::{decimal, push_decimal};
use crate::tile::Tile;
use rand::thread_rng;
use vstd::prelude::*;
use vstd::string::StringExecFns;

verus! {

/// The mine field. Row `y` of the grid holds the tiles `(0, y)` to
/// `(width - 1, y)`.
#[derive(Debug)]
pub struct TileMap {
    bomb_count: u16,
    height: u16,
    width: u16,
    map: Vec<Vec<Tile>>,
}

/// Why a map cannot be generated.
#[derive(Debug, Copy, Clone, PartialEq, Eq, Structural)]
pub enum GenerationError {
    /// The width or the height is zero.
    NoTiles,
    /// There are at least as many bombs as tiles.
    TooManyBombs,
}

/// The steps from a cell to its eight neighbors: the row below from left to
/// right, then left and right, then the row above from left to right.
///
/// ```text
/// *--------*-------*-------*
/// | -1, 1  | 0, 1  | 1, 1  |
/// |--------|-------|-------|
/// | -1, 0  | tile  | 1, 0  |
/// |--------|-------|-------|
/// | -1, -1 | 0, -1 | 1, -1 |
/// *--------*-------*-------*
/// ```
pub open spec fn neighbor_offsets() -> Seq<(i8, i8)> {
    seq![
        (-1i8, -1i8),
        (0i8, -1i8),
        (1i8, -1i8),
        (-1i8, 0i8),
        (1i8, 0i8),
        (-1i8, 1i8),
        (0i8, 1i8),
        (1i8, 1i8),
    ]
}

/// The eight neighbor candidates of `coordinates`, in the order of
/// [`neighbor_offsets`]. A candidate that would leave the `u16` range has
/// `u16::MAX` in that component and so lies outside every grid.
pub open spec fn neighbors_of(coordinates: Coordinates) -> Seq<Coordinates> {
    Seq::new(8, |i: int| coordinates.moved(neighbor_offsets()[i]))
}

impl TileMap {
    /// The grid has `height` rows of `width` tiles each. Every map that this
    /// module hands out is well formed.
    pub closed spec fn wf(&self) -> bool {
        &&& self.width > 0
        &&& self.height > 0
        &&& self.map.len() == self.height
        &&& forall|y: int| 0 <= y < self.map.len() ==> (#[trigger] self.map[y]).len() == self.width
    }

    /// Number of columns, as contracts speak of it.
    pub closed spec fn spec_width(&self) -> u16 {
        self.width
    }

    /// Number of rows, as contracts speak of it.
    pub closed spec fn spec_height(&self) -> u16 {
        self.height
    }

    /// Number of bombs that were placed, as contracts speak of it.
    pub closed spec fn spec_bomb_count(&self) -> u16 {
        self.bomb_count
    }

    /// Whether `(x, y)` names a cell of the grid.
    pub open spec fn in_grid(&self, x: int, y: int) -> bool {
        0 <= x < self.width() && 0 <= y < self.height()
    }

    /// The tile at `(x, y)`; only meaningful inside the grid.
    pub closed spec fn tile_at(&self, x: int, y: int) -> Tile {
        self.map[y][x]
    }

    /// Whether `(x, y)` is a cell of the grid that holds a bomb.
    pub open spec fn bomb_at(&self, x: int, y: int) -> bool {
        self.in_grid(x, y) && self.tile_at(x, y) is Bomb
    }

    /// How many of the first `n` neighbor candidates of the position `(x, y)`
    /// are cells that hold a bomb.
    pub open spec fn bombs_among(&self, x: int, y: int, n: int) -> nat
        decreases n,
    {
        if n <= 0 {
            0
        } else {
            let step = neighbor_offsets()[n - 1];
            self.bombs_among(x, y, n - 1) + if self.bomb_at(x + step.0, y + step.1) {
                1nat
            } else {
                0nat
            }
        }
    }

    /// How many of the eight cells around `(x, y)` lie in the grid and hold a
    /// bomb.
    pub open spec fn bombs_around(&self, x: int, y: int) -> nat {
        self.bombs_among(x, y, 8)
    }

    /// Bombs among the first `n` tiles of row `y`.
    pub open spec fn bombs_in_row(&self, y: int, n: int) -> nat
        decreases n,
    {
        if n <= 0 {
            0
        } else {
            self.bombs_in_row(y, n - 1) + if self.tile_at(n - 1, y) is Bomb {
                1nat
            } else {
                0nat
            }
        }
    }

    /// Bombs in the first `m` rows.
    pub open spec fn bombs_in_rows(&self, m: int) -> nat
        decreases m,
    {
        if m <= 0 {
            0
        } else {
            self.bombs_in_rows(m - 1) + self.bombs_in_row(m - 1, self.width() as int)
        }
    }

    /// Number of `Bomb` tiles in the grid.
    pub open spec fn bomb_total(&self) -> nat {
        self.bombs_in_rows(self.height() as int)
    }

    /// Number of tiles without a bomb that come before `(x, y)`, rows from
    /// the first to the last and each row from left to right.
    pub open spec fn free_before(&self, x: int, y: int) -> int {
        y * self.width() + x - (self.bombs_in_rows(y) + self.bombs_in_row(y, x))
    }

    /// Number of tiles without a bomb.
    pub open spec fn free_total(&self) -> int {
        self.height() * self.width() - self.bomb_total()
    }

    /// What a generated map holds at `(x, y)`: the bomb, or the number of
    /// bombs around, or `Empty` where there is none around.
    pub open spec fn expected_tile(&self, x: int, y: int) -> Tile {
        if self.bomb_at(x, y) {
            Tile::Bomb
        } else if self.bombs_around(x, y) > 0 {
            Tile::Neighbor(self.bombs_around(x, y) as u8)
        } else {
            Tile::Empty
        }
    }

    /// The state in which bombs are placed: the bombs are counted and every
    /// other tile is still `Empty`. A map fresh from [`TileMap::empty`] is in
    /// it.
    pub open spec fn unlabelled(&self) -> bool {
        &&& self.bomb_count() == self.bomb_total()
        &&& forall|x: int, y: int|
            self.in_grid(x, y) ==> #[trigger] self.tile_at(x, y) is Bomb || self.tile_at(x, y)
                is Empty
    }

    /// The state of a generated map: the bombs are counted and every tile
    /// without a bomb tells how many bombs surround it.
    pub open spec fn labelled(&self) -> bool {
        &&& self.bomb_count() == self.bomb_total()
        &&& forall|x: int, y: int|
            self.in_grid(x, y) ==> #[trigger] self.tile_at(x, y) == self.expected_tile(x, y)
    }

    /// Generates a map of the given size, which has at least one tile, with
    /// every tile `Empty` and no bombs.
    pub fn empty(width: u16, height: u16) -> (m: TileMap)
        requires
            width > 0,
            height > 0,
        ensures
            m.wf(),
            m.width() == width,
            m.height() == height,
            m.bomb_count() == 0,
            forall|x: int, y: int| m.in_grid(x, y) ==> #[trigger] m.tile_at(x, y) == Tile::Empty,
            m.unlabelled(),
    {
        let mut map: Vec<Vec<Tile>> = Vec::new();
        let mut y: u16 = 0;
        while y < height
            invariant
                y <= height,
                map.len() == y,
                forall|j: int| 0 <= j < y ==> (#[trigger] map[j]).len() == width,
                forall|i: int, j: int| 0 <= j < y && 0 <= i < width ==> map[j][i] == Tile::Empty,
            decreases height - y,
        {
            let mut row: Vec<Tile> = Vec::new();
            let mut x: u16 = 0;
            while x < width
                invariant
                    x <= width,
                    row.len() == x,
                    forall|i: int| 0 <= i < x ==> row[i] == Tile::Empty,
                decreases width - x,
            {
                row.push(Tile::Empty);
                x = x + 1;
            }
            map.push(row);
            y = y + 1;
        }
        let m = TileMap { bomb_count: 0, height, width, map };
        proof {
            m.lemma_no_bombs_in_rows(height as int);
        }
        m
    }

    /// Generates a map of the given size with `bomb_count` bombs on tiles
    /// drawn at random and with every other tile counting the bombs around
    /// it. A map without tiles, and one that has no tile to spare for all
    /// the bombs, cannot be played and is refused.
    pub fn generate(width: u16, height: u16, bomb_count: u16) -> (generated: Result<
        TileMap,
        GenerationError,
    >)
        ensures
            match generated {
                Ok(m) => {
                    &&& width > 0 && height > 0 && bomb_count < width * height
                    &&& m.wf()
                    &&& m.width() == width
                    &&& m.height() == height
                    &&& m.bomb_count() == bomb_count
                    &&& m.bomb_total() == bomb_count
                    &&& m.labelled()
                },
                Err(GenerationError::NoTiles) => width == 0 || height == 0,
                Err(GenerationError::TooManyBombs) => width > 0 && height > 0 && bomb_count
                    >= width * height,
            },
    {
        if width == 0 || height == 0 {
            return Err(GenerationError::NoTiles);
        }
        assert(width * height <= 65535 * 65535) by (nonlinear_arith)
            requires
                width <= 65535,
                height <= 65535,
        ;
        if bomb_count as u32 >= width as u32 * height as u32 {
            return Err(GenerationError::TooManyBombs);
        }
        let mut m = TileMap::empty(width, height);
        m.add_bombs(bomb_count);
        Ok(m)
    }

    /// Number of columns.
    #[verifier::when_used_as_spec(spec_width)]
    pub fn width(&self) -> (w: u16)
        ensures
            w == self.width(),
    {
        self.width
    }

    /// Number of rows.
    #[verifier::when_used_as_spec(spec_height)]
    pub fn height(&self) -> (h: u16)
        ensures
            h == self.height(),
    {
        self.height
    }

    /// Number of bombs that were placed.
    #[verifier::when_used_as_spec(spec_bomb_count)]
    pub fn bomb_count(&self) -> (n: u16)
        ensures
            n == self.bomb_count(),
    {
        self.bomb_count
    }

    /// The tile at `coordinates`, or `None` outside the grid.
    pub fn tile(&self, coordinates: Coordinates) -> (tile: Option<Tile>)
        requires
            self.wf(),
        ensures
            tile == if self.in_grid(coordinates.x as int, coordinates.y as int) {
                Some(self.tile_at(coordinates.x as int, coordinates.y as int))
            } else {
                None
            },
    {
        if coordinates.x >= self.width || coordinates.y >= self.height {
            None
        } else {
            Some(self.map[coordinates.y as usize][coordinates.x as usize])
        }
    }

    /// Whether `coordinates` is a cell that holds a bomb. Any position outside
    /// the grid holds none.
    pub fn is_bomb_at(&self, coordinates: Coordinates) -> (b: bool)
        requires
            self.wf(),
        ensures
            b == self.bomb_at(coordinates.x as int, coordinates.y as int),
            !self.in_grid(coordinates.x as int, coordinates.y as int) ==> !b,
    {
        if coordinates.x >= self.width || coordinates.y >= self.height {
            false
        } else {
            self.map[coordinates.y as usize][coordinates.x as usize].is_bomb()
        }
    }
}

impl TileMap {
    /// The eight neighbor candidates of `coordinates`. They are not checked
    /// against the grid: every query does that for itself.
    pub fn surrounding_tiles(&self, coordinates: Coordinates) -> (around: Vec<Coordinates>)
        ensures
            around@ == neighbors_of(coordinates),
            around.len() == 8,
    {
        let mut around: Vec<Coordinates> = Vec::new();
        around.push(coordinates + (-1i8, -1i8));
        around.push(coordinates + (0i8, -1i8));
        around.push(coordinates + (1i8, -1i8));
        around.push(coordinates + (-1i8, 0i8));
        around.push(coordinates + (1i8, 0i8));
        around.push(coordinates + (-1i8, 1i8));
        around.push(coordinates + (0i8, 1i8));
        around.push(coordinates + (1i8, 1i8));
        assert(around@ =~= neighbors_of(coordinates));
        around
    }

    /// The first `Empty` tile, rows from the first to the last and each row
    /// from left to right, or `None` where no tile is `Empty`. This is the
    /// cell to reveal for a start that cannot hit a bomb.
    pub fn first_empty(&self) -> (first: Option<Coordinates>)
        requires
            self.wf(),
        ensures
            match first {
                Some(c) => {
                    &&& self.in_grid(c.x as int, c.y as int)
                    &&& self.tile_at(c.x as int, c.y as int) is Empty
                    &&& forall|x: int, y: int|
                        self.in_grid(x, y) && (y < c.y || (y == c.y && x < c.x)) ==> !(
                        #[trigger] self.tile_at(x, y) is Empty)
                },
                None => forall|x: int, y: int|
                    self.in_grid(x, y) ==> !(#[trigger] self.tile_at(x, y) is Empty),
            },
    {
        let mut y: u16 = 0;
        while y < self.height
            invariant
                self.wf(),
                y <= self.height,
                forall|i: int, j: int|
                    self.in_grid(i, j) && j < y ==> !(#[trigger] self.tile_at(i, j) is Empty),
            decreases self.height - y,
        {
            let mut x: u16 = 0;
            while x < self.width
                invariant
                    self.wf(),
                    y < self.height,
                    x <= self.width,
                    forall|i: int, j: int|
                        self.in_grid(i, j) && (j < y || (j == y && i < x)) ==> !(
                        #[trigger] self.tile_at(i, j) is Empty),
                decreases self.width - x,
            {
                match self.map[y as usize][x as usize] {
                    Tile::Empty => {
                        return Some(Coordinates { x, y });
                    },
                    _ => {},
                }
                x = x + 1;
            }
            y = y + 1;
        }
        None
    }

    /// Number of bombs around `coordinates`, or 0 where `coordinates` itself
    /// holds a bomb.
    pub fn bomb_count_at(&self, coordinates: Coordinates) -> (n: u8)
        requires
            self.wf(),
        ensures
            n == if self.bomb_at(coordinates.x as int, coordinates.y as int) {
                0
            } else {
                self.bombs_around(coordinates.x as int, coordinates.y as int)
            },
            n <= 8,
    {
        if self.is_bomb_at(coordinates) {
            return 0;
        }
        let around = self.surrounding_tiles(coordinates);
        let mut n: u8 = 0;
        let mut i: usize = 0;
        while i < 8
            invariant
                self.wf(),
                i <= 8,
                around@ == neighbors_of(coordinates),
                n == self.bombs_among(coordinates.x as int, coordinates.y as int, i as int),
                n <= i,
            decreases 8 - i,
        {
            proof {
                self.lemma_candidate_is_neighbor(coordinates, i as int);
            }
            if self.is_bomb_at(around[i]) {
                n = n + 1;
            }
            i = i + 1;
        }
        n
    }

    /// A candidate holds a bomb exactly when the cell one step away does: a
    /// step out of the `u16` range ends outside the grid either way.
    proof fn lemma_candidate_is_neighbor(&self, c: Coordinates, i: int)
        requires
            0 <= i < 8,
        ensures
            ({
                let step = neighbor_offsets()[i];
                let cand = neighbors_of(c)[i];
                self.bomb_at(cand.x as int, cand.y as int) == self.bomb_at(
                    c.x + step.0,
                    c.y + step.1,
                )
            }),
    {
    }
}

impl TileMap {
    /// Two maps that hold their bombs in the same places of a row count the
    /// same there, but for one tile `(cx, cy)` that holds a bomb only in `b`.
    proof fn lemma_row_count(a: &TileMap, b: &TileMap, y: int, n: int, cx: int, cy: int)
        requires
            forall|x: int|
                0 <= x < n && !(x == cx && y == cy) ==> (a.tile_at(x, y) is Bomb) == (b.tile_at(
                    x,
                    y,
                ) is Bomb),
            !(a.tile_at(cx, cy) is Bomb),
            b.tile_at(cx, cy) is Bomb,
        ensures
            b.bombs_in_row(y, n) == a.bombs_in_row(y, n) + if y == cy && 0 <= cx < n {
                1nat
            } else {
                0nat
            },
        decreases n,
    {
        if n > 0 {
            Self::lemma_row_count(a, b, y, n - 1, cx, cy);
        }
    }

    proof fn lemma_rows_count(a: &TileMap, b: &TileMap, m: int, cx: int, cy: int)
        requires
            a.width() == b.width(),
            0 <= cx < a.width(),
            forall|x: int, y: int|
                0 <= x < a.width() && 0 <= y < m && !(x == cx && y == cy) ==> (a.tile_at(x, y)
                    is Bomb) == (b.tile_at(x, y) is Bomb),
            !(a.tile_at(cx, cy) is Bomb),
            b.tile_at(cx, cy) is Bomb,
        ensures
            b.bombs_in_rows(m) == a.bombs_in_rows(m) + if 0 <= cy < m {
                1nat
            } else {
                0nat
            },
        decreases m,
    {
        if m > 0 {
            Self::lemma_rows_count(a, b, m - 1, cx, cy);
            Self::lemma_row_count(a, b, m - 1, a.width() as int, cx, cy);
        }
    }

    /// Two maps that hold their bombs in the same places count the same.
    proof fn lemma_row_same(a: &TileMap, b: &TileMap, y: int, n: int)
        requires
            forall|x: int| 0 <= x < n ==> (a.tile_at(x, y) is Bomb) == (b.tile_at(x, y) is Bomb),
        ensures
            b.bombs_in_row(y, n) == a.bombs_in_row(y, n),
        decreases n,
    {
        if n > 0 {
            Self::lemma_row_same(a, b, y, n - 1);
        }
    }

    proof fn lemma_rows_same(a: &TileMap, b: &TileMap, m: int)
        requires
            a.width() == b.width(),
            forall|x: int, y: int|
                0 <= x < a.width() && 0 <= y < m ==> (a.tile_at(x, y) is Bomb) == (b.tile_at(x, y)
                    is Bomb),
        ensures
            b.bombs_in_rows(m) == a.bombs_in_rows(m),
        decreases m,
    {
        if m > 0 {
            Self::lemma_rows_same(a, b, m - 1);
            Self::lemma_row_same(a, b, m - 1, a.width() as int);
        }
    }

    proof fn lemma_around_same(a: &TileMap, b: &TileMap, x: int, y: int, n: int)
        requires
            forall|i: int, j: int| a.bomb_at(i, j) == b.bomb_at(i, j),
        ensures
            b.bombs_among(x, y, n) == a.bombs_among(x, y, n),
        decreases n,
    {
        if n > 0 {
            Self::lemma_around_same(a, b, x, y, n - 1);
        }
    }

    /// No more bombs than neighbors.
    proof fn lemma_around_bound(&self, x: int, y: int, n: int)
        requires
            0 <= n,
        ensures
            self.bombs_among(x, y, n) <= n,
        decreases n,
    {
        if n > 0 {
            self.lemma_around_bound(x, y, n - 1);
        }
    }

    /// A well-formed map has at least one tile.
    pub proof fn lemma_not_empty(&self)
        requires
            self.wf(),
        ensures
            self.width() > 0,
            self.height() > 0,
    {
    }

    /// What a generated map holds. As many tiles hold a bomb as were asked
    /// for. A tile with a count has no bomb, and its count, between 1 and 8,
    /// is the number of bombs in the cells around it that lie in the grid.
    /// An `Empty` tile has no bomb and none around it.
    pub proof fn lemma_generated_tiles(&self, x: int, y: int)
        requires
            self.wf(),
            self.labelled(),
            self.in_grid(x, y),
        ensures
            self.bomb_total() == self.bomb_count(),
            match self.tile_at(x, y) {
                Tile::Bomb => self.bomb_at(x, y),
                Tile::Neighbor(n) => !self.bomb_at(x, y) && 1 <= n <= 8 && n == self.bombs_around(
                    x,
                    y,
                ),
                Tile::Empty => !self.bomb_at(x, y) && self.bombs_around(x, y) == 0,
            },
    {
        self.lemma_around_bound(x, y, 8);
        assert(self.tile_at(x, y) == self.expected_tile(x, y));
    }

    /// In a generated map no bomb lies next to an `Empty` tile.
    pub proof fn lemma_empty_has_no_bomb_neighbor(&self, c: Coordinates, n: Coordinates)
        requires
            self.wf(),
            self.labelled(),
            self.in_grid(c.x as int, c.y as int),
            self.tile_at(c.x as int, c.y as int) is Empty,
            neighbors_of(c).contains(n),
        ensures
            !self.bomb_at(n.x as int, n.y as int),
    {
        let i = choose|i: int| 0 <= i < 8 && neighbors_of(c)[i] == n;
        assert(self.tile_at(c.x as int, c.y as int) == self.expected_tile(c.x as int, c.y as int));
        assert(self.bombs_among(c.x as int, c.y as int, 8) == 0);
        reveal_with_fuel(TileMap::bombs_among, 9);
        self.lemma_candidate_is_neighbor(c, i);
    }

    /// A cell has eight neighbor candidates. A candidate inside the grid is
    /// another cell, at most one column and one row away; a candidate outside
    /// the grid holds no bomb.
    pub proof fn lemma_neighbor_candidates(&self, c: Coordinates, i: int)
        requires
            0 <= i < 8,
        ensures
            neighbors_of(c).len() == 8,
            ({
                let n = neighbors_of(c)[i];
                &&& !self.in_grid(n.x as int, n.y as int) ==> !self.bomb_at(n.x as int, n.y as int)
                &&& self.in_grid(n.x as int, n.y as int) ==> {
                    &&& n != c
                    &&& -1 <= n.x - c.x <= 1
                    &&& -1 <= n.y - c.y <= 1
                }
            }),
    {
    }

    /// Along a row the number of free tiles met so far never falls.
    proof fn lemma_free_before_in_row(&self, y: int, from: int, to: int)
        requires
            0 <= from <= to,
        ensures
            self.free_before(from, y) <= self.free_before(to, y),
        decreases to - from,
    {
        if from < to {
            self.lemma_free_before_in_row(y, from, to - 1);
        }
    }

    /// From row to row the number of free tiles met so far never falls.
    proof fn lemma_free_before_in_rows(&self, from: int, to: int)
        requires
            0 <= from <= to,
        ensures
            self.free_before(0, from) <= self.free_before(0, to),
        decreases to - from,
    {
        if from < to {
            self.lemma_free_before_in_rows(from, to - 1);
            self.lemma_free_before_in_row(to - 1, 0, self.width() as int);
            assert(to * self.width() == (to - 1) * self.width() + self.width())
                by (nonlinear_arith);
        }
    }

    /// No two tiles without a bomb have the same number of such tiles
    /// before them: a pick names one tile.
    pub proof fn lemma_pick_names_one_tile(&self, a: Coordinates, b: Coordinates)
        requires
            self.in_grid(a.x as int, a.y as int),
            self.in_grid(b.x as int, b.y as int),
            !self.bomb_at(a.x as int, a.y as int),
            !self.bomb_at(b.x as int, b.y as int),
            self.free_before(a.x as int, a.y as int) == self.free_before(b.x as int, b.y as int),
        ensures
            a == b,
    {
        if a != b {
            let (p, q) = if a.y < b.y || (a.y == b.y && a.x < b.x) {
                (a, b)
            } else {
                (b, a)
            };
            // the free tile `p` comes before `q`, so `q` has at least one more before it
            assert(self.free_before(p.x + 1, p.y as int) == self.free_before(
                p.x as int,
                p.y as int,
            ) + 1);
            if p.y == q.y {
                self.lemma_free_before_in_row(p.y as int, p.x + 1, q.x as int);
            } else {
                self.lemma_free_before_in_row(p.y as int, p.x + 1, self.width() as int);
                assert((p.y + 1) * self.width() == p.y * self.width() + self.width())
                    by (nonlinear_arith);
                assert(self.free_before(self.width() as int, p.y as int) == self.free_before(
                    0,
                    p.y + 1,
                ));
                self.lemma_free_before_in_rows(p.y + 1, q.y as int);
                self.lemma_free_before_in_row(q.y as int, 0, q.x as int);
            }
        }
    }

    /// A map without a bomb tile counts no bombs.
    proof fn lemma_no_bombs_in_row(&self, y: int, n: int)
        requires
            forall|x: int| 0 <= x < n ==> !(#[trigger] self.tile_at(x, y) is Bomb),
        ensures
            self.bombs_in_row(y, n) == 0,
        decreases n,
    {
        if n > 0 {
            self.lemma_no_bombs_in_row(y, n - 1);
        }
    }

    proof fn lemma_no_bombs_in_rows(&self, m: int)
        requires
            m <= self.height(),
            forall|x: int, y: int| self.in_grid(x, y) ==> !(#[trigger] self.tile_at(x, y) is Bomb),
        ensures
            self.bombs_in_rows(m) == 0,
        decreases m,
    {
        if m > 0 {
            self.lemma_no_bombs_in_rows(m - 1);
            self.lemma_no_bombs_in_row(m - 1, self.width() as int);
        }
    }

    /// Puts a bomb on the tile that has `pick` tiles without a bomb before it,
    /// and returns where that is. Each `pick` below [`TileMap::free_total`]
    /// names another tile.
    pub fn place_bomb(&mut self, pick: u32) -> (at: Coordinates)
        requires
            old(self).wf(),
            old(self).unlabelled(),
            old(self).bomb_count() < u16::MAX,
            pick < old(self).free_total(),
        ensures
            final(self).wf(),
            final(self).width() == old(self).width(),
            final(self).height() == old(self).height(),
            final(self).bomb_count() == old(self).bomb_count() + 1,
            final(self).unlabelled(),
            old(self).in_grid(at.x as int, at.y as int),
            old(self).tile_at(at.x as int, at.y as int) is Empty,
            old(self).free_before(at.x as int, at.y as int) == pick,
            final(self).tile_at(at.x as int, at.y as int) is Bomb,
            forall|x: int, y: int|
                old(self).in_grid(x, y) && !(x == at.x && y == at.y)
                    ==> #[trigger] final(self).tile_at(x, y) == old(self).tile_at(x, y),
    {
        let ghost before = *self;
        let mut seen: u32 = 0;
        let mut y: u16 = 0;
        while y < self.height
            invariant
                *self == before,
                before == *old(self),
                before.unlabelled(),
                self.wf(),
                self.bomb_count < u16::MAX,
                y <= self.height,
                seen == self.free_before(0, y as int),
                seen <= pick,
            decreases self.height - y,
        {
            let mut x: u16 = 0;
            while x < self.width
                invariant
                    *self == before,
                    before == *old(self),
                    before.unlabelled(),
                    self.wf(),
                    self.bomb_count < u16::MAX,
                    y < self.height,
                    x <= self.width,
                    seen == self.free_before(x as int, y as int),
                    seen <= pick,
                decreases self.width - x,
            {
                if !self.map[y as usize][x as usize].is_bomb() {
                    if seen == pick {
                        self.map[y as usize][x as usize] = Tile::Bomb;
                        self.bomb_count = self.bomb_count + 1;
                        proof {
                            assert forall|i: int, j: int|
                                before.in_grid(i, j) && !(i == x && j == y) implies self.tile_at(
                                i,
                                j,
                            ) == before.tile_at(i, j) by {}
                            assert(self.tile_at(x as int, y as int) is Bomb);
                            Self::lemma_rows_count(
                                &before,
                                &*self,
                                self.height as int,
                                x as int,
                                y as int,
                            );
                            assert forall|i: int, j: int| self.in_grid(i, j) implies #[trigger] self.tile_at(
                                i,
                                j,
                            ) is Bomb || self.tile_at(i, j) is Empty by {
                                if !(i == x && j == y) {
                                    assert(self.tile_at(i, j) == before.tile_at(i, j));
                                }
                            }
                        }
                        return Coordinates { x, y };
                    }
                    seen = seen + 1;
                }
                x = x + 1;
            }
            proof {
                assert((y + 1) * self.width == y * self.width + self.width) by (nonlinear_arith);
            }
            y = y + 1;
        }
        proof {
            assert(false);
        }
        Coordinates { x: 0, y: 0 }
    }
}

impl TileMap {
    /// Writes into every tile without a bomb how many bombs surround it.
    fn label_neighbors(&mut self)
        requires
            old(self).wf(),
            old(self).unlabelled(),
        ensures
            final(self).wf(),
            final(self).width() == old(self).width(),
            final(self).height() == old(self).height(),
            final(self).bomb_count() == old(self).bomb_count(),
            final(self).labelled(),
            forall|x: int, y: int| final(self).bomb_at(x, y) == old(self).bomb_at(x, y),
    {
        let ghost before = *self;
        let mut y: u16 = 0;
        while y < self.height
            invariant
                before.wf(),
                before.unlabelled(),
                self.wf(),
                self.width == before.width,
                self.height == before.height,
                self.bomb_count == before.bomb_count,
                y <= self.height,
                forall|i: int, j: int| self.bomb_at(i, j) == before.bomb_at(i, j),
                forall|i: int, j: int|
                    self.in_grid(i, j) && j < y ==> #[trigger] self.tile_at(i, j)
                        == before.expected_tile(i, j),
                forall|i: int, j: int|
                    self.in_grid(i, j) && j >= y ==> #[trigger] self.tile_at(i, j)
                        == before.tile_at(i, j),
            decreases self.height - y,
        {
            let mut x: u16 = 0;
            while x < self.width
                invariant
                    before.wf(),
                    before.unlabelled(),
                    self.wf(),
                    self.width == before.width,
                    self.height == before.height,
                    self.bomb_count == before.bomb_count,
                    y < self.height,
                    x <= self.width,
                    forall|i: int, j: int| self.bomb_at(i, j) == before.bomb_at(i, j),
                    forall|i: int, j: int|
                        self.in_grid(i, j) && (j < y || (j == y && i < x))
                            ==> #[trigger] self.tile_at(i, j) == before.expected_tile(i, j),
                    forall|i: int, j: int|
                        self.in_grid(i, j) && (j > y || (j == y && i >= x))
                            ==> #[trigger] self.tile_at(i, j) == before.tile_at(i, j),
                decreases self.width - x,
            {
                let coord = Coordinates { x, y };
                let ghost here = *self;
                proof {
                    Self::lemma_around_same(&before, &here, x as int, y as int, 8);
                    assert(self.tile_at(x as int, y as int) == before.tile_at(x as int, y as int));
                }
                if !self.is_bomb_at(coord) {
                    let num = self.bomb_count_at(coord);
                    if num > 0 {
                        self.map[y as usize][x as usize] = Tile::Neighbor(num);
                        proof {
                            assert forall|i: int, j: int|
                                self.in_grid(i, j) && !(i == x && j == y)
                                    implies #[trigger] self.tile_at(i, j) == here.tile_at(i, j) by {}
                            assert(self.tile_at(x as int, y as int) == Tile::Neighbor(num));
                        }
                    }
                }
                x = x + 1;
            }
            y = y + 1;
        }
        proof {
            Self::lemma_rows_same(&before, &*self, self.height as int);
            assert forall|i: int, j: int| self.in_grid(i, j) implies #[trigger] self.tile_at(i, j)
                == self.expected_tile(i, j) by {
                Self::lemma_around_same(&before, &*self, i, j, 8);
            }
        }
    }

    /// Places `count` more bombs on tiles drawn at random, each tile without
    /// a bomb being as likely as any other, then writes into every other tile
    /// how many bombs surround it. The map must still be in the placing state
    /// and keep at least one tile free.
    pub fn add_bombs(&mut self, count: u16)
        requires
            old(self).wf(),
            old(self).unlabelled(),
            old(self).bomb_count() + count <= u16::MAX,
            old(self).bomb_count() + count < old(self).width() * old(self).height(),
        ensures
            final(self).wf(),
            final(self).width() == old(self).width(),
            final(self).height() == old(self).height(),
            final(self).bomb_count() == old(self).bomb_count() + count,
            final(self).bomb_total() == old(self).bomb_total() + count,
            final(self).labelled(),
            forall|x: int, y: int| old(self).bomb_at(x, y) ==> #[trigger] final(self).bomb_at(x, y),
    {
        let ghost before = *self;
        let mut remaining = count;
        let mut rng = thread_rng();
        while remaining > 0
            invariant
                self.wf(),
                self.unlabelled(),
                self.width == before.width,
                self.height == before.height,
                self.bomb_count + remaining == before.bomb_count + count,
                before.bomb_count + count <= u16::MAX,
                before.bomb_count + count < before.width * before.height,
                forall|x: int, y: int| before.bomb_at(x, y) ==> self.bomb_at(x, y),
            decreases remaining,
        {
            assert(self.width * self.height <= 65535 * 65535) by (nonlinear_arith)
                requires
                    self.width <= 65535,
                    self.height <= 65535,
            ;
            assert(self.height * self.width == self.width * self.height) by (nonlinear_arith);
            let free: u32 = (self.width as u32) * (self.height as u32) - (self.bomb_count as u32);
            let pick = random_below(&mut rng, free);
            let ghost here = *self;
            let at = self.place_bomb(pick);
            proof {
                assert forall|x: int, y: int| before.bomb_at(x, y) implies self.bomb_at(x, y) by {
                    assert(here.bomb_at(x, y));
                    assert(self.tile_at(x, y) == here.tile_at(x, y));
                }
            }
            remaining = remaining - 1;
        }
        self.label_neighbors();
    }
}

impl TileMap {
    /// The first `n` tiles of row `y` as they are written on the console.
    pub open spec fn row_text(&self, y: int, n: int) -> Seq<char>
        decreases n,
    {
        if n <= 0 {
            Seq::empty()
        } else {
            self.row_text(y, n - 1) + self.tile_at(n - 1, y).glyphs()
        }
    }

    /// The last `k` rows as they are written on the console, the last row
    /// first: each row stands between two bars and ends its line.
    pub open spec fn rows_text(&self, k: int) -> Seq<char>
        decreases k,
    {
        if k <= 0 {
            Seq::empty()
        } else {
            self.rows_text(k - 1) + "|"@ + self.row_text(
                self.height() - k,
                self.width() as int,
            ) + "|\n"@
        }
    }

    /// A line of `n` dashes.
    pub open spec fn dashes(n: int) -> Seq<char> {
        Seq::new(n as nat, |i: int| '-')
    }

    /// The map as it is written on the console: a line that tells its size
    /// and its bombs, then the rows from the last to the first, framed by a
    /// line of dashes above and below. The text does not end its last line.
    pub open spec fn console_text(&self) -> Seq<char> {
        "Map ("@ + decimal(self.width() as nat) + ", "@ + decimal(self.height() as nat)
            + ") with "@ + decimal(self.bomb_count() as nat) + " bombs:\n"@ + Self::dashes(
            self.width() + 2,
        ) + "\n"@ + self.rows_text(self.height() as int) + Self::dashes(self.width() + 2)
    }

    /// Writes the map out for the console, the last row on top.
    pub fn console_output(&self) -> (text: String)
        requires
            self.wf(),
        ensures
            text@ == self.console_text(),
    {
        let mut buffer = String::new();
        buffer.append("Map (");
        push_decimal(&mut buffer, self.width);
        buffer.append(", ");
        push_decimal(&mut buffer, self.height);
        buffer.append(") with ");
        push_decimal(&mut buffer, self.bomb_count);
        buffer.append(" bombs:\n");
        let mut line = String::new();
        let mut i: u32 = 0;
        while i < self.width as u32 + 2
            invariant
                i <= self.width + 2,
                line@ == Self::dashes(i as int),
            decreases self.width + 2 - i,
        {
            proof {
                reveal_strlit("-");
            }
            line.append("-");
            i = i + 1;
            assert(line@ =~= Self::dashes(i as int));
        }
        buffer.append(line.as_str());
        buffer.append("\n");
        let ghost top = buffer@;
        let mut k: u16 = 0;
        while k < self.height
            invariant
                self.wf(),
                k <= self.height,
                buffer@ == top + self.rows_text(k as int),
            decreases self.height - k,
        {
            let y = self.height - 1 - k;
            let ghost above = buffer@;
            buffer.append("|");
            let mut x: u16 = 0;
            while x < self.width
                invariant
                    self.wf(),
                    y < self.height,
                    x <= self.width,
                    buffer@ == above + "|"@ + self.row_text(y as int, x as int),
                decreases self.width - x,
            {
                let glyphs = self.map[y as usize][x as usize].console_output();
                buffer.append(glyphs.as_str());
                x = x + 1;
                assert(buffer@ =~= above + "|"@ + self.row_text(y as int, x as int));
            }
            buffer.append("|\n");
            k = k + 1;
            assert(buffer@ =~= top + self.rows_text(k as int));
        }
        buffer.append(line.as_str());
        assert(buffer@ =~= self.console_text());
        buffer
    }
}

impl Clone for TileMap {
    fn clone(&self) -> (copy: TileMap)
        ensures
            copy.width() == self.width(),
            copy.height() == self.height(),
            copy.bomb_count() == self.bomb_count(),
            self.wf() ==> copy.wf(),
            forall|x: int, y: int|
                self.wf() && self.in_grid(x, y) ==> #[trigger] copy.tile_at(x, y) == self.tile_at(
                    x,
                    y,
                ),
    {
        let mut map: Vec<Vec<Tile>> = Vec::new();
        let mut y: usize = 0;
        while y < self.map.len()
            invariant
                y <= self.map.len(),
                map.len() == y,
                forall|j: int| 0 <= j < y ==> (#[trigger] map[j])@ == self.map[j]@,
            decreases self.map.len() - y,
        {
            let mut row: Vec<Tile> = Vec::new();
            let mut x: usize = 0;
            while x < self.map[y].len()
                invariant
                    y < self.map.len(),
                    x <= self.map[y as int].len(),
                    row.len() == x,
                    forall|i: int| 0 <= i < x ==> row[i] == self.map[y as int][i],
                decreases self.map[y as int].len() - x,
            {
                row.push(self.map[y][x]);
                x = x + 1;
            }
            assert(row@ =~= self.map[y as int]@);
            map.push(row);
            y = y + 1;
        }
        TileMap { bomb_count: self.bomb_count, height: self.height, width: self.width, map }
    }
}

} // verus!
