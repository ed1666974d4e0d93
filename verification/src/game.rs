//! The board engine: cell states, board construction, neighbor counting,
//! and the generate-then-apply step of Conway's Life rule (B3/S23).

use vstd::prelude::*;
use vstd::arithmetic::div_mod::lemma_fundamental_div_mod;
use vstd::arithmetic::div_mod::lemma_mod_multiples_basic;
use crate::grid;

verus! {

/// The state of one grid cell.
#[derive(Clone, Copy, Debug, PartialEq, Eq, Structural)]
pub enum Cell {
    Dead,
    Alive,
}

/// The one recoverable construction failure: the supplied cell sequence
/// is not a positive multiple of the declared row width.
#[derive(Clone, Copy, Debug, PartialEq, Eq, Structural)]
pub enum GameError {
    InvalidLength,
}

/// One pending cell change produced by the scan phase of a step and
/// consumed by its commit phase. Never exposed outside the engine.
struct Update {
    index: usize,
    value: Cell,
}

/// A Life board: a row-major cell sequence and its row width.
#[derive(Debug)]
pub struct Game {
    board: Vec<Cell>,
    row_size: u8,
}

/// Row width of the small demonstration board that `new` builds.
const DEMO_ROW_SIZE: u8 = 4;

/// Row count of the small demonstration board that `new` builds.
const DEMO_ROWS: usize = 4;

/// A cell sequence of length `len` forms a rectangular grid of row width
/// `row_size` exactly when the length is a positive multiple of a
/// positive width.
pub open spec fn valid_dimensions(len: int, row_size: int) -> bool {
    &&& row_size > 0
    &&& len > 0
    &&& len % row_size == 0
}

/// The byte-level view of a cell state used at the host boundary:
/// zero is Dead, anything else Alive.
pub open spec fn cell_of_byte(b: u8) -> Cell {
    if b == 0 {
        Cell::Dead
    } else {
        Cell::Alive
    }
}

/// The cell state that one injected random draw seeds: a true draw is
/// Alive, a false draw Dead.
pub open spec fn cell_of_draw(d: bool) -> Cell {
    if d {
        Cell::Alive
    } else {
        Cell::Dead
    }
}

/// The fixed seed pattern of a default board: a vertical three-cell bar
/// down the left edge, in rows 0 through 2 of column 0.
pub open spec fn seed_cell(i: int, row_size: int) -> Cell {
    if i == 0 || i == row_size || i == 2 * row_size {
        Cell::Alive
    } else {
        Cell::Dead
    }
}

/// Whether the in-range cell at `(row, col)` of a board with the given
/// row width is Alive. Out-of-range coordinates name no cell at all and
/// are never alive — the grid is bounded, not toroidal.
pub open spec fn alive_at(board: Seq<Cell>, row_size: int, row: int, col: int) -> bool {
    &&& 0 <= row < board.len() as int / row_size
    &&& 0 <= col < row_size
    &&& board[grid::index_of(row, col, row_size)] is Alive
}

/// The eight compass-direction offsets examined around a cell, as
/// `(row delta, column delta)` pairs, indexed 0 through 7.
pub open spec fn offset(k: int) -> (int, int) {
    if k == 0 {
        (-1, -1)
    } else if k == 1 {
        (-1, 0)
    } else if k == 2 {
        (-1, 1)
    } else if k == 3 {
        (0, -1)
    } else if k == 4 {
        (0, 1)
    } else if k == 5 {
        (1, -1)
    } else if k == 6 {
        (1, 0)
    } else {
        (1, 1)
    }
}

/// Whether the neighbor of the cell at `index` in compass direction `k`
/// exists on the board and is Alive.
pub open spec fn neighbor_alive(board: Seq<Cell>, row_size: int, index: int, k: int) -> bool {
    alive_at(
        board,
        row_size,
        grid::row_of(index, row_size) + offset(k).0,
        grid::col_of(index, row_size) + offset(k).1,
    )
}

/// How many of the first `k` compass directions hold a live neighbor of
/// the cell at `index`.
pub open spec fn neighbor_count_upto(board: Seq<Cell>, row_size: int, index: int, k: int) -> int
    decreases k,
{
    if k <= 0 {
        0
    } else {
        neighbor_count_upto(board, row_size, index, k - 1) + if neighbor_alive(
            board,
            row_size,
            index,
            k - 1,
        ) {
            1int
        } else {
            0int
        }
    }
}

/// How many of the eight neighbors of the cell at `index` are Alive.
pub open spec fn neighbor_count(board: Seq<Cell>, row_size: int, index: int) -> int {
    neighbor_count_upto(board, row_size, index, 8)
}

/// The Life rule (B3/S23) for one cell: a Dead cell with exactly three
/// live neighbors is born; an Alive cell survives with two or three
/// live neighbors and dies of underpopulation or overpopulation
/// otherwise; every other cell stays Dead.
pub open spec fn next_cell(board: Seq<Cell>, row_size: int, index: int) -> Cell {
    let n = neighbor_count(board, row_size, index);
    match board[index] {
        Cell::Alive => if 2 <= n && n <= 3 {
            Cell::Alive
        } else {
            Cell::Dead
        },
        Cell::Dead => if n == 3 {
            Cell::Alive
        } else {
            Cell::Dead
        },
    }
}

/// One generation of the Life rule applied to every cell of the board
/// simultaneously, each neighbor count taken against the board as it
/// was before the step.
pub open spec fn step_spec(board: Seq<Cell>, row_size: int) -> Seq<Cell> {
    Seq::new(board.len(), |i: int| next_cell(board, row_size, i))
}

/// The one character that renders a cell: '1' for Alive, '0' for Dead.
pub open spec fn cell_char(c: Cell) -> char {
    if c is Alive {
        '1'
    } else {
        '0'
    }
}

/// The row separator of the textual rendering.
pub open spec fn row_break() -> Seq<char> {
    seq!['<', 'b', 'r', '/', '>']
}

/// The rendering of the first `n` cells: one character per cell in
/// row-major order, with a row separator before each cell that starts
/// a new row, and none at the very start.
pub open spec fn render_upto(board: Seq<Cell>, row_size: int, n: int) -> Seq<char>
    decreases n,
{
    if n <= 0 {
        Seq::empty()
    } else {
        render_upto(board, row_size, n - 1) + (if n - 1 != 0 && (n - 1) % row_size == 0 {
            row_break()
        } else {
            Seq::<char>::empty()
        }) + seq![cell_char(board[n - 1])]
    }
}

/// The full textual rendering of a board.
pub open spec fn render_spec(board: Seq<Cell>, row_size: int) -> Seq<char> {
    render_upto(board, row_size, board.len() as int)
}

/// Whether some update in the sequence addresses cell `j`.
spec fn update_covers(updates: Seq<Update>, j: int) -> bool {
    exists|m: int| 0 <= m < updates.len() && (#[trigger] updates[m]).index == j
}

/// A sequence built as a positive whole number of rows of a positive
/// width has valid dimensions, and exactly that many rows.
proof fn lemma_whole_rows_dimensions(rows: int, row_size: int, len: int)
    requires
        row_size > 0,
        rows > 0,
        len == rows * row_size,
    ensures
        valid_dimensions(len, row_size),
        len / row_size == rows,
{
    lemma_mod_multiples_basic(rows, row_size);
    assert(len > 0) by (nonlinear_arith)
        requires
            len == rows * row_size,
            rows > 0,
            row_size > 0,
    ;
    lemma_fundamental_div_mod(len, row_size);
    assert(len / row_size == rows) by (nonlinear_arith)
        requires
            len == rows * row_size,
            row_size > 0,
            len % row_size == 0,
            len == row_size * (len / row_size),
    ;
}

/// A rectangular cell sequence is exactly its row count times its row
/// width long.
pub proof fn lemma_len_is_rows_times_cols(len: int, row_size: int)
    requires
        row_size > 0,
        len >= 0,
        len % row_size == 0,
    ensures
        len == (len / row_size) * row_size,
{
    lemma_fundamental_div_mod(len, row_size);
    assert(row_size * (len / row_size) == (len / row_size) * row_size) by (nonlinear_arith);
}

/// Every in-range index falls in an in-range row.
pub proof fn lemma_row_in_range(index: int, row_size: int, len: int)
    requires
        row_size > 0,
        0 <= index < len,
        len % row_size == 0,
    ensures
        0 <= grid::row_of(index, row_size) < len / row_size,
        0 <= grid::col_of(index, row_size) < row_size,
{
    lemma_fundamental_div_mod(index, row_size);
    vstd::arithmetic::div_mod::lemma_mod_bound(index, row_size);
    vstd::arithmetic::div_mod::lemma_div_pos_is_pos(index, row_size);
    if index / row_size >= len / row_size {
        lemma_len_is_rows_times_cols(len, row_size);
        assert(row_size * (index / row_size) >= (len / row_size) * row_size) by (nonlinear_arith)
            requires
                row_size > 0,
                index / row_size >= len / row_size,
        ;
        assert(false);
    }
}

/// Neighbor bound: a cell never has fewer than zero or more than `k`
/// live neighbors among its first `k` compass directions.
proof fn lemma_neighbor_count_upto_bound(board: Seq<Cell>, row_size: int, index: int, k: int)
    requires
        k >= 0,
    ensures
        0 <= neighbor_count_upto(board, row_size, index, k) <= k,
    decreases k,
{
    if k > 0 {
        lemma_neighbor_count_upto_bound(board, row_size, index, k - 1);
    }
}

/// Neighbor bound: on every board, every cell's live-neighbor count
/// lies between 0 and 8.
pub proof fn lemma_neighbor_count_bound(board: Seq<Cell>, row_size: int, index: int)
    ensures
        0 <= neighbor_count(board, row_size, index) <= 8,
{
    lemma_neighbor_count_upto_bound(board, row_size, index, 8);
}

/// Two boards whose cells agree in every compass direction around a
/// cell give that cell the same live-neighbor count.
proof fn lemma_neighbor_count_upto_same(
    b1: Seq<Cell>,
    b2: Seq<Cell>,
    row_size: int,
    index: int,
    k: int,
)
    requires
        0 <= k <= 8,
        forall|m: int|
            0 <= m < k ==> neighbor_alive(b1, row_size, index, m) == neighbor_alive(
                b2,
                row_size,
                index,
                m,
            ),
    ensures
        neighbor_count_upto(b1, row_size, index, k) == neighbor_count_upto(b2, row_size, index, k),
    decreases k,
{
    if k > 0 {
        lemma_neighbor_count_upto_same(b1, b2, row_size, index, k - 1);
    }
}

/// No wraparound: a cell on the left edge of the grid never counts a
/// neighbor through the opposite edge — a column offset of -1 names no
/// cell at all rather than aliasing to column `row_size - 1`. So on a
/// grid at least three columns wide, changing cells of the rightmost
/// column alone cannot change a left-edge cell's neighbor count.
pub proof fn lemma_no_wraparound(b1: Seq<Cell>, b2: Seq<Cell>, row_size: int, index: int)
    requires
        row_size >= 3,
        b1.len() == b2.len(),
        b1.len() as int % row_size == 0,
        0 <= index < b1.len(),
        grid::col_of(index, row_size) == 0,
        forall|j: int|
            0 <= j < b1.len() && grid::col_of(j, row_size) != row_size - 1 ==> b1[j] == b2[j],
    ensures
        neighbor_count(b1, row_size, index) == neighbor_count(b2, row_size, index),
{
    let rows = b1.len() as int / row_size;
    lemma_len_is_rows_times_cols(b1.len() as int, row_size);
    vstd::arithmetic::div_mod::lemma_div_pos_is_pos(index, row_size);
    assert forall|m: int| 0 <= m < 8 implies neighbor_alive(b1, row_size, index, m)
        == neighbor_alive(b2, row_size, index, m) by {
        let r = grid::row_of(index, row_size) + offset(m).0;
        let c = grid::col_of(index, row_size) + offset(m).1;
        if 0 <= r < rows && 0 <= c < row_size {
            grid::lemma_index_in_range(r, c, row_size, rows);
            grid::lemma_coordinates_index_inverse(r, c, row_size);
            assert(c <= 1 < row_size - 1);
            assert(b1[grid::index_of(r, c, row_size)] == b2[grid::index_of(r, c, row_size)]);
        }
    }
    lemma_neighbor_count_upto_same(b1, b2, row_size, index, 8);
}

/// Determinism: one step is a function of the previous generation and
/// the row width alone — equal boards step to equal boards, with no
/// hidden input.
pub proof fn lemma_step_deterministic(b1: Seq<Cell>, b2: Seq<Cell>, row_size: int)
    requires
        b1 == b2,
    ensures
        step_spec(b1, row_size) == step_spec(b2, row_size),
{
}

impl Game {
    /// The board's cell sequence, in row-major order.
    pub closed spec fn cells(&self) -> Seq<Cell> {
        self.board@
    }

    /// The board's row width.
    pub closed spec fn cols(&self) -> int {
        self.row_size as int
    }

    /// The board's row count.
    pub open spec fn rows(&self) -> int {
        self.cells().len() as int / self.cols()
    }

    /// Dimension invariant: the row width is positive and the cell
    /// sequence is a nonempty whole number of rows. Every constructor
    /// establishes this and every operation preserves it.
    pub open spec fn wf(&self) -> bool {
        valid_dimensions(self.cells().len() as int, self.cols())
    }

    /// The row width of the board.
    pub fn row_size(&self) -> (r: u8)
        ensures
            r == self.cols(),
    {
        self.row_size
    }

    /// A read-only view of the current cell sequence, in row-major order.
    pub fn board(&self) -> (b: &Vec<Cell>)
        ensures
            b@ == self.cells(),
    {
        &self.board
    }

    /// Builds a board from an explicit cell sequence and a row width.
    ///
    /// Fails with `InvalidLength` exactly when the sequence length is
    /// not a positive multiple of the row width; on success the
    /// sequence is stored verbatim.
    pub fn from_cells(cells: Vec<Cell>, row_size: u8) -> (result: Result<Game, GameError>)
        ensures
            match result {
                Ok(g) => {
                    &&& valid_dimensions(cells@.len() as int, row_size as int)
                    &&& g.wf()
                    &&& g.cells() == cells@
                    &&& g.cols() == row_size
                },
                Err(e) => {
                    &&& e == GameError::InvalidLength
                    &&& !valid_dimensions(cells@.len() as int, row_size as int)
                },
            },
    {
        if row_size == 0 || cells.len() == 0 || cells.len() % (row_size as usize) != 0 {
            Err(GameError::InvalidLength)
        } else {
            Ok(Game { board: cells, row_size })
        }
    }

    /// Builds a board of the given dimensions holding the fixed seed
    /// pattern: all cells Dead except a vertical three-cell bar at the
    /// top of the leftmost column.
    pub fn default_board(row_size: u8, rows: usize) -> (g: Game)
        requires
            row_size > 0,
            rows >= 3,
            rows * (row_size as int) <= usize::MAX,
        ensures
            g.wf(),
            g.cols() == row_size,
            g.rows() == rows,
            g.cells().len() == rows * (row_size as int),
            forall|i: int|
                0 <= i < g.cells().len() ==> g.cells()[i] == seed_cell(i, row_size as int),
    {
        let len: usize = rows * (row_size as usize);
        let mut board: Vec<Cell> = Vec::new();
        let mut i: usize = 0;
        while i < len
            invariant
                i <= len,
                row_size > 0,
                board@.len() == i,
                forall|j: int| 0 <= j < i ==> board@[j] == seed_cell(j, row_size as int),
            decreases len - i,
        {
            if i == 0 || i == row_size as usize || i == 2 * (row_size as usize) {
                board.push(Cell::Alive);
            } else {
                board.push(Cell::Dead);
            }
            i += 1;
        }
        proof {
            lemma_whole_rows_dimensions(rows as int, row_size as int, len as int);
        }
        Game { board, row_size }
    }

    /// Builds the default demonstration board: a 4-by-4 grid holding
    /// the fixed seed pattern.
    pub fn new() -> (g: Game)
        ensures
            g.wf(),
            g.cols() == 4,
            g.cells().len() == 16,
            forall|i: int| 0 <= i < 16 ==> g.cells()[i] == seed_cell(i, 4),
    {
        Game::default_board(DEMO_ROW_SIZE, DEMO_ROWS)
    }

    /// Builds a demonstration board (row width 4) from a byte-level
    /// cell sequence: zero is Dead, anything else Alive.
    ///
    /// Fails with `InvalidLength` exactly when the sequence length is
    /// not a positive multiple of 4.
    pub fn new_board(cells: Vec<u8>) -> (result: Result<Game, GameError>)
        ensures
            match result {
                Ok(g) => {
                    &&& valid_dimensions(cells@.len() as int, 4)
                    &&& g.wf()
                    &&& g.cols() == 4
                    &&& g.cells().len() == cells@.len()
                    &&& forall|i: int|
                        0 <= i < cells@.len() ==> g.cells()[i] == cell_of_byte(cells@[i])
                },
                Err(e) => {
                    &&& e == GameError::InvalidLength
                    &&& !valid_dimensions(cells@.len() as int, 4)
                },
            },
    {
        let mut board: Vec<Cell> = Vec::new();
        let mut i: usize = 0;
        while i < cells.len()
            invariant
                i <= cells@.len(),
                board@.len() == i,
                forall|j: int| 0 <= j < i ==> board@[j] == cell_of_byte(cells@[j]),
            decreases cells@.len() - i,
        {
            if cells[i] == 0 {
                board.push(Cell::Dead);
            } else {
                board.push(Cell::Alive);
            }
            i += 1;
        }
        Game::from_cells(board, DEMO_ROW_SIZE)
    }

    /// Builds a board from one injected random draw per cell, in
    /// row-major order: a true draw seeds Alive, a false draw Dead.
    /// The injection keeps the engine deterministic: the board is a
    /// pure function of the draws handed in.
    ///
    /// Fails with `InvalidLength` exactly when the number of draws is
    /// not a positive multiple of the row width.
    pub fn from_draws(draws: Vec<bool>, row_size: u8) -> (result: Result<Game, GameError>)
        ensures
            match result {
                Ok(g) => {
                    &&& valid_dimensions(draws@.len() as int, row_size as int)
                    &&& g.wf()
                    &&& g.cols() == row_size
                    &&& g.cells().len() == draws@.len()
                    &&& forall|i: int|
                        0 <= i < draws@.len() ==> g.cells()[i] == cell_of_draw(draws@[i])
                },
                Err(e) => {
                    &&& e == GameError::InvalidLength
                    &&& !valid_dimensions(draws@.len() as int, row_size as int)
                },
            },
    {
        let mut board: Vec<Cell> = Vec::new();
        let mut i: usize = 0;
        while i < draws.len()
            invariant
                i <= draws@.len(),
                board@.len() == i,
                forall|j: int| 0 <= j < i ==> board@[j] == cell_of_draw(draws@[j]),
            decreases draws@.len() - i,
        {
            if draws[i] {
                board.push(Cell::Alive);
            } else {
                board.push(Cell::Dead);
            }
            i += 1;
        }
        Game::from_cells(board, row_size)
    }

    /// Builds a board of the given dimensions where every cell is
    /// seeded from an independent fair draw of the engine's random
    /// source: one draw per cell, handed to `from_draws`.
    ///
    /// Only the dimensions are promised: any cell pattern is a
    /// possible draw, and the step algorithm is deterministic over
    /// whatever board comes back.
    pub fn random(row_size: u8, rows: usize) -> (g: Game)
        requires
            row_size > 0,
            rows > 0,
            rows * (row_size as int) <= usize::MAX,
        ensures
            g.wf(),
            g.cols() == row_size,
            g.rows() == rows,
    {
        let len: usize = rows * (row_size as usize);
        let mut draws: Vec<bool> = Vec::new();
        let mut i: usize = 0;
        while i < len
            invariant
                i <= len,
                draws@.len() == i,
            decreases len - i,
        {
            draws.push(crate::rng::coin());
            i += 1;
        }
        proof {
            lemma_whole_rows_dimensions(rows as int, row_size as int, len as int);
        }
        match Game::from_draws(draws, row_size) {
            Ok(g) => g,
            Err(_) => vstd::pervasive::unreached(),
        }
    }

    /// Whether the cell at the in-range coordinates `(row, col)` is
    /// Alive.
    fn alive(&self, row: usize, col: usize) -> (r: bool)
        requires
            self.wf(),
            (row as int) < self.rows(),
            (col as int) < self.cols(),
        ensures
            r == alive_at(self.cells(), self.cols(), row as int, col as int),
    {
        let n: usize = self.board.len();
        proof {
            grid::lemma_index_in_range(row as int, col as int, self.cols(), self.rows());
            lemma_len_is_rows_times_cols(n as int, self.cols());
        }
        let idx: usize = grid::get_index(self.row_size, row, col);
        self.board[idx] == Cell::Alive
    }

    /// Counts the live neighbors of the cell at `index`: the number of
    /// the eight compass-direction offsets that land on an in-range,
    /// Alive cell. The count is always between 0 and 8, and no offset
    /// ever wraps around a grid edge.
    pub fn get_alive_neighbor_count(&self, index: usize) -> (count: u8)
        requires
            self.wf(),
            index < self.cells().len(),
        ensures
            count == neighbor_count(self.cells(), self.cols(), index as int),
            count <= 8,
    {
        proof {
            lemma_row_in_range(index as int, self.cols(), self.cells().len() as int);
        }
        let (row, col) = grid::get_xy(index, self.row_size);
        let rows: usize = self.board.len() / (self.row_size as usize);
        let cols: usize = self.row_size as usize;
        let mut count: u8 = 0;
        let mut k: usize = 0;
        while k < 8
            invariant
                self.wf(),
                index < self.cells().len(),
                k <= 8,
                row as int == grid::row_of(index as int, self.cols()),
                col as int == grid::col_of(index as int, self.cols()),
                (row as int) < self.rows(),
                (col as int) < self.cols(),
                rows as int == self.rows(),
                cols as int == self.cols(),
                count as int == neighbor_count_upto(self.cells(), self.cols(), index as int, k as int),
                count <= k,
            decreases 8 - k,
        {
            let here_alive: bool = match k {
                0 => row >= 1 && col >= 1 && self.alive(row - 1, col - 1),
                1 => row >= 1 && self.alive(row - 1, col),
                2 => row >= 1 && col + 1 < cols && self.alive(row - 1, col + 1),
                3 => col >= 1 && self.alive(row, col - 1),
                4 => col + 1 < cols && self.alive(row, col + 1),
                5 => row + 1 < rows && col >= 1 && self.alive(row + 1, col - 1),
                6 => row + 1 < rows && self.alive(row + 1, col),
                _ => row + 1 < rows && col + 1 < cols && self.alive(row + 1, col + 1),
            };
            assert(here_alive == neighbor_alive(self.cells(), self.cols(), index as int, k as int));
            if here_alive {
                count = count + 1;
            }
            k = k + 1;
        }
        count
    }

    /// Scan phase: runs the Life rule over every cell against the
    /// board's current state and records one `Update` for every cell
    /// whose state changes. Cells that keep their state produce no
    /// update, every recorded update carries that cell's next state,
    /// and the recorded updates address pairwise disjoint indices, so
    /// the commit phase may apply them in any order.
    fn generate_updates(&self) -> (updates: Vec<Update>)
        requires
            self.wf(),
        ensures
            forall|m: int|
                0 <= m < updates@.len() ==> {
                    &&& (#[trigger] updates@[m]).index < self.cells().len()
                    &&& updates@[m].value == next_cell(
                        self.cells(),
                        self.cols(),
                        updates@[m].index as int,
                    )
                    &&& updates@[m].value != self.cells()[updates@[m].index as int]
                },
            forall|j: int|
                0 <= j < self.cells().len() && next_cell(self.cells(), self.cols(), j)
                    != self.cells()[j] ==> update_covers(updates@, j),
            forall|m1: int, m2: int|
                0 <= m1 < m2 < updates@.len() ==> (#[trigger] updates@[m1]).index != (
                #[trigger] updates@[m2]).index,
    {
        let mut updates: Vec<Update> = Vec::new();
        let mut i: usize = 0;
        while i < self.board.len()
            invariant
                self.wf(),
                i <= self.cells().len(),
                forall|m: int|
                    0 <= m < updates@.len() ==> {
                        &&& (#[trigger] updates@[m]).index < self.cells().len()
                        &&& updates@[m].value == next_cell(
                            self.cells(),
                            self.cols(),
                            updates@[m].index as int,
                        )
                        &&& updates@[m].value != self.cells()[updates@[m].index as int]
                    },
                forall|j: int|
                    0 <= j < i && next_cell(self.cells(), self.cols(), j) != self.cells()[j]
                        ==> update_covers(updates@, j),
                forall|m: int| 0 <= m < updates@.len() ==> (#[trigger] updates@[m]).index < i,
                forall|m1: int, m2: int|
                    0 <= m1 < m2 < updates@.len() ==> (#[trigger] updates@[m1]).index != (
                    #[trigger] updates@[m2]).index,
            decreases self.cells().len() - i,
        {
            let ghost pre = updates@;
            let cell = self.board[i];
            let live_n_count = self.get_alive_neighbor_count(i);

            if cell == Cell::Dead && live_n_count == 3 {
                // A dead cell with exactly three live neighbors is born.
                updates.push(Update { index: i, value: Cell::Alive });
            }

            if cell == Cell::Alive {
                if live_n_count < 2 {
                    // An underpopulated cell dies.
                    updates.push(Update { index: i, value: Cell::Dead });
                } else if live_n_count == 2 || live_n_count == 3 {
                    // The cell lives on unchanged.
                } else {
                    // An overpopulated cell dies.
                    updates.push(Update { index: i, value: Cell::Dead });
                }
            }

            proof {
                assert forall|j: int|
                    0 <= j < i + 1 && next_cell(self.cells(), self.cols(), j) != self.cells()[j]
                        implies update_covers(updates@, j) by {
                    if j < i {
                        let m = choose|m: int|
                            0 <= m < pre.len() && (#[trigger] pre[m]).index == j;
                        assert(updates@[m].index == j);
                    } else {
                        assert(updates@[updates@.len() - 1].index == j);
                    }
                }
            }
            i = i + 1;
        }
        updates
    }

    /// Commit phase: writes every update of one scan back into the
    /// board. Each update addresses a distinct cell and carries that
    /// cell's next state, so after the commit the whole board is one
    /// generation ahead of where the scan read it.
    fn apply_updates(&mut self)
        requires
            old(self).wf(),
        ensures
            final(self).wf(),
            final(self).cols() == old(self).cols(),
            final(self).cells() == step_spec(old(self).cells(), old(self).cols()),
    {
        let ghost b0 = self.cells();
        let ghost rs = self.cols();
        let updates = self.generate_updates();
        let mut k: usize = 0;
        while k < updates.len()
            invariant
                self.wf(),
                self.cols() == rs,
                self.cells().len() == b0.len(),
                k <= updates@.len(),
                forall|m: int|
                    0 <= m < updates@.len() ==> {
                        &&& (#[trigger] updates@[m]).index < b0.len()
                        &&& updates@[m].value == next_cell(b0, rs, updates@[m].index as int)
                    },
                forall|j: int|
                    0 <= j < b0.len() ==> self.cells()[j] == (if update_covers(
                        updates@.take(k as int),
                        j,
                    ) {
                        next_cell(b0, rs, j)
                    } else {
                        b0[j]
                    }),
            decreases updates@.len() - k,
        {
            let ghost pre = self.cells();
            let u_index = updates[k].index;
            let u_value = updates[k].value;
            self.board[u_index] = u_value;
            proof {
                assert(updates@.take(k + 1) =~= updates@.take(k as int).push(updates@[k as int]));
                assert forall|j: int| 0 <= j < b0.len() implies self.cells()[j] == (if update_covers(
                    updates@.take(k + 1),
                    j,
                ) {
                    next_cell(b0, rs, j)
                } else {
                    b0[j]
                }) by {
                    if j == u_index {
                        assert(updates@.take(k + 1)[k as int].index == j);
                    } else {
                        assert(self.cells()[j] == pre[j]);
                        if update_covers(updates@.take(k + 1), j) {
                            let m = choose|m: int|
                                0 <= m < updates@.take(k + 1).len() && (#[trigger] updates@.take(
                                    k + 1,
                                )[m]).index == j;
                            assert(updates@.take(k as int)[m].index == j);
                        }
                    }
                }
            }
            k = k + 1;
        }
        proof {
            assert(updates@.take(updates@.len() as int) =~= updates@);
            assert forall|j: int| 0 <= j < b0.len() implies self.cells()[j] == next_cell(
                b0,
                rs,
                j,
            ) by {
                if !update_covers(updates@, j) {
                    assert(next_cell(b0, rs, j) == b0[j]);
                }
            }
            assert(self.cells() =~= step_spec(b0, rs));
        }
    }

    /// Renders the board as a textual grid: one character per cell in
    /// row-major order ('1' Alive, '0' Dead), with a `<br/>` separator
    /// before each new row and none at the start. A pure projection:
    /// the board itself is left exactly as it was.
    pub fn render(&mut self) -> (s: String)
        requires
            old(self).wf(),
        ensures
            final(self).cells() == old(self).cells(),
            final(self).cols() == old(self).cols(),
            s@ == render_spec(old(self).cells(), old(self).cols()),
    {
        let mut s = String::new();
        let mut i: usize = 0;
        while i < self.board.len()
            invariant
                self.wf(),
                self.cells() == old(self).cells(),
                self.cols() == old(self).cols(),
                i <= self.cells().len(),
                s@ == render_upto(self.cells(), self.cols(), i as int),
            decreases self.cells().len() - i,
        {
            if i != 0 && i % (self.row_size as usize) == 0 {
                s.append("<br/>");
                proof {
                    reveal_strlit("<br/>");
                    assert("<br/>"@ =~= row_break());
                }
            }
            if self.board[i] == Cell::Alive {
                s.append("1");
                proof {
                    reveal_strlit("1");
                    assert("1"@ =~= seq![cell_char(self.cells()[i as int])]);
                }
            } else {
                s.append("0");
                proof {
                    reveal_strlit("0");
                    assert("0"@ =~= seq![cell_char(self.cells()[i as int])]);
                }
            }
            i = i + 1;
        }
        s
    }

    /// Advances the board by exactly one generation of the Life rule:
    /// a scan of the whole previous generation, then a commit of the
    /// recorded changes, never interleaved.
    pub fn on_tick(&mut self)
        requires
            old(self).wf(),
        ensures
            final(self).wf(),
            final(self).cols() == old(self).cols(),
            final(self).cells() == step_spec(old(self).cells(), old(self).cols()),
    {
        self.apply_updates();
    }
}

impl PartialEq for Game {
    /// Two boards are equal when their cell sequences match element
    /// for element; the row width is implied by the dimensions under
    /// comparison.
    fn eq(&self, other: &Self) -> (r: bool) {
        if self.board.len() != other.board.len() {
            return false;
        }
        let mut i: usize = 0;
        while i < self.board.len()
            invariant
                self.cells().len() == other.cells().len(),
                i <= self.cells().len(),
                forall|j: int| 0 <= j < i ==> self.cells()[j] == other.cells()[j],
            decreases self.cells().len() - i,
        {
            if self.board[i] != other.board[i] {
                return false;
            }
            i = i + 1;
        }
        proof {
            assert(self.cells() =~= other.cells());
        }
        true
    }
}

impl vstd::std_specs::cmp::PartialEqSpecImpl for Game {
    open spec fn obeys_eq_spec() -> bool {
        true
    }

    open spec fn eq_spec(&self, other: &Game) -> bool {
        self.cells() == other.cells()
    }
}

impl Eq for Game {

}

} // verus!
