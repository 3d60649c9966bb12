//! The automaton's grid and its generational step.

use vstd::prelude::*;
use vstd::arithmetic::div_mod::{lemma_fundamental_div_mod, lemma_fundamental_div_mod_converse};
use rand::Rng;

use crate::error::LengthMismatch;
use crate::rules::is_rule_table;

verus! {

/// The mathematical model of a board: its dimensions and its row-major cells.
pub struct Grid {
    pub width: nat,
    pub height: nat,
    pub cells: Seq<u8>,
}

impl Grid {
    /// One cell per position, each dead (0) or alive (1), and every cell
    /// addressable by a signed index.
    pub open spec fn wf(self) -> bool {
        &&& self.cells.len() == self.width * self.height
        &&& self.width * self.height <= isize::MAX
        &&& forall|i: int| 0 <= i < self.cells.len() ==> #[trigger] self.cells[i] <= 1
    }

    pub open spec fn in_bounds(self, x: int, y: int) -> bool {
        0 <= x < self.width && 0 <= y < self.height
    }

    /// The value of the cell at `(x, y)`; positions off the grid count as 0.
    pub open spec fn cell(self, x: int, y: int) -> int {
        if self.in_bounds(x, y) {
            self.cells[x + y * self.width] as int
        } else {
            0
        }
    }

    /// Live cells among the eight positions around `(x, y)`, clipped to the grid.
    pub open spec fn neighbour_count(self, x: int, y: int) -> int {
        self.cell(x - 1, y - 1) + self.cell(x, y - 1) + self.cell(x + 1, y - 1)
            + self.cell(x - 1, y) + self.cell(x + 1, y)
            + self.cell(x - 1, y + 1) + self.cell(x, y + 1) + self.cell(x + 1, y + 1)
    }

    /// How many of the eight positions around `(x, y)` lie on the grid.
    pub open spec fn candidate_count(self, x: int, y: int) -> int {
        self.on_grid(x - 1, y - 1) + self.on_grid(x, y - 1) + self.on_grid(x + 1, y - 1)
            + self.on_grid(x - 1, y) + self.on_grid(x + 1, y)
            + self.on_grid(x - 1, y + 1) + self.on_grid(x, y + 1) + self.on_grid(x + 1, y + 1)
    }

    pub open spec fn on_grid(self, x: int, y: int) -> int {
        if self.in_bounds(x, y) {
            1
        } else {
            0
        }
    }

    /// The state of `(x, y)` in the next generation: a dead cell looks its
    /// neighbour count up in `birth`, a live one in `survive`.
    pub open spec fn next_cell(self, birth: Seq<u8>, survive: Seq<u8>, x: int, y: int) -> u8 {
        let n = self.neighbour_count(x, y);
        if self.cell(x, y) == 0 {
            birth[n]
        } else {
            survive[n]
        }
    }

    /// The next generation, every cell computed from this one.
    pub open spec fn next(self, birth: Seq<u8>, survive: Seq<u8>) -> Grid {
        Grid {
            width: self.width,
            height: self.height,
            cells: Seq::new(
                self.cells.len(),
                |i: int| self.next_cell(birth, survive, i % (self.width as int), i / (self.width as int)),
            ),
        }
    }
}

/// The cells that a sequence of draws gives: alive for true, dead for false.
pub open spec fn cells_of_draws(draws: Seq<bool>) -> Seq<u8> {
    draws.map_values(|b: bool| if b { 1u8 } else { 0u8 })
}

/// `x + y * w` addresses a cell of a `w` by `h` grid.
pub proof fn lemma_index_in_grid(x: int, y: int, w: int, h: int)
    requires
        0 <= x < w,
        0 <= y < h,
    ensures
        0 <= x + y * w < w * h,
{
    assert(0 <= x + y * w < w * h) by (nonlinear_arith)
        requires
            0 <= x < w,
            0 <= y < h,
    ;
}

/// A position `i` of a grid `w` wide and `h` high lies in row `i / w`,
/// column `i % w`.
pub proof fn lemma_position_in_grid(i: int, w: int, h: int)
    requires
        0 <= w,
        0 <= h,
        0 <= i < w * h,
    ensures
        w > 0,
        0 <= i % w < w,
        0 <= i / w < h,
        i == i % w + (i / w) * w,
{
    if w <= 0 {
        assert(w * h == 0) by (nonlinear_arith)
            requires
                w == 0,
        ;
    }
    lemma_fundamental_div_mod(i, w);
    let q = i / w;
    let r = i % w;
    assert(0 <= q < h) by (nonlinear_arith)
        requires
            i == w * q + r,
            0 <= r < w,
            0 <= i < w * h,
    ;
    assert(q * w == w * q) by (nonlinear_arith);
}

/// Every cell of a well-formed grid, and every position off it, counts 0 or 1.
pub proof fn lemma_cell_is_bit(g: Grid, x: int, y: int)
    requires
        g.wf(),
    ensures
        0 <= g.cell(x, y) <= 1,
{
    if g.in_bounds(x, y) {
        lemma_index_in_grid(x, y, g.width as int, g.height as int);
    }
}

/// Positions off the grid are not counted: the neighbour count of a
/// well-formed grid never exceeds the number of positions around the cell
/// that lie on the grid, which is at most eight.
pub proof fn lemma_neighbours_within_candidates(g: Grid, x: int, y: int)
    requires
        g.wf(),
    ensures
        0 <= g.neighbour_count(x, y) <= g.candidate_count(x, y) <= 8,
{
    lemma_cell_is_bit(g, x - 1, y - 1);
    lemma_cell_is_bit(g, x, y - 1);
    lemma_cell_is_bit(g, x + 1, y - 1);
    lemma_cell_is_bit(g, x - 1, y);
    lemma_cell_is_bit(g, x + 1, y);
    lemma_cell_is_bit(g, x - 1, y + 1);
    lemma_cell_is_bit(g, x, y + 1);
    lemma_cell_is_bit(g, x + 1, y + 1);
}

/// Each corner of a grid at least two cells wide and two high has exactly
/// three positions around it on the grid.
pub proof fn lemma_corner_candidates(g: Grid)
    requires
        g.width >= 2,
        g.height >= 2,
    ensures
        g.candidate_count(0, 0) == 3,
        g.candidate_count(g.width - 1, 0) == 3,
        g.candidate_count(0, g.height - 1) == 3,
        g.candidate_count(g.width - 1, g.height - 1) == 3,
{
}

/// A cell that touches no edge has all eight positions around it on the grid.
pub proof fn lemma_interior_candidates(g: Grid, x: int, y: int)
    requires
        0 < x < g.width - 1,
        0 < y < g.height - 1,
    ensures
        g.candidate_count(x, y) == 8,
{
}

/// Stepping a well-formed grid keeps its width, its height and its number of
/// cells, and leaves every cell dead or alive.
pub proof fn lemma_next_keeps_shape(g: Grid, birth: Seq<u8>, survive: Seq<u8>)
    requires
        g.wf(),
        is_rule_table(birth),
        is_rule_table(survive),
    ensures
        g.next(birth, survive).wf(),
        g.next(birth, survive).width == g.width,
        g.next(birth, survive).height == g.height,
        g.next(birth, survive).cells.len() == g.cells.len(),
{
    let n = g.next(birth, survive);
    assert forall|i: int| 0 <= i < n.cells.len() implies #[trigger] n.cells[i] <= 1 by {
        let x = i % (g.width as int);
        let y = i / (g.width as int);
        lemma_neighbours_within_candidates(g, x, y);
    }
}

/// Stepping involves no chance: the same grid under the same rule tables
/// always has the same next generation.
pub proof fn lemma_step_deterministic(
    g1: Grid,
    g2: Grid,
    birth1: Seq<u8>,
    birth2: Seq<u8>,
    survive1: Seq<u8>,
    survive2: Seq<u8>,
)
    requires
        g1 == g2,
        birth1 == birth2,
        survive1 == survive2,
    ensures
        g1.next(birth1, survive1) == g2.next(birth2, survive2),
{
}

/// Relies on `rand::Rng::gen_ratio` over the thread-local generator: a draw
/// that is true with probability `numerator / denominator`, never true for a
/// numerator of 0 and always true when numerator and denominator are equal.
/// It panics when the denominator is 0 or below the numerator.
#[verifier::external_body]
fn draw_ratio(numerator: u32, denominator: u32) -> (r: bool)
    requires
        0 < denominator,
        numerator <= denominator,
    ensures
        numerator == 0 ==> !r,
        numerator == denominator ==> r,
{
    rand::thread_rng().gen_ratio(numerator, denominator)
}

/// A board of cells, each dead (0) or alive (1), stored row by row.
pub struct Board {
    width: usize,
    height: usize,
    pub tiles: Vec<u8>,
}

impl View for Board {
    type V = Grid;

    closed spec fn view(&self) -> Grid {
        Grid { width: self.width as nat, height: self.height as nat, cells: self.tiles@ }
    }
}

impl Board {
    /// A `width` by `height` board with every cell dead.
    pub fn new(width: usize, height: usize) -> (b: Board)
        requires
            width * height <= isize::MAX,
        ensures
            b@.wf(),
            b@.width == width,
            b@.height == height,
            b@.cells == Seq::new((width * height) as nat, |i: int| 0u8),
    {
        let v = vec![0u8; width * height];
        let b = Board { width: width, height: height, tiles: v };
        assert(b@.cells =~= Seq::new((width * height) as nat, |i: int| 0u8));
        b
    }

    /// The cells as a vector, row by row.
    pub fn cells(&self) -> (r: &Vec<u8>)
        ensures
            r@ == self@.cells,
    {
        &self.tiles
    }

    /// Sets each cell alive, independently, with probability `num / gen`.
    pub fn randomize(&mut self, num: u32, gen: u32)
        requires
            old(self)@.wf(),
            0 < gen,
            num <= gen,
        ensures
            final(self)@.wf(),
            final(self)@.width == old(self)@.width,
            final(self)@.height == old(self)@.height,
            num == 0 ==> final(self)@.cells == Seq::new(old(self)@.cells.len(), |i: int| 0u8),
            num == gen ==> final(self)@.cells == Seq::new(old(self)@.cells.len(), |i: int| 1u8),
    {
        let n = self.tiles.len();
        let mut draws: Vec<bool> = Vec::new();
        let mut i: usize = 0;
        while i < n
            invariant
                n == self@.cells.len(),
                0 < gen,
                num <= gen,
                i <= n,
                draws@.len() == i,
                num == 0 ==> forall|j: int| 0 <= j < i ==> !draws@[j],
                num == gen ==> forall|j: int| 0 <= j < i ==> draws@[j],
            decreases n - i,
        {
            draws.push(draw_ratio(num, gen));
            i += 1;
        }
        self.set_from_draws(&draws);
        proof {
            if num == 0 {
                assert(self@.cells =~= Seq::new(old(self)@.cells.len(), |i: int| 0u8));
            }
            if num == gen {
                assert(self@.cells =~= Seq::new(old(self)@.cells.len(), |i: int| 1u8));
            }
        }
    }

    /// Makes cell `i` alive exactly when `draws[i]` is true.
    pub fn set_from_draws(&mut self, draws: &Vec<bool>)
        requires
            old(self)@.wf(),
            draws@.len() == old(self)@.cells.len(),
        ensures
            final(self)@ == (Grid { cells: cells_of_draws(draws@), ..old(self)@ }),
            final(self)@.wf(),
    {
        let n = self.tiles.len();
        let mut i: usize = 0;
        while i < n
            invariant
                n == self@.cells.len(),
                draws@.len() == n,
                self@.width == old(self)@.width,
                self@.height == old(self)@.height,
                self@.wf(),
                i <= n,
                forall|j: int| 0 <= j < i ==> self@.cells[j] == cells_of_draws(draws@)[j],
            decreases n - i,
        {
            self.tiles[i] = if draws[i] {
                1
            } else {
                0
            };
            i += 1;
        }
        assert(self@.cells =~= cells_of_draws(draws@));
    }

    fn get_tile(&self, x: usize, y: usize) -> (r: u8)
        requires
            self@.wf(),
            x < self@.width,
            y < self@.height,
        ensures
            r as int == self@.cell(x as int, y as int),
            r <= 1,
    {
        proof {
            lemma_index_in_grid(x as int, y as int, self.width as int, self.height as int);
        }
        self.tiles[x + y * self.width]
    }

    fn set_tile(&mut self, x: usize, y: usize, val: u8)
        requires
            old(self)@.wf(),
            x < old(self)@.width,
            y < old(self)@.height,
            val <= 1,
        ensures
            final(self)@ == (Grid {
                cells: old(self)@.cells.update(x + y * old(self)@.width, val),
                ..old(self)@
            }),
            final(self)@.wf(),
    {
        proof {
            lemma_index_in_grid(x as int, y as int, self.width as int, self.height as int);
        }
        let idx = x + y * self.width;
        self.tiles[idx] = val;
    }

    /// The cell at offset `(dx - 1, dy - 1)` from `(x, y)`, or 0 off the grid.
    fn tile_at_offset(&self, x: usize, y: usize, dx: usize, dy: usize) -> (r: u8)
        requires
            self@.wf(),
            x < self@.width,
            y < self@.height,
            dx <= 2,
            dy <= 2,
        ensures
            r as int == self@.cell(x + dx - 1, y + dy - 1),
            r <= 1,
    {
        if (x == 0 && dx == 0) || (y == 0 && dy == 0) {
            return 0;
        }
        proof {
            assert(self.width <= self.width * self.height) by (nonlinear_arith)
                requires
                    y < self.height,
            ;
            assert(self.height <= self.width * self.height) by (nonlinear_arith)
                requires
                    x < self.width,
            ;
        }
        let nx = x + dx - 1;
        let ny = y + dy - 1;
        if nx >= self.width || ny >= self.height {
            0
        } else {
            self.get_tile(nx, ny)
        }
    }

    /// Number of live cells around `(x, y)`, with the 3x3 block clipped to the grid.
    pub fn count_neighbours(&self, x: isize, y: isize) -> (r: u8)
        requires
            self@.wf(),
            0 <= x < self@.width,
            0 <= y < self@.height,
        ensures
            r as int == self@.neighbour_count(x as int, y as int),
            r <= 8,
    {
        let xu = x as usize;
        let yu = y as usize;
        let mut count: u8 = 0;
        count = count + self.tile_at_offset(xu, yu, 0, 0);
        count = count + self.tile_at_offset(xu, yu, 1, 0);
        count = count + self.tile_at_offset(xu, yu, 2, 0);
        count = count + self.tile_at_offset(xu, yu, 0, 1);
        count = count + self.tile_at_offset(xu, yu, 2, 1);
        count = count + self.tile_at_offset(xu, yu, 0, 2);
        count = count + self.tile_at_offset(xu, yu, 1, 2);
        count = count + self.tile_at_offset(xu, yu, 2, 2);
        count
    }

    /// Replaces every cell at once; a buffer of another length is refused
    /// and the board is left as it was.
    fn replace_tiles(&mut self, new_tiles: Vec<u8>) -> (r: Result<(), LengthMismatch>)
        ensures
            r is Ok <==> new_tiles@.len() == old(self)@.cells.len(),
            r is Ok ==> final(self)@ == (Grid { cells: new_tiles@, ..old(self)@ }),
            r matches Err(e) ==> final(self)@ == old(self)@ && e.expected == old(self)@.cells.len()
                && e.found == new_tiles@.len(),
    {
        if new_tiles.len() != self.tiles.len() {
            return Err(LengthMismatch { expected: self.tiles.len(), found: new_tiles.len() });
        }
        self.tiles = new_tiles;
        Ok(())
    }
}

/// Advances the board by one generation: every cell's next state comes from
/// the current generation alone, a dead cell looking its neighbour count up
/// in `birth` and a live one in `survive`.
pub fn automata_step(board: &mut Board, birth: [u8; 9], survive: [u8; 9])
    requires
        old(board)@.wf(),
        is_rule_table(birth@),
        is_rule_table(survive@),
    ensures
        final(board)@ == old(board)@.next(birth@, survive@),
        final(board)@.wf(),
        final(board)@.width == old(board)@.width,
        final(board)@.height == old(board)@.height,
        final(board)@.cells.len() == old(board)@.cells.len(),
{
    let ghost g = board@;
    let ghost next = g.next(birth@, survive@);
    let w = board.width;
    let h = board.height;
    let mut temp_board = Board::new(w, h);
    proof {
        assert forall|i: int| 0 <= i < g.cells.len() implies #[trigger] (i % (w as int)) >= 0 by {
            lemma_position_in_grid(i, w as int, h as int);
        }
    }
    let mut x: usize = 0;
    while x < w
        invariant
            board@ == g,
            g.wf(),
            g.width == w,
            g.height == h,
            next == g.next(birth@, survive@),
            is_rule_table(birth@),
            is_rule_table(survive@),
            temp_board@.wf(),
            temp_board@.width == w,
            temp_board@.height == h,
            x <= w,
            forall|i: int|
                0 <= i < g.cells.len() && i % (w as int) < x ==> temp_board@.cells[i] == next.cells[i],
        decreases w - x,
    {
        let mut y: usize = 0;
        while y < h
            invariant
                board@ == g,
                g.wf(),
                g.width == w,
                g.height == h,
                next == g.next(birth@, survive@),
                is_rule_table(birth@),
                is_rule_table(survive@),
                temp_board@.wf(),
                temp_board@.width == w,
                temp_board@.height == h,
                x < w,
                y <= h,
                forall|i: int|
                    0 <= i < g.cells.len() && (i % (w as int) < x || (i % (w as int) == x && i / (
                    w as int) < y)) ==> temp_board@.cells[i] == next.cells[i],
            decreases h - y,
        {
            proof {
                assert(w <= w * h) by (nonlinear_arith)
                    requires
                        y < h,
                ;
                lemma_index_in_grid(x as int, y as int, w as int, h as int);
                lemma_fundamental_div_mod_converse(
                    x + y * w,
                    w as int,
                    y as int,
                    x as int,
                );
            }
            let n = board.count_neighbours(x as isize, y as isize);
            let v = if board.get_tile(x, y) == 0 {
                birth[n as usize]
            } else {
                survive[n as usize]
            };
            let ghost before = temp_board@;
            temp_board.set_tile(x, y, v);
            proof {
                let idx = x + y * w;
                assert forall|i: int|
                    0 <= i < g.cells.len() && (i % (w as int) < x || (i % (w as int) == x && i / (
                    w as int) < y + 1)) implies temp_board@.cells[i] == next.cells[i] by {
                    lemma_position_in_grid(i, w as int, h as int);
                    if i != idx {
                        assert(temp_board@.cells[i] == before.cells[i]);
                    }
                }
            }
            y += 1;
        }
        proof {
            assert forall|i: int| 0 <= i < g.cells.len() && i % (w as int) < x + 1 implies
                temp_board@.cells[i] == next.cells[i] by {
                lemma_position_in_grid(i, w as int, h as int);
            }
        }
        x += 1;
    }
    proof {
        assert forall|i: int| 0 <= i < g.cells.len() implies temp_board@.cells[i] == next.cells[i] by {
            lemma_position_in_grid(i, w as int, h as int);
        }
        assert(temp_board@.cells =~= next.cells);
    }
    let r = board.replace_tiles(temp_board.tiles);
    assert(r is Ok);
}

} // verus!
