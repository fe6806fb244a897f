//! The mathematical model of the board: a torus of cells, the neighbour
//! count and the generation step, with the facts about them that the rest
//! of the library relies on.

use vstd::prelude::*;
use crate::cell::Cell;

verus! {

/// A board as a mathematical value: its two dimensions and its cells in
/// row-major order.
pub struct Grid {
    pub width: nat,
    pub height: nat,
    pub cells: Seq<Cell>,
}

impl Grid {
    /// Both dimensions are at least one and there is one cell per
    /// position.
    pub open spec fn wf(self) -> bool {
        &&& self.width >= 1
        &&& self.height >= 1
        &&& self.cells.len() == self.width * self.height
    }

    /// The position of `(x, y)` in the cell sequence, for coordinates
    /// inside the board.
    pub open spec fn index(self, x: int, y: int) -> int {
        y * self.width + x
    }

    /// The position of `(x, y)` in the cell sequence once both
    /// coordinates are wrapped around the board's edges.
    pub open spec fn index_wrapped(self, x: int, y: int) -> int {
        self.index(x % (self.width as int), y % (self.height as int))
    }

    /// The cell at `(x, y)`, wrapped.
    pub open spec fn cell(self, x: int, y: int) -> Cell {
        self.cells[self.index_wrapped(x, y)]
    }

    /// An all-dead board.
    pub open spec fn empty(width: nat, height: nat) -> Grid {
        Grid { width, height, cells: Seq::new(width * height, |i: int| Cell::Dead) }
    }

    /// The board on which the cell at position `i` of the cell sequence
    /// is alive exactly when `i` is a multiple of two or of seven.
    pub open spec fn sampled(width: nat, height: nat) -> Grid {
        Grid {
            width,
            height,
            cells: Seq::new(
                width * height,
                |i: int|
                    if i % 2 == 0 || i % 7 == 0 {
                        Cell::Alive
                    } else {
                        Cell::Dead
                    },
            ),
        }
    }

    /// Whether one of the listed positions is the one with index `i`.
    pub open spec fn is_listed(self, locations: Seq<(u32, u32)>, i: int) -> bool {
        exists|k: int|
            0 <= k < locations.len() && self.index(
                (#[trigger] locations[k]).0 as int,
                locations[k].1 as int,
            ) == i
    }

    /// The board with every listed position alive and every other cell as
    /// it was.
    pub open spec fn with_alive(self, locations: Seq<(u32, u32)>) -> Grid {
        Grid {
            width: self.width,
            height: self.height,
            cells: Seq::new(
                self.cells.len(),
                |i: int|
                    if self.is_listed(locations, i) {
                        Cell::Alive
                    } else {
                        self.cells[i]
                    },
            ),
        }
    }

    /// The board with the cell at `(x, y)` flipped.
    pub open spec fn toggled(self, x: int, y: int) -> Grid {
        Grid {
            width: self.width,
            height: self.height,
            cells: self.cells.update(self.index(x, y), self.cells[self.index(x, y)].flipped()),
        }
    }

    /// The board with the cell at wrapped `(x, y)` replaced.
    pub open spec fn write(self, x: int, y: int, cell: Cell) -> Grid {
        Grid {
            width: self.width,
            height: self.height,
            cells: self.cells.update(self.index_wrapped(x, y), cell),
        }
    }

    /// The board with a bar of three live cells in row `y`, centred on
    /// column `x`.
    pub open spec fn with_bar(self, x: int, y: int) -> Grid {
        self.write(x - 1, y, Cell::Alive).write(x, y, Cell::Alive).write(x + 1, y, Cell::Alive)
    }

    /// What the cell at offset `(dx, dy)` from `(x, y)` adds to the
    /// neighbour count of `(x, y)`. The offset `(0, 0)` is the cell itself
    /// and adds nothing.
    pub open spec fn neighbor_term(self, x: int, y: int, dx: int, dy: int) -> nat {
        if dx == 0 && dy == 0 {
            0
        } else {
            self.cell(x + dx, y + dy).population()
        }
    }

    /// The live neighbours of `(x, y)` in one row of the neighbourhood,
    /// the row at vertical offset `dy`.
    pub open spec fn neighbor_row(self, x: int, y: int, dy: int) -> nat {
        self.neighbor_term(x, y, self.width - 1, dy) + self.neighbor_term(x, y, 0, dy)
            + self.neighbor_term(x, y, 1, dy)
    }

    /// The number of live cells around `(x, y)`.
    ///
    /// The neighbourhood is walked by the offsets `height - 1, 0, 1`
    /// downwards and `width - 1, 0, 1` across, every position wrapped, and
    /// an offset pair counts unless both of its numbers are zero. On a
    /// board two cells wide or high one cell is met more than once and
    /// counted each time; on a board one cell wide or high the offset
    /// `width - 1` or `height - 1` is itself zero.
    pub open spec fn neighbor_count(self, x: int, y: int) -> nat {
        self.neighbor_row(x, y, self.height - 1) + self.neighbor_row(x, y, 0) + self.neighbor_row(
            x,
            y,
            1,
        )
    }

    /// The next state of the cell at position `i` of the cell sequence.
    pub open spec fn next_cell(self, i: int) -> Cell {
        self.cells[i].next(self.neighbor_count(i % (self.width as int), i / (self.width as int)))
    }

    /// The board one generation later: every cell follows the transition
    /// rule on the neighbour count it has now.
    pub open spec fn next_generation(self) -> Grid {
        Grid {
            width: self.width,
            height: self.height,
            cells: Seq::new(self.cells.len(), |i: int| self.next_cell(i)),
        }
    }

    /// A generation changes nothing on this board.
    pub open spec fn is_still(self) -> bool {
        self.next_generation() == self
    }

    /// Every cell is dead.
    pub open spec fn all_dead(self) -> bool {
        forall|i: int| 0 <= i < self.cells.len() ==> self.cells[i] == Cell::Dead
    }
}

/// A position inside the board has an index inside the cell sequence, and
/// the index gives the position back.
pub proof fn lemma_index_in_range(g: Grid, x: int, y: int)
    requires
        g.wf(),
        0 <= x < g.width,
        0 <= y < g.height,
    ensures
        0 <= g.index(x, y) < g.cells.len(),
        g.index(x, y) % (g.width as int) == x,
        g.index(x, y) / (g.width as int) == y,
        g.index_wrapped(x, y) == g.index(x, y),
{
    let w = g.width as int;
    let h = g.height as int;
    assert(y * w + x < h * w) by (nonlinear_arith)
        requires
            0 <= x < w,
            0 <= y < h,
    ;
    assert(0 <= y * w) by (nonlinear_arith)
        requires
            0 <= y,
            0 < w,
    ;
    assert(w * h == h * w) by (nonlinear_arith);
    vstd::arithmetic::div_mod::lemma_fundamental_div_mod_converse(y * w + x, w, y, x);
    vstd::arithmetic::div_mod::lemma_small_mod(x as nat, w as nat);
    vstd::arithmetic::div_mod::lemma_small_mod(y as nat, h as nat);
}

/// Wrapping sends any pair of coordinates to an index inside the cell
/// sequence.
pub proof fn lemma_index_wrapped_in_range(g: Grid, x: int, y: int)
    requires
        g.wf(),
    ensures
        0 <= g.index_wrapped(x, y) < g.cells.len(),
{
    let w = g.width as int;
    let h = g.height as int;
    vstd::arithmetic::div_mod::lemma_mod_bound(x, w);
    vstd::arithmetic::div_mod::lemma_mod_bound(y, h);
    lemma_index_in_range(g, x % w, y % h);
}

/// Every index of the cell sequence is the index of one position inside
/// the board.
pub proof fn lemma_position_of_index(g: Grid, i: int)
    requires
        g.wf(),
        0 <= i < g.cells.len(),
    ensures
        0 <= i % (g.width as int) < g.width,
        0 <= i / (g.width as int) < g.height,
        g.index(i % (g.width as int), i / (g.width as int)) == i,
{
    let w = g.width as int;
    let h = g.height as int;
    vstd::arithmetic::div_mod::lemma_fundamental_div_mod(i, w);
    vstd::arithmetic::div_mod::lemma_mod_pos_bound(i, w);
    vstd::arithmetic::div_mod::lemma_div_pos_is_pos(i, w);
    let q = i / w;
    assert(w * q == q * w) by (nonlinear_arith);
    assert(q < h) by (nonlinear_arith)
        requires
            q * w <= i,
            i < w * h,
            0 < w,
            0 <= q,
    ;
}

/// No cell has more than eight live neighbours.
pub proof fn lemma_neighbor_count_at_most_eight(g: Grid, x: int, y: int)
    ensures
        g.neighbor_count(x, y) <= 8,
{
}

} // verus!
