//! The board that callers own and the operations on it.

use vstd::prelude::*;
use crate::cell::Cell;
use crate::entropy::{cell_of_draw, rand_u64, EntropyError};
use crate::grid::{
    lemma_index_in_range, lemma_index_wrapped_in_range, lemma_neighbor_count_at_most_eight,
    lemma_position_of_index, Grid,
};
use crate::pattern::{cell_from_plaintext, decode, rows_of, PatternError};
use crate::product::{cartesian_product, count_up, counting, product_pairs};
use crate::render::{render_cells, rendered};
use crate::shapes::{
    glider, lemma_glider_decodes, lemma_loafer_decodes, lemma_pulsar_decodes, loafer, pulsar,
    GLIDER, LOAFER, PULSAR,
};
use crate::stamp::{
    half_up, lemma_stamp_row_preserves_shape, lemma_stamp_rows_preserves_shape, pattern_width,
    wrap_coordinate,
};
use vstd::string::StringSliceAdditionalSpecFns;

verus! {

/// A universe as a mathematical value: the board and the flag that says
/// that the last generation changed nothing.
pub struct UniverseView {
    pub grid: Grid,
    pub stable: bool,
}

impl UniverseView {
    /// The board is well formed, and the flag is set only on a board that
    /// a generation leaves as it is.
    pub open spec fn wf(self) -> bool {
        &&& self.grid.wf()
        &&& self.stable ==> self.grid.is_still()
    }

    /// The universe one generation later. The flag records whether that
    /// generation changed anything.
    pub open spec fn step(self) -> UniverseView {
        UniverseView { grid: self.grid.next_generation(), stable: self.grid.is_still() }
    }

    /// The universe after `n` generations.
    pub open spec fn steps(self, n: nat) -> UniverseView
        decreases n,
    {
        if n == 0 {
            self
        } else {
            self.steps((n - 1) as nat).step()
        }
    }

    /// The universe after an edit that leaves it with the board `grid`:
    /// an edit always clears the flag.
    pub open spec fn edited(grid: Grid) -> UniverseView {
        UniverseView { grid, stable: false }
    }
}

/// A finite Game of Life board whose edges wrap around.
#[derive(Debug)]
pub struct Universe {
    width: u32,
    height: u32,
    cells: Vec<Cell>,
    stable: bool,
}

impl View for Universe {
    type V = UniverseView;

    closed spec fn view(&self) -> UniverseView {
        UniverseView {
            grid: Grid {
                width: self.width as nat,
                height: self.height as nat,
                cells: self.cells@,
            },
            stable: self.stable,
        }
    }
}

impl Clone for Universe {
    /// A universe of its own with the same board and the same flag.
    fn clone(&self) -> (copy: Self)
        ensures
            copy@ == self@,
    {
        proof {
            use_type_invariant(self);
        }
        let mut cells: Vec<Cell> = Vec::new();
        let mut i: usize = 0;
        while i < self.cells.len()
            invariant
                i <= self.cells@.len(),
                cells@ == self.cells@.take(i as int),
            decreases self.cells@.len() - i,
        {
            cells.push(self.cells[i]);
            i += 1;
            assert(cells@ =~= self.cells@.take(i as int));
        }
        assert(cells@ =~= self.cells@);
        Universe { width: self.width, height: self.height, cells, stable: self.stable }
    }
}

/// The offsets by which the neighbourhood of a cell is walked on a board
/// of the given size, as pairs of a vertical and a horizontal offset.
spec fn neighbor_offsets(g: Grid) -> Seq<(u32, u32)> {
    product_pairs(
        seq![(g.height - 1) as u32, 0u32, 1u32],
        seq![(g.width - 1) as u32, 0u32, 1u32],
    )
}

/// The live neighbours of `(x, y)` among the first `k` offsets.
spec fn neighbor_sum(g: Grid, x: int, y: int, offsets: Seq<(u32, u32)>, k: nat) -> nat
    decreases k,
{
    if k == 0 {
        0
    } else {
        neighbor_sum(g, x, y, offsets, (k - 1) as nat) + g.neighbor_term(
            x,
            y,
            offsets[k - 1].1 as int,
            offsets[k - 1].0 as int,
        )
    }
}

/// Walking all nine offsets gives the neighbour count.
proof fn lemma_neighbor_sum_is_count(g: Grid, x: int, y: int)
    requires
        g.wf(),
        g.width <= u32::MAX,
        g.height <= u32::MAX,
    ensures
        neighbor_offsets(g).len() == 9,
        neighbor_sum(g, x, y, neighbor_offsets(g), 9) == g.neighbor_count(x, y),
{
    let offsets = neighbor_offsets(g);
    let rows = seq![(g.height - 1) as u32, 0u32, 1u32];
    let cols = seq![(g.width - 1) as u32, 0u32, 1u32];
    assert(rows.len() * cols.len() == 9) by (nonlinear_arith)
        requires
            rows.len() == 3,
            cols.len() == 3,
    ;
    assert(offsets.len() == 9);
    assert(offsets[0] == (((g.height - 1) as u32), ((g.width - 1) as u32)));
    assert(offsets[1] == (((g.height - 1) as u32), 0u32));
    assert(offsets[2] == (((g.height - 1) as u32), 1u32));
    assert(offsets[3] == (0u32, ((g.width - 1) as u32)));
    assert(offsets[4] == (0u32, 0u32));
    assert(offsets[5] == (0u32, 1u32));
    assert(offsets[6] == (1u32, ((g.width - 1) as u32)));
    assert(offsets[7] == (1u32, 0u32));
    assert(offsets[8] == (1u32, 1u32));
    reveal_with_fuel(neighbor_sum, 10);
}

/// Whether two lists hold the same cells.
fn same_cells(a: &Vec<Cell>, b: &Vec<Cell>) -> (same: bool)
    ensures
        same == (a@ == b@),
{
    if a.len() != b.len() {
        return false;
    }
    let mut i: usize = 0;
    while i < a.len()
        invariant
            a@.len() == b@.len(),
            i <= a@.len(),
            forall|j: int| 0 <= j < i ==> a@[j] == b@[j],
        decreases a@.len() - i,
    {
        if a[i] != b[i] {
            return false;
        }
        i += 1;
    }
    assert(a@ =~= b@);
    true
}

impl Universe {
    #[verifier::type_invariant]
    spec fn inv(&self) -> bool {
        self@.wf()
    }

    /// The number of columns, which is at least one.
    pub fn width(&self) -> (width: u32)
        ensures
            width == self@.grid.width,
            width >= 1,
    {
        proof {
            use_type_invariant(self);
        }
        self.width
    }

    /// The number of rows, which is at least one.
    pub fn height(&self) -> (height: u32)
        ensures
            height == self@.grid.height,
            height >= 1,
    {
        proof {
            use_type_invariant(self);
        }
        self.height
    }

    /// Whether the last generation left the board as it was.
    pub fn is_stable(&self) -> (stable: bool)
        ensures
            stable == self@.stable,
    {
        self.stable
    }

    /// The position of `(x, y)` in the cell sequence.
    pub fn cell_idx(&self, x: u32, y: u32) -> (idx: usize)
        requires
            x < self@.grid.width,
            y < self@.grid.height,
        ensures
            idx == self@.grid.index(x as int, y as int),
            idx < self@.grid.cells.len(),
    {
        proof {
            use_type_invariant(self);
            lemma_index_in_range(self@.grid, x as int, y as int);
            assert(self.cells@.len() == self.cells.len());
            assert(0 <= y * self.width) by (nonlinear_arith);
        }
        y as usize * self.width as usize + x as usize
    }

    /// The position of `(x, y)` in the cell sequence, both coordinates
    /// wrapped around the board.
    pub fn cell_idx_safe(&self, x: u64, y: u64) -> (idx: usize)
        ensures
            idx == self@.grid.index_wrapped(x as int, y as int),
            idx < self@.grid.cells.len(),
    {
        proof {
            use_type_invariant(self);
            lemma_index_wrapped_in_range(self@.grid, x as int, y as int);
            vstd::arithmetic::div_mod::lemma_mod_bound(x as int, self.width as int);
            vstd::arithmetic::div_mod::lemma_mod_bound(y as int, self.height as int);
        }
        self.cell_idx((x % self.width as u64) as u32, (y % self.height as u64) as u32)
    }

    /// The offsets by which the neighbourhood of any cell is walked.
    fn offsets(&self) -> (offsets: Vec<(u32, u32)>)
        ensures
            offsets@ == neighbor_offsets(self@.grid),
            offsets@.len() == 9,
    {
        proof {
            use_type_invariant(self);
            lemma_neighbor_sum_is_count(self@.grid, 0, 0);
        }
        let rows: Vec<u32> = vec![self.height - 1, 0, 1];
        let cols: Vec<u32> = vec![self.width - 1, 0, 1];
        assert(rows@ =~= seq![(self@.grid.height - 1) as u32, 0u32, 1u32]);
        assert(cols@ =~= seq![(self@.grid.width - 1) as u32, 0u32, 1u32]);
        cartesian_product(&rows, &cols)
    }

    /// Counts the live cells that the offsets lead to from `(x, y)`.
    fn count_around(&self, offsets: &Vec<(u32, u32)>, x: u32, y: u32) -> (count: u8)
        requires
            offsets@ == neighbor_offsets(self@.grid),
            offsets@.len() == 9,
        ensures
            count == self@.grid.neighbor_count(x as int, y as int),
            count <= 8,
    {
        proof {
            use_type_invariant(self);
            lemma_neighbor_sum_is_count(self@.grid, x as int, y as int);
            lemma_neighbor_count_at_most_eight(self@.grid, x as int, y as int);
        }
        let mut count: u8 = 0;
        let mut k: usize = 0;
        while k < offsets.len()
            invariant
                offsets@ == neighbor_offsets(self@.grid),
                offsets@.len() == 9,
                k <= 9,
                count <= k,
                count == neighbor_sum(self@.grid, x as int, y as int, offsets@, k as nat),
            decreases 9 - k,
        {
            let (dy, dx) = offsets[k];
            if dx != 0 || dy != 0 {
                let idx = self.cell_idx_safe(x as u64 + dx as u64, y as u64 + dy as u64);
                if self.cells[idx].is_alive() {
                    count += 1;
                }
            }
            k += 1;
        }
        count
    }

    /// Counts the live cells around `(x, y)`, wrapping at the edges. The
    /// position itself may lie beyond the edges and is then wrapped too.
    pub fn neighbor_lives(&self, x: u32, y: u32) -> (count: u8)
        ensures
            count == self@.grid.neighbor_count(x as int, y as int),
            count <= 8,
    {
        let offsets = self.offsets();
        self.count_around(&offsets, x, y)
    }

    /// Advances the board by one generation.
    ///
    /// Every cell follows the transition rule on the neighbours it has
    /// before the step, and the flag is set exactly when the step changed
    /// nothing. On a universe whose flag is already set nothing is
    /// computed and nothing changes.
    pub fn tick_self(&mut self)
        ensures
            final(self)@ == old(self)@.step(),
            old(self)@.stable ==> final(self)@ == old(self)@,
            final(self)@.wf(),
    {
        proof {
            use_type_invariant(&*self);
        }
        if self.stable {
            return ;
        }
        let rows = count_up(self.height);
        let cols = count_up(self.width);
        proof {
            assert(self.cells@.len() == self.cells.len());
            assert(self.height * self.width == self.width * self.height) by (nonlinear_arith);
        }
        let positions = cartesian_product(&rows, &cols);
        let offsets = self.offsets();
        let ghost before = self@.grid;
        let mut next: Vec<Cell> = Vec::new();
        let mut i: usize = 0;
        while i < positions.len()
            invariant
                self@.grid == before,
                before.wf(),
                before.width <= u32::MAX,
                before.height <= u32::MAX,
                positions@ == product_pairs(
                    counting(before.height),
                    counting(before.width),
                ),
                positions@.len() == before.cells.len(),
                offsets@ == neighbor_offsets(before),
                offsets@.len() == 9,
                i <= positions@.len(),
                next@.len() == i,
                forall|j: int| 0 <= j < i ==> next@[j] == before.next_cell(j),
            decreases positions@.len() - i,
        {
            proof {
                lemma_position_of_index(before, i as int);
            }
            let (y, x) = positions[i];
            let live_neighbors = self.count_around(&offsets, x, y);
            let cell = self.cells[self.cell_idx(x, y)];
            next.push(cell.evolve(live_neighbors));
            i += 1;
        }
        assert(next@ =~= before.next_generation().cells);
        let unchanged = same_cells(&next, &self.cells);
        self.stable = unchanged;
        self.cells = next;
    }

    /// The cells in row-major order.
    pub fn get_cells(&self) -> (cells: &[Cell])
        ensures
            cells@ == self@.grid.cells,
            self@.wf(),
    {
        proof {
            use_type_invariant(self);
        }
        self.cells.as_slice()
    }

    /// The board as text, one line per row.
    pub fn render(&self) -> (text: String)
        ensures
            text@ == rendered(self@.grid),
    {
        proof {
            use_type_invariant(self);
        }
        render_cells(&self.cells, self.width, self.height)
    }

    /// As many dead cells as a board of the given size holds.
    pub fn empty_cell(width: u32, height: u32) -> (cells: Vec<Cell>)
        requires
            width * height <= usize::MAX,
        ensures
            cells@ == Grid::empty(width as nat, height as nat).cells,
    {
        let count = Self::cell_count(width, height);
        let mut cells: Vec<Cell> = Vec::new();
        let mut i: usize = 0;
        while i < count
            invariant
                i <= count,
                cells@.len() == i,
                forall|j: int| 0 <= j < i ==> cells@[j] == Cell::Dead,
            decreases count - i,
        {
            cells.push(Cell::Dead);
            i += 1;
        }
        assert(cells@ =~= Grid::empty(width as nat, height as nat).cells);
        cells
    }

    /// The cells of a board of the given size on which every second and
    /// every seventh cell is alive.
    pub fn example_cell(width: u32, height: u32) -> (cells: Vec<Cell>)
        requires
            width * height <= usize::MAX,
        ensures
            cells@ == Grid::sampled(width as nat, height as nat).cells,
    {
        let count = Self::cell_count(width, height);
        let mut cells: Vec<Cell> = Vec::new();
        let mut i: usize = 0;
        while i < count
            invariant
                i <= count,
                cells@.len() == i,
                forall|j: int|
                    0 <= j < i ==> cells@[j] == if j % 2 == 0 || j % 7 == 0 {
                        Cell::Alive
                    } else {
                        Cell::Dead
                    },
            decreases count - i,
        {
            cells.push(
                if i % 2 == 0 || i % 7 == 0 {
                    Cell::Alive
                } else {
                    Cell::Dead
                },
            );
            i += 1;
        }
        assert(cells@ =~= Grid::sampled(width as nat, height as nat).cells);
        cells
    }

    /// Draws the cells of a board of the given size at random: each cell
    /// takes one 64-bit sample from the system and is alive when the
    /// sample is below `threshold`.
    ///
    /// Fails as soon as the system fails to deliver a sample, and only
    /// then: a board without cells asks for no sample and always succeeds.
    /// No sample is below a threshold of zero, so that threshold gives
    /// dead cells alone.
    pub fn rand_cell(width: u32, height: u32, threshold: u64) -> (cells: Result<
        Vec<Cell>,
        EntropyError,
    >)
        requires
            width * height <= usize::MAX,
        ensures
            match cells {
                Ok(drawn) => {
                    &&& is_drawn(drawn@, (width * height) as nat, threshold)
                    &&& threshold == 0 ==> drawn@ == Grid::empty(width as nat, height as nat).cells
                },
                Err(_) => width * height > 0,
            },
    {
        let count = Self::cell_count(width, height);
        let mut cells: Vec<Cell> = Vec::new();
        let ghost mut samples: Seq<u64> = Seq::empty();
        let mut i: usize = 0;
        while i < count
            invariant
                i <= count,
                count == width * height,
                cells@.len() == i,
                samples.len() == i,
                forall|j: int| 0 <= j < i ==> cells@[j] == Cell::of_sample(samples[j], threshold),
            decreases count - i,
        {
            let draw = rand_u64();
            let ghost drawn = draw;
            match cell_of_draw(draw, threshold) {
                Ok(cell) => {
                    cells.push(cell);
                    proof {
                        samples = samples.push(drawn.unwrap());
                    }
                },
                Err(error) => {
                    return Err(error);
                },
            }
            i += 1;
        }
        assert(drawn_from(cells@, samples, threshold));
        assert(threshold == 0 ==> cells@ =~= Grid::empty(width as nat, height as nat).cells);
        Ok(cells)
    }

    fn cell_count(width: u32, height: u32) -> (count: usize)
        requires
            width * height <= usize::MAX,
        ensures
            count == width * height,
    {
        width as usize * height as usize
    }

    /// An all-dead board of the given size.
    pub fn empty(width: u32, height: u32) -> (universe: Universe)
        requires
            width >= 1,
            height >= 1,
            width * height <= usize::MAX,
        ensures
            universe@ == UniverseView::edited(Grid::empty(width as nat, height as nat)),
            universe@.wf(),
    {
        Universe { width, height, cells: Self::empty_cell(width, height), stable: false }
    }


    fn reset(&mut self)
        ensures
            final(self)@ == UniverseView::edited(
                Grid::empty(old(self)@.grid.width, old(self)@.grid.height),
            ),
            !final(self)@.stable,
            final(self)@.wf(),
    {
        proof {
            use_type_invariant(&*self);
            assert(self.cells@.len() == self.cells.len());
        }
        self.stable = false;
        self.cells = Self::empty_cell(self.width, self.height);
    }

    /// Gives the board a new width and clears it.
    pub fn set_width(&mut self, width: u32)
        requires
            width >= 1,
            width * old(self)@.grid.height <= usize::MAX,
        ensures
            final(self)@ == UniverseView::edited(
                Grid::empty(width as nat, old(self)@.grid.height),
            ),
            !final(self)@.stable,
            final(self)@.wf(),
    {
        proof {
            use_type_invariant(&*self);
        }
        *self = Self::empty(width, self.height);
    }

    /// Gives the board a new height and clears it.
    pub fn set_height(&mut self, height: u32)
        requires
            height >= 1,
            old(self)@.grid.width * height <= usize::MAX,
        ensures
            final(self)@ == UniverseView::edited(
                Grid::empty(old(self)@.grid.width, height as nat),
            ),
            !final(self)@.stable,
            final(self)@.wf(),
    {
        proof {
            use_type_invariant(&*self);
        }
        *self = Self::empty(self.width, height);
    }

    /// Flips the cell at `(x, y)`.
    pub fn toggle_cell(&mut self, x: u32, y: u32)
        requires
            x < old(self)@.grid.width,
            y < old(self)@.grid.height,
        ensures
            final(self)@ == UniverseView::edited(old(self)@.grid.toggled(x as int, y as int)),
            !final(self)@.stable,
            final(self)@.wf(),
    {
        proof {
            use_type_invariant(&*self);
        }
        self.stable = false;
        let idx = self.cell_idx(x, y);
        let mut cell = self.cells[idx];
        cell.toggle();
        self.cells[idx] = cell;
    }

    /// Makes the cell at every listed `(x, y)` alive.
    pub fn set_cells(&mut self, alive_locations: &[(u32, u32)])
        requires
            forall|k: int|
                0 <= k < alive_locations@.len() ==> (#[trigger] alive_locations@[k]).0 < old(
                    self,
                )@.grid.width && alive_locations@[k].1 < old(self)@.grid.height,
        ensures
            final(self)@ == UniverseView::edited(old(self)@.grid.with_alive(alive_locations@)),
            !final(self)@.stable,
            final(self)@.wf(),
    {
        proof {
            use_type_invariant(&*self);
        }
        self.stable = false;
        let ghost before = self@.grid;
        let ghost locations = alive_locations@;
        assert(self@.grid.cells =~= before.with_alive(locations.take(0)).cells);
        let mut k: usize = 0;
        while k < alive_locations.len()
            invariant
                k <= locations.len(),
                locations == alive_locations@,
                before.wf(),
                forall|j: int|
                    0 <= j < locations.len() ==> (#[trigger] locations[j]).0 < before.width
                        && locations[j].1 < before.height,
                !self@.stable,
                self@.grid == before.with_alive(locations.take(k as int)),
            decreases locations.len() - k,
        {
            let (x, y) = alive_locations[k];
            let idx = self.cell_idx(x, y);
            self.cells[idx] = Cell::Alive;
            proof {
                let sofar = locations.take(k as int);
                let more = locations.take(k + 1);
                assert(more[k as int] == locations[k as int]);
                assert forall|i: int| 0 <= i < before.cells.len() implies (before.is_listed(more, i)
                    <==> i == idx || before.is_listed(sofar, i)) by {
                    if before.is_listed(sofar, i) {
                        let j = choose|j: int|
                            0 <= j < sofar.len() && before.index(
                                (#[trigger] sofar[j]).0 as int,
                                sofar[j].1 as int,
                            ) == i;
                        assert(more[j] == sofar[j]);
                    }
                    if before.is_listed(more, i) && i != idx {
                        let j = choose|j: int|
                            0 <= j < more.len() && before.index(
                                (#[trigger] more[j]).0 as int,
                                more[j].1 as int,
                            ) == i;
                        assert(sofar[j] == more[j]);
                    }
                }
                assert(self@.grid.cells =~= before.with_alive(more).cells);
            }
            k += 1;
        }
        assert(locations.take(k as int) =~= locations);
    }

    /// Writes `pattern` onto the board, the first cell of its first row
    /// at `(anchor_x - back_x, anchor_y - back_y)`.
    fn stamp_at(
        &mut self,
        pattern: &Vec<Vec<Cell>>,
        anchor_x: u32,
        back_x: usize,
        anchor_y: u32,
        back_y: usize,
    )
        ensures
            final(self)@ == UniverseView::edited(
                old(self)@.grid.stamp_rows(
                    rows_of(pattern),
                    anchor_x - back_x,
                    anchor_y - back_y,
                    pattern@.len(),
                ),
            ),
            !final(self)@.stable,
            final(self)@.wf(),
    {
        proof {
            use_type_invariant(&*self);
        }
        self.stable = false;
        let ghost before = self@.grid;
        let ghost rows = rows_of(pattern);
        let ghost x0 = anchor_x - back_x;
        let ghost y0 = anchor_y - back_y;
        let mut r: usize = 0;
        while r < pattern.len()
            invariant
                r <= pattern@.len(),
                rows == rows_of(pattern),
                before.wf(),
                before.width <= u32::MAX,
                before.height <= u32::MAX,
                x0 == anchor_x - back_x,
                y0 == anchor_y - back_y,
                !self@.stable,
                self@.grid == before.stamp_rows(rows, x0, y0, r as nat),
            decreases pattern@.len() - r,
        {
            proof {
                lemma_stamp_rows_preserves_shape(before, rows, x0, y0, r as nat);
            }
            let row = &pattern[r];
            let y = wrap_coordinate(anchor_y, r, back_y, self.height);
            let ghost above = self@.grid;
            assert(rows[r as int] == row@);
            let mut c: usize = 0;
            while c < row.len()
                invariant
                    c <= row@.len(),
                    above.wf(),
                    above.width == before.width,
                    above.height == before.height,
                    before.width <= u32::MAX,
                    before.height <= u32::MAX,
                    x0 == anchor_x - back_x,
                    y == (y0 + r) % (before.height as int),
                    y < before.height,
                    !self@.stable,
                    self@.grid == above.stamp_row(row@, x0, y0 + r, c as nat),
                decreases row@.len() - c,
            {
                proof {
                    lemma_stamp_row_preserves_shape(above, row@, x0, y0 + r, c as nat);
                }
                let x = wrap_coordinate(anchor_x, c, back_x, self.width);
                let idx = self.cell_idx(x, y);
                self.cells[idx] = row[c];
                c += 1;
            }
            r += 1;
        }
        proof {
            use_type_invariant(&*self);
        }
    }

    /// Stamps `pattern` onto the board and clears the stability flag.
    ///
    /// The anchor is where the pattern's top left cell goes or, if
    /// `centered`, where its centre goes. Cells that fall outside the
    /// board wrap around to the other side.
    pub fn stamp(&mut self, pattern: &Vec<Vec<Cell>>, anchor_x: u32, anchor_y: u32, centered: bool)
        ensures
            final(self)@ == UniverseView::edited(
                old(self)@.grid.stamped(rows_of(pattern), anchor_x as int, anchor_y as int, centered),
            ),
            !final(self)@.stable,
            final(self)@.wf(),
    {
        let width = if pattern.len() == 0 {
            0
        } else {
            pattern[0].len()
        };
        assert(width == pattern_width(rows_of(pattern)));
        if centered {
            self.stamp_at(pattern, anchor_x, half_up(width), anchor_y, half_up(pattern.len()));
        } else {
            self.stamp_at(pattern, anchor_x, 0, anchor_y, 0);
        }
    }

    /// Decodes `plain_text` and stamps the pattern centred on
    /// `(mid_x, mid_y)`. A text that is no pattern leaves the universe as
    /// it is.
    pub fn render_plaintext(&mut self, plain_text: &str, mid_x: u32, mid_y: u32) -> (done: Result<
        (),
        PatternError,
    >)
        ensures
            match decode(plain_text.spec_bytes()) {
                Ok(pattern) => done is Ok && final(self)@ == UniverseView::edited(
                    old(self)@.grid.stamped(pattern, mid_x as int, mid_y as int, true),
                ),
                Err(error) => done == Err::<(), PatternError>(error) && final(self)@ == old(self)@,
            },
            final(self)@.wf(),
    {
        proof {
            use_type_invariant(&*self);
        }
        match cell_from_plaintext(plain_text.as_bytes()) {
            Ok(pattern) => {
                self.stamp(&pattern, mid_x, mid_y, true);
                Ok(())
            },
            Err(error) => Err(error),
        }
    }

    /// Stamps a loafer centred on `(mid_x, mid_y)`.
    pub fn add_loafer(&mut self, mid_x: u32, mid_y: u32)
        ensures
            final(self)@ == UniverseView::edited(
                old(self)@.grid.stamped(loafer(), mid_x as int, mid_y as int, true),
            ),
            !final(self)@.stable,
            final(self)@.wf(),
    {
        proof {
            lemma_loafer_decodes();
        }
        let _ = self.render_plaintext(LOAFER, mid_x, mid_y);
    }

    /// Stamps a glider centred on `(mid_x, mid_y)`.
    pub fn add_glider(&mut self, mid_x: u32, mid_y: u32)
        ensures
            final(self)@ == UniverseView::edited(
                old(self)@.grid.stamped(glider(), mid_x as int, mid_y as int, true),
            ),
            !final(self)@.stable,
            final(self)@.wf(),
    {
        proof {
            lemma_glider_decodes();
        }
        let _ = self.render_plaintext(GLIDER, mid_x, mid_y);
    }

    /// Stamps a pulsar centred on `(mid_x, mid_y)`.
    pub fn add_pulsar(&mut self, mid_x: u32, mid_y: u32)
        ensures
            final(self)@ == UniverseView::edited(
                old(self)@.grid.stamped(pulsar(), mid_x as int, mid_y as int, true),
            ),
            !final(self)@.stable,
            final(self)@.wf(),
    {
        proof {
            lemma_pulsar_decodes();
        }
        let _ = self.render_plaintext(PULSAR, mid_x, mid_y);
    }

    /// Makes the cell at `(mid_x, mid_y)` and the cells to its left and
    /// to its right alive.
    pub fn add_stable(&mut self, mid_x: u32, mid_y: u32)
        ensures
            final(self)@ == UniverseView::edited(old(self)@.grid.with_bar(mid_x as int, mid_y as int)),
            !final(self)@.stable,
            final(self)@.wf(),
    {
        proof {
            use_type_invariant(&*self);
        }
        let bar: Vec<Vec<Cell>> = vec![vec![Cell::Alive, Cell::Alive, Cell::Alive]];
        proof {
            let rows = rows_of(&bar);
            assert(rows.len() == 1);
            assert(rows[0] =~= seq![Cell::Alive, Cell::Alive, Cell::Alive]);
            reveal_with_fuel(Grid::stamp_rows, 2);
            reveal_with_fuel(Grid::stamp_row, 4);
        }
        self.stamp_at(&bar, mid_x, 1, mid_y, 0);
    }

    /// The default universe: a board of 64 by 64 cells with a loafer
    /// centred on `(6, 6)`.
    pub fn new() -> (universe: Universe)
        ensures
            universe@ == UniverseView::edited(
                Grid::empty(64, 64).stamped(loafer(), 6, 6, true),
            ),
            universe@.wf(),
    {
        let mut universe = Self::empty(64, 64);
        universe.add_loafer(6, 6);
        universe
    }

    /// Clears the board.
    pub fn set_empty_universe(&mut self)
        ensures
            final(self)@ == UniverseView::edited(
                Grid::empty(old(self)@.grid.width, old(self)@.grid.height),
            ),
            !final(self)@.stable,
            final(self)@.wf(),
    {
        self.reset();
    }

    /// Puts the outcome of a draw on the board: cells that were drawn
    /// replace the board's cells and clear the stability flag, and a draw
    /// that failed fails the call and leaves the universe as it was, cells
    /// and flag alike.
    pub fn set_drawn_universe(&mut self, drawn: Result<Vec<Cell>, EntropyError>) -> (done: Result<
        (),
        EntropyError,
    >)
        requires
            drawn is Ok ==> drawn.unwrap()@.len() == old(self)@.grid.width * old(
                self,
            )@.grid.height,
        ensures
            match drawn {
                Ok(cells) => done is Ok && final(self)@ == UniverseView::edited(
                    Grid {
                        width: old(self)@.grid.width,
                        height: old(self)@.grid.height,
                        cells: cells@,
                    },
                ),
                Err(error) => done == Err::<(), EntropyError>(error) && final(self)@ == old(self)@,
            },
            final(self)@.wf(),
    {
        proof {
            use_type_invariant(&*self);
        }
        match drawn {
            Ok(cells) => {
                self.stable = false;
                self.cells = cells;
                Ok(())
            },
            Err(error) => Err(error),
        }
    }

    /// Fills the board at random: every cell is drawn on its own and is
    /// alive when its 64-bit sample is below `threshold`, so that a
    /// threshold of `p` times the largest 64-bit number makes a cell alive
    /// with probability `p`.
    ///
    /// If the system fails to deliver a sample the call fails as a whole:
    /// the universe is left as it was, cells and stability flag alike.
    pub fn set_random_universe(&mut self, threshold: u64) -> (done: Result<(), EntropyError>)
        ensures
            match done {
                Ok(_) => {
                    &&& final(self)@.grid.width == old(self)@.grid.width
                    &&& final(self)@.grid.height == old(self)@.grid.height
                    &&& !final(self)@.stable
                    &&& is_drawn(
                        final(self)@.grid.cells,
                        old(self)@.grid.width * old(self)@.grid.height,
                        threshold,
                    )
                    &&& threshold == 0 ==> final(self)@.grid == Grid::empty(
                        old(self)@.grid.width,
                        old(self)@.grid.height,
                    )
                },
                Err(_) => final(self)@ == old(self)@,
            },
            final(self)@.wf(),
    {
        proof {
            use_type_invariant(&*self);
            assert(self.cells@.len() == self.cells.len());
        }
        let drawn = Self::rand_cell(self.width, self.height, threshold);
        self.set_drawn_universe(drawn)
    }

    /// Fills the board with the pattern in which every second and every
    /// seventh cell is alive.
    pub fn set_27_universe(&mut self)
        ensures
            final(self)@ == UniverseView::edited(
                Grid::sampled(old(self)@.grid.width, old(self)@.grid.height),
            ),
            !final(self)@.stable,
            final(self)@.wf(),
    {
        proof {
            use_type_invariant(&*self);
            assert(self.cells@.len() == self.cells.len());
        }
        self.stable = false;
        self.cells = Self::example_cell(self.width, self.height);
    }

    /// Clears the board and puts a bar of three live cells on it, centred
    /// on `(2, 2)`.
    pub fn set_stable_universe(&mut self)
        ensures
            final(self)@ == UniverseView::edited(
                Grid::empty(old(self)@.grid.width, old(self)@.grid.height).with_bar(2, 2),
            ),
            !final(self)@.stable,
            final(self)@.wf(),
    {
        self.reset();
        self.add_stable(2, 2);
    }
}

/// The cells are what the samples give under the threshold, one sample
/// per cell.
pub open spec fn drawn_from(cells: Seq<Cell>, samples: Seq<u64>, threshold: u64) -> bool {
    &&& samples.len() == cells.len()
    &&& forall|i: int|
        0 <= i < cells.len() ==> cells[i] == Cell::of_sample(#[trigger] samples[i], threshold)
}

/// There are `count` cells and some samples give them under the
/// threshold.
pub open spec fn is_drawn(cells: Seq<Cell>, count: nat, threshold: u64) -> bool {
    &&& cells.len() == count
    &&& exists|samples: Seq<u64>| drawn_from(cells, samples, threshold)
}

} // verus!
