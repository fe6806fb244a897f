//! What holds of the board and of the universe in general.

use vstd::prelude::*;
use crate::cell::Cell;
use crate::grid::{lemma_index_in_range, lemma_index_wrapped_in_range, lemma_position_of_index, Grid};
use crate::stamp::{
    is_rectangular, lemma_stamp_row_preserves_shape, lemma_stamp_rows_preserves_shape,
    pattern_width,
};
use crate::universe::UniverseView;

verus! {

/// A generation keeps the board's size.
pub proof fn lemma_next_generation_shape(g: Grid)
    requires
        g.wf(),
    ensures
        g.next_generation().wf(),
        g.next_generation().width == g.width,
        g.next_generation().height == g.height,
{
}

/// A step of a well-formed universe is well formed: if the step changed
/// nothing, the next one will change nothing either.
pub proof fn lemma_step_preserves_wf(u: UniverseView)
    requires
        u.wf(),
    ensures
        u.step().wf(),
{
}

/// After a step the cell at every position is what the transition rule
/// makes of that cell and of its live neighbours before the step.
pub proof fn lemma_step_follows_rule(u: UniverseView, x: int, y: int)
    requires
        u.wf(),
        0 <= x < u.grid.width,
        0 <= y < u.grid.height,
    ensures
        u.step().grid.cell(x, y) == u.grid.cell(x, y).next(u.grid.neighbor_count(x, y)),
{
    lemma_index_in_range(u.grid, x, y);
    lemma_index_in_range(u.step().grid, x, y);
}

/// A step looks at the board alone: two universes that hold the same
/// board are the same after any number of steps, however their stability
/// flags stood.
pub proof fn lemma_step_deterministic(a: UniverseView, b: UniverseView, n: nat)
    requires
        a.grid == b.grid,
        n >= 1,
    ensures
        a.steps(n) == b.steps(n),
    decreases n,
{
    if n > 1 {
        lemma_step_deterministic(a, b, (n - 1) as nat);
    } else {
        assert(a.steps(0) == a);
        assert(b.steps(0) == b);
    }
}

/// Once the stability flag is set, steps change nothing.
pub proof fn lemma_stable_stays(u: UniverseView, n: nat)
    requires
        u.wf(),
        u.stable,
    ensures
        u.steps(n) == u,
    decreases n,
{
    if n > 0 {
        lemma_stable_stays(u, (n - 1) as nat);
    }
}

/// A universe whose board a generation leaves as it is has its stability
/// flag set by its first step, however the flag stood before, and keeps
/// its board through every step.
pub proof fn lemma_still_board_settles(u: UniverseView, n: nat)
    requires
        u.grid.is_still(),
        n >= 1,
    ensures
        u.steps(n).grid == u.grid,
        u.steps(n).stable,
    decreases n,
{
    if n > 1 {
        lemma_still_board_settles(u, (n - 1) as nat);
    } else {
        assert(u.steps(0) == u);
    }
}

/// A step sets the stability flag only if it changed nothing.
pub proof fn lemma_changed_board_is_not_stable(u: UniverseView)
    requires
        u.step().grid != u.grid,
    ensures
        !u.step().stable,
{
}

/// On an all-dead board no cell has a live neighbour.
pub proof fn lemma_dead_board_has_no_neighbors(g: Grid, x: int, y: int)
    requires
        g.wf(),
        g.all_dead(),
    ensures
        g.neighbor_count(x, y) == 0,
{
    assert forall|dx: int, dy: int| #[trigger] g.neighbor_term(x, y, dx, dy) == 0 by {
        lemma_index_wrapped_in_range(g, x + dx, y + dy);
    }
}

/// A generation leaves an all-dead board as it is.
pub proof fn lemma_dead_board_is_still(g: Grid)
    requires
        g.wf(),
        g.all_dead(),
    ensures
        g.is_still(),
{
    assert forall|i: int| 0 <= i < g.cells.len() implies g.next_cell(i) == g.cells[i] by {
        lemma_dead_board_has_no_neighbors(g, i % (g.width as int), i / (g.width as int));
    }
    assert(g.next_generation().cells =~= g.cells);
}

/// An empty universe stays empty however many steps it takes, and from
/// its first step on its stability flag is set.
pub proof fn lemma_empty_stays_empty(width: nat, height: nat, n: nat)
    requires
        width >= 1,
        height >= 1,
    ensures
        UniverseView::edited(Grid::empty(width, height)).steps(n).grid == Grid::empty(
            width,
            height,
        ),
        n >= 1 ==> UniverseView::edited(Grid::empty(width, height)).steps(n).stable,
{
    let empty = Grid::empty(width, height);
    lemma_dead_board_is_still(empty);
    if n > 0 {
        lemma_still_board_settles(UniverseView::edited(empty), n);
    }
}

/// An edit clears the stability flag, whatever it does to the board. Every
/// edit that completes leaves the universe `edited`; the one edit that
/// can fail, the random reseed, then leaves the universe as it was.
pub proof fn lemma_edit_clears_stability(grid: Grid)
    ensures
        !UniverseView::edited(grid).stable,
        grid.wf() ==> UniverseView::edited(grid).wf(),
{
}

/// For a step of `d` cells along an axis of `size` cells, an offset of
/// the neighbourhood walk that leads back to where the step began.
proof fn lemma_offset_back(d: int, size: int) -> (o: int)
    requires
        size >= 1,
        -1 <= d <= 1,
    ensures
        o == size - 1 || o == 0 || o == 1,
        (d % size + o) % size == 0,
        d != 0 ==> o != 0,
        0 <= d % size < size,
{
    vstd::arithmetic::div_mod::lemma_mod_bound(d, size);
    if size == 1 {
        assert((d % size + 1) % size == 0);
        1
    } else if d == 1 {
        vstd::arithmetic::div_mod::lemma_small_mod(1, size as nat);
        vstd::arithmetic::div_mod::lemma_mod_self_0(size);
        size - 1
    } else if d == -1 {
        vstd::arithmetic::div_mod::lemma_mod_add_multiples_vanish(-1, size);
        vstd::arithmetic::div_mod::lemma_small_mod((size - 1) as nat, size as nat);
        vstd::arithmetic::div_mod::lemma_mod_self_0(size);
        1
    } else {
        vstd::arithmetic::div_mod::lemma_small_mod(0, size as nat);
        0
    }
}

/// The board wraps: a live cell at the origin is counted as a neighbour
/// of each of the eight positions around it, those across the edges
/// included.
///
/// The eight positions are the origin moved by `-1`, `0` or `1` along
/// each axis, not by `0` along both, and wrapped: on a board of width `W`
/// and height `H` they are `(W-1, H-1)`, `(0, H-1)`, `(1, H-1)`,
/// `(W-1, 0)`, `(1, 0)`, `(W-1, 1)`, `(0, 1)` and `(1, 1)`, where a `1`
/// stands for `0` on an axis of one cell.
pub proof fn lemma_origin_counts_around(g: Grid, dx: int, dy: int)
    requires
        g.wf(),
        g.cell(0, 0) == Cell::Alive,
        -1 <= dx <= 1,
        -1 <= dy <= 1,
        dx != 0 || dy != 0,
    ensures
        g.neighbor_count(dx % (g.width as int), dy % (g.height as int)) >= 1,
{
    let w = g.width as int;
    let h = g.height as int;
    let x = dx % w;
    let y = dy % h;
    let ox = lemma_offset_back(dx, w);
    let oy = lemma_offset_back(dy, h);
    assert(g.index_wrapped(x + ox, y + oy) == g.index_wrapped(0, 0)) by {
        vstd::arithmetic::div_mod::lemma_small_mod(0, w as nat);
        vstd::arithmetic::div_mod::lemma_small_mod(0, h as nat);
    }
    assert(g.neighbor_term(x, y, ox, oy) == 1);
}

/// Two wrapped positions share an index exactly when they are the same
/// position of the board.
pub proof fn lemma_index_wrapped_injective(g: Grid, x1: int, y1: int, x2: int, y2: int)
    requires
        g.wf(),
    ensures
        g.index_wrapped(x1, y1) == g.index_wrapped(x2, y2) <==> (x1 % (g.width as int) == x2 % (
        g.width as int) && y1 % (g.height as int) == y2 % (g.height as int)),
{
    let w = g.width as int;
    let h = g.height as int;
    vstd::arithmetic::div_mod::lemma_mod_bound(x1, w);
    vstd::arithmetic::div_mod::lemma_mod_bound(x2, w);
    vstd::arithmetic::div_mod::lemma_mod_bound(y1, h);
    vstd::arithmetic::div_mod::lemma_mod_bound(y2, h);
    lemma_index_in_range(g, x1 % w, y1 % h);
    lemma_index_in_range(g, x2 % w, y2 % h);
}

/// Two different coordinates less than `size` apart wrap to different
/// places on an axis of `size` cells.
pub proof fn lemma_wrap_distinct(a: int, b: int, size: int)
    requires
        size >= 1,
        a != b,
        -size < a - b < size,
    ensures
        a % size != b % size,
{
    vstd::arithmetic::div_mod::lemma_mod_equivalence(a, b, size);
    vstd::arithmetic::div_mod::lemma_mod_equivalence(b, a, size);
    if a > b {
        vstd::arithmetic::div_mod::lemma_small_mod((a - b) as nat, size as nat);
    } else {
        vstd::arithmetic::div_mod::lemma_small_mod((b - a) as nat, size as nat);
    }
}

/// The index at which a stamp that starts at `(x, y)` writes the cell
/// `c` of its row `r`.
pub open spec fn stamp_target(g: Grid, x: int, y: int, r: int, c: int) -> int {
    g.index_wrapped(x + c, y + r)
}

proof fn lemma_stamp_row_frame(g: Grid, row: Seq<Cell>, x: int, y: int, n: nat, i: int)
    requires
        g.wf(),
        0 <= i < g.cells.len(),
        forall|c: int| 0 <= c < n ==> #[trigger] stamp_target(g, x, y, 0, c) != i,
    ensures
        g.stamp_row(row, x, y, n).cells[i] == g.cells[i],
    decreases n,
{
    if n > 0 {
        let before = g.stamp_row(row, x, y, (n - 1) as nat);
        lemma_stamp_row_frame(g, row, x, y, (n - 1) as nat, i);
        lemma_stamp_row_preserves_shape(g, row, x, y, (n - 1) as nat);
        lemma_index_wrapped_in_range(before, x + n - 1, y);
        assert(stamp_target(g, x, y, 0, n - 1) != i);
    }
}

proof fn lemma_stamp_row_value(g: Grid, row: Seq<Cell>, x: int, y: int, n: nat, c: int)
    requires
        g.wf(),
        n <= g.width,
        0 <= c < n,
    ensures
        g.stamp_row(row, x, y, n).cell(x + c, y) == row[c],
    decreases n,
{
    let before = g.stamp_row(row, x, y, (n - 1) as nat);
    lemma_stamp_row_preserves_shape(g, row, x, y, (n - 1) as nat);
    lemma_index_wrapped_in_range(before, x + n - 1, y);
    lemma_index_wrapped_in_range(before, x + c, y);
    if c < n - 1 {
        lemma_stamp_row_value(g, row, x, y, (n - 1) as nat, c);
        lemma_wrap_distinct(x + c, x + n - 1, g.width as int);
        lemma_index_wrapped_injective(before, x + c, y, x + n - 1, y);
    }
}

proof fn lemma_stamp_rows_frame(
    g: Grid,
    pattern: Seq<Seq<Cell>>,
    x: int,
    y: int,
    m: nat,
    i: int,
)
    requires
        g.wf(),
        m <= pattern.len(),
        0 <= i < g.cells.len(),
        forall|r: int, c: int|
            0 <= r < m && 0 <= c < pattern[r].len() ==> #[trigger] stamp_target(g, x, y, r, c)
                != i,
    ensures
        g.stamp_rows(pattern, x, y, m).cells[i] == g.cells[i],
    decreases m,
{
    if m > 0 {
        let before = g.stamp_rows(pattern, x, y, (m - 1) as nat);
        lemma_stamp_rows_frame(g, pattern, x, y, (m - 1) as nat, i);
        lemma_stamp_rows_preserves_shape(g, pattern, x, y, (m - 1) as nat);
        assert forall|c: int| 0 <= c < pattern[m - 1].len() implies #[trigger] stamp_target(
            before,
            x,
            y + m - 1,
            0,
            c,
        ) != i by {
            assert(stamp_target(g, x, y, m - 1, c) != i);
        }
        lemma_stamp_row_frame(before, pattern[m - 1], x, y + m - 1, pattern[m - 1].len(), i);
    }
}

proof fn lemma_stamp_rows_value(
    g: Grid,
    pattern: Seq<Seq<Cell>>,
    x: int,
    y: int,
    m: nat,
    r: int,
    c: int,
)
    requires
        g.wf(),
        m <= pattern.len(),
        m <= g.height,
        forall|k: int| 0 <= k < m ==> (#[trigger] pattern[k]).len() <= g.width,
        0 <= r < m,
        0 <= c < pattern[r].len(),
    ensures
        g.stamp_rows(pattern, x, y, m).cell(x + c, y + r) == pattern[r][c],
    decreases m,
{
    let before = g.stamp_rows(pattern, x, y, (m - 1) as nat);
    let last = pattern[m - 1];
    lemma_stamp_rows_preserves_shape(g, pattern, x, y, (m - 1) as nat);
    lemma_stamp_row_preserves_shape(before, last, x, y + m - 1, last.len());
    if r == m - 1 {
        lemma_stamp_row_value(before, last, x, y + m - 1, last.len(), c);
    } else {
        lemma_stamp_rows_value(g, pattern, x, y, (m - 1) as nat, r, c);
        let i = before.index_wrapped(x + c, y + r);
        lemma_index_wrapped_in_range(before, x + c, y + r);
        lemma_wrap_distinct(y + r, y + m - 1, g.height as int);
        assert forall|k: int| 0 <= k < last.len() implies #[trigger] stamp_target(
            before,
            x,
            y + m - 1,
            0,
            k,
        ) != i by {
            lemma_index_wrapped_injective(before, x + k, y + m - 1, x + c, y + r);
        }
        lemma_stamp_row_frame(before, last, x, y + m - 1, last.len(), i);
    }
}

/// The pattern has no more rows than the board and no row longer than a
/// row of the board, so that no two of its cells land on one position.
pub open spec fn fits(g: Grid, pattern: Seq<Seq<Cell>>) -> bool {
    &&& pattern.len() <= g.height
    &&& forall|k: int| 0 <= k < pattern.len() ==> (#[trigger] pattern[k]).len() <= g.width
}

/// A stamp keeps the board's size.
pub proof fn lemma_stamp_preserves_shape(
    g: Grid,
    pattern: Seq<Seq<Cell>>,
    anchor_x: int,
    anchor_y: int,
    centered: bool,
)
    requires
        g.wf(),
    ensures
        g.stamped(pattern, anchor_x, anchor_y, centered).wf(),
        g.stamped(pattern, anchor_x, anchor_y, centered).width == g.width,
        g.stamped(pattern, anchor_x, anchor_y, centered).height == g.height,
{
    lemma_stamp_rows_preserves_shape(
        g,
        pattern,
        crate::stamp::stamp_origin(anchor_x, pattern_width(pattern), centered),
        crate::stamp::stamp_origin(anchor_y, pattern.len(), centered),
        pattern.len(),
    );
}

/// A stamp that fits on the board puts every cell of the pattern where
/// it belongs: cell `c` of row `r` lies `c` columns and `r` rows from the
/// stamp's origin, wrapped.
pub proof fn lemma_stamp_places_pattern(
    g: Grid,
    pattern: Seq<Seq<Cell>>,
    anchor_x: int,
    anchor_y: int,
    centered: bool,
    r: int,
    c: int,
)
    requires
        g.wf(),
        fits(g, pattern),
        0 <= r < pattern.len(),
        0 <= c < pattern[r].len(),
    ensures
        g.stamped(pattern, anchor_x, anchor_y, centered).cell(
            crate::stamp::stamp_origin(anchor_x, pattern_width(pattern), centered) + c,
            crate::stamp::stamp_origin(anchor_y, pattern.len(), centered) + r,
        ) == pattern[r][c],
{
    lemma_stamp_rows_value(
        g,
        pattern,
        crate::stamp::stamp_origin(anchor_x, pattern_width(pattern), centered),
        crate::stamp::stamp_origin(anchor_y, pattern.len(), centered),
        pattern.len(),
        r,
        c,
    );
}

/// A stamp leaves every cell that it does not write as it was.
pub proof fn lemma_stamp_keeps_rest(
    g: Grid,
    pattern: Seq<Seq<Cell>>,
    anchor_x: int,
    anchor_y: int,
    centered: bool,
    i: int,
)
    requires
        g.wf(),
        0 <= i < g.cells.len(),
        forall|r: int, c: int|
            0 <= r < pattern.len() && 0 <= c < pattern[r].len() ==> #[trigger] stamp_target(
                g,
                crate::stamp::stamp_origin(anchor_x, pattern_width(pattern), centered),
                crate::stamp::stamp_origin(anchor_y, pattern.len(), centered),
                r,
                c,
            ) != i,
    ensures
        g.stamped(pattern, anchor_x, anchor_y, centered).cells[i] == g.cells[i],
{
    lemma_stamp_rows_frame(
        g,
        pattern,
        crate::stamp::stamp_origin(anchor_x, pattern_width(pattern), centered),
        crate::stamp::stamp_origin(anchor_y, pattern.len(), centered),
        pattern.len(),
        i,
    );
}

/// A pattern of the board's own size, stamped by its corner at the
/// origin, becomes the board: the cells read row by row are the rows of
/// the pattern one after the other.
pub proof fn lemma_stamp_exact_fit(g: Grid, pattern: Seq<Seq<Cell>>)
    requires
        g.wf(),
        pattern.len() == g.height,
        pattern_width(pattern) == g.width,
        is_rectangular(pattern),
    ensures
        g.stamped(pattern, 0, 0, false).cells == Seq::new(
            g.width * g.height,
            |i: int| pattern[i / (g.width as int)][i % (g.width as int)],
        ),
{
    let stamped = g.stamped(pattern, 0, 0, false);
    lemma_stamp_rows_preserves_shape(g, pattern, 0, 0, pattern.len());
    assert forall|i: int| 0 <= i < g.cells.len() implies stamped.cells[i] == pattern[i / (
    g.width as int)][i % (g.width as int)] by {
        let r = i / (g.width as int);
        let c = i % (g.width as int);
        lemma_position_of_index(g, i);
        lemma_stamp_places_pattern(g, pattern, 0, 0, false, r, c);
        lemma_index_in_range(stamped, c, r);
    }
    assert(stamped.cells =~= Seq::new(
        g.width * g.height,
        |i: int| pattern[i / (g.width as int)][i % (g.width as int)],
    ));
}

} // verus!
