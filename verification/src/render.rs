//! The board as text: one line per row, one glyph per cell.

use itertools::Itertools;
use vstd::prelude::*;
use vstd::string::StringExecFns;
use crate::cell::Cell;
use crate::grid::Grid;

verus! {

/// The glyphs of row `y` of the board.
pub open spec fn row_text(g: Grid, y: int) -> Seq<char> {
    Seq::new(g.width, |x: int| g.cells[g.index(x, y)].glyph())
}

/// The first `n` rows of the board as text, with a line feed between one
/// row and the next and none at the end.
pub open spec fn rows_text(g: Grid, n: nat) -> Seq<char>
    decreases n,
{
    if n == 0 {
        Seq::empty()
    } else if n == 1 {
        row_text(g, 0)
    } else {
        rows_text(g, (n - 1) as nat) + seq!['\n'] + row_text(g, n - 1)
    }
}

/// The whole board as text.
pub open spec fn rendered(g: Grid) -> Seq<char> {
    rows_text(g, g.height)
}

/// The glyph of every cell, in order.
pub open spec fn glyphs_of(cells: Seq<Cell>) -> Seq<char> {
    cells.map_values(|cell: Cell| cell.glyph())
}

/// The number of pieces into which `len` items fall when cut every
/// `size` items.
pub open spec fn chunk_count(len: nat, size: nat) -> nat {
    ((len + size - 1) / (size as int)) as nat
}

/// Piece `i` of `items` cut every `size` items. Every piece holds
/// `size` items but the last, which holds what is left.
pub open spec fn chunk(items: Seq<char>, size: nat, i: int) -> Seq<char> {
    items.subrange(
        i * size,
        if (i + 1) * size <= items.len() {
            (i + 1) * size
        } else {
            items.len() as int
        },
    )
}

/// Calls `Itertools::chunks` on the characters and collects every chunk
/// into a string.
///
/// Trusted: the chunks come in order, each holds the next `size`
/// characters, and the last one holds the rest if fewer are left. A size
/// of zero makes the call panic and is left out.
#[verifier::external_body]
pub(crate) fn chunks(items: &Vec<char>, size: usize) -> (pieces: Vec<String>)
    requires
        size > 0,
    ensures
        pieces@.len() == chunk_count(items@.len(), size as nat),
        forall|i: int|
            0 <= i < pieces@.len() ==> (#[trigger] pieces@[i])@ == chunk(items@, size as nat, i),
{
    items.iter().chunks(size).into_iter().map(|piece| piece.collect::<String>()).collect()
}

/// On a well-formed board the pieces of the glyphs cut every `width`
/// glyphs are the board's rows.
proof fn lemma_chunks_are_rows(g: Grid)
    requires
        g.wf(),
    ensures
        chunk_count(g.cells.len(), g.width) == g.height,
        forall|y: int|
            0 <= y < g.height ==> #[trigger] chunk(glyphs_of(g.cells), g.width, y) == row_text(
                g,
                y,
            ),
{
    let w = g.width as int;
    let h = g.height as int;
    let len = g.cells.len() as int;
    assert(len == w * h);
    assert(w * h == h * w) by (nonlinear_arith);
    vstd::arithmetic::div_mod::lemma_fundamental_div_mod_converse(len + w - 1, w, h, w - 1);
    assert forall|y: int| 0 <= y < h implies #[trigger] chunk(glyphs_of(g.cells), g.width, y)
        == row_text(g, y) by {
        assert((y + 1) * w <= h * w) by (nonlinear_arith)
            requires
                0 <= y < h,
                0 < w,
        ;
        assert((y + 1) * w == y * w + w) by (nonlinear_arith);
        assert(0 <= y * w) by (nonlinear_arith)
            requires
                0 <= y,
                0 < w,
        ;
        assert(chunk(glyphs_of(g.cells), g.width, y) =~= row_text(g, y));
    }
}

/// Draws the cells of a board `width` cells wide.
pub fn render_cells(cells: &Vec<Cell>, width: u32, height: u32) -> (text: String)
    requires
        width >= 1,
        height >= 1,
        cells@.len() == width * height,
    ensures
        text@ == rendered(Grid { width: width as nat, height: height as nat, cells: cells@ }),
{
    let ghost g = Grid { width: width as nat, height: height as nat, cells: cells@ };
    let mut glyphs: Vec<char> = Vec::new();
    let mut i: usize = 0;
    while i < cells.len()
        invariant
            i <= cells@.len(),
            glyphs@.len() == i,
            forall|j: int| 0 <= j < i ==> glyphs@[j] == cells@[j].glyph(),
        decreases cells@.len() - i,
    {
        glyphs.push(cells[i].to_glyph());
        i += 1;
    }
    assert(glyphs@ =~= glyphs_of(cells@));
    let pieces = chunks(&glyphs, width as usize);
    proof {
        lemma_chunks_are_rows(g);
        reveal_strlit("\n");
        assert("\n"@ =~= seq!['\n']);
    }
    let mut text = String::new();
    let mut y: usize = 0;
    while y < pieces.len()
        invariant
            y <= pieces@.len(),
            pieces@.len() == g.height,
            forall|k: int| 0 <= k < pieces@.len() ==> (#[trigger] pieces@[k])@ == row_text(g, k),
            text@ == rows_text(g, y as nat),
            "\n"@ == seq!['\n'],
        decreases pieces@.len() - y,
    {
        if y > 0 {
            text.append("\n");
        }
        text.append(pieces[y].as_str());
        y += 1;
    }
    text
}

} // verus!
