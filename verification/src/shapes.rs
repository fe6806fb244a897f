//! The named patterns, in plaintext and as rows of cells.
//!
//! The rows of a pattern need not be equally long. A stamp writes the
//! cells that a row has, and right of a short row the board keeps what
//! it held.
//!
//! Each pattern is given as its text and as its rows, and a proof shows
//! that the text decodes to the rows. The proof writes the text out once
//! more: only a literal can be revealed to the verifier, and the proof
//! fails if the three ever differ.

use vstd::prelude::*;
use vstd::string::StringSliceAdditionalSpecFns;
use crate::cell::Cell;
use crate::pattern::{decode, lemma_decode_plaintext, plaintext, PatternError};

verus! {

/// The characters of `text` are the bytes of `bytes`, one for one, and
/// each is a character of one byte.
pub open spec fn spells(text: Seq<char>, bytes: Seq<u8>) -> bool {
    &&& text.len() == bytes.len()
    &&& vstd::utf8::is_ascii_chars(text)
    &&& forall|i: int| 0 <= i < text.len() ==> (#[trigger] text[i]) as u8 == bytes[i]
}

/// A text that spells the plaintext of a pattern without an empty row
/// decodes to that pattern.
pub proof fn lemma_text_decodes(text: &str, pattern: Seq<Seq<Cell>>)
    requires
        spells(text@, plaintext(pattern)),
        forall|r: int| 0 <= r < pattern.len() ==> (#[trigger] pattern[r]).len() > 0,
    ensures
        decode(text.spec_bytes()) == Ok::<Seq<Seq<Cell>>, PatternError>(pattern),
{
    assert(vstd::string::is_ascii(text));
    vstd::string::is_ascii_spec_bytes(text);
    assert(text.spec_bytes() =~= plaintext(pattern));
    lemma_decode_plaintext(pattern);
}

/// The loafer, a spaceship nine cells wide and high.
pub const LOAFER: &'static str = "\
.OO..O.OO\n\
O..O..OO.\n\
.O.O.....\n\
..O......\n\
........O\n\
......OOO\n\
.....O...\n\
......O..\n\
.......OO";

/// The rows of [`LOAFER`].
pub open spec fn loafer() -> Seq<Seq<Cell>> {
    let d = Cell::Dead;
    let o = Cell::Alive;
    seq![
        seq![d, o, o, d, d, o, d, o, o],
        seq![o, d, d, o, d, d, o, o, d],
        seq![d, o, d, o, d, d, d, d, d],
        seq![d, d, o, d, d, d, d, d, d],
        seq![d, d, d, d, d, d, d, d, o],
        seq![d, d, d, d, d, d, o, o, o],
        seq![d, d, d, d, d, o, d, d, d],
        seq![d, d, d, d, d, d, o, d, d],
        seq![d, d, d, d, d, d, d, o, o],
    ]
}

/// The text of [`LOAFER`] decodes to the rows of [`loafer`].
pub proof fn lemma_loafer_decodes()
    ensures
        decode(LOAFER.spec_bytes()) == Ok::<Seq<Seq<Cell>>, PatternError>(loafer()),
{
    reveal_strlit("\
.OO..O.OO\n\
O..O..OO.\n\
.O.O.....\n\
..O......\n\
........O\n\
......OOO\n\
.....O...\n\
......O..\n\
.......OO");
    reveal_with_fuel(plaintext, 10);
    assert(LOAFER@.len() == 89);
    lemma_text_decodes(LOAFER, loafer());
}

/// The glider, the smallest spaceship.
pub const GLIDER: &'static str = "\
.O\n\
..O\n\
OOO";

/// The rows of [`GLIDER`].
pub open spec fn glider() -> Seq<Seq<Cell>> {
    let d = Cell::Dead;
    let o = Cell::Alive;
    seq![
        seq![d, o],
        seq![d, d, o],
        seq![o, o, o],
    ]
}

/// The text of [`GLIDER`] decodes to the rows of [`glider`].
pub proof fn lemma_glider_decodes()
    ensures
        decode(GLIDER.spec_bytes()) == Ok::<Seq<Seq<Cell>>, PatternError>(glider()),
{
    reveal_strlit("\
.O\n\
..O\n\
OOO");
    reveal_with_fuel(plaintext, 4);
    assert(GLIDER@.len() == 10);
    lemma_text_decodes(GLIDER, glider());
}

/// The pulsar, an oscillator of period three.
pub const PULSAR: &'static str = "\
..OOO...OOO\n\
............\n\
O....O.O....O\n\
O....O.O....O\n\
O....O.O....O\n\
..OOO...OOO\n\
............\n\
..OOO...OOO\n\
O....O.O....O\n\
O....O.O....O\n\
O....O.O....O\n\
............\n\
..OOO...OOO";

/// The rows of [`PULSAR`].
pub open spec fn pulsar() -> Seq<Seq<Cell>> {
    let d = Cell::Dead;
    let o = Cell::Alive;
    seq![
        seq![d, d, o, o, o, d, d, d, o, o, o],
        seq![d, d, d, d, d, d, d, d, d, d, d, d],
        seq![o, d, d, d, d, o, d, o, d, d, d, d, o],
        seq![o, d, d, d, d, o, d, o, d, d, d, d, o],
        seq![o, d, d, d, d, o, d, o, d, d, d, d, o],
        seq![d, d, o, o, o, d, d, d, o, o, o],
        seq![d, d, d, d, d, d, d, d, d, d, d, d],
        seq![d, d, o, o, o, d, d, d, o, o, o],
        seq![o, d, d, d, d, o, d, o, d, d, d, d, o],
        seq![o, d, d, d, d, o, d, o, d, d, d, d, o],
        seq![o, d, d, d, d, o, d, o, d, d, d, d, o],
        seq![d, d, d, d, d, d, d, d, d, d, d, d],
        seq![d, d, o, o, o, d, d, d, o, o, o],
    ]
}

/// The text of [`PULSAR`] decodes to the rows of [`pulsar`].
pub proof fn lemma_pulsar_decodes()
    ensures
        decode(PULSAR.spec_bytes()) == Ok::<Seq<Seq<Cell>>, PatternError>(pulsar()),
{
    reveal_strlit("\
..OOO...OOO\n\
............\n\
O....O.O....O\n\
O....O.O....O\n\
O....O.O....O\n\
..OOO...OOO\n\
............\n\
..OOO...OOO\n\
O....O.O....O\n\
O....O.O....O\n\
O....O.O....O\n\
............\n\
..OOO...OOO");
    reveal_with_fuel(plaintext, 14);
    assert(PULSAR@.len() == 170);
    lemma_text_decodes(PULSAR, pulsar());
}

} // verus!
