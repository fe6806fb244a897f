//! The plaintext notation for patterns and its decoder.
//!
//! A pattern is written one row per line, `.` for a dead cell and `O` for
//! a live one. White space around a line is ignored and so are lines that
//! hold nothing else. The text is read as bytes: a white space character
//! is one of the byte sequences by which UTF-8 writes the characters that
//! Unicode calls white space.

use vstd::prelude::*;
use vstd::string::StringExecFns;
use crate::cell::Cell;
use vstd::string::StringSliceAdditionalSpecFns;

verus! {

/// Why a text is not a pattern.
#[derive(Clone, Copy, Debug, PartialEq, Eq, Structural)]
pub enum PatternError {
    /// A line holds a byte other than `.` and `O` between its first and
    /// its last visible byte.
    UnknownCharacter,
}

impl PatternError {
    /// What went wrong, in words.
    pub open spec fn text(self) -> Seq<char> {
        "Unknown plaintext character"@
    }

    /// What went wrong, in words.
    pub fn message(&self) -> (message: String)
        ensures
            message@ == self.text(),
    {
        String::from_str("Unknown plaintext character")
    }
}

/// The byte that ends a line.
pub open spec fn is_line_feed(byte: u8) -> bool {
    byte == 0x0a
}

/// The white space characters of one byte: space, tab, line feed,
/// vertical tab, form feed and carriage return.
pub open spec fn is_blank(byte: u8) -> bool {
    byte == 0x20 || (0x09 <= byte && byte <= 0x0d)
}

/// The white space characters of two bytes: next line (U+0085) and
/// no-break space (U+00A0).
pub open spec fn is_blank_pair(first: u8, second: u8) -> bool {
    first == 0xc2 && (second == 0x85 || second == 0xa0)
}

/// The white space characters of three bytes: ogham space mark (U+1680),
/// the spaces U+2000 to U+200A, line separator (U+2028), paragraph
/// separator (U+2029), narrow no-break space (U+202F), medium mathematical
/// space (U+205F) and ideographic space (U+3000).
pub open spec fn is_blank_triple(first: u8, second: u8, third: u8) -> bool {
    ||| first == 0xe1 && second == 0x9a && third == 0x80
    ||| first == 0xe2 && second == 0x80 && ((0x80 <= third && third <= 0x8a) || third == 0xa8
        || third == 0xa9 || third == 0xaf)
    ||| first == 0xe2 && second == 0x81 && third == 0x9f
    ||| first == 0xe3 && second == 0x80 && third == 0x80
}

/// The number of bytes of the white space character that the line starts
/// with, or zero if it starts with none.
pub open spec fn blank_at_start(line: Seq<u8>) -> nat {
    if line.len() >= 1 && is_blank(line[0]) {
        1
    } else if line.len() >= 2 && is_blank_pair(line[0], line[1]) {
        2
    } else if line.len() >= 3 && is_blank_triple(line[0], line[1], line[2]) {
        3
    } else {
        0
    }
}

/// The number of bytes of the white space character that the line ends
/// with, or zero if it ends with none.
pub open spec fn blank_at_end(line: Seq<u8>) -> nat {
    let n = line.len() as int;
    if n >= 1 && is_blank(line[n - 1]) {
        1
    } else if n >= 2 && is_blank_pair(line[n - 2], line[n - 1]) {
        2
    } else if n >= 3 && is_blank_triple(line[n - 3], line[n - 2], line[n - 1]) {
        3
    } else {
        0
    }
}

/// The number of bytes before the first line feed, or the length of the
/// text if there is none.
pub open spec fn first_line_len(text: Seq<u8>) -> nat
    decreases text.len(),
{
    if text.len() == 0 || is_line_feed(text[0]) {
        0
    } else {
        1 + first_line_len(text.drop_first())
    }
}

/// The text cut at every line feed. A text of `n` line feeds has `n + 1`
/// lines, the last of which may be empty.
pub open spec fn lines(text: Seq<u8>) -> Seq<Seq<u8>>
    decreases text.len(),
{
    let n = first_line_len(text);
    if n >= text.len() {
        seq![text]
    } else {
        seq![text.take(n as int)] + lines(text.skip(n as int + 1))
    }
}

/// The line without the white space at its start.
pub open spec fn trim_start(line: Seq<u8>) -> Seq<u8>
    decreases line.len(),
{
    if blank_at_start(line) > 0 {
        trim_start(line.skip(blank_at_start(line) as int))
    } else {
        line
    }
}

/// The line without the white space at its end.
pub open spec fn trim_end(line: Seq<u8>) -> Seq<u8>
    decreases line.len(),
{
    if blank_at_end(line) > 0 {
        trim_end(line.take(line.len() - blank_at_end(line)))
    } else {
        line
    }
}

/// The line without the white space at either end.
pub open spec fn trim(line: Seq<u8>) -> Seq<u8> {
    trim_end(trim_start(line))
}

/// Every line trimmed.
pub open spec fn trimmed(raw: Seq<Seq<u8>>) -> Seq<Seq<u8>> {
    raw.map_values(|line: Seq<u8>| trim(line))
}

/// The lines that are not empty, in their order.
pub open spec fn nonempty(rows: Seq<Seq<u8>>) -> Seq<Seq<u8>> {
    rows.filter(|line: Seq<u8>| line.len() > 0)
}

/// Every byte of the line stands for a cell.
pub open spec fn is_row(line: Seq<u8>) -> bool {
    forall|i: int| 0 <= i < line.len() ==> (#[trigger] Cell::of_byte(line[i])) is Some
}

/// The cells that the bytes of a line stand for.
pub open spec fn row_cells(line: Seq<u8>) -> Seq<Cell> {
    line.map_values(|byte: u8| Cell::of_byte(byte).unwrap())
}

/// The rows of cells that lines of pattern bytes stand for.
pub open spec fn rows_cells(rows: Seq<Seq<u8>>) -> Seq<Seq<Cell>> {
    rows.map_values(|line: Seq<u8>| row_cells(line))
}

/// What a text decodes to.
///
/// The text is cut into lines and every line is trimmed. If a trimmed
/// line holds a byte other than `.` and `O` the text is no pattern.
/// Otherwise the pattern has one row for each line that is not empty once
/// trimmed, in the order of the lines, and each row is as long as its
/// line; rows may differ in length.
pub open spec fn decode(text: Seq<u8>) -> Result<Seq<Seq<Cell>>, PatternError> {
    let rows = trimmed(lines(text));
    if forall|k: int| 0 <= k < rows.len() ==> is_row(#[trigger] rows[k]) {
        Ok(rows_cells(nonempty(rows)))
    } else {
        Err(PatternError::UnknownCharacter)
    }
}

/// A row of cells in plaintext.
pub open spec fn row_text(row: Seq<Cell>) -> Seq<u8> {
    row.map_values(|cell: Cell| cell.byte())
}

/// A pattern in plaintext: its rows in their order with a line feed
/// between one row and the next.
pub open spec fn plaintext(pattern: Seq<Seq<Cell>>) -> Seq<u8>
    decreases pattern.len(),
{
    if pattern.len() == 0 {
        Seq::empty()
    } else if pattern.len() == 1 {
        row_text(pattern[0])
    } else {
        row_text(pattern[0]) + seq![0x0au8] + plaintext(pattern.drop_first())
    }
}

/// A pattern held in vectors, as a sequence of rows.
pub open spec fn rows_of(pattern: &Vec<Vec<Cell>>) -> Seq<Seq<Cell>> {
    pattern@.map_values(|row: Vec<Cell>| row@)
}

proof fn lemma_nonempty_push(rows: Seq<Seq<u8>>, line: Seq<u8>)
    ensures
        nonempty(rows.push(line)) == if line.len() > 0 {
            nonempty(rows).push(line)
        } else {
            nonempty(rows)
        },
{
    reveal(Seq::filter);
    assert(rows.push(line).drop_last() =~= rows);
}

proof fn lemma_first_line_len_bound(text: Seq<u8>)
    ensures
        first_line_len(text) <= text.len(),
        first_line_len(text) < text.len() ==> is_line_feed(text[first_line_len(text) as int]),
        forall|i: int| 0 <= i < first_line_len(text) ==> !is_line_feed(#[trigger] text[i]),
    decreases text.len(),
{
    if text.len() == 0 || is_line_feed(text[0]) {
    } else {
        let rest = text.drop_first();
        lemma_first_line_len_bound(rest);
        assert forall|i: int| 0 <= i < first_line_len(text) implies !is_line_feed(
            #[trigger] text[i],
        ) by {
            if i > 0 {
                assert(text[i] == rest[i - 1]);
            }
        }
        if first_line_len(text) < text.len() {
            assert(text[first_line_len(text) as int] == rest[first_line_len(rest) as int]);
        }
    }
}

/// A line of cells has no white space to trim.
proof fn lemma_row_is_trimmed(line: Seq<u8>)
    requires
        is_row(line),
    ensures
        trim(line) == line,
{
    if line.len() > 0 {
        assert(Cell::of_byte(line.first()) is Some);
        assert(Cell::of_byte(line.last()) is Some);
    }
}

/// A row in plaintext is a line of cells, and reading it gives the row
/// back.
proof fn lemma_row_text_is_row(row: Seq<Cell>)
    ensures
        is_row(row_text(row)),
        row_cells(row_text(row)) == row,
        row_text(row).len() == row.len(),
        forall|i: int| 0 <= i < row.len() ==> !is_line_feed(#[trigger] row_text(row)[i]),
{
    assert(row_cells(row_text(row)) =~= row);
}

/// A line without a line feed, followed by nothing or by a line feed, is
/// the first line.
proof fn lemma_first_line_len_of(line: Seq<u8>, rest: Seq<u8>)
    requires
        forall|i: int| 0 <= i < line.len() ==> !is_line_feed(#[trigger] line[i]),
        rest.len() == 0 || is_line_feed(rest[0]),
    ensures
        first_line_len(line + rest) == line.len(),
    decreases line.len(),
{
    let text = line + rest;
    if line.len() == 0 {
        assert(text =~= rest);
    } else {
        assert(text[0] == line[0]);
        assert(text.drop_first() =~= line.drop_first() + rest);
        assert forall|i: int| 0 <= i < line.drop_first().len() implies !is_line_feed(
            #[trigger] line.drop_first()[i],
        ) by {
            assert(line.drop_first()[i] == line[i + 1]);
        }
        lemma_first_line_len_of(line.drop_first(), rest);
    }
}

/// The lines of a pattern's plaintext are its rows in plaintext.
proof fn lemma_lines_of_plaintext(pattern: Seq<Seq<Cell>>)
    requires
        pattern.len() >= 1,
    ensures
        lines(plaintext(pattern)) == pattern.map_values(|row: Seq<Cell>| row_text(row)),
    decreases pattern.len(),
{
    let first = row_text(pattern[0]);
    let text = plaintext(pattern);
    let rows = pattern.map_values(|row: Seq<Cell>| row_text(row));
    lemma_row_text_is_row(pattern[0]);
    if pattern.len() == 1 {
        lemma_first_line_len_of(first, Seq::empty());
        assert(first + Seq::<u8>::empty() =~= first);
        assert(lines(text) =~= rows);
    } else {
        let tail = pattern.drop_first();
        let rest = seq![0x0au8] + plaintext(tail);
        assert(text =~= first + rest);
        lemma_first_line_len_of(first, rest);
        assert(text.take(first.len() as int) =~= first);
        assert(text.skip(first.len() as int + 1) =~= plaintext(tail));
        lemma_lines_of_plaintext(tail);
        assert(lines(text) =~= rows);
    }
}

/// Writing a pattern in plaintext and decoding the text gives the pattern
/// back, provided that none of its rows is empty: an empty row would be
/// a blank line, which the decoder drops.
pub proof fn lemma_decode_plaintext(pattern: Seq<Seq<Cell>>)
    requires
        forall|r: int| 0 <= r < pattern.len() ==> (#[trigger] pattern[r]).len() > 0,
    ensures
        decode(plaintext(pattern)) == Ok::<Seq<Seq<Cell>>, PatternError>(pattern),
{
    let text = plaintext(pattern);
    if pattern.len() == 0 {
        assert(lines(text) =~= seq![Seq::<u8>::empty()]);
        assert(trimmed(lines(text)) =~= seq![Seq::<u8>::empty()]);
        lemma_nonempty_push(Seq::empty(), Seq::<u8>::empty());
        assert(Seq::<Seq<u8>>::empty().push(Seq::<u8>::empty()) =~= seq![Seq::<u8>::empty()]);
        assert(nonempty(Seq::<Seq<u8>>::empty()) =~= Seq::<Seq<u8>>::empty()) by {
            reveal(Seq::filter);
        }
        assert(rows_cells(Seq::<Seq<u8>>::empty()) =~= pattern);
    } else {
        let rows = pattern.map_values(|row: Seq<Cell>| row_text(row));
        lemma_lines_of_plaintext(pattern);
        assert forall|k: int| 0 <= k < rows.len() implies is_row(#[trigger] rows[k]) && trim(
            rows[k],
        ) == rows[k] && rows[k].len() > 0 by {
            lemma_row_text_is_row(pattern[k]);
            lemma_row_is_trimmed(rows[k]);
        }
        assert(trimmed(rows) =~= rows);
        lemma_nonempty_keeps_all(rows);
        assert(rows_cells(rows) =~= pattern) by {
            assert forall|k: int| 0 <= k < rows.len() implies rows_cells(rows)[k] == pattern[k] by {
                lemma_row_text_is_row(pattern[k]);
            }
        }
    }
}

/// Where no line is empty, none is dropped.
proof fn lemma_nonempty_keeps_all(rows: Seq<Seq<u8>>)
    requires
        forall|k: int| 0 <= k < rows.len() ==> (#[trigger] rows[k]).len() > 0,
    ensures
        nonempty(rows) == rows,
    decreases rows.len(),
{
    if rows.len() == 0 {
        assert(nonempty(rows) =~= rows) by {
            reveal(Seq::filter);
        }
    } else {
        let front = rows.drop_last();
        lemma_nonempty_keeps_all(front);
        lemma_nonempty_push(front, rows.last());
        assert(front.push(rows.last()) =~= rows);
    }
}

/// Finds where the line that starts at `start` ends.
fn line_end(text: &[u8], start: usize) -> (end: usize)
    requires
        start <= text@.len(),
    ensures
        start <= end <= text@.len(),
        end - start == first_line_len(text@.skip(start as int)),
{
    let mut end = start;
    while end < text.len() && text[end] != 0x0a
        invariant
            start <= end <= text@.len(),
            first_line_len(text@.skip(start as int)) == (end - start) + first_line_len(
                text@.skip(end as int),
            ),
        decreases text@.len() - end,
    {
        assert(text@.skip(end as int).drop_first() =~= text@.skip(end + 1));
        end += 1;
    }
    end
}

/// Measures the white space character at the start of
/// `text[from..end]`.
fn blank_len_at_start(text: &[u8], from: usize, end: usize) -> (len: usize)
    requires
        from <= end <= text@.len(),
    ensures
        len == blank_at_start(text@.subrange(from as int, end as int)),
        len <= end - from,
{
    let left = end - from;
    if left >= 1 && is_blank_byte(text[from]) {
        1
    } else if left >= 2 && is_blank_bytes(text[from], text[from + 1]) {
        2
    } else if left >= 3 && is_blank_byte_triple(text[from], text[from + 1], text[from + 2]) {
        3
    } else {
        0
    }
}

/// Measures the white space character at the end of `text[from..end]`.
fn blank_len_at_end(text: &[u8], from: usize, end: usize) -> (len: usize)
    requires
        from <= end <= text@.len(),
    ensures
        len == blank_at_end(text@.subrange(from as int, end as int)),
        len <= end - from,
{
    let left = end - from;
    if left >= 1 && is_blank_byte(text[end - 1]) {
        1
    } else if left >= 2 && is_blank_bytes(text[end - 2], text[end - 1]) {
        2
    } else if left >= 3 && is_blank_byte_triple(text[end - 3], text[end - 2], text[end - 1]) {
        3
    } else {
        0
    }
}

/// Finds the part of `text[start..end]` that is left once the white
/// space at both ends is gone.
fn trim_bounds(text: &[u8], start: usize, end: usize) -> (bounds: (usize, usize))
    requires
        start <= end <= text@.len(),
    ensures
        start <= bounds.0 <= bounds.1 <= end,
        text@.subrange(bounds.0 as int, bounds.1 as int) == trim(
            text@.subrange(start as int, end as int),
        ),
{
    let mut from = start;
    let mut blank = blank_len_at_start(text, from, end);
    while blank > 0
        invariant
            start <= from <= end <= text@.len(),
            blank == blank_at_start(text@.subrange(from as int, end as int)),
            blank <= end - from,
            trim_start(text@.subrange(start as int, end as int)) == trim_start(
                text@.subrange(from as int, end as int),
            ),
        decreases end - from,
    {
        assert(text@.subrange(from as int, end as int).skip(blank as int) =~= text@.subrange(
            from + blank,
            end as int,
        ));
        from += blank;
        blank = blank_len_at_start(text, from, end);
    }
    let mut to = end;
    blank = blank_len_at_end(text, from, to);
    while blank > 0
        invariant
            from <= to <= end <= text@.len(),
            blank == blank_at_end(text@.subrange(from as int, to as int)),
            blank <= to - from,
            trim_end(text@.subrange(from as int, end as int)) == trim_end(
                text@.subrange(from as int, to as int),
            ),
        decreases to - from,
    {
        assert(text@.subrange(from as int, to as int).take(to - from - blank) =~= text@.subrange(
            from as int,
            to - blank,
        ));
        to -= blank;
        blank = blank_len_at_end(text, from, to);
    }
    (from, to)
}

fn is_blank_byte(byte: u8) -> (blank: bool)
    ensures
        blank == is_blank(byte),
{
    byte == 0x20 || (0x09 <= byte && byte <= 0x0d)
}

fn is_blank_bytes(first: u8, second: u8) -> (blank: bool)
    ensures
        blank == is_blank_pair(first, second),
{
    first == 0xc2 && (second == 0x85 || second == 0xa0)
}

fn is_blank_byte_triple(first: u8, second: u8, third: u8) -> (blank: bool)
    ensures
        blank == is_blank_triple(first, second, third),
{
    (first == 0xe1 && second == 0x9a && third == 0x80) || (first == 0xe2 && second == 0x80 && ((0x80
        <= third && third <= 0x8a) || third == 0xa8 || third == 0xa9 || third == 0xaf)) || (first
        == 0xe2 && second == 0x81 && third == 0x9f) || (first == 0xe3 && second == 0x80 && third
        == 0x80)
}

/// Reads the cells of one trimmed line, if all of its bytes are cells.
fn decode_row(text: &[u8], from: usize, to: usize) -> (row: Option<Vec<Cell>>)
    requires
        from <= to <= text@.len(),
    ensures
        row is Some <==> is_row(text@.subrange(from as int, to as int)),
        row is Some ==> row.unwrap()@ == row_cells(text@.subrange(from as int, to as int)),
{
    let ghost line = text@.subrange(from as int, to as int);
    let mut cells: Vec<Cell> = Vec::new();
    let mut i = from;
    while i < to
        invariant
            from <= i <= to <= text@.len(),
            line == text@.subrange(from as int, to as int),
            cells@.len() == i - from,
            forall|j: int| 0 <= j < i - from ==> (#[trigger] Cell::of_byte(line[j])) is Some,
            forall|j: int| 0 <= j < i - from ==> cells@[j] == Cell::of_byte(line[j]).unwrap(),
        decreases to - i,
    {
        match Cell::from_byte(text[i]) {
            Some(cell) => {
                cells.push(cell);
            },
            None => {
                assert(Cell::of_byte(line[i - from]) is None);
                return None;
            },
        }
        i += 1;
    }
    assert(cells@ =~= row_cells(line));
    Some(cells)
}

/// Decodes a pattern from its plaintext bytes.
///
/// Fails on the first line that holds anything but `.` and `O` once it is
/// trimmed, and only then.
pub fn cell_from_plaintext(plain_text: &[u8]) -> (pattern: Result<Vec<Vec<Cell>>, PatternError>)
    ensures
        match pattern {
            Ok(rows) => decode(plain_text@) == Ok::<Seq<Seq<Cell>>, PatternError>(rows_of(&rows)),
            Err(error) => decode(plain_text@) == Err::<Seq<Seq<Cell>>, PatternError>(error),
        },
{
    let ghost text = plain_text@;
    let mut rows: Vec<Vec<Cell>> = Vec::new();
    let ghost mut done: Seq<Seq<u8>> = Seq::empty();
    let mut start: usize = 0;
    assert(text.skip(0) =~= text);
    assert(nonempty(trimmed(done)) =~= Seq::<Seq<u8>>::empty()) by {
        reveal(Seq::filter);
    }
    assert(rows_of(&rows) =~= rows_cells(nonempty(trimmed(done))));
    loop
        invariant_except_break
            start <= text.len(),
            lines(text) == done + lines(text.skip(start as int)),
        invariant
            text == plain_text@,
            forall|k: int| 0 <= k < done.len() ==> is_row(#[trigger] trimmed(done)[k]),
            rows_of(&rows) == rows_cells(nonempty(trimmed(done))),
        ensures
            lines(text) == done,
        decreases text.len() - start,
    {
        let end = line_end(plain_text, start);
        let (from, to) = trim_bounds(plain_text, start, end);
        let ghost rest = text.skip(start as int);
        let ghost line = rest.take(end - start);
        proof {
            lemma_first_line_len_bound(rest);
            assert(line =~= text.subrange(start as int, end as int));
            if end < text.len() {
                assert(rest.skip(end - start + 1) =~= text.skip(end + 1));
                assert(lines(rest) == seq![line] + lines(text.skip(end + 1)));
                assert(lines(text) =~= done.push(line) + lines(text.skip(end + 1)));
            } else {
                assert(line =~= rest);
                assert(lines(rest) == seq![line]);
                assert(lines(text) =~= done.push(line));
            }
            assert(trimmed(done.push(line)) =~= trimmed(done).push(trim(line)));
            lemma_nonempty_push(trimmed(done), trim(line));
        }
        let ghost before = rows_of(&rows);
        if from < to {
            match decode_row(plain_text, from, to) {
                Some(row) => {
                    rows.push(row);
                    assert(rows_of(&rows) =~= before.push(row_cells(trim(line))));
                    assert(rows_cells(nonempty(trimmed(done)).push(trim(line))) =~= rows_cells(
                        nonempty(trimmed(done)),
                    ).push(row_cells(trim(line))));
                },
                None => {
                    proof {
                        let all = trimmed(lines(text));
                        let k = done.len() as int;
                        assert(lines(text)[k] == line);
                        assert(all[k] == trim(line));
                        assert(!is_row(all[k]));
                    }
                    return Err(PatternError::UnknownCharacter);
                },
            }
        } else {
            assert(trim(line).len() == 0);
            assert(is_row(trim(line)));
        }
        proof {
            done = done.push(line);
        }
        if end == plain_text.len() {
            break ;
        }
        start = end + 1;
    }
    Ok(rows)
}

} // verus!
