//! The mathematical model: what a cell, a row and a generation are.
use vstd::prelude::*;

verus! {

/// Bit `b` of `word`, counted from the least significant end.
pub open spec fn word_bit(word: u64, b: int) -> bool {
    (word >> (b as u64)) & 1 == 1
}

/// Whether cell `pos` of a packed row is live. Positions that no word holds are dead.
pub open spec fn packed_cell(row: Seq<u64>, pos: int) -> bool {
    0 <= pos < 64 * row.len() && word_bit(row[pos / 64], 63 - pos % 64)
}

/// The first `width` cells of a packed row, left to right.
pub open spec fn unpack(row: Seq<u64>, width: nat) -> Seq<bool> {
    Seq::new(width, |pos: int| packed_cell(row, pos))
}

/// The number of words that hold `width` cells.
pub open spec fn words_needed(width: int) -> int {
    (width + 63) / 64
}

/// Whether the cell at `pos` is live, with everything beyond the two edges dead.
pub open spec fn live(cells: Seq<bool>, pos: int) -> bool {
    0 <= pos < cells.len() && cells[pos]
}

/// The number of a neighborhood: `left` counts four, `center` two and `right` one.
pub open spec fn neighborhood(left: bool, center: bool, right: bool) -> int {
    (if left { 4int } else { 0 }) + (if center { 2int } else { 0 }) + (if right { 1int } else { 0 })
}

/// Bit `i` of a rule's number, zero or one.
pub open spec fn rule_bit(rule: u8, i: u8) -> u8 {
    (rule >> i) & 1
}

/// Entry `i` of the table of a Wolfram rule is bit `i` of the rule's number.
pub open spec fn rule_table(rule: u8) -> Seq<u8> {
    Seq::new(8, |i: int| rule_bit(rule, i as u8))
}

/// The cell that `table` puts below three neighbors.
pub open spec fn successor(table: Seq<u8>, left: bool, center: bool, right: bool) -> bool {
    table[neighborhood(left, center, right)] == 1
}

/// The generation that follows `cells`.
pub open spec fn step(table: Seq<u8>, cells: Seq<bool>) -> Seq<bool> {
    Seq::new(
        cells.len(),
        |pos: int|
            successor(table, live(cells, pos - 1), live(cells, pos), live(cells, pos + 1)),
    )
}

/// The first generation: one live cell, at `width / 2`.
pub open spec fn initial(width: nat) -> Seq<bool> {
    Seq::new(width, |pos: int| pos == width / 2)
}

/// Generation `n` of `rule` on `width` cells, counted from the initial one.
pub open spec fn generation(rule: u8, width: nat, n: nat) -> Seq<bool>
    decreases n,
{
    if n == 0 {
        initial(width)
    } else {
        step(rule_table(rule), generation(rule, width, (n - 1) as nat))
    }
}

/// Generation `n` of `rule` on a line without edges, at distance `x` from the cell that was live
/// at the start.
pub open spec fn unbounded(rule: u8, n: nat, x: int) -> bool
    decreases n,
{
    if n == 0 {
        x == 0
    } else {
        let before = (n - 1) as nat;
        successor(
            rule_table(rule),
            unbounded(rule, before, x - 1),
            unbounded(rule, before, x),
            unbounded(rule, before, x + 1),
        )
    }
}

/// The gray level of a live cell: black.
pub const LIVE_PIXEL: u8 = 0x00;

/// The gray level of a dead cell: white.
pub const DEAD_PIXEL: u8 = 0xFF;

/// The gray level that shows a cell.
pub open spec fn pixel(cell: bool) -> u8 {
    if cell {
        LIVE_PIXEL
    } else {
        DEAD_PIXEL
    }
}

/// The pixels of a run of `height` generations, row after row from the initial one.
pub open spec fn pixels_of_run(rule: u8, width: nat, height: nat) -> Seq<u8> {
    Seq::new(
        width * height,
        |k: int| pixel(generation(rule, width, (k / width as int) as nat)[k % width as int]),
    )
}

} // verus!
