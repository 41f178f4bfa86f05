//! Operations on bit-packed rows.
use vstd::prelude::*;

verus! {

use crate::bits::{
    lemma_bit_range, lemma_left_neighbor, lemma_neighborhood, lemma_or_bit, lemma_right_neighbor,
    lemma_zero_bit,
};
use crate::model::{live, packed_cell, step, unpack, word_bit, words_needed};

/// The number of words that hold `width` cells.
pub fn words_for(width: usize) -> (words: usize)
    ensures
        words == words_needed(width as int),
        width <= 64 * words < width + 64,
{
    if width % 64 == 0 {
        width / 64
    } else {
        width / 64 + 1
    }
}

/// Sets the cell at `pos` of a packed row to live and leaves every other cell as it was.
///
/// `pos` is not held against a logical width: any cell that the row has a word for can be set.
pub fn set_bit(row: &mut [u64], pos: usize)
    requires
        pos < 64 * old(row)@.len(),
    ensures
        final(row)@.len() == old(row)@.len(),
        forall|p: int|
            0 <= p < 64 * old(row)@.len() ==> #[trigger] packed_cell(final(row)@, p) == (p == pos
                || packed_cell(old(row)@, p)),
{
    let word: usize = pos / 64;
    let bit: u64 = 63 - (pos % 64) as u64;
    row[word] = row[word] | (1u64 << bit);
    proof {
        assert forall|p: int| 0 <= p < 64 * old(row)@.len() implies #[trigger] packed_cell(
            row@,
            p,
        ) == (p == pos || packed_cell(old(row)@, p)) by {
            if p / 64 == word {
                lemma_or_bit(old(row)@[word as int], 1, bit, (63 - p % 64) as u64);
            }
        }
    }
}

/// The words that one step over `current` writes: those that hold a cell left of `width`.
pub open spec fn words_written(current: Seq<u64>, width: int) -> int {
    if words_needed(width) <= current.len() {
        words_needed(width)
    } else {
        current.len() as int
    }
}

/// Computes one generation of a row of `width` cells.
///
/// Cells at positions below zero or at `width` and beyond are dead, whatever the bits of
/// `current` past `width` are. Every word of `next` that holds one of the cells is overwritten,
/// its bits past `width` with zeros; the words after those stay as they were.
///
/// Each word is taken with its two neighbors: shifting it by one either way and splicing in the
/// adjacent word's edge bit lines the left and the right neighbors up with the cells.
pub fn compute_next_generation(
    current: &[u64],
    next: &mut [u64],
    rule_table: &[u8; 8],
    width: usize,
)
    requires
        forall|i: int| 0 <= i < 8 ==> rule_table[i] <= 1,
        words_written(current@, width as int) <= old(next)@.len(),
    ensures
        final(next)@.len() == old(next)@.len(),
        forall|p: int|
            0 <= p < 64 * words_written(current@, width as int) ==> #[trigger] packed_cell(
                final(next)@,
                p,
            ) == live(step(rule_table@, unpack(current@, width as nat)), p),
        forall|w: int|
            words_written(current@, width as int) <= w < old(next)@.len()
                ==> #[trigger] final(next)@[w] == old(next)@[w],
        width <= 64 * current@.len() ==> unpack(final(next)@, width as nat) == step(
            rule_table@,
            unpack(current@, width as nat),
        ),
{
    let num_words: usize = current.len();
    let needed: usize = words_for(width);
    let words: usize = if needed <= num_words { needed } else { num_words };
    let ghost cells = unpack(current@, width as nat);
    let ghost after = step(rule_table@, cells);

    let mut wi: usize = 0;
    while wi < words
        invariant
            wi <= words,
            num_words == current@.len(),
            words == words_written(current@, width as int),
            words <= next@.len(),
            next@.len() == old(next)@.len(),
            cells == unpack(current@, width as nat),
            after == step(rule_table@, cells),
            forall|i: int| 0 <= i < 8 ==> rule_table[i] <= 1,
            forall|p: int| 0 <= p < 64 * wi ==> #[trigger] packed_cell(next@, p) == live(after, p),
            forall|w: int| wi <= w < next@.len() ==> #[trigger] next@[w] == old(next)@[w],
        decreases words - wi,
    {
        let cell_start: usize = wi * 64;
        let cur: u64 = current[wi];
        // Beyond the first and the last word lie dead cells.
        let prev_word: u64 = if wi > 0 {
            current[wi - 1]
        } else {
            0
        };
        let next_word: u64 = if wi + 1 < num_words {
            current[wi + 1]
        } else {
            0
        };
        let left_neighbors: u64 = (cur >> 1) | ((prev_word & 1) << 63);
        let right_neighbors: u64 = (cur << 1) | (next_word >> 63);

        let mut result: u64 = 0;
        // The last word may hold fewer than 64 cells.
        let cell_end: usize = if width - cell_start > 64 {
            cell_start + 64
        } else {
            width
        };
        let mut pos: usize = cell_start;
        proof {
            assert forall|p: int| cell_start <= p < cell_start + 64 implies !#[trigger] word_bit(
                result,
                63 - p % 64,
            ) by {
                lemma_zero_bit((63 - p % 64) as u64);
            }
        }
        while pos < cell_end
            invariant
                cell_start <= pos <= cell_end,
                cell_end <= width,
                cell_start < cell_end <= cell_start + 64,
                cell_start == wi * 64,
                wi < num_words,
                num_words == current@.len(),
                cur == current@[wi as int],
                prev_word == if wi > 0 {
                    current@[wi - 1]
                } else {
                    0
                },
                next_word == if wi + 1 < num_words {
                    current@[wi + 1]
                } else {
                    0
                },
                left_neighbors == (cur >> 1) | ((prev_word & 1) << 63),
                right_neighbors == (cur << 1) | (next_word >> 63),
                cells == unpack(current@, width as nat),
                after == step(rule_table@, cells),
                forall|i: int| 0 <= i < 8 ==> rule_table[i] <= 1,
                forall|p: int|
                    cell_start <= p < cell_start + 64 ==> #[trigger] word_bit(result, 63 - p % 64)
                        == (p < pos && live(after, p)),
            decreases cell_end - pos,
        {
            let b: u64 = 63 - (pos % 64) as u64;
            let left: u64 = (left_neighbors >> b) & 1;
            let center: u64 = (cur >> b) & 1;
            // The cell at `width` is dead even where its bit is set.
            let right: u64 = if pos + 1 < width {
                (right_neighbors >> b) & 1
            } else {
                0
            };
            proof {
                lemma_left_cell(current@, wi as int, pos as int, prev_word);
                lemma_right_cell(current@, wi as int, pos as int, next_word);
                lemma_bit_range(left_neighbors, b);
                lemma_bit_range(cur, b);
                lemma_bit_range(right_neighbors, b);
                lemma_neighborhood(left, center, right);
                assert(live(cells, pos - 1) == (left == 1));
                assert(live(cells, pos as int) == (center == 1));
                assert(live(cells, pos + 1) == (right == 1));
            }
            let index: usize = ((left << 2) | (center << 1) | right) as usize;
            let new_state: u64 = rule_table[index] as u64;
            assert(live(after, pos as int) == (new_state == 1));
            let ghost before = result;
            result = result | (new_state << b);
            proof {
                assert forall|p: int| cell_start <= p < cell_start + 64 implies #[trigger] word_bit(
                    result,
                    63 - p % 64,
                ) == (p < pos + 1 && live(after, p)) by {
                    lemma_or_bit(before, new_state, b, (63 - p % 64) as u64);
                    assert(word_bit(before, 63 - p % 64) == (p < pos && live(after, p)));
                }
            }
            pos += 1;
        }
        let ghost written = next@;
        next[wi] = result;
        proof {
            assert forall|p: int| 0 <= p < 64 * (wi + 1) implies #[trigger] packed_cell(next@, p)
                == live(after, p) by {
                if p < 64 * wi {
                    assert(packed_cell(written, p) == live(after, p));
                } else {
                    assert(word_bit(result, 63 - p % 64) == (p < pos && live(after, p)));
                }
            }
        }
        wi += 1;
    }
    proof {
        if width <= 64 * current@.len() {
            assert forall|p: int| 0 <= p < width implies unpack(next@, width as nat)[p]
                == after[p] by {
                assert(packed_cell(next@, p) == live(after, p));
            }
            assert(unpack(next@, width as nat) =~= after);
        }
    }
}

/// The left neighbor of a cell, read from its word and the word before.
proof fn lemma_left_cell(row: Seq<u64>, wi: int, pos: int, prev: u64)
    requires
        0 <= wi < row.len(),
        64 * wi <= pos < 64 * wi + 64,
        prev == if wi > 0 {
            row[wi - 1]
        } else {
            0
        },
    ensures
        packed_cell(row, pos - 1) == word_bit(
            (row[wi] >> 1) | ((prev & 1) << 63),
            63 - pos % 64,
        ),
{
    lemma_left_neighbor(row[wi], prev, (63 - pos % 64) as u64);
    lemma_zero_bit(0);
    if pos == 64 * wi && wi > 0 {
        assert((pos - 1) / 64 == wi - 1);
    }
}

/// The right neighbor of a cell, read from its word and the word after.
proof fn lemma_right_cell(row: Seq<u64>, wi: int, pos: int, next: u64)
    requires
        0 <= wi < row.len(),
        64 * wi <= pos < 64 * wi + 64,
        next == if wi + 1 < row.len() {
            row[wi + 1]
        } else {
            0
        },
    ensures
        packed_cell(row, pos + 1) == word_bit((row[wi] << 1) | (next >> 63), 63 - pos % 64),
{
    lemma_right_neighbor(row[wi], next, (63 - pos % 64) as u64);
    lemma_zero_bit(63);
    if pos == 64 * wi + 63 {
        assert((pos + 1) / 64 == wi + 1);
    }
}

} // verus!
