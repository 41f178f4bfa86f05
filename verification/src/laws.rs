//! What holds of the automaton as a whole.
use vstd::arithmetic::div_mod::lemma_fundamental_div_mod_converse;
use vstd::arithmetic::power2::pow2;
use vstd::prelude::*;

verus! {

use crate::bits::{
    lemma_even_rule, lemma_rule_bit_range, lemma_rule_digit, lemma_rule_digits,
    lemma_rule_from_bits, lemma_word_digit, lemma_word_from_bits,
};
use crate::consent::{says_yes, white_space};
use crate::model::{
    generation, live, neighborhood, packed_cell, pixel, pixels_of_run, rule_bit, rule_table, step,
    unbounded, unpack, word_bit, words_needed,
};
use crate::plan::Plan;
use crate::row::words_written;

/// The table of a rule holds the rule's binary digits, the lowest first: read as a number in
/// base two it gives the rule back.
pub proof fn law_tables_read_back_as_the_rule(rule: u8)
    ensures
        rule_table(rule).len() == 8,
        forall|i: int| 0 <= i < 8 ==> #[trigger] rule_table(rule)[i] <= 1,
        rule_table(rule)[0] + 2 * rule_table(rule)[1] + 4 * rule_table(rule)[2] + 8 * rule_table(
            rule,
        )[3] + 16 * rule_table(rule)[4] + 32 * rule_table(rule)[5] + 64 * rule_table(rule)[6] + 128
            * rule_table(rule)[7] == rule,
{
    assert forall|i: int| 0 <= i < 8 implies #[trigger] rule_table(rule)[i] <= 1 by {
        lemma_rule_bit_range(rule, i as u8);
    }
    lemma_rule_digits(rule);
}

/// Cell `pos` of a packed row is a binary digit of word `pos / 64`, and the digits of a word go
/// from the highest, for the leftmost of its cells, to the lowest. There are no other cells.
pub proof fn law_cells_are_the_digits_of_words(row: Seq<u64>, pos: int)
    ensures
        packed_cell(row, pos) <==> 0 <= pos < 64 * row.len() && (row[pos / 64] as nat / pow2(
            (63 - pos % 64) as nat,
        )) % 2 == 1,
{
    if 0 <= pos < 64 * row.len() {
        lemma_word_digit(row[pos / 64], 63 - pos % 64);
    }
}

/// Unpacking a row gives as many cells as asked for, each of them the digit of its word.
pub proof fn law_unpacking_reads_the_digits_of_words(row: Seq<u64>, width: nat, pos: int)
    requires
        0 <= pos < width,
    ensures
        unpack(row, width).len() == width,
        unpack(row, width)[pos] <==> pos < 64 * row.len() && (row[pos / 64] as nat / pow2(
            (63 - pos % 64) as nat,
        )) % 2 == 1,
{
    law_cells_are_the_digits_of_words(row, pos);
}

/// A row has just enough words for its cells.
pub proof fn law_words_are_just_enough(width: int)
    requires
        0 <= width,
    ensures
        width <= 64 * words_needed(width) < width + 64,
{
}

/// A step writes the words of the row that hold one of its cells, and no others.
pub proof fn law_steps_write_the_words_with_cells(row: Seq<u64>, width: int, w: int)
    requires
        0 <= width,
        0 <= w,
    ensures
        w < words_written(row, width) <==> w < row.len() && 64 * w < width,
{
}

/// What lies beyond either edge is dead, and what lies between them is what it is.
pub proof fn law_beyond_the_edges_is_dead(cells: Seq<bool>, pos: int)
    ensures
        pos < 0 ==> !live(cells, pos),
        pos >= cells.len() ==> !live(cells, pos),
        0 <= pos < cells.len() ==> live(cells, pos) == cells[pos],
{
}

/// A step keeps the number of cells, and each cell comes from the table entry that itself and
/// its two neighbors number, four for the left, two for itself and one for the right, where a
/// neighbor beyond an edge counts nothing.
pub proof fn law_steps_look_up_three_cells(table: Seq<u8>, cells: Seq<bool>, pos: int)
    requires
        0 <= pos < cells.len(),
    ensures
        step(table, cells).len() == cells.len(),
        ({
            let left: int = if 0 < pos && cells[pos - 1] { 4 } else { 0 };
            let center: int = if cells[pos] { 2 } else { 0 };
            let right: int = if pos + 1 < cells.len() && cells[pos + 1] { 1 } else { 0 };
            step(table, cells)[pos] <==> table[left + center + right] == 1
        }),
{
}

/// The two outermost cells come from two cells each.
pub proof fn law_outermost_cells_have_one_neighbor(table: Seq<u8>, cells: Seq<bool>)
    requires
        cells.len() >= 2,
    ensures
        step(table, cells)[0] <==> table[(if cells[0] { 2int } else { 0 }) + (if cells[1] {
            1int
        } else {
            0
        })] == 1,
        step(table, cells).last() <==> table[(if cells[cells.len() - 2] { 4int } else { 0 }) + (
        if cells.last() { 2int } else { 0 })] == 1,
{
}

/// A dead cell put beyond either edge changes nothing of the step between them.
pub proof fn law_steps_ignore_dead_cells_beyond_the_edges(table: Seq<u8>, cells: Seq<bool>)
    ensures
        step(table, seq![false] + cells + seq![false]).len() == cells.len() + 2,
        step(table, seq![false] + cells + seq![false]).subrange(1, (cells.len() + 1) as int) == step(
            table,
            cells,
        ),
{
    let padded = seq![false] + cells + seq![false];
    assert forall|pos: int| -1 <= pos <= cells.len() implies live(cells, pos) == #[trigger] live(
        padded,
        pos + 1,
    ) by {
    }
    assert forall|pos: int| 0 <= pos < cells.len() implies step(table, padded)[pos + 1] == step(
        table,
        cells,
    )[pos] by {
        assert(live(cells, pos - 1) == live(padded, pos - 1 + 1));
        assert(live(cells, pos) == live(padded, pos + 1));
        assert(live(cells, pos + 1) == live(padded, pos + 1 + 1));
    }
    assert(step(table, padded).subrange(1, (cells.len() + 1) as int) =~= step(table, cells));
}

/// A step knows left from right by its table alone: a table with left and right exchanged steps
/// the mirror image of a row to the mirror image of the next.
pub proof fn law_mirrored_rows_step_by_mirrored_tables(
    table: Seq<u8>,
    mirrored: Seq<u8>,
    cells: Seq<bool>,
)
    requires
        mirrored == seq![
            table[0],
            table[4],
            table[2],
            table[6],
            table[1],
            table[5],
            table[3],
            table[7],
        ],
    ensures
        step(mirrored, cells.reverse()) == step(table, cells).reverse(),
{
    assert forall|pos: int| 0 <= pos < cells.len() implies step(mirrored, cells.reverse())[pos]
        == step(table, cells).reverse()[pos] by {
        let other = cells.len() - 1 - pos;
        assert(live(cells.reverse(), pos - 1) == live(cells, other + 1));
        assert(live(cells.reverse(), pos) == live(cells, other));
        assert(live(cells.reverse(), pos + 1) == live(cells, other - 1));
    }
    assert(step(mirrored, cells.reverse()) =~= step(table, cells).reverse());
}

/// One step on packed rows, digit by digit: where `next` shows the step of what `current`
/// shows, each cell of `next` is the table entry that three digits of `current` number, with
/// zeros for the digits beyond the two edges.
pub proof fn law_packed_steps_look_up_three_digits(
    table: Seq<u8>,
    current: Seq<u64>,
    next: Seq<u64>,
    width: nat,
    pos: int,
)
    requires
        0 <= pos < width <= 64 * current.len(),
        width <= 64 * next.len(),
        unpack(next, width) == step(table, unpack(current, width)),
    ensures
        ({
            let left: nat = if 0 < pos {
                (current[(pos - 1) / 64] as nat / pow2((63 - (pos - 1) % 64) as nat)) % 2
            } else {
                0
            };
            let center: nat = (current[pos / 64] as nat / pow2((63 - pos % 64) as nat)) % 2;
            let right: nat = if pos + 1 < width {
                (current[(pos + 1) / 64] as nat / pow2((63 - (pos + 1) % 64) as nat)) % 2
            } else {
                0
            };
            (next[pos / 64] as nat / pow2((63 - pos % 64) as nat)) % 2 == 1 <==> table[(4 * left + 2
                * center + right) as int] == 1
        }),
{
    let cells = unpack(current, width);
    if 0 < pos {
        law_unpacking_reads_the_digits_of_words(current, width, pos - 1);
    }
    law_unpacking_reads_the_digits_of_words(current, width, pos);
    if pos + 1 < width {
        law_unpacking_reads_the_digits_of_words(current, width, pos + 1);
    }
    law_unpacking_reads_the_digits_of_words(next, width, pos);
    law_steps_look_up_three_cells(table, cells, pos);
}

/// No two rules share a table.
pub proof fn law_rules_have_distinct_tables(rule: u8, other: u8)
    requires
        rule_table(rule) == rule_table(other),
    ensures
        rule == other,
{
    assert forall|i: u8| i < 8 implies #[trigger] rule_bit(rule, i) == rule_bit(other, i) by {
        assert(rule_table(rule)[i as int] == rule_bit(rule, i));
        assert(rule_table(other)[i as int] == rule_bit(other, i));
    }
    lemma_rule_from_bits(rule, other);
}

/// Two packed rows of the same length that agree in every cell are the same words.
pub proof fn law_cells_determine_words(row: Seq<u64>, other: Seq<u64>)
    requires
        row.len() == other.len(),
        forall|pos: int|
            0 <= pos < 64 * row.len() ==> #[trigger] packed_cell(row, pos) == packed_cell(
                other,
                pos,
            ),
    ensures
        row == other,
{
    assert forall|w: int| 0 <= w < row.len() implies row[w] == other[w] by {
        assert forall|b: int| 0 <= b < 64 implies #[trigger] word_bit(row[w], b) == word_bit(
            other[w],
            b,
        ) by {
            let pos = 64 * w + (63 - b);
            assert(pos / 64 == w && 63 - pos % 64 == b);
            assert(packed_cell(row, pos) == packed_cell(other, pos));
        }
        lemma_word_from_bits(row[w], other[w]);
    }
    assert(row =~= other);
}

/// A generation has as many cells as the run is wide.
pub proof fn law_width_is_kept(rule: u8, width: nat, n: nat)
    ensures
        generation(rule, width, n).len() == width,
    decreases n,
{
    if n > 0 {
        law_width_is_kept(rule, width, (n - 1) as nat);
    }
}

/// A run starts from one live cell, at `width / 2`.
pub proof fn law_runs_start_from_the_middle(rule: u8, width: nat, pos: int)
    requires
        0 <= pos < width,
    ensures
        generation(rule, width, 0).len() == width,
        generation(rule, width, 0)[pos] <==> pos == width / 2,
{
}

/// Each generation is one application of the rule to the one before: a cell is live if the digit
/// of the rule number that itself and its two neighbors number is one.
pub proof fn law_generations_follow_by_the_rule(rule: u8, width: nat, n: nat, pos: int)
    requires
        0 <= pos < width,
    ensures
        generation(rule, width, n).len() == width,
        generation(rule, width, n + 1).len() == width,
        ({
            let before = generation(rule, width, n);
            let left: nat = if 0 < pos && before[pos - 1] { 4 } else { 0 };
            let center: nat = if before[pos] { 2 } else { 0 };
            let right: nat = if pos + 1 < width && before[pos + 1] { 1 } else { 0 };
            generation(rule, width, n + 1)[pos] <==> (rule as nat / pow2(left + center + right)) % 2
                == 1
        }),
{
    let before = generation(rule, width, n);
    law_width_is_kept(rule, width, n);
    law_width_is_kept(rule, width, n + 1);
    law_steps_look_up_three_cells(rule_table(rule), before, pos);
    let left: nat = if 0 < pos && before[pos - 1] { 4 } else { 0 };
    let center: nat = if before[pos] { 2 } else { 0 };
    let right: nat = if pos + 1 < width && before[pos + 1] { 1 } else { 0 };
    lemma_rule_digit(rule, (left + center + right) as u8);
}

/// The line without edges starts from one live cell and follows the rule everywhere.
pub proof fn law_the_unbounded_line_follows_the_rule(rule: u8, n: nat, x: int)
    ensures
        unbounded(rule, 0, x) <==> x == 0,
        ({
            let left: nat = if unbounded(rule, n, x - 1) { 4 } else { 0 };
            let center: nat = if unbounded(rule, n, x) { 2 } else { 0 };
            let right: nat = if unbounded(rule, n, x + 1) { 1 } else { 0 };
            unbounded(rule, n + 1, x) <==> (rule as nat / pow2(left + center + right)) % 2 == 1
        }),
{
    let left: nat = if unbounded(rule, n, x - 1) { 4 } else { 0 };
    let center: nat = if unbounded(rule, n, x) { 2 } else { 0 };
    let right: nat = if unbounded(rule, n, x + 1) { 1 } else { 0 };
    lemma_rule_digit(rule, (left + center + right) as u8);
}

/// Under rule 0 every cell is dead from the first step on.
pub proof fn law_rule_0_all_dead(width: nat, n: nat, pos: int)
    requires
        n >= 1,
    ensures
        !live(generation(0, width, n), pos),
{
    let before = generation(0, width, (n - 1) as nat);
    let i = neighborhood(live(before, pos - 1), live(before, pos), live(before, pos + 1)) as u8;
    assert((0u8 >> i) & 1 == 0) by (bit_vector);
}

/// Under rule 255 every cell is live from the first step on.
pub proof fn law_rule_255_all_alive(width: nat, n: nat, pos: int)
    requires
        n >= 1,
        0 <= pos < width,
    ensures
        live(generation(255, width, n), pos),
{
    law_width_is_kept(255, width, n);
    let before = generation(255, width, (n - 1) as nat);
    let i = neighborhood(live(before, pos - 1), live(before, pos), live(before, pos + 1)) as u8;
    assert((255u8 >> i) & 1 == 1) by (bit_vector)
        requires
            i < 8,
    ;
}

/// Under an even rule, which keeps dead what has no live neighbor, a pattern grows by at most
/// one cell on either side per generation.
pub proof fn law_growth_is_one_cell_per_side(rule: u8, width: nat, n: nat, pos: int)
    requires
        rule % 2 == 0,
        live(generation(rule, width, n), pos),
    ensures
        width / 2 - n <= pos <= width / 2 + n,
    decreases n,
{
    if n > 0 {
        let m = (n - 1) as nat;
        let before = generation(rule, width, m);
        lemma_even_rule(rule);
        if live(before, pos - 1) {
            law_growth_is_one_cell_per_side(rule, width, m, pos - 1);
        } else if live(before, pos) {
            law_growth_is_one_cell_per_side(rule, width, m, pos);
        } else if live(before, pos + 1) {
            law_growth_is_one_cell_per_side(rule, width, m, pos + 1);
        } else {
            assert(rule_table(rule)[0] == 0);
        }
    }
}

/// The same growth on a line without edges.
pub proof fn law_unbounded_growth_is_one_cell_per_side(rule: u8, n: nat, x: int)
    requires
        rule % 2 == 0,
        unbounded(rule, n, x),
    ensures
        -n <= x <= n,
    decreases n,
{
    if n > 0 {
        let m = (n - 1) as nat;
        lemma_even_rule(rule);
        if unbounded(rule, m, x - 1) {
            law_unbounded_growth_is_one_cell_per_side(rule, m, x - 1);
        } else if unbounded(rule, m, x) {
            law_unbounded_growth_is_one_cell_per_side(rule, m, x);
        } else if unbounded(rule, m, x + 1) {
            law_unbounded_growth_is_one_cell_per_side(rule, m, x + 1);
        } else {
            assert(rule_table(rule)[0] == 0);
        }
    }
}

/// Under any rule, what the edges do moves inward by one cell per generation: a cell that they
/// have not reached is what it would be on a line without edges.
pub proof fn law_edges_act_one_cell_per_generation(rule: u8, width: nat, n: nat, pos: int)
    requires
        0 <= pos < width,
        n <= pos + 1,
        pos + n <= width,
    ensures
        live(generation(rule, width, n), pos) == unbounded(rule, n, pos - width / 2),
    decreases n,
{
    if n > 0 {
        let m = (n - 1) as nat;
        let before = generation(rule, width, m);
        law_width_is_kept(rule, width, m);
        law_edges_act_one_cell_per_generation(rule, width, m, pos);
        if n > 1 {
            law_edges_act_one_cell_per_generation(rule, width, m, pos - 1);
            law_edges_act_one_cell_per_generation(rule, width, m, pos + 1);
        } else {
            assert(live(before, pos - 1) == unbounded(rule, m, pos - 1 - width / 2));
            assert(live(before, pos + 1) == unbounded(rule, m, pos + 1 - width / 2));
        }
        assert(pos - width / 2 - 1 == pos - 1 - width / 2);
        assert(pos - width / 2 + 1 == pos + 1 - width / 2);
    }
}

/// Under an even rule the edges show nothing of themselves until the pattern has grown past one:
/// up to then every cell is what it would be on a line without edges.
pub proof fn law_edges_act_on_the_pattern_alone(rule: u8, width: nat, n: nat, pos: int)
    requires
        rule % 2 == 0,
        0 <= pos < width,
        2 * n <= width + 1,
    ensures
        live(generation(rule, width, n), pos) == unbounded(rule, n, pos - width / 2),
    decreases n,
{
    if n > 0 {
        let m = (n - 1) as nat;
        let before = generation(rule, width, m);
        law_width_is_kept(rule, width, m);
        law_edges_act_on_the_pattern_alone(rule, width, m, pos);
        if pos > 0 {
            law_edges_act_on_the_pattern_alone(rule, width, m, pos - 1);
        } else if unbounded(rule, m, -1 - width / 2) {
            law_unbounded_growth_is_one_cell_per_side(rule, m, -1 - width / 2);
        }
        if pos + 1 < width {
            law_edges_act_on_the_pattern_alone(rule, width, m, pos + 1);
        } else if unbounded(rule, m, width - width / 2) {
            law_unbounded_growth_is_one_cell_per_side(rule, m, width - width / 2);
        }
        assert(pos - width / 2 - 1 == pos - 1 - width / 2);
        assert(pos - width / 2 + 1 == pos + 1 - width / 2);
    }
}

/// At the default width, `2 * steps + 1`, an even rule's pattern is shown whole: every
/// generation up to `steps` is, cell by cell, what it would be on a line without edges, and
/// beyond the edges that line is dead.
pub proof fn law_default_width_holds_the_pattern(rule: u8, steps: nat, n: nat, x: int)
    requires
        rule % 2 == 0,
        n <= steps,
    ensures
        live(generation(rule, 2 * steps + 1, n), steps + x) == unbounded(rule, n, x),
{
    let width = 2 * steps + 1;
    law_width_is_kept(rule, width, n);
    if 0 <= steps + x < width {
        law_edges_act_on_the_pattern_alone(rule, width, n, steps + x);
    } else if unbounded(rule, n, x) {
        law_unbounded_growth_is_one_cell_per_side(rule, n, x);
    }
}

/// The pixels of generation `r` start at index `r * width`, left to right.
pub proof fn law_rows_are_generations(rule: u8, width: nat, height: nat, r: nat, pos: int)
    requires
        r < height,
        0 <= pos < width,
    ensures
        0 <= r * width + pos < pixels_of_run(rule, width, height).len(),
        pixels_of_run(rule, width, height)[r * width + pos] == pixel(
            generation(rule, width, r)[pos],
        ),
{
    assert(r * width + width <= width * height) by (nonlinear_arith)
        requires
            r < height,
    ;
    lemma_fundamental_div_mod_converse(r * width + pos, width as int, r as int, pos);
}

/// A picture is black and white.
pub proof fn law_pictures_are_black_and_white(rule: u8, width: nat, height: nat, k: int)
    requires
        0 <= k < pixels_of_run(rule, width, height).len(),
    ensures
        pixels_of_run(rule, width, height)[k] == 0x00 || pixels_of_run(rule, width, height)[k]
            == 0xFF,
{
}

/// The top row of a picture is white but for the pixel in its middle.
pub proof fn law_top_row_is_one_pixel(rule: u8, width: nat, height: nat, pos: int)
    requires
        height >= 1,
        0 <= pos < width,
    ensures
        pixels_of_run(rule, width, height)[pos] == 0x00 <==> pos == width / 2,
{
    law_rows_are_generations(rule, width, height, 0, pos);
}

/// Each row of a picture is one application of the rule to the row above it, whatever the rule,
/// the width and the row: a pixel is black if the digit of the rule number that three pixels of
/// the row above number is one, and white if it is zero. Black counts four on the left, two
/// straight above and one on the right; what is off the picture is white.
pub proof fn law_each_row_applies_the_rule_to_the_row_above(
    rule: u8,
    width: nat,
    height: nat,
    n: nat,
    pos: int,
)
    requires
        n + 1 < height,
        0 <= pos < width,
    ensures
        pixels_of_run(rule, width, height).len() == width * height,
        ({
            let run = pixels_of_run(rule, width, height);
            let above = n * width + pos;
            let below = (n + 1) * width + pos;
            let left: nat = if 0 < pos && run[above - 1] == 0x00 { 4 } else { 0 };
            let center: nat = if run[above] == 0x00 { 2 } else { 0 };
            let right: nat = if pos + 1 < width && run[above + 1] == 0x00 { 1 } else { 0 };
            run[below] == if (rule as nat / pow2(left + center + right)) % 2 == 1 {
                0x00u8
            } else {
                0xFFu8
            }
        }),
{
    law_generations_follow_by_the_rule(rule, width, n, pos);
    if 0 < pos {
        law_rows_are_generations(rule, width, height, n, pos - 1);
    }
    law_rows_are_generations(rule, width, height, n, pos);
    if pos + 1 < width {
        law_rows_are_generations(rule, width, height, n, pos + 1);
    }
    law_rows_are_generations(rule, width, height, n + 1, pos);
}

/// The size that a plan is judged by is that of the picture: as many bytes as `width * height`,
/// which is what any rule's run takes.
pub proof fn law_plans_are_judged_by_the_size_of_the_picture(rule: u8, plan: Plan)
    ensures
        plan.area() == plan.width * plan.height,
        plan.area() == pixels_of_run(rule, plan.width as nat, plan.height as nat).len(),
{
}

/// A plan is sound exactly where it has a cell and one row more than steps.
pub proof fn law_plans_have_a_cell_and_a_row_per_generation(plan: Plan)
    ensures
        plan.wf() <==> plan.width >= 1 && plan.height == plan.steps + 1,
{
}

/// White space is these 25 characters.
pub proof fn law_white_space_is_25_characters(c: char)
    ensures
        white_space(c) <==> set![
            0x9u32,
            0xA,
            0xB,
            0xC,
            0xD,
            0x20,
            0x85,
            0xA0,
            0x1680,
            0x2000,
            0x2001,
            0x2002,
            0x2003,
            0x2004,
            0x2005,
            0x2006,
            0x2007,
            0x2008,
            0x2009,
            0x200A,
            0x2028,
            0x2029,
            0x202F,
            0x205F,
            0x3000,
        ].contains(c as u32),
{
}

/// A yes has one character that is not white space, and no second one; it is the letter `y` in
/// either case. So no answer with two such characters, or with another one, is a yes.
pub proof fn law_a_yes_is_one_letter(answer: Seq<char>)
    requires
        says_yes(answer),
    ensures
        exists|i: int| 0 <= i < answer.len() && !white_space(#[trigger] answer[i]),
        forall|i: int|
            0 <= i < answer.len() && !white_space(#[trigger] answer[i]) ==> answer[i] == 'y'
                || answer[i] == 'Y',
        forall|i: int, j: int|
            0 <= i < answer.len() && 0 <= j < answer.len() && !white_space(#[trigger] answer[i])
                && !white_space(#[trigger] answer[j]) ==> i == j,
{
    let at = choose|i: int|
        0 <= i < answer.len() && (#[trigger] answer[i] == 'y' || answer[i] == 'Y') && forall|j: int|
            0 <= j < answer.len() && j != i ==> white_space(#[trigger] answer[j]);
    assert(!white_space(answer[at]));
}

/// The letter `y` in either case is a yes, with any white space before and after it.
pub proof fn law_the_letter_y_is_a_yes(before: Seq<char>, letter: char, after: Seq<char>)
    requires
        letter == 'y' || letter == 'Y',
        forall|i: int| 0 <= i < before.len() ==> white_space(#[trigger] before[i]),
        forall|i: int| 0 <= i < after.len() ==> white_space(#[trigger] after[i]),
    ensures
        says_yes(before + seq![letter] + after),
{
    let answer = before + seq![letter] + after;
    let at = before.len() as int;
    assert(answer[at] == letter);
    assert forall|j: int| 0 <= j < answer.len() && j != at implies white_space(
        #[trigger] answer[j],
    ) by {
        if j < at {
            assert(answer[j] == before[j]);
        } else {
            assert(answer[j] == after[j - at - 1]);
        }
    }
}

/// Trimming an answer, by a character of white space at either end, does not change what it
/// says.
pub proof fn law_answers_are_trimmed(answer: Seq<char>, blank: char)
    requires
        white_space(blank),
    ensures
        says_yes(seq![blank] + answer) == says_yes(answer),
        says_yes(answer.push(blank)) == says_yes(answer),
{
    let led = seq![blank] + answer;
    let trailed = answer.push(blank);
    assert forall|i: int| 0 <= i < answer.len() implies answer[i] == #[trigger] led[i + 1] by {
    }
    if says_yes(answer) {
        let at = choose|i: int|
            0 <= i < answer.len() && (#[trigger] answer[i] == 'y' || answer[i] == 'Y') && forall|
                j: int,
            |
                0 <= j < answer.len() && j != i ==> white_space(#[trigger] answer[j]);
        assert(led[at + 1] == answer[at]);
        assert forall|j: int| 0 <= j < led.len() && j != at + 1 implies white_space(
            #[trigger] led[j],
        ) by {
            if j > 0 {
                assert(led[j] == answer[j - 1]);
            }
        }
        assert(trailed[at] == answer[at]);
    }
    if says_yes(led) {
        let at = choose|i: int|
            0 <= i < led.len() && (#[trigger] led[i] == 'y' || led[i] == 'Y') && forall|j: int|
                0 <= j < led.len() && j != i ==> white_space(#[trigger] led[j]);
        assert(led[0] == blank);
        assert(answer[at - 1] == led[at]);
        assert forall|j: int| 0 <= j < answer.len() && j != at - 1 implies white_space(
            #[trigger] answer[j],
        ) by {
            assert(led[j + 1] == answer[j]);
        }
    }
    if says_yes(trailed) {
        let at = choose|i: int|
            0 <= i < trailed.len() && (#[trigger] trailed[i] == 'y' || trailed[i] == 'Y')
                && forall|j: int|
                0 <= j < trailed.len() && j != i ==> white_space(#[trigger] trailed[j]);
        assert(trailed[answer.len() as int] == blank);
        assert(answer[at] == trailed[at]);
        assert forall|j: int| 0 <= j < answer.len() && j != at implies white_space(
            #[trigger] answer[j],
        ) by {
            assert(trailed[j] == answer[j]);
        }
    }
}

/// A longer run of the same width starts with the picture of the shorter one.
pub proof fn law_longer_runs_extend_shorter_ones(rule: u8, width: nat, height: nat, longer: nat)
    requires
        height <= longer,
    ensures
        pixels_of_run(rule, width, height) == pixels_of_run(rule, width, longer).take(
            (width * height) as int,
        ),
{
    assert(width * height <= width * longer) by (nonlinear_arith)
        requires
            height <= longer,
    ;
    assert(pixels_of_run(rule, width, height) =~= pixels_of_run(rule, width, longer).take(
        (width * height) as int,
    ));
}

} // verus!
