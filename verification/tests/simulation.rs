//! The packed simulation against a plain one that keeps a byte per cell.
use automaton::{build_rule_table, compute_next_generation, decode_row_to_image, set_bit};

/// All generations of a run, one byte per cell, without packing.
fn simulate_naive(rule: u8, width: usize, steps: usize) -> Vec<Vec<u8>> {
    let rule_table = build_rule_table(rule);
    let mut rows = Vec::with_capacity(steps + 1);

    let mut current = vec![0u8; width];
    current[width / 2] = 1;
    rows.push(current.clone());

    for _ in 0..steps {
        let mut next = vec![0u8; width];
        for i in 0..width {
            let left = if i == 0 { 0u8 } else { current[i - 1] };
            let center = current[i];
            let right = if i + 1 >= width { 0u8 } else { current[i + 1] };
            let neighborhood =
                ((left as usize) << 2) | ((center as usize) << 1) | (right as usize);
            next[i] = rule_table[neighborhood];
        }
        rows.push(next.clone());
        current = next;
    }

    rows
}

/// The cells of a packed row, one byte each.
fn bitpacked_to_vec(row: &[u64], width: usize) -> Vec<u8> {
    let mut result = Vec::with_capacity(width);
    for pos in 0..width {
        let word = pos / 64;
        let bit = 63 - (pos % 64);
        result.push(((row[word] >> bit) & 1) as u8);
    }
    result
}

/// All generations of a run on packed rows, one byte per cell.
fn simulate_bitpacked(rule: u8, width: usize, steps: usize) -> Vec<Vec<u8>> {
    let rule_table = build_rule_table(rule);
    let num_words = width.div_ceil(64);
    let mut current = vec![0u64; num_words];
    let mut next = vec![0u64; num_words];

    set_bit(&mut current, width / 2);

    let mut rows = Vec::with_capacity(steps + 1);
    rows.push(bitpacked_to_vec(&current, width));

    for _ in 0..steps {
        compute_next_generation(&current, &mut next, &rule_table, width);
        rows.push(bitpacked_to_vec(&next, width));
        std::mem::swap(&mut current, &mut next);
        next.fill(0);
    }

    rows
}

/// Compares the two, generation by generation.
fn compare_implementations(rule: u8, width: usize, steps: usize) {
    let naive_rows = simulate_naive(rule, width, steps);
    let bitpacked_rows = simulate_bitpacked(rule, width, steps);

    assert_eq!(
        naive_rows.len(),
        bitpacked_rows.len(),
        "Rule {}, width {}: row count mismatch",
        rule,
        width
    );

    for (row_idx, (naive_row, bp_row)) in naive_rows.iter().zip(bitpacked_rows.iter()).enumerate() {
        assert_eq!(
            naive_row, bp_row,
            "Rule {}, width {}, generation {}: mismatch",
            rule, width, row_idx
        );
    }
}

#[test]
fn test_rule30_200_steps() {
    compare_implementations(30, 2 * 200 + 1, 200);
}

#[test]
fn test_rule90_200_steps() {
    compare_implementations(90, 2 * 200 + 1, 200);
}

#[test]
fn test_rule110_200_steps() {
    compare_implementations(110, 2 * 200 + 1, 200);
}

// Widths around the word boundaries, where bits are spliced across words.

#[test]
fn test_rule30_width_64() {
    compare_implementations(30, 64, 200);
}

#[test]
fn test_rule30_width_65() {
    compare_implementations(30, 65, 200);
}

#[test]
fn test_rule30_width_127() {
    compare_implementations(30, 127, 200);
}

#[test]
fn test_rule30_width_128() {
    compare_implementations(30, 128, 200);
}

#[test]
fn test_rule30_width_129() {
    compare_implementations(30, 129, 200);
}

#[test]
fn test_rule90_width_65() {
    compare_implementations(90, 65, 200);
}

#[test]
fn test_rule110_width_129() {
    compare_implementations(110, 129, 200);
}

/// Rule 0 maps every neighborhood to 0: after the initial generation all cells are dead.
#[test]
fn test_rule0_all_dead() {
    let width = 65;
    let naive = simulate_naive(0, width, 10);
    let bp = simulate_bitpacked(0, width, 10);
    for i in 1..=10 {
        assert!(naive[i].iter().all(|&c| c == 0));
        assert!(bp[i].iter().all(|&c| c == 0));
    }
}

/// Rule 255 maps every neighborhood to 1.
#[test]
fn test_rule255_all_alive() {
    compare_implementations(255, 21, 5);
}

/// A single cell without neighbors.
#[test]
fn test_small_width_1() {
    compare_implementations(30, 1, 10);
}

/// A center cell with one neighbor on each side.
#[test]
fn test_small_width_3() {
    compare_implementations(30, 3, 10);
}

#[test]
fn test_rule_table_correctness() {
    let table = build_rule_table(30);
    assert_eq!(table, [0, 1, 1, 1, 1, 0, 0, 0]);

    let table = build_rule_table(90);
    assert_eq!(table, [0, 1, 0, 1, 1, 0, 1, 0]);

    let table = build_rule_table(110);
    assert_eq!(table, [0, 1, 1, 1, 0, 1, 1, 0]);
}

/// Every rule, on a width that spans two words, until the pattern has reached both edges.
#[test]
fn test_all_256_rules() {
    for rule in 0..=255u8 {
        compare_implementations(rule, 65, 32);
    }
}

/// Pixel values, row offset, and the cells at either side of a word boundary.
#[test]
fn test_decode_row_to_image() {
    let width = 70;
    let live = [0usize, 63, 64, 69];
    let mut row = vec![0u64; 2];
    for &pos in &live {
        set_bit(&mut row, pos);
    }

    // Decoding into the middle of three rows, so that an offset error in either direction
    // lands in a row that must stay untouched.
    let mut img_buf = vec![0xFFu8; width * 3];
    decode_row_to_image(&row, &mut img_buf, 1, width);

    for pos in 0..width {
        let expected = if live.contains(&pos) { 0x00 } else { 0xFF };
        assert_eq!(img_buf[width + pos], expected, "pixel {} in decoded row", pos);
    }
    assert!(img_buf[..width].iter().all(|&p| p == 0xFF), "row 0 must be untouched");
    assert!(img_buf[width * 2..].iter().all(|&p| p == 0xFF), "row 2 must be untouched");
}

/// A run as a picture shows the same generations.
#[test]
fn pictures_show_the_plain_simulation() {
    for rule in [0u8, 1, 30, 90, 110, 255] {
        for width in [1u32, 2, 63, 64, 65, 130] {
            let plan = automaton::Plan::new(40, Some(width)).unwrap();
            let rows = simulate_naive(rule, width as usize, 40);
            let expected: Vec<u8> = rows
                .iter()
                .flat_map(|row| row.iter().map(|&c| if c == 1 { 0x00 } else { 0xFF }))
                .collect();
            let picture = automaton::render(rule, &plan);
            assert_eq!((picture.width, picture.height), (width, 41));
            assert_eq!(picture.pixels, expected);
        }
    }
}

/// Bits past the width count as dead cells, in the same word and in the next.
#[test]
fn bits_past_the_width_are_dead() {
    let table = build_rule_table(2);
    // Only cell 5 is set, which is past a width of 5: rule 2 would light cell 4.
    let mut stray = vec![0u64; 1];
    set_bit(&mut stray, 5);
    let mut next = vec![u64::MAX; 1];
    compute_next_generation(&stray, &mut next, &table, 5);
    assert_eq!(next, [0]);
    compute_next_generation(&stray, &mut next, &table, 6);
    assert_eq!(next, [1u64 << (63 - 4)]);

    let mut stray = vec![0u64; 2];
    set_bit(&mut stray, 64);
    let mut next = vec![u64::MAX; 2];
    compute_next_generation(&stray, &mut next, &table, 64);
    assert_eq!(next, [0, u64::MAX]);
}

/// A row that is shorter than the width is stepped as far as it goes.
#[test]
fn short_rows_are_stepped_as_far_as_they_go() {
    let table = build_rule_table(1);
    let mut next = vec![7u64, 9];
    compute_next_generation(&[0u64], &mut next, &table, 1000);
    assert_eq!(next, [u64::MAX, 9]);
    compute_next_generation(&[], &mut next, &table, 1000);
    assert_eq!(next, [u64::MAX, 9]);
    compute_next_generation(&[0u64, 0], &mut next, &table, 0);
    assert_eq!(next, [u64::MAX, 9]);
}

#[test]
fn set_bit_keeps_the_other_cells() {
    let mut row = vec![0u64; 2];
    set_bit(&mut row, 0);
    assert_eq!(row, [1u64 << 63, 0]);
    set_bit(&mut row, 63);
    set_bit(&mut row, 64);
    set_bit(&mut row, 64);
    set_bit(&mut row, 127);
    assert_eq!(row, [(1u64 << 63) | 1, (1u64 << 63) | 1]);
}

/// Dead cells and the bits past the width leave the buffer as it is.
#[test]
fn decoding_writes_live_cells_only() {
    let mut row = vec![0u64; 1];
    set_bit(&mut row, 1);
    set_bit(&mut row, 3);
    let mut img_buf = vec![7u8, 7, 7, 7, 7, 7];
    decode_row_to_image(&row, &mut img_buf, 1, 3);
    assert_eq!(img_buf, [7, 7, 7, 7, 0, 7]);
    decode_row_to_image(&[0u64], &mut img_buf, 0, 3);
    assert_eq!(img_buf, [7, 7, 7, 7, 0, 7]);
}

#[test]
fn rules_have_distinct_tables() {
    let mut tables: Vec<[u8; 8]> = (0..=255u8).map(build_rule_table).collect();
    tables.sort();
    tables.dedup();
    assert_eq!(tables.len(), 256);
}
