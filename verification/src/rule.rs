//! Wolfram rule numbers as lookup tables.
use vstd::prelude::*;

verus! {

use crate::bits::{lemma_rule_bit_range, lemma_rule_digits};
use crate::model::rule_table;

/// Converts a Wolfram rule number into its lookup table.
///
/// Entry `i` is bit `i` of `rule`; the index of a neighborhood is
/// `(left << 2) | (center << 1) | right`. Every `u8` is a rule, so nothing is rejected.
/// Rule 30 (`0b00011110`) gives `[0, 1, 1, 1, 1, 0, 0, 0]`.
pub fn build_rule_table(rule: u8) -> (table: [u8; 8])
    ensures
        table@ == rule_table(rule),
        forall|i: int| 0 <= i < 8 ==> table[i] <= 1,
        table[0] + 2 * table[1] + 4 * table[2] + 8 * table[3] + 16 * table[4] + 32 * table[5] + 64
            * table[6] + 128 * table[7] == rule,
{
    let mut table = [0u8; 8];
    let mut i: u8 = 0;
    while i < 8
        invariant
            i <= 8,
            forall|j: int| 0 <= j < i ==> table[j] == rule_table(rule)[j],
        decreases 8 - i,
    {
        table[i as usize] = (rule >> i) & 1;
        i += 1;
    }
    proof {
        assert(table@ =~= rule_table(rule));
        assert forall|j: int| 0 <= j < 8 implies table[j] <= 1 by {
            lemma_rule_bit_range(rule, j as u8);
        }
        lemma_rule_digits(rule);
    }
    table
}

} // verus!
