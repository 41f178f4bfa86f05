//! Drawing generations into a grayscale picture.
use image::GrayImage;
use vstd::arithmetic::div_mod::lemma_fundamental_div_mod_converse;
use vstd::arithmetic::mul::{lemma_mul_is_commutative, lemma_mul_is_distributive_add_other_way};
use vstd::prelude::*;

verus! {

use crate::bits::lemma_zero_bit;
use crate::model::{
    generation, initial, packed_cell, pixels_of_run, rule_table, unpack, words_needed, DEAD_PIXEL,
    LIVE_PIXEL,
};
use crate::plan::Plan;
use crate::row::{compute_next_generation, set_bit, words_for, words_written};
use crate::rule::build_rule_table;

/// Draws the live cells of a packed row into row `row_idx` of a flat pixel buffer with `width`
/// pixels per row.
///
/// Only live cells are written, so a buffer that is to show dead cells white is filled with
/// `DEAD_PIXEL` beforehand. Pixels of other rows are left alone.
pub fn decode_row_to_image(row: &[u64], img_buf: &mut [u8], row_idx: usize, width: usize)
    requires
        row_idx * width + width <= old(img_buf)@.len(),
    ensures
        final(img_buf)@.len() == old(img_buf)@.len(),
        forall|k: int|
            0 <= k < old(img_buf)@.len() ==> #[trigger] final(img_buf)@[k] == if row_idx * width
                <= k < row_idx * width + width && packed_cell(row@, k - row_idx * width) {
                LIVE_PIXEL
            } else {
                old(img_buf)@[k]
            },
        forall|k: int|
            row_idx * width <= k < row_idx * width + width && packed_cell(row@, k - row_idx * width)
                ==> #[trigger] final(img_buf)@[k] == 0x00,
{
    proof {
        assert(img_buf.len() == img_buf@.len());
        assert(0 <= row_idx * width) by (nonlinear_arith);
    }
    let row_offset: usize = row_idx * width;
    let needed: usize = words_for(width);
    let words: usize = if needed <= row.len() { needed } else { row.len() };
    let mut wi: usize = 0;
    while wi < words
        invariant
            wi <= words,
            words == words_written(row@, width as int),
            row_offset == row_idx * width,
            row_offset + width <= img_buf@.len() <= usize::MAX,
            img_buf@.len() == old(img_buf)@.len(),
            forall|k: int|
                0 <= k < img_buf@.len() ==> #[trigger] img_buf@[k] == if row_offset <= k
                    < row_offset + width && k - row_offset < 64 * wi && packed_cell(
                    row@,
                    k - row_offset,
                ) {
                    LIVE_PIXEL
                } else {
                    old(img_buf)@[k]
                },
        decreases words - wi,
    {
        let word: u64 = row[wi];
        let cell_start: usize = wi * 64;
        // A word without live cells has nothing to draw.
        if word != 0 {
            let cell_end: usize = if width - cell_start > 64 {
                cell_start + 64
            } else {
                width
            };
            let mut pos: usize = cell_start;
            while pos < cell_end
                invariant
                    cell_start <= pos <= cell_end,
                    cell_end <= width,
                    cell_start < cell_end <= cell_start + 64,
                    cell_start == wi * 64,
                    wi < row@.len(),
                    word == row@[wi as int],
                    row_offset + width <= img_buf@.len() <= usize::MAX,
                    img_buf@.len() == old(img_buf)@.len(),
                    forall|k: int|
                        0 <= k < img_buf@.len() ==> #[trigger] img_buf@[k] == if row_offset <= k
                            < row_offset + pos && packed_cell(row@, k - row_offset) {
                            LIVE_PIXEL
                        } else {
                            old(img_buf)@[k]
                        },
                decreases cell_end - pos,
            {
                let b: u64 = 63 - (pos % 64) as u64;
                if (word >> b) & 1 == 1 {
                    img_buf[row_offset + pos] = LIVE_PIXEL;
                }
                pos += 1;
            }
        } else {
            proof {
                assert forall|p: int| cell_start <= p < cell_start + 64 implies !#[trigger]
                packed_cell(row@, p) by {
                    lemma_zero_bit((63 - p % 64) as u64);
                }
            }
        }
        wi += 1;
    }
}

/// A grayscale picture, one byte per pixel, row after row.
#[derive(Debug, PartialEq, Eq)]
pub struct Picture {
    /// Pixels per row.
    pub width: u32,
    /// The number of rows.
    pub height: u32,
    /// The gray levels; those of row `r` start at index `r * width`.
    pub pixels: Vec<u8>,
}

impl Picture {
    /// Every row has its pixels.
    pub open spec fn wf(self) -> bool {
        self.width * self.height <= self.pixels@.len()
    }

    /// Makes a picture of a flat pixel buffer, or returns `None` where the buffer is too short
    /// for the dimensions.
    pub fn from_raw(width: u32, height: u32, buf: Vec<u8>) -> (picture: Option<Picture>)
        ensures
            picture is Some <==> width * height <= buf@.len(),
            picture matches Some(p) ==> p.wf() && p.width == width && p.height == height
                && p.pixels@ == buf@,
    {
        gray_image(width, height, buf)
    }
}

/// Runs `rule` as `plan` says and returns the pixels of all generations.
///
/// Two packed rows are all that is kept of the generations: each step reads one and overwrites
/// the other, which then takes its place.
pub fn simulate(rule: u8, plan: &Plan) -> (img_buf: Vec<u8>)
    requires
        plan.wf(),
        plan.area() <= isize::MAX,
    ensures
        img_buf@ == pixels_of_run(rule, plan.width as nat, plan.height as nat),
        img_buf@.len() == plan.width * plan.height,
{
    let table = build_rule_table(rule);
    let width: usize = plan.width as usize;
    let height: usize = plan.height as usize;
    let num_words: usize = words_for(width);
    proof {
        lemma_rows_fit(width as int, 0, height as int);
    }

    // White throughout: drawing a generation blackens its live cells only.
    let mut img_buf: Vec<u8> = vec![DEAD_PIXEL; width * height];
    let ghost blank = img_buf@;
    let mut current: Vec<u64> = vec![0u64; num_words];
    let mut next: Vec<u64> = vec![0u64; num_words];
    set_bit(&mut current, width / 2);
    proof {
        assert forall|p: int| 0 <= p < width implies packed_cell(current@, p) == (p == width / 2) by {
            lemma_zero_bit((63 - p % 64) as u64);
        }
        assert(unpack(current@, width as nat) =~= initial(width as nat));
    }
    decode_row_to_image(&current, &mut img_buf, 0, width);
    proof {
        lemma_drawn_next(blank, img_buf@, current@, rule, width as nat, height as nat, 0);
    }

    let mut row_idx: usize = 1;
    while row_idx < height
        invariant
            1 <= row_idx <= height,
            width == plan.width,
            height == plan.height,
            plan.wf(),
            width * height <= isize::MAX,
            table@ == rule_table(rule),
            forall|i: int| 0 <= i < 8 ==> table[i] <= 1,
            current@.len() == words_needed(width as int),
            next@.len() == words_needed(width as int),
            unpack(current@, width as nat) == generation(rule, width as nat, (row_idx - 1) as nat),
            drawn(img_buf@, rule, width as nat, height as nat, row_idx as nat),
        decreases height - row_idx,
    {
        compute_next_generation(&current, &mut next, &table, width);
        proof {
            lemma_rows_fit(width as int, row_idx as int, height as int);
        }
        let ghost before = img_buf@;
        decode_row_to_image(&next, &mut img_buf, row_idx, width);
        proof {
            lemma_drawn_next(
                before,
                img_buf@,
                next@,
                rule,
                width as nat,
                height as nat,
                row_idx as nat,
            );
        }
        std::mem::swap(&mut current, &mut next);
        row_idx += 1;
    }
    proof {
        lemma_mul_is_commutative(width as int, height as int);
        assert(img_buf@ =~= pixels_of_run(rule, width as nat, height as nat));
    }
    img_buf
}

/// The first `rows` generations stand in the buffer, and what follows them is white.
spec fn drawn(img: Seq<u8>, rule: u8, width: nat, height: nat, rows: nat) -> bool {
    &&& img.len() == width * height
    &&& forall|k: int|
        0 <= k < img.len() ==> #[trigger] img[k] == if k < rows * width {
            pixels_of_run(rule, width, height)[k]
        } else {
            DEAD_PIXEL
        }
}

/// Drawing generation `r` below the ones before it.
proof fn lemma_drawn_next(
    before: Seq<u8>,
    after: Seq<u8>,
    row: Seq<u64>,
    rule: u8,
    width: nat,
    height: nat,
    r: nat,
)
    requires
        0 < width,
        r < height,
        drawn(before, rule, width, height, r),
        unpack(row, width) == generation(rule, width, r),
        after.len() == before.len(),
        forall|k: int|
            0 <= k < before.len() ==> #[trigger] after[k] == if r * width <= k < r * width + width
                && packed_cell(row, k - r * width) {
                LIVE_PIXEL
            } else {
                before[k]
            },
    ensures
        drawn(after, rule, width, height, r + 1),
{
    lemma_mul_is_distributive_add_other_way(width as int, r as int, 1);
    assert forall|k: int| 0 <= k < after.len() implies #[trigger] after[k] == if k < (r + 1)
        * width {
        pixels_of_run(rule, width, height)[k]
    } else {
        DEAD_PIXEL
    } by {
        assert(before[k] == if k < r * width {
            pixels_of_run(rule, width, height)[k]
        } else {
            DEAD_PIXEL
        });
        if r * width <= k < r * width + width {
            lemma_fundamental_div_mod_converse(k, width as int, r as int, k - r * width);
            assert(unpack(row, width)[k - r * width] == packed_cell(row, k - r * width));
        }
    }
}

/// Calls `image::GrayImage::from_raw` and takes the image apart again.
///
/// The contract claims that `from_raw` accepts exactly the buffers of `width * height` bytes or
/// more, one byte per pixel, and that `dimensions` and `into_raw` then hand back the dimensions
/// and the buffer that it was given.
#[verifier::external_body]
fn gray_image(width: u32, height: u32, buf: Vec<u8>) -> (picture: Option<Picture>)
    ensures
        picture is Some <==> width * height <= buf@.len(),
        picture matches Some(p) ==> p.width == width && p.height == height && p.pixels@ == buf@,
{
    match GrayImage::from_raw(width, height, buf) {
        Some(img) => {
            let (width, height) = img.dimensions();
            Some(Picture { width, height, pixels: img.into_raw() })
        },
        None => None,
    }
}

/// Runs `rule` as `plan` says and draws the run: generation `r` is row `r`, a live cell is
/// black and a dead one white.
pub fn render(rule: u8, plan: &Plan) -> (picture: Picture)
    requires
        plan.wf(),
        plan.area() <= isize::MAX,
    ensures
        picture.wf(),
        picture.width == plan.width,
        picture.height == plan.height,
        picture.pixels@ == pixels_of_run(rule, plan.width as nat, plan.height as nat),
        picture.pixels@.len() == plan.width * plan.height,
{
    let img_buf = simulate(rule, plan);
    Picture::from_raw(plan.width, plan.height, img_buf).expect("Failed to create image from buffer")
}

/// Row `r` of `height` rows of `width` pixels ends within the buffer.
proof fn lemma_rows_fit(width: int, r: int, height: int)
    requires
        0 <= r < height,
        0 < width,
    ensures
        0 <= r * width,
        r * width + width <= width * height,
        width <= width * height,
{
    assert(r * width + width <= width * height) by (nonlinear_arith)
        requires
            0 <= r < height,
            0 < width,
    ;
    assert(0 <= r * width) by (nonlinear_arith)
        requires
            0 <= r,
            0 < width,
    ;
}

} // verus!
