//! The integer stages of the codec: packing quantized coefficients into
//! 32-bit words and back, cutting a grid into 2x2 blocks, laying blocks out
//! flat and putting flat block cells back in their raster places.
use crate::array2::{lemma_cell_in_grid, lemma_cell_of_index, Array2};
use crate::bitpack::{
    field_signed, field_unsigned, fits_signed, fits_unsigned, gets, getu, news, newu, put_signed,
    put_unsigned,
};
use crate::structs::{Block, DCTCoefficient};
use vstd::arithmetic::power2::{lemma2_to64, pow2};
use vstd::prelude::*;

verus! {

/// Every field of `coeff` fits the width that the word layout gives it:
/// `a` 9 unsigned bits, `b`, `c`, `d` 5 signed bits each, the chroma indices
/// 4 unsigned bits each.
pub open spec fn coefficient_fits(coeff: DCTCoefficient) -> bool {
    &&& fits_unsigned(coeff.a as int, 9)
    &&& fits_signed(coeff.b as int, 5)
    &&& fits_signed(coeff.c as int, 5)
    &&& fits_signed(coeff.d as int, 5)
    &&& fits_unsigned(coeff.index_of_pb as int, 4)
    &&& fits_unsigned(coeff.index_of_pr as int, 4)
}

/// The word that holds `coeff`: `a` at bit 23, `b` at 18, `c` at 13, `d` at
/// 8, the blue chroma index at 4 and the red chroma index at 0.
pub open spec fn packed_word(coeff: DCTCoefficient) -> u64 {
    let w = put_unsigned(0, 23, coeff.a);
    let w = put_signed(w, 5, 18, coeff.b as int);
    let w = put_signed(w, 5, 13, coeff.c as int);
    let w = put_signed(w, 5, 8, coeff.d as int);
    let w = put_unsigned(w, 4, coeff.index_of_pb as u64);
    put_unsigned(w, 0, coeff.index_of_pr as u64)
}

/// The coefficients that the fields of `word` hold.
pub open spec fn unpacked(word: u64) -> DCTCoefficient {
    DCTCoefficient {
        a: field_unsigned(word, 9, 23) as u64,
        b: field_signed(word, 5, 18) as i64,
        c: field_signed(word, 5, 13) as i64,
        d: field_signed(word, 5, 8) as i64,
        index_of_pb: field_unsigned(word, 4, 4) as usize,
        index_of_pr: field_unsigned(word, 4, 0) as usize,
    }
}

/// The four bytes of `word`, most significant first.
pub open spec fn be_bytes(word: u32) -> Seq<u8> {
    seq![
        (word / 0x100_0000) as u8,
        (word / 0x1_0000 % 0x100) as u8,
        (word / 0x100 % 0x100) as u8,
        (word % 0x100) as u8,
    ]
}

/// The block whose top-left cell is at `(col, row)` of `grid`.
pub open spec fn block_at<T>(grid: Array2<T>, col: int, row: int) -> Block<T> {
    Block {
        y1: grid.cell(col, row),
        y2: grid.cell(col + 1, row),
        y3: grid.cell(col, row + 1),
        y4: grid.cell(col + 1, row + 1),
    }
}

/// Cell `j` of `block` in corner order: top left, top right, bottom left,
/// bottom right.
pub open spec fn corner<T>(block: Block<T>, j: int) -> T {
    if j == 0 {
        block.y1
    } else if j == 1 {
        block.y2
    } else if j == 2 {
        block.y3
    } else {
        block.y4
    }
}

/// Where the cell at `(col, row)` of a grid `width` wide stands once its
/// blocks, taken row by row, are laid out flat four cells each.
pub open spec fn block_order_index(width: int, col: int, row: int) -> int {
    4 * ((row / 2) * (width / 2) + col / 2) + 2 * (row % 2) + col % 2
}

/// A cell of a grid of even dimensions lies, in block order, inside the grid.
proof fn lemma_block_order_in_grid(width: int, height: int, col: int, row: int)
    requires
        width % 2 == 0,
        height % 2 == 0,
        0 <= col < width,
        0 <= row < height,
    ensures
        0 <= block_order_index(width, col, row) < width * height,
{
    let hw = width / 2;
    let hh = height / 2;
    let br = row / 2;
    let bc = col / 2;
    assert(br < hh && bc < hw);
    assert(0 <= br * hw + bc < hw * hh) by (nonlinear_arith)
        requires
            0 <= br < hh,
            0 <= bc < hw,
    ;
    assert(4 * (hw * hh) == width * height) by (nonlinear_arith)
        requires
            width == 2 * hw,
            height == 2 * hh,
    ;
}

/// The 2x2 block whose top-left cell is at column `col` and row `row`.
pub fn get_block<T: Copy>(cv_arr: &Array2<T>, row: usize, col: usize) -> (b: Block<T>)
    requires
        cv_arr.wf(),
        col + 1 < cv_arr.width,
        row + 1 < cv_arr.height,
    ensures
        b == block_at(*cv_arr, col as int, row as int),
{
    let y1 = *cv_arr.get(col, row).unwrap();
    let y2 = *cv_arr.get(col + 1, row).unwrap();
    let y3 = *cv_arr.get(col, row + 1).unwrap();
    let y4 = *cv_arr.get(col + 1, row + 1).unwrap();
    Block { y1, y2, y3, y4 }
}

/// The 2x2 blocks of a grid of even dimensions, row by row of blocks, under
/// the grid's own width and height.
pub fn component_video_to_blocks<T: Copy>(
    image_in_component_vid: Array2<T>,
) -> (r: Array2<Block<T>>)
    requires
        image_in_component_vid.wf(),
        image_in_component_vid.width % 2 == 0,
        image_in_component_vid.height % 2 == 0,
    ensures
        r.width == image_in_component_vid.width,
        r.height == image_in_component_vid.height,
        r.data@.len() == (r.width / 2) * (r.height / 2),
        forall|k: int|
            0 <= k < r.data@.len() ==> #[trigger] r.data@[k] == block_at(
                image_in_component_vid,
                2 * (k % (r.width / 2) as int),
                2 * (k / (r.width / 2) as int),
            ),
{
    let width = image_in_component_vid.get_width();
    let height = image_in_component_vid.get_height();
    let half_width: usize = width / 2;
    let half_height: usize = height / 2;
    let mut block_arr: Vec<Block<T>> = Vec::new();
    let mut br: usize = 0;
    while br < half_height
        invariant
            image_in_component_vid.wf(),
            width == image_in_component_vid.width,
            height == image_in_component_vid.height,
            width % 2 == 0,
            height % 2 == 0,
            half_width == width / 2,
            half_height == height / 2,
            br <= half_height,
            block_arr@.len() == br * half_width,
            forall|k: int|
                0 <= k < block_arr@.len() ==> #[trigger] block_arr@[k] == block_at(
                    image_in_component_vid,
                    2 * (k % half_width as int),
                    2 * (k / half_width as int),
                ),
        decreases half_height - br,
    {
        let mut bc: usize = 0;
        while bc < half_width
            invariant
                image_in_component_vid.wf(),
                width == image_in_component_vid.width,
                height == image_in_component_vid.height,
                width % 2 == 0,
                height % 2 == 0,
                half_width == width / 2,
                half_height == height / 2,
                br < half_height,
                bc <= half_width,
                block_arr@.len() == br * half_width + bc,
                forall|k: int|
                    0 <= k < block_arr@.len() ==> #[trigger] block_arr@[k] == block_at(
                        image_in_component_vid,
                        2 * (k % half_width as int),
                        2 * (k / half_width as int),
                    ),
            decreases half_width - bc,
        {
            proof {
                lemma_cell_of_index(half_width as int, bc as int, br as int);
            }
            let block = get_block(&image_in_component_vid, 2 * br, 2 * bc);
            block_arr.push(block);
            bc += 1;
        }
        proof {
            assert((br + 1) * half_width == br * half_width + half_width) by (nonlinear_arith);
        }
        br += 1;
    }
    proof {
        assert(half_height * half_width == half_width * half_height) by (nonlinear_arith);
    }
    Array2::from_row_major(width, height, block_arr)
}

/// The cells of every block laid out flat, four per block in corner order,
/// under the same width and height.
pub fn from_blocks_to_component_format<T: Copy>(block: Array2<Block<T>>) -> (r: Array2<T>)
    requires
        4 * block.data@.len() <= usize::MAX,
    ensures
        r.width == block.width,
        r.height == block.height,
        r.data@.len() == 4 * block.data@.len(),
        forall|i: int|
            0 <= i < r.data@.len() ==> #[trigger] r.data@[i] == corner(block.data@[i / 4], i % 4),
{
    let mut cv_image: Vec<T> = Vec::new();
    let mut i: usize = 0;
    while i < block.data.len()
        invariant
            i <= block.data@.len(),
            cv_image@.len() == 4 * i,
            forall|j: int|
                0 <= j < cv_image@.len() ==> #[trigger] cv_image@[j] == corner(
                    block.data@[j / 4],
                    j % 4,
                ),
        decreases block.data@.len() - i,
    {
        let pixel_block = block.data[i];
        proof {
            lemma_cell_of_index(4, 0, i as int);
            lemma_cell_of_index(4, 1, i as int);
            lemma_cell_of_index(4, 2, i as int);
            lemma_cell_of_index(4, 3, i as int);
        }
        cv_image.push(pixel_block.y1);
        cv_image.push(pixel_block.y2);
        cv_image.push(pixel_block.y3);
        cv_image.push(pixel_block.y4);
        i += 1;
    }
    Array2::from_row_major(block.width, block.height, cv_image)
}

/// Puts cells laid out in block order back in raster order: the cells of
/// each block, four at a time in corner order, go to their places in a
/// grid of the image's even width and height, read row by row.
pub fn fix_pixel_poss<T: Copy>(image: Array2<T>) -> (output: Vec<T>)
    requires
        image.wf(),
        image.width % 2 == 0,
        image.height % 2 == 0,
    ensures
        output@.len() == image.width * image.height,
        forall|k: int|
            0 <= k < output@.len() ==> #[trigger] output@[k] == image.data@[block_order_index(
                image.width as int,
                k % image.width as int,
                k / image.width as int,
            )],
{
    let width = image.get_width();
    let height = image.get_height();
    let mut output: Vec<T> = Vec::new();
    let mut row: usize = 0;
    while row < height
        invariant
            image.wf(),
            width == image.width,
            height == image.height,
            width % 2 == 0,
            height % 2 == 0,
            row <= height,
            output@.len() == row * width,
            forall|k: int|
                0 <= k < output@.len() ==> #[trigger] output@[k] == image.data@[block_order_index(
                    width as int,
                    k % width as int,
                    k / width as int,
                )],
        decreases height - row,
    {
        let mut c: usize = 0;
        while c < width
            invariant
                image.wf(),
                width == image.width,
                height == image.height,
                width % 2 == 0,
                height % 2 == 0,
                row < height,
                c <= width,
                output@.len() == row * width + c,
                forall|k: int|
                    0 <= k < output@.len() ==> #[trigger] output@[k] == image.data@[block_order_index(
                        width as int,
                        k % width as int,
                        k / width as int,
                    )],
            decreases width - c,
        {
            proof {
                lemma_block_order_in_grid(width as int, height as int, c as int, row as int);
                lemma_cell_of_index(width as int, c as int, row as int);
                lemma_cell_in_grid(width as int, height as int, c as int, row as int);
                assert(image.data@.len() == image.data.len());
            }
            let idx: usize = 4 * ((row / 2) * (width / 2) + c / 2) + 2 * (row % 2) + c % 2;
            output.push(image.data[idx]);
            c += 1;
        }
        proof {
            assert((row + 1) * width == row * width + width) by (nonlinear_arith);
        }
        row += 1;
    }
    proof {
        assert(height * width == width * height) by (nonlinear_arith);
    }
    output
}

/// Cutting a grid of even dimensions into blocks, laying their cells out
/// flat and putting them back in raster order gives the grid back: the cell
/// that lands at `(col, row)` is the grid's own cell there.
pub proof fn lemma_block_layout_round_trip<T>(grid: Array2<T>, col: int, row: int)
    requires
        grid.wf(),
        grid.width % 2 == 0,
        grid.height % 2 == 0,
        0 <= col < grid.width,
        0 <= row < grid.height,
    ensures
        ({
            let half_width = grid.width / 2;
            let i = block_order_index(grid.width as int, col, row);
            corner(
                block_at(grid, 2 * ((i / 4) % half_width as int), 2 * ((i / 4) / half_width as int)),
                i % 4,
            ) == grid.cell(col, row)
        }),
{
    let half_width = grid.width / 2;
    let k = (row / 2) * half_width + col / 2;
    let j = 2 * (row % 2) + col % 2;
    lemma_cell_of_index(4, j, k);
    lemma_cell_of_index(half_width as int, col / 2, row / 2);
}

/// Where each field lies in a word assembled from fields of the layout's
/// widths.
proof fn lemma_layout_fields(a: u64, b: u64, c: u64, d: u64, pb: u64, pr: u64)
    by (bit_vector)
    requires
        a < 0x200,
        b < 0x20,
        c < 0x20,
        d < 0x20,
        pb < 0x10,
        pr < 0x10,
    ensures
        ({
            let w = (pr << 0u64) | ((pb << 4u64) | ((d << 8u64) | ((c << 13u64) | ((b << 18u64) | (
            (a << 23u64) | 0u64)))));
            &&& w < 0x1_0000_0000
            &&& w / 0x80_0000 % 0x200 == a
            &&& w / 0x4_0000 % 0x20 == b
            &&& w / 0x2000 % 0x20 == c
            &&& w / 0x100 % 0x20 == d
            &&& w / 0x10 % 0x10 == pb
            &&& w / 0x1 % 0x10 == pr
        }),
{
}

/// The two's-complement bits of a 5-bit value, read back.
proof fn lemma_five_bit_signed(v: int)
    requires
        -16 <= v < 16,
    ensures
        0 <= v % 32 < 32,
        (if v % 32 < 16 {
            v % 32
        } else {
            v % 32 - 32
        }) == v,
{
}

/// Packs `coeff` into one word, or gives `None` when a field does not fit.
fn pack_word(coeff: &DCTCoefficient) -> (r: Option<u32>)
    ensures
        r == if coefficient_fits(*coeff) {
            Some(packed_word(*coeff) as u32)
        } else {
            None::<u32>
        },
{
    let word: u64 = 0;
    let word = match newu(word, 9, 23, coeff.a) {
        Some(w) => w,
        None => return None,
    };
    let word = match news(word, 5, 18, coeff.b) {
        Some(w) => w,
        None => return None,
    };
    let word = match news(word, 5, 13, coeff.c) {
        Some(w) => w,
        None => return None,
    };
    let word = match news(word, 5, 8, coeff.d) {
        Some(w) => w,
        None => return None,
    };
    let word = match newu(word, 4, 4, coeff.index_of_pb as u64) {
        Some(w) => w,
        None => return None,
    };
    let word = match newu(word, 4, 0, coeff.index_of_pr as u64) {
        Some(w) => w,
        None => return None,
    };
    Some(#[verifier::truncate] (word as u32))
}

/// The coefficients held in the fields of `word`.
fn unpack_word(word: u32) -> (r: DCTCoefficient)
    ensures
        r == unpacked(word as u64),
{
    let w: u64 = word as u64;
    let a = getu(w, 9, 23);
    let b = gets(w, 5, 18);
    let c = gets(w, 5, 13);
    let d = gets(w, 5, 8);
    let pb = getu(w, 4, 4);
    let pr = getu(w, 4, 0);
    proof {
        lemma2_to64();
        assert(pb < 16 && pr < 16);
    }
    DCTCoefficient { a, b, c, d, index_of_pb: pb as usize, index_of_pr: pr as usize }
}

/// The four bytes of `word`, most significant first.
fn word_to_be_bytes(word: u32) -> (r: [u8; 4])
    ensures
        r@ == be_bytes(word),
{
    let b0: u8 = (word >> 24) as u8;
    let b1: u8 = #[verifier::truncate] ((word >> 16) as u8);
    let b2: u8 = #[verifier::truncate] ((word >> 8) as u8);
    let b3: u8 = #[verifier::truncate] (word as u8);
    proof {
        assert(b0 == (word / 0x100_0000) as u8) by (bit_vector)
            requires
                b0 == (word >> 24) as u8,
        ;
        assert(b1 == (word / 0x1_0000 % 0x100) as u8) by (bit_vector)
            requires
                b1 == (word >> 16) as u8,
        ;
        assert(b2 == (word / 0x100 % 0x100) as u8) by (bit_vector)
            requires
                b2 == (word >> 8) as u8,
        ;
        assert(b3 == (word % 0x100) as u8) by (bit_vector)
            requires
                b3 == word as u8,
        ;
    }
    let r = [b0, b1, b2, b3];
    assert(r@ =~= be_bytes(word));
    r
}

/// Packs every coefficient of `dct_arr` into a 32-bit word, stored as its
/// four bytes, most significant first, in the same order and under the same
/// width and height. Gives `None` when some coefficient has a field that
/// does not fit its width.
pub fn pack_values_into_word(dct_arr: Array2<DCTCoefficient>) -> (r: Option<Array2<[u8; 4]>>)
    ensures
        r.is_some() == (forall|k: int|
            0 <= k < dct_arr.data@.len() ==> #[trigger] coefficient_fits(dct_arr.data@[k])),
        r.is_some() ==> r.unwrap().width == dct_arr.width,
        r.is_some() ==> r.unwrap().height == dct_arr.height,
        r.is_some() ==> r.unwrap().data@.len() == dct_arr.data@.len(),
        r.is_some() ==> forall|k: int|
            0 <= k < dct_arr.data@.len() ==> #[trigger] r.unwrap().data@[k]@ == be_bytes(
                packed_word(dct_arr.data@[k]) as u32,
            ),
{
    let mut compressed_image: Vec<[u8; 4]> = Vec::new();
    let mut i: usize = 0;
    while i < dct_arr.data.len()
        invariant
            i <= dct_arr.data@.len(),
            compressed_image@.len() == i,
            forall|k: int| 0 <= k < i ==> #[trigger] coefficient_fits(dct_arr.data@[k]),
            forall|k: int|
                0 <= k < i ==> #[trigger] compressed_image@[k]@ == be_bytes(
                    packed_word(dct_arr.data@[k]) as u32,
                ),
        decreases dct_arr.data@.len() - i,
    {
        match pack_word(&dct_arr.data[i]) {
            Some(word) => compressed_image.push(word_to_be_bytes(word)),
            None => return None,
        }
        i += 1;
    }
    Some(Array2::from_row_major(dct_arr.width, dct_arr.height, compressed_image))
}

/// The coefficients held in each word of `compressed_imag`, in the same
/// order, as a grid of the given width and height.
pub fn unpack_values(
    compressed_imag: Vec<u32>,
    image_width: usize,
    image_height: usize,
) -> (r: Array2<DCTCoefficient>)
    ensures
        r.width == image_width,
        r.height == image_height,
        r.data@.len() == compressed_imag@.len(),
        forall|k: int|
            0 <= k < compressed_imag@.len() ==> #[trigger] r.data@[k] == unpacked(
                compressed_imag@[k] as u64,
            ),
{
    let mut dct_arr: Vec<DCTCoefficient> = Vec::new();
    let mut i: usize = 0;
    while i < compressed_imag.len()
        invariant
            i <= compressed_imag@.len(),
            dct_arr@.len() == i,
            forall|k: int|
                0 <= k < i ==> #[trigger] dct_arr@[k] == unpacked(compressed_imag@[k] as u64),
        decreases compressed_imag@.len() - i,
    {
        dct_arr.push(unpack_word(compressed_imag[i]));
        i += 1;
    }
    Array2::from_row_major(image_width, image_height, dct_arr)
}

/// Unpacking the word that packing gives returns the coefficients, for every
/// coefficient whose fields fit the layout and whose differences `b`, `c`,
/// `d` lie in the 5-bit two's-complement range `[-16, 15]`. The packed word
/// fits in 32 bits.
pub proof fn lemma_pack_unpack_round_trip(coeff: DCTCoefficient)
    requires
        coefficient_fits(coeff),
        coeff.b < 16,
        coeff.c < 16,
        coeff.d < 16,
    ensures
        packed_word(coeff) < 0x1_0000_0000,
        unpacked((packed_word(coeff) as u32) as u64) == coeff,
{
    lemma2_to64();
    let b = coeff.b as int % 32;
    let c = coeff.c as int % 32;
    let d = coeff.d as int % 32;
    lemma_five_bit_signed(coeff.b as int);
    lemma_five_bit_signed(coeff.c as int);
    lemma_five_bit_signed(coeff.d as int);
    lemma_layout_fields(
        coeff.a,
        b as u64,
        c as u64,
        d as u64,
        coeff.index_of_pb as u64,
        coeff.index_of_pr as u64,
    );
    let w = packed_word(coeff);
    assert((w as u32) as u64 == w);
}

} // verus!
