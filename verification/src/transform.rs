//! From an image to the bits of its hash.
//!
//! The mean, the median, the three gradients and the block mean are rules
//! on a normalised grid of intensities and are computed here. Blockhash and
//! the cosine transform are computed by the hasher of the `image_hasher`
//! crate on the image as decoded, with the hash size 8 x 8.

use crate::algorithm::HashAlgorithm;
use crate::bits::unpacked;
use crate::bits::BitVector;
use crate::bits::Bits;
use crate::decoder::DecodedImage;
use crate::decoder::PixelGrid;
use crate::error::TypedError;
use crate::normalizer::normalized;
use crate::normalizer::resamples;
use crate::normalizer::Luminance;
use crate::normalizer::LuminanceGrid;
use crate::normalizer::MAX_GRID_SIDE;
use vstd::prelude::*;

verus! {

/// The sum of `count` intensities of row `y`, from column `x` on.
pub open spec fn run_sum(grid: Luminance, x: int, y: int, count: nat) -> nat
    decreases count,
{
    if count == 0 {
        0
    } else {
        run_sum(grid, x, y, (count - 1) as nat) + grid.at(x + count - 1, y) as nat
    }
}

/// The sum of the intensities of a rectangle of `columns` by `rows` cells
/// whose first cell is in column `x` of row `y`.
pub open spec fn area_sum(grid: Luminance, x: int, y: int, columns: nat, rows: nat) -> nat
    decreases rows,
{
    if rows == 0 {
        0
    } else {
        area_sum(grid, x, y, columns, (rows - 1) as nat) + run_sum(grid, x, y + rows - 1, columns)
    }
}

/// Whether a grid divides into `columns` by `rows` blocks of one size.
pub open spec fn divides_into(grid: Luminance, columns: nat, rows: nat) -> bool {
    &&& columns > 0
    &&& rows > 0
    &&& grid.width % columns == 0
    &&& grid.height % rows == 0
}

/// The bit of the block in column `bx` and row `by` of the blocks: set
/// where the block's mean intensity is at least the mean of the whole grid.
/// The two means are compared as fractions, so nothing is rounded.
pub open spec fn block_bit(grid: Luminance, columns: nat, rows: nat, bx: int, by: int) -> bool {
    let block_width = grid.width / columns;
    let block_height = grid.height / rows;
    area_sum(grid, bx * block_width, by * block_height, block_width, block_height) * (grid.width
        * grid.height) >= area_sum(grid, 0, 0, grid.width, grid.height) * (block_width
        * block_height)
}

/// The bits of all blocks, row of blocks by row of blocks.
pub open spec fn block_mean_bits(grid: Luminance, columns: nat, rows: nat) -> Seq<bool> {
    Seq::new(
        columns * rows,
        |i: int| block_bit(grid, columns, rows, i % (columns as int), i / (columns as int)),
    )
}

proof fn lemma_cell_in_grid(x: int, y: int, width: int, height: int)
    by (nonlinear_arith)
    requires
        0 <= x < width,
        0 <= y < height,
    ensures
        0 <= y * width + x < width * height,
{
}

proof fn lemma_area_bound(grid: Luminance, x: int, y: int, columns: nat, rows: nat)
    ensures
        area_sum(grid, x, y, columns, rows) <= 255 * (columns * rows),
    decreases rows,
{
    if rows > 0 {
        lemma_area_bound(grid, x, y, columns, (rows - 1) as nat);
        lemma_run_bound(grid, x, y + rows - 1, columns);
        assert(255 * (columns * (rows - 1)) + 255 * columns == 255 * (columns * rows))
            by (nonlinear_arith);
    } else {
        assert(columns * rows == 0) by (nonlinear_arith)
            requires
                rows == 0,
        ;
    }
}

proof fn lemma_run_bound(grid: Luminance, x: int, y: int, count: nat)
    ensures
        run_sum(grid, x, y, count) <= 255 * count,
    decreases count,
{
    if count > 0 {
        lemma_run_bound(grid, x, y, (count - 1) as nat);
    }
}

proof fn lemma_uniform_area(grid: Luminance, value: u8, x: int, y: int, columns: nat, rows: nat)
    requires
        grid.wf(),
        0 <= x,
        0 <= y,
        x + columns <= grid.width,
        y + rows <= grid.height,
        forall|i: int| 0 <= i < grid.values.len() ==> grid.values[i] == value,
    ensures
        area_sum(grid, x, y, columns, rows) == value * (columns * rows),
    decreases rows,
{
    if rows > 0 {
        lemma_uniform_area(grid, value, x, y, columns, (rows - 1) as nat);
        lemma_uniform_run(grid, value, x, y + rows - 1, columns);
        assert(value * (columns * (rows - 1)) + value * columns == value * (columns * rows))
            by (nonlinear_arith);
    } else {
        assert(value * (columns * rows) == 0) by (nonlinear_arith)
            requires
                rows == 0,
        ;
    }
}

proof fn lemma_uniform_run(grid: Luminance, value: u8, x: int, y: int, count: nat)
    requires
        grid.wf(),
        0 <= x,
        0 <= y < grid.height,
        x + count <= grid.width,
        forall|i: int| 0 <= i < grid.values.len() ==> grid.values[i] == value,
    ensures
        run_sum(grid, x, y, count) == value * count,
    decreases count,
{
    if count > 0 {
        lemma_uniform_run(grid, value, x, y, (count - 1) as nat);
        lemma_cell_in_grid(x + count - 1, y, grid.width as int, grid.height as int);
        let index = y * grid.width + (x + count - 1);
        assert(0 <= index < grid.values.len());
        assert(grid.values[index] == value);
        assert(grid.at(x + count - 1, y) == value);
        assert(run_sum(grid, x, y, (count - 1) as nat) == value * (count - 1));
        assert(value * (count - 1) + value == value * count) by (nonlinear_arith);
    } else {
        assert(value * count == 0) by (nonlinear_arith)
            requires
                count == 0,
        ;
    }
}

/// A grid of one intensity has every block-mean bit set: each block's mean
/// is the mean of the grid.
pub proof fn lemma_uniform_grid_sets_every_bit(
    grid: Luminance,
    value: u8,
    columns: nat,
    rows: nat,
)
    requires
        grid.wf(),
        divides_into(grid, columns, rows),
        forall|i: int| 0 <= i < grid.values.len() ==> grid.values[i] == value,
    ensures
        block_mean_bits(grid, columns, rows) == Seq::new(columns * rows, |i: int| true),
{
    let block_width = grid.width / columns;
    let block_height = grid.height / rows;
    lemma_uniform_area(grid, value, 0, 0, grid.width, grid.height);
    let bits = block_mean_bits(grid, columns, rows);
    assert forall|i: int| 0 <= i < columns * rows implies #[trigger] bits[i] by {
        let bx = i % (columns as int);
        let by = i / (columns as int);
        assert(0 <= by < rows) by (nonlinear_arith)
            requires
                0 <= i < columns * rows,
                by == i / (columns as int),
                0 < columns,
        ;
        lemma_block_in_grid(bx, columns as int, grid.width as int);
        lemma_block_in_grid(by, rows as int, grid.height as int);
        lemma_uniform_area(
            grid,
            value,
            bx * block_width,
            by * block_height,
            block_width,
            block_height,
        );
        assert((value * (block_width * block_height)) * (grid.width * grid.height) == (value * (
        grid.width * grid.height)) * (block_width * block_height)) by (nonlinear_arith);
    }
    assert(bits =~= Seq::new(columns * rows, |i: int| true));
}

proof fn lemma_block_in_grid(b: int, blocks: int, side: int)
    requires
        0 <= b < blocks,
        0 < side,
        side % blocks == 0,
    ensures
        0 <= b * (side / blocks),
        b * (side / blocks) + side / blocks <= side,
        0 < side / blocks,
{
    let size = side / blocks;
    vstd::arithmetic::div_mod::lemma_fundamental_div_mod(side, blocks);
    assert(0 < size) by (nonlinear_arith)
        requires
            side == blocks * size,
            0 < side,
            0 < blocks,
    ;
    assert(0 <= b * size && b * size + size <= blocks * size) by (nonlinear_arith)
        requires
            0 <= b < blocks,
            0 < size,
    ;
}

fn area_sum_of(grid: &LuminanceGrid, x: u32, y: u32, columns: u32, rows: u32) -> (sum: u64)
    requires
        x + columns <= grid@.width,
        y + rows <= grid@.height,
    ensures
        sum == area_sum(grid@, x as int, y as int, columns as nat, rows as nat),
        sum <= 255 * (columns * rows),
{
    let width = grid.width();
    let height = grid.height();
    let values = grid.values();
    let mut sum: u64 = 0;
    let mut r: u32 = 0;
    while r < rows
        invariant
            r <= rows,
            x + columns <= width,
            y + rows <= height,
            width == grid@.width,
            height == grid@.height,
            0 < width <= MAX_GRID_SIDE,
            0 < height <= MAX_GRID_SIDE,
            values@ == grid@.values,
            values@.len() == width * height,
            sum == area_sum(grid@, x as int, y as int, columns as nat, r as nat),
        decreases rows - r,
    {
        let mut run: u64 = 0;
        let mut c: u32 = 0;
        while c < columns
            invariant
                c <= columns,
                r < rows,
                x + columns <= width,
                y + rows <= height,
                width == grid@.width,
                height == grid@.height,
                0 < width <= MAX_GRID_SIDE,
                0 < height <= MAX_GRID_SIDE,
                values@ == grid@.values,
                values@.len() == width * height,
                run == run_sum(grid@, x as int, y + r, c as nat),
                run <= 255 * c,
            decreases columns - c,
        {
            proof {
                lemma_cell_in_grid(x + c, y + r, width as int, height as int);
                assert((width as int) * (height as int) <= 4096 * 4096) by (nonlinear_arith)
                    requires
                        0 < width <= 4096,
                        0 < height <= 4096,
                ;
            }
            let index: usize = ((y + r) as usize) * (width as usize) + ((x + c) as usize);
            run = run + values[index] as u64;
            c = c + 1;
        }
        proof {
            lemma_area_bound(grid@, x as int, y as int, columns as nat, r as nat);
            assert(columns * r <= 4096 * 4096) by (nonlinear_arith)
                requires
                    0 <= columns <= 4096,
                    0 <= r <= 4096,
            ;
        }
        sum = sum + run;
        r = r + 1;
    }
    proof {
        lemma_area_bound(grid@, x as int, y as int, columns as nat, rows as nat);
    }
    sum
}

/// Block-mean hashing: divides the grid into `columns` by `rows` blocks of
/// one size and gives one bit for each block, set where the block's mean
/// intensity is at least the mean of the whole grid. A grid that does not
/// divide into such blocks has no block-mean bits.
pub fn block_mean(grid: &LuminanceGrid, columns: u32, rows: u32) -> (r: Option<Vec<bool>>)
    ensures
        r is Some <==> divides_into(grid@, columns as nat, rows as nat),
        r matches Some(bits) ==> bits@ == block_mean_bits(grid@, columns as nat, rows as nat),
{
    let width = grid.width();
    let height = grid.height();
    if columns == 0 || rows == 0 || width % columns != 0 || height % rows != 0 {
        return None;
    }
    let block_width: u32 = width / columns;
    let block_height: u32 = height / rows;
    proof {
        if columns > width {
            vstd::arithmetic::div_mod::lemma_small_mod(width as nat, columns as nat);
        }
        if rows > height {
            vstd::arithmetic::div_mod::lemma_small_mod(height as nat, rows as nat);
        }
        assert((width as int) * (height as int) <= 4096 * 4096) by (nonlinear_arith)
            requires
                0 < width <= 4096,
                0 < height <= 4096,
        ;
        assert((columns as int) * (rows as int) <= 4096 * 4096) by (nonlinear_arith)
            requires
                0 < columns <= 4096,
                0 < rows <= 4096,
        ;
        assert((block_width as int) * (block_height as int) <= 4096 * 4096) by (nonlinear_arith)
            requires
                0 <= block_width <= 4096,
                0 <= block_height <= 4096,
        ;
    }
    let cells: u64 = (width as u64) * (height as u64);
    let block_cells: u64 = (block_width as u64) * (block_height as u64);
    let total: u64 = area_sum_of(grid, 0, 0, width, height);
    let count: u32 = columns * rows;
    let mut bits: Vec<bool> = Vec::new();
    let mut i: u32 = 0;
    while i < count
        invariant
            i <= count,
            count == columns * rows,
            0 < columns,
            0 < rows,
            width == grid@.width,
            height == grid@.height,
            0 < width <= MAX_GRID_SIDE,
            0 < height <= MAX_GRID_SIDE,
            width % columns == 0,
            height % rows == 0,
            block_width == width / columns,
            block_height == height / rows,
            cells == width * height,
            cells <= 4096 * 4096,
            block_cells == block_width * block_height,
            block_cells <= 4096 * 4096,
            total == area_sum(grid@, 0, 0, width as nat, height as nat),
            total <= 255 * (width * height),
            bits@.len() == i,
            forall|k: int|
                0 <= k < i ==> #[trigger] bits@[k] == block_bit(
                    grid@,
                    columns as nat,
                    rows as nat,
                    k % (columns as int),
                    k / (columns as int),
                ),
        decreases count - i,
    {
        let bx: u32 = i % columns;
        let by: u32 = i / columns;
        proof {
            assert(by < rows) by (nonlinear_arith)
                requires
                    i < columns * rows,
                    by == i / columns,
                    0 < columns,
            ;
            lemma_block_in_grid(bx as int, columns as int, width as int);
            lemma_block_in_grid(by as int, rows as int, height as int);
        }
        let block: u64 = area_sum_of(
            grid,
            bx * block_width,
            by * block_height,
            block_width,
            block_height,
        );
        assert(block * cells <= 255 * (4096 * 4096) * (4096 * 4096)) by (nonlinear_arith)
            requires
                block <= 255 * (block_width * block_height),
                block_width * block_height <= 4096 * 4096,
                0 <= cells <= 4096 * 4096,
        ;
        assert(total * block_cells <= 255 * (4096 * 4096) * (4096 * 4096)) by (nonlinear_arith)
            requires
                total <= 255 * (width * height),
                width * height <= 4096 * 4096,
                0 <= block_cells <= 4096 * 4096,
        ;
        bits.push(block * cells >= total * block_cells);
        i = i + 1;
    }
    assert(bits@ =~= block_mean_bits(grid@, columns as nat, rows as nat));
    Some(bits)
}

/// The sum of all intensities of a grid.
pub open spec fn grid_sum(grid: Luminance) -> nat {
    area_sum(grid, 0, 0, grid.width, grid.height)
}

/// Whether every cell of a grid holds one intensity.
pub open spec fn uniform(grid: Luminance, value: u8) -> bool {
    forall|i: int| 0 <= i < grid.values.len() ==> grid.values[i] == value
}

/// Mean hashing: one bit for each cell, row by row, set where the cell's
/// intensity is at least the mean intensity of the grid. The two are
/// compared as fractions, so nothing is rounded; a cell equal to the mean
/// has its bit set.
pub open spec fn mean_bits(grid: Luminance) -> Seq<bool> {
    Seq::new(
        grid.values.len(),
        |i: int| grid.values[i] * (grid.width * grid.height) >= grid_sum(grid),
    )
}

/// The number of the first `n` values that are at most `limit`.
pub open spec fn count_at_most(values: Seq<u8>, limit: int, n: nat) -> nat
    decreases n,
{
    if n == 0 {
        0
    } else {
        count_at_most(values, limit, (n - 1) as nat) + if values[n - 1] <= limit {
            1nat
        } else {
            0nat
        }
    }
}

/// The least intensity from `from` on that more than `k` values are at
/// most; 255 at the latest.
pub open spec fn ranked_from(values: Seq<u8>, k: nat, from: int) -> int
    decreases 255 - from,
{
    if from >= 255 || count_at_most(values, from, values.len()) > k {
        from
    } else {
        ranked_from(values, k, from + 1)
    }
}

/// The value at place `k` when the values are put in rising order, the
/// least at place 0.
pub open spec fn ranked(values: Seq<u8>, k: nat) -> int {
    ranked_from(values, k, 0)
}

/// Twice the median of the values: twice the middle value of an odd
/// number of values, the sum of the two middle values of an even number.
pub open spec fn twice_median(values: Seq<u8>) -> int {
    let n = values.len();
    if n % 2 == 1 {
        2 * ranked(values, n / 2)
    } else {
        ranked(values, (n / 2 - 1) as nat) + ranked(values, n / 2)
    }
}

/// Median hashing: one bit for each cell, row by row, set where the cell's
/// intensity is at least the median intensity of the grid. Nothing is
/// rounded; a cell equal to the median has its bit set.
pub open spec fn median_bits(grid: Luminance) -> Seq<bool> {
    Seq::new(grid.values.len(), |i: int| 2 * grid.values[i] >= twice_median(grid.values))
}

/// Bit `i` of the gradient: pair `i % (width - 1)` of row `i / (width - 1)`,
/// set where the right cell is at least the left one.
pub open spec fn gradient_bit(grid: Luminance, i: int) -> bool {
    let pairs = grid.width - 1;
    grid.at(i % pairs + 1, i / pairs) >= grid.at(i % pairs, i / pairs)
}

/// Gradient hashing: one bit for each pair of horizontal neighbours, row
/// by row and from left to right, set where the intensity does not fall.
pub open spec fn gradient_bits(grid: Luminance) -> Seq<bool> {
    Seq::new(((grid.width - 1) * grid.height) as nat, |i: int| gradient_bit(grid, i))
}

/// Bit `i` of the vertical gradient: pair `i % (height - 1)` of column
/// `i / (height - 1)`, set where the lower cell is at least the upper one.
pub open spec fn vert_gradient_bit(grid: Luminance, i: int) -> bool {
    let pairs = grid.height - 1;
    grid.at(i / pairs, i % pairs + 1) >= grid.at(i / pairs, i % pairs)
}

/// Vertical gradient hashing: one bit for each pair of vertical
/// neighbours, column by column and from top to bottom, set where the
/// intensity does not fall.
pub open spec fn vert_gradient_bits(grid: Luminance) -> Seq<bool> {
    Seq::new((grid.width * (grid.height - 1)) as nat, |i: int| vert_gradient_bit(grid, i))
}

/// Double gradient hashing: the bits of the gradient, then those of the
/// vertical gradient.
pub open spec fn double_gradient_bits(grid: Luminance) -> Seq<bool> {
    gradient_bits(grid) + vert_gradient_bits(grid)
}

proof fn lemma_grid_size(width: int, height: int)
    by (nonlinear_arith)
    requires
        0 <= width <= 4096,
        0 <= height <= 4096,
    ensures
        0 <= width * height <= 4096 * 4096,
{
}

proof fn lemma_quotient_in_range(i: int, pairs: int, lines: int)
    requires
        0 < pairs,
        0 <= i < pairs * lines,
    ensures
        0 <= i / pairs < lines,
        0 <= i % pairs < pairs,
{
    vstd::arithmetic::div_mod::lemma_fundamental_div_mod(i, pairs);
    let q = i / pairs;
    assert(0 <= q < lines) by (nonlinear_arith)
        requires
            0 < pairs,
            0 <= i < pairs * lines,
            i == pairs * q + i % pairs,
            0 <= i % pairs < pairs,
    ;
}

/// Mean hashing of a grid.
pub fn mean(grid: &LuminanceGrid) -> (bits: Vec<bool>)
    ensures
        bits@ == mean_bits(grid@),
        bits@.len() == grid@.width * grid@.height,
{
    let width = grid.width();
    let height = grid.height();
    let values = grid.values();
    proof {
        lemma_grid_size(width as int, height as int);
    }
    let cells: u64 = (width as u64) * (height as u64);
    let total: u64 = area_sum_of(grid, 0, 0, width, height);
    let count: usize = values.len();
    let mut bits: Vec<bool> = Vec::new();
    let mut i: usize = 0;
    while i < count
        invariant
            i <= count,
            count == values@.len(),
            values@ == grid@.values,
            cells == grid@.width * grid@.height,
            cells <= 4096 * 4096,
            total == grid_sum(grid@),
            bits@.len() == i,
            forall|k: int|
                0 <= k < i ==> #[trigger] bits@[k] == (grid@.values[k] * (grid@.width
                    * grid@.height) >= grid_sum(grid@)),
        decreases count - i,
    {
        let value: u64 = values[i] as u64;
        assert(value * cells <= 255 * (4096 * 4096)) by (nonlinear_arith)
            requires
                0 <= value <= 255,
                0 <= cells <= 4096 * 4096,
        ;
        bits.push(value * cells >= total);
        i = i + 1;
    }
    assert(bits@ =~= mean_bits(grid@));
    bits
}

fn count_up_to(values: &Vec<u8>, limit: u8) -> (count: usize)
    ensures
        count == count_at_most(values@, limit as int, values@.len()),
        count <= values@.len(),
{
    let n: usize = values.len();
    let mut count: usize = 0;
    let mut i: usize = 0;
    while i < n
        invariant
            i <= n,
            n == values@.len(),
            count == count_at_most(values@, limit as int, i as nat),
            count <= i,
        decreases n - i,
    {
        if values[i] <= limit {
            count = count + 1;
        }
        i = i + 1;
    }
    count
}

fn ranked_value(values: &Vec<u8>, k: usize) -> (value: u8)
    ensures
        value == ranked(values@, k as nat),
{
    let mut value: u8 = 0;
    let mut found: bool = false;
    while !found && value < 255
        invariant
            ranked(values@, k as nat) == ranked_from(values@, k as nat, value as int),
            found ==> value >= 255 || count_at_most(values@, value as int, values@.len()) > k,
        decreases 255 - value + if found { 0int } else { 1int },
    {
        if count_up_to(values, value) > k {
            found = true;
        } else {
            value = value + 1;
        }
    }
    value
}

/// Median hashing of a grid.
pub fn median(grid: &LuminanceGrid) -> (bits: Vec<bool>)
    ensures
        bits@ == median_bits(grid@),
        bits@.len() == grid@.width * grid@.height,
{
    let width = grid.width();
    let height = grid.height();
    let values = grid.values();
    let count: usize = values.len();
    proof {
        assert(width * height > 0) by (nonlinear_arith)
            requires
                width > 0,
                height > 0,
        ;
    }
    let twice: u16 = if count % 2 == 1 {
        2 * (ranked_value(values, count / 2) as u16)
    } else {
        ranked_value(values, count / 2 - 1) as u16 + ranked_value(values, count / 2) as u16
    };
    let mut bits: Vec<bool> = Vec::new();
    let mut i: usize = 0;
    while i < count
        invariant
            i <= count,
            count == values@.len(),
            values@ == grid@.values,
            twice == twice_median(grid@.values),
            bits@.len() == i,
            forall|k: int|
                0 <= k < i ==> #[trigger] bits@[k] == (2 * grid@.values[k] >= twice_median(
                    grid@.values,
                )),
        decreases count - i,
    {
        bits.push(2 * (values[i] as u16) >= twice);
        i = i + 1;
    }
    assert(bits@ =~= median_bits(grid@));
    bits
}

/// Gradient hashing of a grid. A grid of one column has no pairs and no
/// bits.
pub fn gradient(grid: &LuminanceGrid) -> (bits: Vec<bool>)
    ensures
        bits@ == gradient_bits(grid@),
        bits@.len() == (grid@.width - 1) * grid@.height,
{
    let width = grid.width();
    let height = grid.height();
    let values = grid.values();
    let pairs: u32 = width - 1;
    let mut bits: Vec<bool> = Vec::new();
    if pairs == 0 {
        assert(bits@ =~= gradient_bits(grid@));
        return bits;
    }
    proof {
        lemma_grid_size(pairs as int, height as int);
        lemma_grid_size(width as int, height as int);
    }
    let count: u32 = pairs * height;
    let mut i: u32 = 0;
    while i < count
        invariant
            i <= count,
            count == pairs * height,
            pairs == width - 1,
            0 < pairs,
            width == grid@.width,
            height == grid@.height,
            0 < height <= MAX_GRID_SIDE,
            width <= MAX_GRID_SIDE,
            values@ == grid@.values,
            values@.len() == width * height,
            width * height <= 4096 * 4096,
            bits@.len() == i,
            forall|k: int| 0 <= k < i ==> #[trigger] bits@[k] == gradient_bit(grid@, k),
        decreases count - i,
    {
        let row: u32 = i / pairs;
        let column: u32 = i % pairs;
        proof {
            lemma_quotient_in_range(i as int, pairs as int, height as int);
            lemma_cell_in_grid(column as int, row as int, width as int, height as int);
            lemma_cell_in_grid(column + 1, row as int, width as int, height as int);
        }
        let here: usize = (row as usize) * (width as usize) + (column as usize);
        bits.push(values[here + 1] >= values[here]);
        i = i + 1;
    }
    assert(bits@ =~= gradient_bits(grid@));
    bits
}

/// Vertical gradient hashing of a grid. A grid of one row has no pairs and
/// no bits.
pub fn vert_gradient(grid: &LuminanceGrid) -> (bits: Vec<bool>)
    ensures
        bits@ == vert_gradient_bits(grid@),
        bits@.len() == grid@.width * (grid@.height - 1),
{
    let width = grid.width();
    let height = grid.height();
    let values = grid.values();
    let pairs: u32 = height - 1;
    let mut bits: Vec<bool> = Vec::new();
    if pairs == 0 {
        assert(grid@.width * (grid@.height - 1) == 0) by (nonlinear_arith)
            requires
                grid@.height - 1 == 0,
        ;
        assert(bits@ =~= vert_gradient_bits(grid@));
        return bits;
    }
    proof {
        lemma_grid_size(pairs as int, width as int);
        lemma_grid_size(width as int, height as int);
        assert(width * pairs == pairs * width) by (nonlinear_arith);
    }
    let count: u32 = width * pairs;
    let mut i: u32 = 0;
    while i < count
        invariant
            i <= count,
            count == pairs * width,
            count == width * pairs,
            pairs == height - 1,
            0 < pairs,
            width == grid@.width,
            height == grid@.height,
            0 < width <= MAX_GRID_SIDE,
            height <= MAX_GRID_SIDE,
            values@ == grid@.values,
            values@.len() == width * height,
            width * height <= 4096 * 4096,
            bits@.len() == i,
            forall|k: int| 0 <= k < i ==> #[trigger] bits@[k] == vert_gradient_bit(grid@, k),
        decreases count - i,
    {
        let column: u32 = i / pairs;
        let row: u32 = i % pairs;
        proof {
            lemma_quotient_in_range(i as int, pairs as int, width as int);
            lemma_cell_in_grid(column as int, row as int, width as int, height as int);
            lemma_cell_in_grid(column as int, row + 1, width as int, height as int);
        }
        let upper: usize = (row as usize) * (width as usize) + (column as usize);
        let lower: usize = ((row + 1) as usize) * (width as usize) + (column as usize);
        bits.push(values[lower] >= values[upper]);
        i = i + 1;
    }
    assert(bits@ =~= vert_gradient_bits(grid@));
    bits
}

/// Double gradient hashing of a grid.
pub fn double_gradient(grid: &LuminanceGrid) -> (bits: Vec<bool>)
    ensures
        bits@ == double_gradient_bits(grid@),
        bits@.len() == (grid@.width - 1) * grid@.height + grid@.width * (grid@.height - 1),
{
    let mut bits = gradient(grid);
    let mut down = vert_gradient(grid);
    bits.append(&mut down);
    bits
}

/// More than `k` values are at most the value at place `k`, and at most
/// `k` values are below it: it is the value that sorting puts at place `k`.
pub proof fn lemma_ranked_is_in_place(values: Seq<u8>, k: nat)
    requires
        k < values.len(),
    ensures
        0 <= ranked(values, k) <= 255,
        count_at_most(values, ranked(values, k), values.len()) > k,
        count_at_most(values, ranked(values, k) - 1, values.len()) <= k,
{
    lemma_count_of_all(values, values.len());
    lemma_count_of_none(values, values.len());
    lemma_ranked_from(values, k, 0);
}

proof fn lemma_count_of_all(values: Seq<u8>, n: nat)
    requires
        n <= values.len(),
    ensures
        count_at_most(values, 255, n) == n,
    decreases n,
{
    if n > 0 {
        lemma_count_of_all(values, (n - 1) as nat);
    }
}

proof fn lemma_count_of_none(values: Seq<u8>, n: nat)
    requires
        n <= values.len(),
    ensures
        count_at_most(values, -1, n) == 0,
    decreases n,
{
    if n > 0 {
        lemma_count_of_none(values, (n - 1) as nat);
    }
}

proof fn lemma_ranked_from(values: Seq<u8>, k: nat, from: int)
    requires
        k < values.len(),
        0 <= from <= 255,
        count_at_most(values, 255, values.len()) == values.len(),
        count_at_most(values, from - 1, values.len()) <= k,
    ensures
        from <= ranked_from(values, k, from) <= 255,
        count_at_most(values, ranked_from(values, k, from), values.len()) > k,
        count_at_most(values, ranked_from(values, k, from) - 1, values.len()) <= k,
    decreases 255 - from,
{
    if from >= 255 || count_at_most(values, from, values.len()) > k {
    } else {
        lemma_ranked_from(values, k, from + 1);
    }
}

/// A grid of one intensity has every bit of the mean set: each cell is
/// the mean.
pub proof fn lemma_uniform_grid_under_mean(grid: Luminance, value: u8)
    requires
        grid.wf(),
        uniform(grid, value),
    ensures
        mean_bits(grid) == Seq::new(grid.values.len(), |i: int| true),
{
    lemma_uniform_area(grid, value, 0, 0, grid.width, grid.height);
    assert(mean_bits(grid) =~= Seq::new(grid.values.len(), |i: int| true));
}

/// A grid of one intensity has every bit of the gradient set: the
/// intensity falls nowhere.
pub proof fn lemma_uniform_grid_under_gradient(grid: Luminance, value: u8)
    requires
        grid.wf(),
        uniform(grid, value),
    ensures
        gradient_bits(grid) == Seq::new(
            ((grid.width - 1) * grid.height) as nat,
            |i: int| true,
        ),
{
    let pairs = grid.width - 1;
    let bits = gradient_bits(grid);
    assert forall|i: int| 0 <= i < bits.len() implies #[trigger] bits[i] by {
        lemma_quotient_in_range(i, pairs, grid.height as int);
        lemma_cell_in_grid(i % pairs, i / pairs, grid.width as int, grid.height as int);
        lemma_cell_in_grid(i % pairs + 1, i / pairs, grid.width as int, grid.height as int);
        assert(grid.at(i % pairs, i / pairs) == value);
        assert(grid.at(i % pairs + 1, i / pairs) == value);
    }
    assert(bits =~= Seq::new(((grid.width - 1) * grid.height) as nat, |i: int| true));
}

/// What the hasher of the `image_hasher` crate is set to compute.
#[derive(Clone, Copy, Debug, PartialEq, Eq, Structural)]
pub enum HasherKind {
    /// Its Blockhash algorithm.
    Blockhash,
    /// Its median algorithm after its cosine transform.
    MedianOfDct,
}

/// Whether Blockhash can take an image of the given dimensions. Where both
/// are multiples of 8 it sums each block in 32 bits, and 765 times the
/// pixels of a block must fit; else it finds the block of a pixel in
/// single precision, which is exact below 16,777,216.
pub open spec fn blockhash_takes(width: nat, height: nat) -> bool {
    if width % 8 == 0 && height % 8 == 0 {
        765 * ((width / 8) * (height / 8)) <= u32::MAX
    } else {
        width < 16_777_216 && height < 16_777_216
    }
}

/// Whether the hasher can take an image for a kind.
pub open spec fn hasher_takes(kind: HasherKind, image: PixelGrid) -> bool {
    match kind {
        HasherKind::Blockhash => blockhash_takes(image.width, image.height),
        HasherKind::MedianOfDct => resamples(image, 16),
    }
}

/// The bytes of the Blockhash of an image. It stands for
/// `Hasher::hash_image` of the `image_hasher` crate set to Blockhash, which
/// adds, multiplies, divides, rounds and compares numbers and does nothing
/// else to them.
pub uninterp spec fn blockhash_bytes(image: PixelGrid) -> Seq<u8>;

/// Builds `image_hasher::HasherConfig::new()`, sets its `hash_alg` (and
/// `preproc_dct` for the cosine transform), and calls `hash_image` of its
/// `to_hasher` on the samples as an `RgbaImage`; hands back the hash's
/// `as_bytes`. The hash size stays at 8 x 8, so the bits are 64, packed
/// eight to a byte. Of Blockhash the bytes are named. Of the cosine
/// transform only their number is claimed: it resamples with sines and
/// transforms with cosines, whose last digits the machine decides.
#[verifier::external_body]
fn run_hasher(kind: HasherKind, width: u32, height: u32, samples: &Vec<u8>) -> (bytes: Vec<u8>)
    requires
        (PixelGrid { width: width as nat, height: height as nat, samples: samples@ }).wf(),
        hasher_takes(
            kind,
            (PixelGrid { width: width as nat, height: height as nat, samples: samples@ }),
        ),
    ensures
        bytes@.len() == 8,
        kind == HasherKind::Blockhash ==> bytes@ == blockhash_bytes(
            (PixelGrid { width: width as nat, height: height as nat, samples: samples@ }),
        ),
{
    let config = image_hasher::HasherConfig::new();
    let config = match kind {
        HasherKind::Blockhash => config.hash_alg(image_hasher::HashAlg::Blockhash),
        HasherKind::MedianOfDct => config.hash_alg(image_hasher::HashAlg::Median).preproc_dct(),
    };
    let buffer = image::RgbaImage::from_raw(width, height, samples.clone()).expect(
        "four samples for each pixel",
    );
    config.to_hasher().hash_image(&buffer).as_bytes().to_vec()
}

/// Whether an algorithm can take an image on this machine. Every image
/// that a 64-bit machine can hold is taken by every algorithm but
/// Blockhash.
pub open spec fn hashable(image: PixelGrid, algorithm: HashAlgorithm) -> bool {
    match algorithm {
        HashAlgorithm::Blockhash => blockhash_takes(image.width, image.height),
        _ => resamples(image, algorithm.working_resolution_spec().1 as nat),
    }
}

/// On a machine whose `usize` has 64 bits every image is taken by every
/// algorithm but Blockhash. Blockhash takes every image whose sides are
/// below 16,777,216 and whose blocks hold at most 5,614,336 pixels.
pub proof fn lemma_what_is_hashable(image: PixelGrid, algorithm: HashAlgorithm)
    requires
        image.wf(),
        usize::MAX >= 0xffff_ffff_ffff_ffff,
    ensures
        algorithm != HashAlgorithm::Blockhash ==> hashable(image, algorithm),
        image.width < 16_777_216 && image.height < 16_777_216 && (image.width / 8) * (image.height
            / 8) <= 5_614_336 ==> hashable(image, HashAlgorithm::Blockhash),
{
    let height = algorithm.working_resolution_spec().1 as int;
    assert(4 * image.width * height <= 4 * 0xffff_ffff * 16) by (nonlinear_arith)
        requires
            0 < image.width <= 0xffff_ffff,
            0 < height <= 16,
    ;
}

/// The bits that an algorithm makes of an image, where the image and the
/// algorithm fix them. For the cosine transform they do not: see
/// `run_hasher`.
pub open spec fn fixed_bits(image: PixelGrid, algorithm: HashAlgorithm) -> Option<Seq<bool>> {
    let size = algorithm.working_resolution_spec();
    let grid = normalized(image, size.0 as nat, size.1 as nat);
    match algorithm {
        HashAlgorithm::Mean => Some(mean_bits(grid)),
        HashAlgorithm::Gradient => Some(gradient_bits(grid)),
        HashAlgorithm::VertGradient => Some(vert_gradient_bits(grid)),
        HashAlgorithm::DoubleGradient => Some(double_gradient_bits(grid)),
        HashAlgorithm::BlockMean => Some(block_mean_bits(grid, 8, 8)),
        HashAlgorithm::Median => Some(median_bits(grid)),
        HashAlgorithm::Blockhash => Some(unpacked(blockhash_bytes(image), 64)),
        HashAlgorithm::Dct => None,
    }
}

/// Whether a bit vector is a hash of an image under an algorithm: it is of
/// that algorithm and of its length, and its bits are those that the image
/// and the algorithm fix, where they fix them.
pub open spec fn is_transform_of(vector: Bits, image: PixelGrid, algorithm: HashAlgorithm) -> bool {
    &&& vector.algorithm == algorithm
    &&& vector.wf()
    &&& fixed_bits(image, algorithm) matches Some(bits) ==> vector.bits == bits
}

fn blockhash_fits(width: u32, height: u32) -> (fits: bool)
    ensures
        fits == blockhash_takes(width as nat, height as nat),
{
    if width % 8 == 0 && height % 8 == 0 {
        let across: u64 = (width / 8) as u64;
        let down: u64 = (height / 8) as u64;
        assert(across * down <= 0x2000_0000 * 0x2000_0000) by (nonlinear_arith)
            requires
                0 <= across <= 0x2000_0000,
                0 <= down <= 0x2000_0000,
        ;
        across * down <= 5_614_336
    } else {
        width < 16_777_216 && height < 16_777_216
    }
}

fn by_rule(grid: &LuminanceGrid, algorithm: HashAlgorithm) -> (bits: Vec<bool>)
    requires
        algorithm != HashAlgorithm::Blockhash,
        algorithm != HashAlgorithm::Dct,
        grid@.width == algorithm.working_resolution_spec().0,
        grid@.height == algorithm.working_resolution_spec().1,
    ensures
        bits@.len() == algorithm.bit_count_spec(),
        bits@ == match algorithm {
            HashAlgorithm::Mean => mean_bits(grid@),
            HashAlgorithm::Gradient => gradient_bits(grid@),
            HashAlgorithm::VertGradient => vert_gradient_bits(grid@),
            HashAlgorithm::DoubleGradient => double_gradient_bits(grid@),
            HashAlgorithm::BlockMean => block_mean_bits(grid@, 8, 8),
            _ => median_bits(grid@),
        },
{
    match algorithm {
        HashAlgorithm::Mean => mean(grid),
        HashAlgorithm::Gradient => gradient(grid),
        HashAlgorithm::VertGradient => vert_gradient(grid),
        HashAlgorithm::DoubleGradient => double_gradient(grid),
        HashAlgorithm::BlockMean => block_mean(grid, 8, 8).unwrap(),
        _ => median(grid),
    }
}

/// Hashes a decoded image with an algorithm. The bits are as many as the
/// algorithm fixes, whatever the size of the image, and but for the cosine
/// transform they are fixed by the image and the algorithm. An image that
/// the algorithm cannot take is refused as `TooLarge`.
pub fn transform(image: &DecodedImage, algorithm: HashAlgorithm) -> (r: Result<
    BitVector,
    TypedError,
>)
    ensures
        match r {
            Ok(vector) => hashable(image@, algorithm) && is_transform_of(
                vector@,
                image@,
                algorithm,
            ),
            Err(error) => !hashable(image@, algorithm) && error == TypedError::TooLarge,
        },
{
    let size = algorithm.working_resolution();
    let made = match algorithm {
        HashAlgorithm::Blockhash => {
            if !blockhash_fits(image.width(), image.height()) {
                return Err(TypedError::TooLarge);
            }
            let bytes = run_hasher(
                HasherKind::Blockhash,
                image.width(),
                image.height(),
                image.samples(),
            );
            BitVector::from_bytes(algorithm, bytes.as_slice())
        },
        HashAlgorithm::Dct => {
            if 64 * (image.width() as u64) > usize::MAX as u64 {
                return Err(TypedError::TooLarge);
            }
            let bytes = run_hasher(
                HasherKind::MedianOfDct,
                image.width(),
                image.height(),
                image.samples(),
            );
            BitVector::from_bytes(algorithm, bytes.as_slice())
        },
        _ => {
            match LuminanceGrid::normalize(image, size.0, size.1) {
                None => {
                    return Err(TypedError::TooLarge);
                },
                Some(grid) => BitVector::new(algorithm, by_rule(&grid, algorithm)),
            }
        },
    };
    Ok(made.unwrap())
}

} // verus!
