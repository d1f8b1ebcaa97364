//! How a matrix product is laid out on a device that computes cells in parallel.
//!
//! Units come in square blocks of 16 by 16. Each unit computes one cell of the
//! product, or nothing where its place lies outside.
use vstd::prelude::*;

verus! {

/// The number of units along each side of a block.
pub const BLOCK: u32 = 16;

/// How many blocks there are along the rows and along the columns.
#[derive(Clone, Copy, Debug, PartialEq, Eq, Structural)]
pub struct Grid {
    pub rows: u32,
    pub columns: u32,
}

/// The number of blocks that `n` units fill, the last one perhaps in part.
pub open spec fn blocks_for(n: int) -> int {
    (n + BLOCK - 1) / BLOCK as int
}

/// The blocks for a product of `m` rows and `n` columns.
pub fn matmul_grid(m: u32, n: u32) -> (r: Grid)
    ensures
        r.rows == blocks_for(m as int),
        r.columns == blocks_for(n as int),
        m <= r.rows * 16 < m + 16,
        n <= r.columns * 16 < n + 16,
{
    Grid { rows: count_blocks(m), columns: count_blocks(n) }
}

fn count_blocks(n: u32) -> (r: u32)
    ensures
        r == blocks_for(n as int),
{
    let whole: u32 = n / BLOCK;
    if n % BLOCK == 0 {
        whole
    } else {
        whole + 1
    }
}

/// Whether the factors of a product have the sizes that its dimensions say.
pub open spec fn sizes_agree(a_len: int, b_len: int, m: int, n: int, k: int) -> bool {
    a_len == m * k && b_len == k * n
}

/// The number of cells of the product of `a` with `m` rows of `k` and `b` with `k`
/// rows of `n`, where the factors have these sizes and the cells can be counted.
pub fn matmul_cells(a_len: usize, b_len: usize, m: usize, n: usize, k: usize) -> (r: Option<usize>)
    ensures
        r is Some <==> sizes_agree(a_len as int, b_len as int, m as int, n as int, k as int) && m
            * n <= usize::MAX,
        r matches Some(cells) ==> cells == m * n,
{
    match (m.checked_mul(k), k.checked_mul(n), m.checked_mul(n)) {
        (Some(a), Some(b), Some(cells)) => {
            if a == a_len && b == b_len {
                Some(cells)
            } else {
                None
            }
        },
        _ => None,
    }
}

/// The row or column that unit `unit` of block `block` computes.
pub open spec fn place_of(block: int, unit: int) -> int {
    unit + block * BLOCK
}

/// Every row and every column is computed by one unit of one block, and by no other.
pub proof fn every_place_has_one_unit(n: int, place: int, block: int, unit: int)
    requires
        0 <= place < n,
        0 <= unit < BLOCK,
        0 <= block,
    ensures
        0 <= place / (BLOCK as int) < blocks_for(n),
        0 <= place % (BLOCK as int) < BLOCK,
        place_of(place / BLOCK as int, place % BLOCK as int) == place,
        place_of(block, unit) == place ==> block == place / BLOCK as int && unit == place
            % BLOCK as int,
{
}

/// There is no block without work: the first unit of the last block computes something, and
/// where there is nothing to compute there is no block.
pub proof fn every_block_has_work(n: int)
    requires
        0 <= n,
    ensures
        n > 0 ==> 0 <= place_of(blocks_for(n) - 1, 0) < n,
        n == 0 ==> blocks_for(n) == 0,
{
}

} // verus!
