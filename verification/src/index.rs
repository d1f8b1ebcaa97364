//! Places in row-major storage.
use vstd::prelude::*;

verus! {

/// The cell in row `i` and column `j` of an `m` by `n` grid has a place of its own.
pub proof fn lemma_cell(i: int, j: int, m: int, n: int)
    requires
        0 <= i < m,
        0 <= j < n,
    ensures
        0 <= i * n,
        0 <= i * n + j < m * n,
        (i + 1) * n == i * n + n,
        (i + 1) * n <= m * n,
        (i * n + j) / n == i,
        (i * n + j) % n == j,
{
    assert((i + 1) * n == i * n + n) by (nonlinear_arith);
    assert(0 <= i * n) by (nonlinear_arith)
        requires
            0 <= i,
            0 <= n,
    ;
    assert((i + 1) * n <= m * n) by (nonlinear_arith)
        requires
            i + 1 <= m,
            0 <= n,
    ;
    vstd::arithmetic::div_mod::lemma_fundamental_div_mod_converse(i * n + j, n, i, j);
}

/// Every place of an `m` by `n` grid is that of one cell.
pub proof fn lemma_place(p: int, m: int, n: int)
    requires
        0 <= p < m * n,
        0 <= m,
        0 <= n,
    ensures
        0 < n,
        0 <= p / n < m,
        0 <= p % n < n,
        (p / n) * n + p % n == p,
{
    assert(n > 0) by (nonlinear_arith)
        requires
            0 < m * n,
            0 <= n,
    ;
    vstd::arithmetic::div_mod::lemma_fundamental_div_mod(p, n);
    assert((p / n) * n == n * (p / n)) by (nonlinear_arith);
    assert(p / n < m) by (nonlinear_arith)
        requires
            n * (p / n) <= p,
            p < m * n,
            0 < n,
    ;
    assert(0 <= p / n) by (nonlinear_arith)
        requires
            0 <= p,
            0 < n,
    ;
}

/// Whether the product of three sizes is a size.
pub fn product_fits(a: usize, b: usize, c: usize) -> (r: bool)
    ensures
        r == (a * b * c <= usize::MAX),
{
    if a == 0 || b == 0 || c == 0 {
        assert(a * b * c == 0) by (nonlinear_arith)
            requires
                a == 0 || b == 0 || c == 0,
        ;
        return true;
    }
    match a.checked_mul(b) {
        None => {
            assert(a * b <= a * b * c) by (nonlinear_arith)
                requires
                    c >= 1,
                    a >= 0,
                    b >= 0,
            ;
            false
        },
        Some(ab) => {
            match ab.checked_mul(c) {
                None => false,
                Some(_) => true,
            }
        },
    }
}

} // verus!
