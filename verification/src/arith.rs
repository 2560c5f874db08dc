//! Small facts of non-linear integer arithmetic used by the pixel loops.

use vstd::prelude::*;

verus! {

/// A row that starts before the last one ends before the whole block does.
pub proof fn lemma_row_in_block(row: int, rows: int, stride: int)
    requires
        0 <= row < rows,
        0 <= stride,
    ensures
        row * stride + stride <= rows * stride,
        0 <= row * stride,
{
    assert(row * stride + stride <= rows * stride) by (nonlinear_arith)
        requires
            0 <= row < rows,
            0 <= stride,
    ;
    assert(0 <= row * stride) by (nonlinear_arith)
        requires
            0 <= row,
            0 <= stride,
    ;
}

/// Multiplication by a non-negative factor keeps order.
pub proof fn lemma_mul_le(a: int, b: int, c: int)
    requires
        0 <= a <= b,
        0 <= c,
    ensures
        a * c <= b * c,
        0 <= a * c,
{
    assert(a * c <= b * c) by (nonlinear_arith)
        requires
            0 <= a <= b,
            0 <= c,
    ;
    assert(0 <= a * c) by (nonlinear_arith)
        requires
            0 <= a,
            0 <= c,
    ;
}

/// `(n + 1) * m == n * m + m`.
pub proof fn lemma_mul_succ(n: int, m: int)
    ensures
        (n + 1) * m == n * m + m,
{
    assert((n + 1) * m == n * m + m) by (nonlinear_arith);
}

/// The average of values that are each at most 255 is at most 255.
pub proof fn lemma_avg_byte(s: int, n: int)
    requires
        0 <= s <= 255 * n,
        0 < n,
    ensures
        0 <= s / n <= 255,
{
    assert(0 <= s / n <= 255) by (nonlinear_arith)
        requires
            0 <= s <= 255 * n,
            0 < n,
    ;
}

/// `n * m == (n - 1) * m + m`.
pub proof fn lemma_mul_pred(n: int, m: int)
    ensures
        n * m == (n - 1) * m + m,
{
    assert(n * m == (n - 1) * m + m) by (nonlinear_arith);
}

/// `m * (n + 1) == m * n + m`.
pub proof fn lemma_mul_succ_right(m: int, n: int)
    ensures
        m * (n + 1) == m * n + m,
{
    assert(m * (n + 1) == m * n + m) by (nonlinear_arith);
}

/// The product of two `u32` values is at most `u32::MAX * u32::MAX`.
pub proof fn lemma_mul_u32_bound(a: int, b: int)
    requires
        0 <= a <= u32::MAX,
        0 <= b <= u32::MAX,
    ensures
        0 <= a * b <= u32::MAX as int * u32::MAX as int,
{
    assert(0 <= a * b <= u32::MAX as int * u32::MAX as int) by (nonlinear_arith)
        requires
            0 <= a <= u32::MAX,
            0 <= b <= u32::MAX,
    ;
}

/// Number of steps of size `st` that stay below `d`, rounded up.
pub open spec fn ceil_div(d: int, st: int) -> int {
    (d + st - 1) / st
}

/// The `i`-th step stays below `d` exactly when `i` is below `ceil_div(d, st)`.
pub proof fn lemma_step_count(d: int, st: int, i: int)
    requires
        st > 0,
        i >= 0,
    ensures
        (i * st < d) <==> (i < ceil_div(d, st)),
{
    let q = (d + st - 1) / st;
    let r = (d + st - 1) % st;
    vstd::arithmetic::div_mod::lemma_fundamental_div_mod(d + st - 1, st);
    assert(0 <= r < st) by {
        vstd::arithmetic::div_mod::lemma_mod_bound(d + st - 1, st);
    }
    if i < q {
        assert(i * st <= (q - 1) * st) by (nonlinear_arith)
            requires i <= q - 1, st > 0;
        assert((q - 1) * st == st * q - st) by (nonlinear_arith);
    } else {
        assert(i * st >= q * st) by (nonlinear_arith)
            requires i >= q, st > 0;
        assert(q * st == st * q) by (nonlinear_arith);
    }
}

} // verus!
