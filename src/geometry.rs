//! Horizontal layout of the swatch strip: how wide each swatch is, where it
//! starts, and which swatch owns each column.
use vstd::prelude::*;
use vstd::arithmetic::div_mod::{lemma_fundamental_div_mod, lemma_fundamental_div_mod_converse};

verus! {

/// Width of swatch `index` out of `len`, for a strip `total` wide whose
/// swatches step by `step`: the last one absorbs whatever `len` steps leave
/// uncovered.
pub open spec fn swatch_width_spec(total: int, step: int, index: int, len: int) -> int {
    if index + 1 == len && step * len < total {
        step + (total - step * len)
    } else {
        step
    }
}

/// Width of swatch `i` when `k` swatches share a strip `total` wide.
pub open spec fn width_of(total: int, k: int, i: int) -> int {
    swatch_width_spec(total, total / k, i, k)
}

/// Leftmost column of swatch `i`: the placement cursor steps by `total / k`.
pub open spec fn start_of(total: int, k: int, i: int) -> int {
    i * (total / k)
}

/// The swatch whose span holds column `x`.
pub open spec fn owner_of(total: int, k: int, x: int) -> int {
    let step = total / k;
    if step == 0 || x / step >= k - 1 {
        k - 1
    } else {
        x / step
    }
}

/// Total width of the first `n` swatches.
pub open spec fn widths_sum(total: int, k: int, n: int) -> int
    decreases n,
{
    if n <= 0 {
        0
    } else {
        widths_sum(total, k, n - 1) + width_of(total, k, n - 1)
    }
}

/// Width of swatch `index` out of `length`, where `w_dimension` is the strip
/// width and the nominal swatch width.
pub fn get_width_palette_diff(w_dimension: (u32, u32), index: usize, length: usize) -> (r: u32)
    ensures
        r == swatch_width_spec(w_dimension.0 as int, w_dimension.1 as int, index as int, length as int),
{
    let (total_w, color_w) = w_dimension;
    let mut actual_width = color_w;
    proof {
        assert(color_w as int * length as int <= 0x1_0000_0000_0000_0000_0000_0000) by (nonlinear_arith)
            requires color_w <= u32::MAX, length <= u64::MAX;
    }
    let diff: u128 = color_w as u128 * length as u128;
    if index as u128 + 1 == length as u128 {
        if diff < total_w as u128 {
            proof {
                assert(color_w as int <= color_w as int * length as int) by (nonlinear_arith)
                    requires length >= 1;
            }
            let to_sum: u32 = (total_w as u128 - diff) as u32;
            actual_width = color_w + to_sum;
        }
    }
    actual_width
}

pub proof fn lemma_step_facts(total: int, k: int)
    requires
        0 <= total,
        1 <= k,
    ensures
        0 <= total / k <= total,
        k * (total / k) + total % k == total,
        0 <= total % k < k,
        k * (total / k) <= total,
{
    lemma_fundamental_div_mod(total, k);
    let q = total / k;
    let r = total % k;
    assert(0 <= r < k);
    assert(0 <= q) by (nonlinear_arith)
        requires k * q + r == total, 0 <= r < k, 0 <= total, 1 <= k;
    assert(q <= total) by (nonlinear_arith)
        requires k * q + r == total, 0 <= r, 0 <= q, 1 <= k;
}

proof fn lemma_prefix_sum(total: int, k: int, n: int)
    requires
        0 <= total,
        1 <= k,
        0 <= n <= k - 1,
    ensures
        widths_sum(total, k, n) == n * (total / k),
    decreases n,
{
    if n > 0 {
        lemma_prefix_sum(total, k, n - 1);
        let q = total / k;
        assert(width_of(total, k, n - 1) == q);
        assert((n - 1) * q + q == n * q) by (nonlinear_arith);
        assert(widths_sum(total, k, n) == widths_sum(total, k, n - 1) + q);
    } else {
        assert(0 * (total / k) == 0) by (nonlinear_arith);
    }
}

/// The swatches tile the strip exactly: their widths add up to its width, and
/// every swatch but the last is `total / k` wide.
pub proof fn lemma_widths_sum(total: int, k: int)
    requires
        0 <= total,
        1 <= k,
    ensures
        widths_sum(total, k, k) == total,
        forall|i: int| 0 <= i < k - 1 ==> #[trigger] width_of(total, k, i) == total / k,
{
    lemma_step_facts(total, k);
    lemma_prefix_sum(total, k, k - 1);
    let q = total / k;
    assert((k - 1) * q + q == k * q) by (nonlinear_arith);
    assert(q * k == k * q) by (nonlinear_arith);
}

/// When `k` does not divide `total`, the last swatch is wider than the others
/// by exactly `total % k`.
pub proof fn lemma_uneven_last(total: int, k: int)
    requires
        0 <= total,
        1 <= k,
        total % k != 0,
    ensures
        width_of(total, k, k - 1) == total / k + total % k,
        width_of(total, k, k - 1) > total / k,
        forall|i: int| 0 <= i < k - 1 ==> #[trigger] width_of(total, k, i) == total / k,
{
    lemma_step_facts(total, k);
    assert((total / k) * k == k * (total / k)) by (nonlinear_arith);
}

/// When `k` divides `total`, all swatches are equally wide.
pub proof fn lemma_even_widths(total: int, k: int)
    requires
        0 <= total,
        1 <= k,
        total % k == 0,
    ensures
        forall|i: int| 0 <= i < k ==> #[trigger] width_of(total, k, i) == total / k,
{
    lemma_step_facts(total, k);
    assert((total / k) * k == k * (total / k)) by (nonlinear_arith);
}

/// A single swatch spans the whole strip and owns every column.
pub proof fn lemma_single_swatch(total: int)
    requires
        0 <= total,
    ensures
        width_of(total, 1, 0) == total,
        start_of(total, 1, 0) == 0,
        forall|x: int| 0 <= x < total ==> #[trigger] owner_of(total, 1, x) == 0,
{
    lemma_step_facts(total, 1);
}

/// Every swatch fits inside the strip.
pub proof fn lemma_span_fits(total: int, k: int, i: int)
    requires
        0 <= total,
        1 <= k,
        0 <= i < k,
    ensures
        0 <= start_of(total, k, i),
        0 <= width_of(total, k, i),
        start_of(total, k, i) + width_of(total, k, i) <= total,
        i == k - 1 ==> start_of(total, k, i) + width_of(total, k, i) == total,
{
    lemma_step_facts(total, k);
    let q = total / k;
    assert(0 <= i * q) by (nonlinear_arith)
        requires 0 <= i, 0 <= q;
    assert(i * q + q <= k * q) by (nonlinear_arith)
        requires i < k, 0 <= q;
    assert((k - 1) * q + q == k * q) by (nonlinear_arith);
    assert(q * k == k * q) by (nonlinear_arith);
}

/// A column inside the span of swatch `i` is owned by swatch `i`.
pub proof fn lemma_owner_in_span(total: int, k: int, i: int, x: int)
    requires
        0 <= total,
        1 <= k,
        0 <= i < k,
        start_of(total, k, i) <= x < start_of(total, k, i) + width_of(total, k, i),
    ensures
        owner_of(total, k, x) == i,
{
    lemma_step_facts(total, k);
    let q = total / k;
    if q > 0 {
        if i < k - 1 {
            lemma_fundamental_div_mod_converse(x, q, i, x - i * q);
        } else {
            lemma_fundamental_div_mod(x, q);
            let d = x / q;
            let r = x % q;
            assert(d >= k - 1) by (nonlinear_arith)
                requires x == q * d + r, r < q, x >= (k - 1) * q, 0 < q;
        }
    }
}

/// Every column of the strip is covered: it lies inside the span of the
/// swatch that owns it.
pub proof fn lemma_strip_covers(total: int, k: int, x: int)
    requires
        0 <= total,
        1 <= k,
        0 <= x < total,
    ensures
        0 <= owner_of(total, k, x) < k,
        start_of(total, k, owner_of(total, k, x)) <= x,
        x < start_of(total, k, owner_of(total, k, x)) + width_of(total, k, owner_of(total, k, x)),
{
    lemma_step_facts(total, k);
    let q = total / k;
    if q > 0 {
        lemma_fundamental_div_mod(x, q);
        let d = x / q;
        let r = x % q;
        assert(0 <= d) by (nonlinear_arith)
            requires x == q * d + r, r < q, 0 <= x, 0 < q;
        assert(x < q * d + q);
        assert(q * d == d * q) by (nonlinear_arith);
        if d >= k - 1 {
            lemma_span_fits(total, k, k - 1);
            assert((k - 1) * q <= d * q) by (nonlinear_arith)
                requires d >= k - 1, 0 < q;
        }
    } else {
        lemma_span_fits(total, k, k - 1);
        assert((k - 1) * q == 0) by (nonlinear_arith)
            requires q == 0;
    }
}

} // verus!
