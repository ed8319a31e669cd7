//! Properties of the transform that relate several of its functions: proved
//! here once and for all inputs.

use vstd::prelude::*;
use vstd::arithmetic::div_mod::{
    lemma_fundamental_div_mod, lemma_div_pos_is_pos, lemma_mod_division_less_than_divisor,
    lemma_multiply_divide_lt, lemma_div_multiples_vanish,
};
use vstd::arithmetic::mul::lemma_mul_is_commutative;
use crate::image_buf::{ImageBuffer, pixel_index, seq_channel};
use crate::mosaic::{cell_avg, col_sum, window_sum, tint};
use crate::transform::transform_post;

verus! {

/// Tint bounds: the tinted channel stays within `0 ..= 255`; a black brick
/// channel blots the average out, a white one passes it through unchanged.
pub proof fn lemma_tint_bounds(avg: int, brick: int)
    requires
        0 <= avg <= 255,
        0 <= brick <= 255,
    ensures
        0 <= tint(avg, brick) <= 255,
        brick == 0 ==> tint(avg, brick) == 0,
        brick == 255 ==> tint(avg, brick) == avg,
{
    assert(0 <= avg * brick / 255 <= 255) by (nonlinear_arith)
        requires
            0 <= avg <= 255,
            0 <= brick <= 255,
    ;
    if brick == 0 {
        assert(avg * 0 == 0) by (nonlinear_arith);
    }
    if brick == 255 {
        lemma_div_multiples_vanish(avg, 255);
        lemma_mul_is_commutative(avg, 255);
    }
}

/// A column of a uniform window sums to `m` times the uniform value.
proof fn lemma_col_sum_uniform(
    pixels: Seq<u8>,
    width: int,
    x: int,
    y0: int,
    c: int,
    m: nat,
    v: u8,
)
    requires
        forall|yy: int|
            y0 + 1 <= yy <= y0 + m ==> seq_channel(pixels, width, x, yy, c) == v,
    ensures
        col_sum(pixels, width, x, y0, c, m) == m * v,
    decreases m,
{
    if m == 0 {
        assert(m * v == 0) by (nonlinear_arith)
            requires
                m == 0,
        ;
    } else {
        lemma_col_sum_uniform(pixels, width, x, y0, c, (m - 1) as nat, v);
        assert(((m - 1) as nat) * v + v == m * v) by (nonlinear_arith)
            requires
                m >= 1,
        ;
    }
}

/// A uniform window sums to its pixel count times the uniform value.
proof fn lemma_window_sum_uniform(
    pixels: Seq<u8>,
    width: int,
    x0: int,
    y0: int,
    c: int,
    n: nat,
    m: nat,
    v: u8,
)
    requires
        forall|xx: int, yy: int|
            x0 + 1 <= xx <= x0 + n && y0 + 1 <= yy <= y0 + m ==> seq_channel(pixels, width, xx, yy, c)
                == v,
    ensures
        window_sum(pixels, width, x0, y0, c, n, m) == n * m * v,
    decreases n,
{
    if n == 0 {
        assert(n * m * v == 0) by (nonlinear_arith)
            requires
                n == 0,
        ;
    } else {
        lemma_window_sum_uniform(pixels, width, x0, y0, c, (n - 1) as nat, m, v);
        lemma_col_sum_uniform(pixels, width, x0 + n, y0, c, m, v);
        assert(((n - 1) as nat) * m * v + m * v == n * m * v) by (nonlinear_arith)
            requires
                n >= 1,
        ;
    }
}

/// Average computation: for a cell whose aggregation window is uniformly `v`
/// in channel `c`, the computed average equals exactly `v`.
pub proof fn lemma_uniform_window_average(
    pixels: Seq<u8>,
    width: int,
    x0: int,
    y0: int,
    c: int,
    b: int,
    v: u8,
)
    requires
        b >= 3,
        forall|xx: int, yy: int|
            x0 + 1 <= xx <= x0 + b - 2 && y0 + 1 <= yy <= y0 + b - 2 ==> seq_channel(
                pixels,
                width,
                xx,
                yy,
                c,
            ) == v,
    ensures
        cell_avg(pixels, width, x0, y0, c, b) == v,
{
    let n = (b - 2) as nat;
    lemma_window_sum_uniform(pixels, width, x0, y0, c, n, n, v);
    assert((b - 2) * (b - 2) >= 1) by (nonlinear_arith)
        requires
            b >= 3,
    ;
    lemma_div_multiples_vanish(v as int, (b - 2) * (b - 2));
    assert(n * n * v == ((b - 2) * (b - 2)) * (v as int)) by (nonlinear_arith)
        requires
            n == b - 2,
    ;
}

/// Determinism: two outputs of the transform for the same source, brick
/// texture and brick size are byte-identical.
pub proof fn lemma_transform_deterministic(
    src: ImageBuffer,
    brick_pixels: Seq<u8>,
    b: int,
    out1: ImageBuffer,
    out2: ImageBuffer,
)
    requires
        b >= 1,
        transform_post(src, brick_pixels, b, out1),
        transform_post(src, brick_pixels, b, out2),
    ensures
        out1.width == out2.width,
        out1.height == out2.height,
        out1.pixels@ == out2.pixels@,
{
    let w = out1.width as int;
    let h = out1.height as int;
    assert(out1.pixels@.len() == out2.pixels@.len());
    assert forall|k: int| 0 <= k < out1.pixels@.len() implies out1.pixels@[k] == out2.pixels@[k]
        by {
        assert(w >= 1 && h >= 1 && 4 * (w * h) == 4 * w * h) by (nonlinear_arith)
            requires
                0 <= w,
                0 <= h,
                0 < 4 * w * h,
        ;
        let c = k % 4;
        let q = k / 4;
        lemma_fundamental_div_mod(k, 4);
        lemma_mod_division_less_than_divisor(k, 4);
        lemma_div_pos_is_pos(k, 4);
        lemma_multiply_divide_lt(q, 1, w * h);
        assert(q < w * h) by (nonlinear_arith)
            requires
                4 * q <= k,
                k < 4 * w * h,
        ;
        let x = q % w;
        let y = q / w;
        lemma_fundamental_div_mod(q, w);
        lemma_mod_division_less_than_divisor(q, w);
        lemma_div_pos_is_pos(q, w);
        lemma_multiply_divide_lt(q, w, h);
        lemma_mul_is_commutative(w, y);
        assert(k == pixel_index(w, x, y, c));
        assert(out1.valid_coord(x, y, c));
        assert(out1.channel(x, y, c) as int == out2.channel(x, y, c) as int);
    }
    assert(out1.pixels@ =~= out2.pixels@);
}

/// Border default: every pixel on a cell's one-pixel ring — offset 0 or
/// `b - 1` along either axis — holds the output buffer's zero default.
pub proof fn lemma_cell_border_default(
    src: ImageBuffer,
    brick_pixels: Seq<u8>,
    b: int,
    out: ImageBuffer,
    x: int,
    y: int,
    c: int,
)
    requires
        b >= 3,
        transform_post(src, brick_pixels, b, out),
        out.valid_coord(x, y, c),
        x % b == 0 || x % b == b - 1 || y % b == 0 || y % b == b - 1,
    ensures
        out.channel(x, y, c) == 0,
{
    assert(out.channel(x, y, c) as int == crate::transform::out_channel_spec(
        src,
        brick_pixels,
        b,
        x,
        y,
        c,
    ));
}

} // verus!
