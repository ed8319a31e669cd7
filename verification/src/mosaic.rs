//! The mosaic transform: cell averaging and multiplicative tinting.
//!
//! A source image is partitioned into `B x B` cells anchored at the top left;
//! remainder strips on the right and bottom are discarded. For each cell the
//! interior pixels (offsets `1 ..= B - 2` along both axes) are averaged per
//! channel with floor division, and the same interior offsets of the output
//! cell are filled with the brick texture tinted by that average. The
//! one-pixel ring of every cell is left at the buffer's zero default, which
//! draws the gap between bricks.

use vstd::prelude::*;
use crate::image_buf::{ImageBuffer, seq_channel};

verus! {

/// Sum of channel `c` over the pixels `(x, y0 + 1) ..= (x, y0 + m)` of a raw
/// RGBA sequence: one interior column of a cell.
pub open spec fn col_sum(pixels: Seq<u8>, width: int, x: int, y0: int, c: int, m: nat) -> int
    decreases m,
{
    if m == 0 {
        0
    } else {
        col_sum(pixels, width, x, y0, c, (m - 1) as nat) + seq_channel(
            pixels,
            width,
            x,
            y0 + m,
            c,
        )
    }
}

/// Sum of channel `c` over the aggregation window of the cell with origin
/// `(x0, y0)`: offsets `1 ..= n` horizontally and `1 ..= m` vertically.
pub open spec fn window_sum(
    pixels: Seq<u8>,
    width: int,
    x0: int,
    y0: int,
    c: int,
    n: nat,
    m: nat,
) -> int
    decreases n,
{
    if n == 0 {
        0
    } else {
        window_sum(pixels, width, x0, y0, c, (n - 1) as nat, m) + col_sum(
            pixels,
            width,
            x0 + n,
            y0,
            c,
            m,
        )
    }
}

/// Floor of the mean of channel `c` over the aggregation window of the cell
/// with origin `(x0, y0)` and edge `b`: the `(b - 2) * (b - 2)` interior
/// pixels of the cell.
pub open spec fn cell_avg(pixels: Seq<u8>, width: int, x0: int, y0: int, c: int, b: int) -> int {
    window_sum(pixels, width, x0, y0, c, (b - 2) as nat, (b - 2) as nat) / ((b - 2) * (b - 2))
}

/// Multiplicative tint: the brick channel scales the averaged channel, with
/// 255 acting as 1.
pub open spec fn tint(avg: int, brick: int) -> int {
    avg * brick / 255
}

/// Every channel sum over one column lies in `0 ..= 255 * m`.
pub proof fn lemma_col_sum_bounds(pixels: Seq<u8>, width: int, x: int, y0: int, c: int, m: nat)
    ensures
        0 <= col_sum(pixels, width, x, y0, c, m) <= 255 * m,
    decreases m,
{
    if m > 0 {
        lemma_col_sum_bounds(pixels, width, x, y0, c, (m - 1) as nat);
    }
}

/// Every channel sum over a window lies in `0 ..= 255 * n * m`.
pub proof fn lemma_window_sum_bounds(
    pixels: Seq<u8>,
    width: int,
    x0: int,
    y0: int,
    c: int,
    n: nat,
    m: nat,
)
    ensures
        0 <= window_sum(pixels, width, x0, y0, c, n, m) <= 255 * n * m,
    decreases n,
{
    if n > 0 {
        lemma_window_sum_bounds(pixels, width, x0, y0, c, (n - 1) as nat, m);
        lemma_col_sum_bounds(pixels, width, x0 + n, y0, c, m);
        assert(255 * ((n - 1) as nat) * m + 255 * m == 255 * n * m) by (nonlinear_arith)
            requires
                n >= 1,
        ;
    } else {
        assert(255 * n * m == 0) by (nonlinear_arith)
            requires
                n == 0,
        ;
    }
}

/// Computes the tinted value of one channel: `avg * brick / 255`.
pub fn tint_channel(avg: u8, brick: u8) -> (r: u8)
    ensures
        r as int == tint(avg as int, brick as int),
{
    proof {
        assert(0 <= (avg as int) * (brick as int) / 255 <= 255) by (nonlinear_arith)
            requires
                avg as int <= 255,
                brick as int <= 255,
        ;
    }
    ((avg as u32) * (brick as u32) / 255) as u8
}

/// Computes the floored per-channel average color of the aggregation window
/// of the cell with origin `(x0, y0)` and edge `b`.
pub fn cell_average(src: &ImageBuffer, x0: u32, y0: u32, b: u32) -> (avg: (u8, u8, u8))
    requires
        src.wf(),
        b >= 3,
        x0 + b <= src.width,
        y0 + b <= src.height,
    ensures
        avg.0 as int == cell_avg(src.pixels@, src.width as int, x0 as int, y0 as int, 0, b as int),
        avg.1 as int == cell_avg(src.pixels@, src.width as int, x0 as int, y0 as int, 1, b as int),
        avg.2 as int == cell_avg(src.pixels@, src.width as int, x0 as int, y0 as int, 2, b as int),
{
    let ghost pix = src.pixels@;
    let ghost w = src.width as int;
    let n: u32 = b - 2;
    let mut sr: u128 = 0;
    let mut sg: u128 = 0;
    let mut sb: u128 = 0;
    let mut dx: u32 = 1;
    while dx <= n
        invariant
            src.wf(),
            b >= 3,
            n == b - 2,
            x0 + b <= src.width,
            y0 + b <= src.height,
            1 <= dx <= n + 1,
            pix == src.pixels@,
            w == src.width as int,
            sr == window_sum(pix, w, x0 as int, y0 as int, 0, (dx - 1) as nat, n as nat),
            sg == window_sum(pix, w, x0 as int, y0 as int, 1, (dx - 1) as nat, n as nat),
            sb == window_sum(pix, w, x0 as int, y0 as int, 2, (dx - 1) as nat, n as nat),
        decreases n + 1 - dx,
    {
        let mut dy: u32 = 1;
        while dy <= n
            invariant
                src.wf(),
                b >= 3,
                n == b - 2,
                x0 + b <= src.width,
                y0 + b <= src.height,
                1 <= dx <= n,
                1 <= dy <= n + 1,
                pix == src.pixels@,
                w == src.width as int,
                sr == window_sum(pix, w, x0 as int, y0 as int, 0, (dx - 1) as nat, n as nat)
                    + col_sum(pix, w, x0 + dx, y0 as int, 0, (dy - 1) as nat),
                sg == window_sum(pix, w, x0 as int, y0 as int, 1, (dx - 1) as nat, n as nat)
                    + col_sum(pix, w, x0 + dx, y0 as int, 1, (dy - 1) as nat),
                sb == window_sum(pix, w, x0 as int, y0 as int, 2, (dx - 1) as nat, n as nat)
                    + col_sum(pix, w, x0 + dx, y0 as int, 2, (dy - 1) as nat),
            decreases n + 1 - dy,
        {
            proof {
                lemma_window_sum_bounds(pix, w, x0 as int, y0 as int, 0, (dx - 1) as nat, n as nat);
                lemma_window_sum_bounds(pix, w, x0 as int, y0 as int, 1, (dx - 1) as nat, n as nat);
                lemma_window_sum_bounds(pix, w, x0 as int, y0 as int, 2, (dx - 1) as nat, n as nat);
                lemma_col_sum_bounds(pix, w, x0 + dx, y0 as int, 0, (dy - 1) as nat);
                lemma_col_sum_bounds(pix, w, x0 + dx, y0 as int, 1, (dy - 1) as nat);
                lemma_col_sum_bounds(pix, w, x0 + dx, y0 as int, 2, (dy - 1) as nat);
                assert(255 * ((dx - 1) as nat) * (n as nat) + 255 * ((dy - 1) as nat) + 255
                    < u128::MAX) by (nonlinear_arith)
                    requires
                        1 <= dx <= n,
                        1 <= dy <= n,
                        n <= 0xffff_ffff,
                ;
            }
            let pr = src.get_channel(x0 + dx, y0 + dy, 0);
            let pg = src.get_channel(x0 + dx, y0 + dy, 1);
            let pb = src.get_channel(x0 + dx, y0 + dy, 2);
            sr = sr + (pr as u128);
            sg = sg + (pg as u128);
            sb = sb + (pb as u128);
            dy = dy + 1;
        }
        dx = dx + 1;
    }
    proof {
        lemma_window_sum_bounds(pix, w, x0 as int, y0 as int, 0, n as nat, n as nat);
        lemma_window_sum_bounds(pix, w, x0 as int, y0 as int, 1, n as nat, n as nat);
        lemma_window_sum_bounds(pix, w, x0 as int, y0 as int, 2, n as nat, n as nat);
        assert((n as int) * (n as int) == ((b - 2) as int) * ((b - 2) as int) && (n as int) * (
        n as int) >= 1 && (n as int) * (n as int) < u128::MAX) by (nonlinear_arith)
            requires
                n == b - 2,
                b >= 3,
                n <= 0xffff_ffff,
        ;
        assert(0 <= (sr as int) / ((n as int) * (n as int)) <= 255) by (nonlinear_arith)
            requires
                n >= 1,
                0 <= sr <= 255 * (n as nat) * (n as nat),
        ;
        assert(0 <= (sg as int) / ((n as int) * (n as int)) <= 255) by (nonlinear_arith)
            requires
                n >= 1,
                0 <= sg <= 255 * (n as nat) * (n as nat),
        ;
        assert(0 <= (sb as int) / ((n as int) * (n as int)) <= 255) by (nonlinear_arith)
            requires
                n >= 1,
                0 <= sb <= 255 * (n as nat) * (n as nat),
        ;
    }
    let cnt: u128 = (n as u128) * (n as u128);
    ((sr / cnt) as u8, (sg / cnt) as u8, (sb / cnt) as u8)
}

} // verus!
