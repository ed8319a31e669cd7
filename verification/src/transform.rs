//! The verified mosaic transform over whole images.

use vstd::prelude::*;
use vstd::arithmetic::div_mod::{
    lemma_fundamental_div_mod, lemma_fundamental_div_mod_converse, lemma_div_pos_is_pos,
    lemma_mod_division_less_than_divisor, lemma_multiply_divide_lt,
};
use vstd::arithmetic::mul::lemma_mul_is_commutative;
use crate::image_buf::{ImageBuffer, lemma_pixel_index_bound, seq_channel};
use crate::mosaic::{cell_avg, tint, cell_average, tint_channel};

verus! {

/// An offset along one axis of a cell that lies strictly inside the cell's
/// one-pixel ring.
pub open spec fn interior_offset(d: int, b: int) -> bool {
    1 <= d && d <= b - 2
}

/// The value the transform assigns to channel `c` of the output pixel at
/// `(x, y)`: interior offsets of a cell carry the brick texture tinted by the
/// cell's average color with alpha 255; the ring is the zero default.
pub open spec fn out_channel_spec(
    src: ImageBuffer,
    brick_pixels: Seq<u8>,
    b: int,
    x: int,
    y: int,
    c: int,
) -> int {
    let dx = x % b;
    let dy = y % b;
    if interior_offset(dx, b) && interior_offset(dy, b) {
        if c == 3 {
            255
        } else {
            tint(
                cell_avg(src.pixels@, src.width as int, (x / b) * b, (y / b) * b, c, b),
                seq_channel(brick_pixels, b, dx, dy, c) as int,
            )
        }
    } else {
        0
    }
}

/// Full contract of the transform: the output is cropped to whole cells and
/// every channel of every output pixel has the specified value.
pub open spec fn transform_post(
    src: ImageBuffer,
    brick_pixels: Seq<u8>,
    b: int,
    out: ImageBuffer,
) -> bool {
    &&& out.wf()
    &&& out.width == (src.width as int / b) * b
    &&& out.height == (src.height as int / b) * b
    &&& forall|x: int, y: int, c: int|
        out.valid_coord(x, y, c) ==> #[trigger] out.channel(x, y, c) as int == out_channel_spec(
            src,
            brick_pixels,
            b,
            x,
            y,
            c,
        )
}

/// The cell holding `(x, y)` comes before cell `(i, j)` in the processing
/// order: columns of cells left to right, cells within a column top to bottom.
spec fn cell_before(x: int, y: int, b: int, i: int, j: int) -> bool {
    x / b < i || (x / b == i && y / b < j)
}

/// Offset `(dx, dy)` within a cell comes before offset `(cx, cy)` in the
/// rendering order: interior columns left to right, pixels within a column
/// top to bottom.
spec fn offset_before(dx: int, dy: int, cx: int, cy: int) -> bool {
    dx < cx || (dx == cx && dy < cy)
}

/// Loop invariant between cells: all cells before `(i, j)` are rendered and
/// every other pixel still holds the zero default.
spec fn region_done(
    src: ImageBuffer,
    brick_pixels: Seq<u8>,
    b: int,
    out: ImageBuffer,
    i: int,
    j: int,
) -> bool {
    forall|x: int, y: int, c: int|
        out.valid_coord(x, y, c) ==> #[trigger] out.channel(x, y, c) as int == (
        if cell_before(x, y, b, i, j) {
            out_channel_spec(src, brick_pixels, b, x, y, c)
        } else {
            0
        })
}

/// Loop invariant inside cell `(i, j)`: all earlier cells are rendered, the
/// offsets of cell `(i, j)` before `(cx, cy)` are rendered, and every other
/// pixel still holds the zero default.
spec fn cell_region_done(
    src: ImageBuffer,
    brick_pixels: Seq<u8>,
    b: int,
    out: ImageBuffer,
    i: int,
    j: int,
    cx: int,
    cy: int,
) -> bool {
    forall|x: int, y: int, c: int|
        out.valid_coord(x, y, c) ==> #[trigger] out.channel(x, y, c) as int == (
        if cell_before(x, y, b, i, j) || (x / b == i && y / b == j && offset_before(
            x % b,
            y % b,
            cx,
            cy,
        )) {
            out_channel_spec(src, brick_pixels, b, x, y, c)
        } else {
            0
        })
}

/// Decomposes a coordinate into its cell index and offset.
proof fn lemma_coord_decompose(x: int, b: int)
    requires
        0 <= x,
        1 <= b,
    ensures
        x == b * (x / b) + x % b,
        0 <= x % b < b,
        0 <= x / b,
{
    lemma_fundamental_div_mod(x, b);
    lemma_mod_division_less_than_divisor(x, b);
    lemma_div_pos_is_pos(x, b);
}

/// A coordinate built from a cell index and an offset decomposes back into
/// them.
proof fn lemma_cell_coord(i: int, b: int, d: int)
    requires
        1 <= b,
        0 <= i,
        0 <= d < b,
    ensures
        (i * b + d) / b == i,
        (i * b + d) % b == d,
{
    lemma_fundamental_div_mod_converse(i * b + d, b, i, d);
}

/// A coordinate below `m * b` lies in a cell with index below `m`.
proof fn lemma_coord_cell_below(x: int, m: int, b: int)
    requires
        0 <= x,
        1 <= b,
        x < m * b,
    ensures
        x / b < m,
{
    lemma_mul_is_commutative(m, b);
    lemma_multiply_divide_lt(x, b, m);
}

/// Renders the mosaic: crops the source to whole `b x b` cells and fills the
/// interior of each output cell with the brick texture tinted by the cell's
/// average color, leaving the one-pixel ring of every cell at the zero
/// default.
#[verifier::loop_isolation(false)]
pub fn transform(src: &ImageBuffer, brick: &ImageBuffer, b: u32) -> (out: ImageBuffer)
    requires
        src.wf(),
        brick.wf(),
        b >= 3,
        brick.width == b,
        brick.height == b,
    ensures
        transform_post(*src, brick.pixels@, b as int, out),
{
    let ghost bp = brick.pixels@;
    let cells_x = src.width / b;
    let cells_y = src.height / b;
    proof {
        assert(0 <= (src.width as int / b as int) * (b as int) <= src.width as int
            && 0 <= (src.height as int / b as int) * (b as int) <= src.height as int) by {
            lemma_fundamental_div_mod(src.width as int, b as int);
            lemma_mod_division_less_than_divisor(src.width as int, b as int);
            lemma_div_pos_is_pos(src.width as int, b as int);
            lemma_mul_is_commutative(src.width as int / b as int, b as int);
            lemma_fundamental_div_mod(src.height as int, b as int);
            lemma_mod_division_less_than_divisor(src.height as int, b as int);
            lemma_div_pos_is_pos(src.height as int, b as int);
            lemma_mul_is_commutative(src.height as int / b as int, b as int);
        }
    }
    let ow = cells_x * b;
    let oh = cells_y * b;
    let src_len: usize = src.pixels.len();
    proof {
        assert(4 * (ow as int) * (oh as int) <= 4 * (src.width as int) * (src.height as int))
            by (nonlinear_arith)
            requires
                0 <= ow as int <= src.width as int,
                0 <= oh as int <= src.height as int,
        ;
        assert(4 * (ow as int) * (oh as int) <= src_len as int);
    }
    let mut out = ImageBuffer::zeroed(ow, oh);
    proof {
        assert forall|x: int, y: int, c: int| out.valid_coord(x, y, c)
            implies #[trigger] out.channel(x, y, c) as int == (
            if cell_before(x, y, b as int, 0, 0) {
                out_channel_spec(*src, bp, b as int, x, y, c)
            } else {
                0
            }) by {
            lemma_pixel_index_bound(ow as int, oh as int, x, y, c);
            lemma_div_pos_is_pos(x, b as int);
        }
    }
    let mut i: u32 = 0;
    while i < cells_x
        invariant
            out.wf(),
            out.width == ow,
            out.height == oh,
            i <= cells_x,
            region_done(*src, bp, b as int, out, i as int, 0),
        decreases cells_x - i,
    {
        proof {
            assert((i as int) * (b as int) + (b as int) <= (cells_x as int) * (b as int))
                by (nonlinear_arith)
                requires
                    (i as int) < cells_x as int,
                    b as int >= 1,
            ;
        }
        let x0 = i * b;
        let mut j: u32 = 0;
        while j < cells_y
            invariant
                out.wf(),
                out.width == ow,
                out.height == oh,
                j <= cells_y,
                region_done(*src, bp, b as int, out, i as int, j as int),
            decreases cells_y - j,
        {
            proof {
                assert((j as int) * (b as int) + (b as int) <= (cells_y as int) * (b as int))
                    by (nonlinear_arith)
                    requires
                        (j as int) < cells_y as int,
                        b as int >= 1,
                ;
            }
            let y0 = j * b;
            let (ar, ag, avb) = cell_average(src, x0, y0, b);
            proof {
                assert forall|x: int, y: int, c: int| out.valid_coord(x, y, c)
                    implies #[trigger] out.channel(x, y, c) as int == (
                    if cell_before(x, y, b as int, i as int, j as int) || (x / (b as int)
                        == i as int && y / (b as int) == j as int && offset_before(
                        x % (b as int),
                        y % (b as int),
                        1,
                        1,
                    )) {
                        out_channel_spec(*src, bp, b as int, x, y, c)
                    } else {
                        0
                    }) by {
                    lemma_coord_decompose(x, b as int);
                    lemma_coord_decompose(y, b as int);
                }
            }
            let mut dx: u32 = 1;
            while dx < b - 1
                invariant
                    out.wf(),
                    out.width == ow,
                    out.height == oh,
                    1 <= dx <= b - 1,
                    cell_region_done(*src, bp, b as int, out, i as int, j as int, dx as int, 1),
                decreases b - 1 - dx,
            {
                let mut dy: u32 = 1;
                while dy < b - 1
                    invariant
                        out.wf(),
                        out.width == ow,
                        out.height == oh,
                        1 <= dx <= b - 2,
                        1 <= dy <= b - 1,
                        cell_region_done(
                            *src,
                            bp,
                            b as int,
                            out,
                            i as int,
                            j as int,
                            dx as int,
                            dy as int,
                        ),
                    decreases b - 1 - dy,
                {
                    let br = brick.get_channel(dx, dy, 0);
                    let bg = brick.get_channel(dx, dy, 1);
                    let bb = brick.get_channel(dx, dy, 2);
                    let tr = tint_channel(ar, br);
                    let tg = tint_channel(ag, bg);
                    let tb = tint_channel(avb, bb);
                    let px = x0 + dx;
                    let py = y0 + dy;
                    proof {
                        lemma_cell_coord(i as int, b as int, dx as int);
                        lemma_cell_coord(j as int, b as int, dy as int);
                    }
                    let ghost prev = out;
                    out.put_pixel(px, py, tr, tg, tb, 255);
                    proof {
                        assert(out_channel_spec(*src, bp, b as int, px as int, py as int, 0)
                            == tr as int);
                        assert(out_channel_spec(*src, bp, b as int, px as int, py as int, 1)
                            == tg as int);
                        assert(out_channel_spec(*src, bp, b as int, px as int, py as int, 2)
                            == tb as int);
                        assert(out_channel_spec(*src, bp, b as int, px as int, py as int, 3)
                            == 255);
                        assert forall|x: int, y: int, c: int| out.valid_coord(x, y, c)
                            implies #[trigger] out.channel(x, y, c) as int == (
                            if cell_before(x, y, b as int, i as int, j as int) || (x / (b as int)
                                == i as int && y / (b as int) == j as int && offset_before(
                                x % (b as int),
                                y % (b as int),
                                dx as int,
                                dy as int + 1,
                            )) {
                                out_channel_spec(*src, bp, b as int, x, y, c)
                            } else {
                                0
                            }) by {
                            lemma_coord_decompose(x, b as int);
                            lemma_coord_decompose(y, b as int);
                            if x == px as int && y == py as int {
                            } else {
                                lemma_mul_is_commutative(i as int, b as int);
                                lemma_mul_is_commutative(j as int, b as int);
                                assert(!(x / (b as int) == i as int && y / (b as int) == j as int
                                    && x % (b as int) == dx as int && y % (b as int) == dy as int));
                                assert(out.channel(x, y, c) == prev.channel(x, y, c));
                            }
                        }
                    }
                    dy = dy + 1;
                }
                proof {
                    assert forall|x: int, y: int, c: int| out.valid_coord(x, y, c)
                        implies #[trigger] out.channel(x, y, c) as int == (
                        if cell_before(x, y, b as int, i as int, j as int) || (x / (b as int)
                            == i as int && y / (b as int) == j as int && offset_before(
                            x % (b as int),
                            y % (b as int),
                            dx as int + 1,
                            1,
                        )) {
                            out_channel_spec(*src, bp, b as int, x, y, c)
                        } else {
                            0
                        }) by {
                        lemma_coord_decompose(x, b as int);
                        lemma_coord_decompose(y, b as int);
                    }
                }
                dx = dx + 1;
            }
            proof {
                assert forall|x: int, y: int, c: int| out.valid_coord(x, y, c)
                    implies #[trigger] out.channel(x, y, c) as int == (
                    if cell_before(x, y, b as int, i as int, j as int + 1) {
                        out_channel_spec(*src, bp, b as int, x, y, c)
                    } else {
                        0
                    }) by {
                    lemma_coord_decompose(x, b as int);
                    lemma_coord_decompose(y, b as int);
                }
            }
            j = j + 1;
        }
        proof {
            assert forall|x: int, y: int, c: int| out.valid_coord(x, y, c)
                implies #[trigger] out.channel(x, y, c) as int == (
                if cell_before(x, y, b as int, i as int + 1, 0) {
                    out_channel_spec(*src, bp, b as int, x, y, c)
                } else {
                    0
                }) by {
                lemma_coord_decompose(x, b as int);
                lemma_coord_decompose(y, b as int);
                lemma_coord_cell_below(y, cells_y as int, b as int);
            }
        }
        i = i + 1;
    }
    proof {
        assert forall|x: int, y: int, c: int| out.valid_coord(x, y, c)
            implies #[trigger] out.channel(x, y, c) as int == out_channel_spec(
            *src,
            bp,
            b as int,
            x,
            y,
            c,
        ) by {
            lemma_coord_decompose(x, b as int);
            lemma_coord_cell_below(x, cells_x as int, b as int);
        }
    }
    out
}

} // verus!
