//! Dense, row-major RGBA pixel buffers with 8-bit channels.

use vstd::prelude::*;
use vstd::pervasive::VecAdditionalExecFns;

verus! {

/// Index of channel `c` of the pixel at `(x, y)` inside a row-major RGBA byte
/// buffer of the given width.
pub open spec fn pixel_index(width: int, x: int, y: int, c: int) -> int {
    4 * (y * width + x) + c
}

/// Channel `c` (0 = R, 1 = G, 2 = B, 3 = A) of the pixel at `(x, y)` in a raw
/// row-major RGBA byte sequence of the given width.
pub open spec fn seq_channel(pixels: Seq<u8>, width: int, x: int, y: int, c: int) -> u8 {
    pixels[pixel_index(width, x, y, c)]
}

/// A decoded image: `width * height` RGBA pixels, dense and row-major.
#[derive(Debug, Clone, PartialEq, Eq)]
pub struct ImageBuffer {
    pub width: u32,
    pub height: u32,
    /// Raw bytes; channel `c` of the pixel at `(x, y)` lives at
    /// `4 * (y * width + x) + c`.
    pub pixels: Vec<u8>,
}

impl ImageBuffer {
    /// Well-formed: the byte buffer is exactly large enough for the dimensions.
    pub open spec fn wf(self) -> bool {
        self.pixels.len() == 4 * self.width * self.height
    }

    /// Channel `c` of the pixel at `(x, y)`.
    pub open spec fn channel(self, x: int, y: int, c: int) -> u8 {
        seq_channel(self.pixels@, self.width as int, x, y, c)
    }

    pub open spec fn valid_coord(self, x: int, y: int, c: int) -> bool {
        0 <= x < self.width && 0 <= y < self.height && 0 <= c < 4
    }

    /// Wraps raw RGBA bytes; succeeds exactly when the buffer length matches
    /// the dimensions.
    pub fn from_pixels(width: u32, height: u32, pixels: Vec<u8>) -> (r: Option<ImageBuffer>)
        ensures
            match r {
                Some(im) => im.width == width && im.height == height && im.pixels@ == pixels@
                    && im.wf(),
                None => pixels@.len() != 4 * width * height,
            },
    {
        proof {
            assert(4 * (width as int) * (height as int) < u128::MAX) by (nonlinear_arith)
                requires
                    width as int <= 0xffff_ffff,
                    height as int <= 0xffff_ffff,
            ;
        }
        if pixels.len() as u128 == 4u128 * (width as u128) * (height as u128) {
            Some(ImageBuffer { width, height, pixels })
        } else {
            None
        }
    }

    /// A zero-filled (transparent black) buffer of the given dimensions.
    pub fn zeroed(width: u32, height: u32) -> (r: ImageBuffer)
        requires
            4 * width * height <= usize::MAX,
        ensures
            r.width == width,
            r.height == height,
            r.wf(),
            forall|i: int| 0 <= i < r.pixels@.len() ==> r.pixels@[i] == 0u8,
    {
        proof {
            assert((width as int) * (height as int) * 4 == 4 * (width as int) * (height as int)
                && 0 <= (width as int) * (height as int)) by (nonlinear_arith);
        }
        let n: usize = ((width as usize) * (height as usize)) * 4;
        let mut pixels: Vec<u8> = Vec::new();
        while pixels.len() < n
            invariant
                pixels@.len() <= n,
                forall|i: int| 0 <= i < pixels@.len() ==> pixels@[i] == 0u8,
            decreases n - pixels@.len(),
        {
            pixels.push(0u8);
        }
        ImageBuffer { width, height, pixels }
    }

    /// Reads one channel of one pixel.
    pub fn get_channel(&self, x: u32, y: u32, c: u32) -> (v: u8)
        requires
            self.wf(),
            x < self.width,
            y < self.height,
            c < 4,
        ensures
            v == self.channel(x as int, y as int, c as int),
    {
        proof {
            lemma_pixel_index_bound(
                self.width as int,
                self.height as int,
                x as int,
                y as int,
                c as int,
            );
        }
        let idx: usize = 4 * ((y as usize) * (self.width as usize) + (x as usize)) + (c as usize);
        self.pixels[idx]
    }

    /// Writes all four channels of the pixel at `(x, y)`, leaving every other
    /// pixel unchanged.
    pub fn put_pixel(&mut self, x: u32, y: u32, r: u8, g: u8, bl: u8, a: u8)
        requires
            old(self).wf(),
            x < old(self).width,
            y < old(self).height,
        ensures
            final(self).width == old(self).width,
            final(self).height == old(self).height,
            final(self).wf(),
            final(self).channel(x as int, y as int, 0) == r,
            final(self).channel(x as int, y as int, 1) == g,
            final(self).channel(x as int, y as int, 2) == bl,
            final(self).channel(x as int, y as int, 3) == a,
            forall|x2: int, y2: int, c2: int|
                old(self).valid_coord(x2, y2, c2) && !(x2 == x as int && y2 == y as int)
                    ==> #[trigger] final(self).channel(x2, y2, c2)
                        == old(self).channel(x2, y2, c2),
    {
        proof {
            lemma_pixel_index_bound(
                self.width as int,
                self.height as int,
                x as int,
                y as int,
                3,
            );
        }
        let base: usize = 4 * ((y as usize) * (self.width as usize) + (x as usize));
        proof {
            let w = self.width as int;
            assert(base == pixel_index(w, x as int, y as int, 0));
            assert(base + 1 == pixel_index(w, x as int, y as int, 1));
            assert(base + 2 == pixel_index(w, x as int, y as int, 2));
            assert(base + 3 == pixel_index(w, x as int, y as int, 3));
        }
        self.pixels.set(base, r);
        self.pixels.set(base + 1, g);
        self.pixels.set(base + 2, bl);
        self.pixels.set(base + 3, a);
        proof {
            let w = old(self).width as int;
            assert forall|x2: int, y2: int, c2: int|
                old(self).valid_coord(x2, y2, c2) && !(x2 == x as int && y2 == y as int)
                    implies #[trigger] self.channel(x2, y2, c2) == old(self).channel(x2, y2, c2)
            by {
                lemma_pixel_index_bound(w, old(self).height as int, x2, y2, c2);
                assert forall|c: int| 0 <= c < 4
                    implies pixel_index(w, x2, y2, c2) != pixel_index(w, x as int, y as int, c)
                by {
                    if pixel_index(w, x2, y2, c2) == pixel_index(w, x as int, y as int, c) {
                        lemma_pixel_index_injective(w, x2, y2, c2, x as int, y as int, c);
                    }
                }
                assert(pixel_index(w, x2, y2, c2) != base);
                assert(pixel_index(w, x2, y2, c2) != base + 1);
                assert(pixel_index(w, x2, y2, c2) != base + 2);
                assert(pixel_index(w, x2, y2, c2) != base + 3);
            }
        }
    }
}

/// The channel index of a pixel inside the buffer lies within the buffer.
pub proof fn lemma_pixel_index_bound(width: int, height: int, x: int, y: int, c: int)
    requires
        0 <= x < width,
        0 <= y < height,
        0 <= c < 4,
    ensures
        0 <= pixel_index(width, x, y, c),
        pixel_index(width, x, y, c) + (3 - c) < 4 * width * height,
    decreases 0int,
{
    assert(0 <= y * width + x && y * width + x < width * height) by (nonlinear_arith)
        requires
            0 <= x < width,
            0 <= y < height,
    ;
    assert(4 * (y * width + x) + 3 < 4 * width * height) by (nonlinear_arith)
        requires
            y * width + x < width * height,
    ;
}

/// Distinct coordinates map to distinct buffer indices.
pub proof fn lemma_pixel_index_injective(
    width: int,
    x1: int,
    y1: int,
    c1: int,
    x2: int,
    y2: int,
    c2: int,
)
    requires
        0 <= x1 < width,
        0 <= y1,
        0 <= c1 < 4,
        0 <= x2 < width,
        0 <= y2,
        0 <= c2 < 4,
        pixel_index(width, x1, y1, c1) == pixel_index(width, x2, y2, c2),
    ensures
        x1 == x2,
        y1 == y2,
        c1 == c2,
{
    assert(c1 == c2 && y1 * width + x1 == y2 * width + x2);
    assert(x1 == x2 && y1 == y2) by (nonlinear_arith)
        requires
            0 <= x1 < width,
            0 <= y1,
            0 <= x2 < width,
            0 <= y2,
            y1 * width + x1 == y2 * width + x2,
    ;
}

} // verus!
