//! The run of the program around the transform: brick-texture resizing, input
//! validation, output file naming, and the fallback policy of the optimizer
//! stage.

use vstd::prelude::*;
use vstd::string::StringExecFns;
use crate::image_buf::ImageBuffer;
use crate::transform::{transform, transform_post};

verus! {

/// What an RGBA buffer becomes under triangle-filter resampling to `b x b`
/// pixels: a pure function of the input pixels, their dimensions and the
/// target edge.
pub uninterp spec fn resize_triangle_of(pixels: Seq<u8>, width: int, height: int, b: int) -> Seq<
    u8,
>;

/// Relies on image::imageops::resize with FilterType::Triangle: it returns a
/// buffer of exactly `b x b` RGBA pixels computed from its arguments alone,
/// and image::ImageBuffer::from_raw, which accepts any buffer whose length
/// matches its dimensions. Sizes whose channel count overflows usize are
/// excluded: the crate panics on them when it allocates the result or its
/// `width x b` intermediate.
#[verifier::external_body]
fn resize_rgba_triangle(pixels: &Vec<u8>, width: u32, height: u32, b: u32) -> (r: Vec<u8>)
    requires
        pixels@.len() == 4 * width * height,
        b >= 1,
        4 * (b as int) * (b as int) <= usize::MAX,
        4 * (width as int) * (b as int) <= usize::MAX,
    ensures
        r@ == resize_triangle_of(pixels@, width as int, height as int, b as int),
        r@.len() == 4 * b * b,
{
    let img = image::RgbaImage::from_raw(width, height, pixels.clone())
        .expect("buffer length matches the dimensions");
    image::imageops::resize(&img, b, b, image::imageops::FilterType::Triangle).into_raw()
}

/// Why a run cannot proceed on its inputs.
#[derive(Debug, PartialEq, Eq, Structural, Clone, Copy)]
pub enum LegoError {
    /// The brick edge is below 3, so a cell's aggregation window is empty.
    BrickTooSmall,
}

/// The in-memory pipeline: resizes the brick texture to `b x b` with a
/// triangle filter, then renders the mosaic. Brick edges below 3 are
/// rejected, since their cells have no interior to average; edges whose
/// resized texture would not fit in memory are ruled out up front.
pub fn legofy_image(src: &ImageBuffer, brick_texture: &ImageBuffer, b: u32) -> (r: Result<
    ImageBuffer,
    LegoError,
>)
    requires
        src.wf(),
        brick_texture.wf(),
        4 * (b as int) * (b as int) <= usize::MAX,
        4 * (brick_texture.width as int) * (b as int) <= usize::MAX,
    ensures
        match r {
            Ok(out) => b >= 3 && transform_post(
                *src,
                resize_triangle_of(
                    brick_texture.pixels@,
                    brick_texture.width as int,
                    brick_texture.height as int,
                    b as int,
                ),
                b as int,
                out,
            ),
            Err(e) => b < 3 && e == LegoError::BrickTooSmall,
        },
{
    if b < 3 {
        return Err(LegoError::BrickTooSmall);
    }
    let resized = resize_rgba_triangle(
        &brick_texture.pixels,
        brick_texture.width,
        brick_texture.height,
        b,
    );
    let brick = ImageBuffer { width: b, height: b, pixels: resized };
    Ok(transform(src, &brick, b))
}

/// Derives the two output file names from the source file's stem: the
/// intermediate render `<stem>.lego` and the final optimized
/// `<stem>.lego.png`.
pub fn output_names(stem: &String) -> (r: (String, String))
    ensures
        r.0@ == stem@ + ".lego"@,
        r.1@ == stem@ + ".lego.png"@,
{
    let intermediate = stem.clone().concat(".lego");
    let optimized = stem.clone().concat(".lego.png");
    (intermediate, optimized)
}

/// What to do with the intermediate render once the optimizer has reported:
/// on success only the optimized file is kept, on failure the intermediate is
/// renamed to the final name so a usable output always survives the run.
#[derive(Debug, PartialEq, Eq, Structural, Clone, Copy)]
pub enum FinalizeAction {
    /// The optimizer wrote the final file; the intermediate render goes.
    DeleteIntermediate,
    /// The optimizer failed; the intermediate render becomes the final file.
    RenameIntermediateToFinal,
}

/// Decides the fate of the intermediate render from the optimizer's outcome.
pub fn finalize_action(optimize_succeeded: bool) -> (a: FinalizeAction)
    ensures
        a == if optimize_succeeded {
            FinalizeAction::DeleteIntermediate
        } else {
            FinalizeAction::RenameIntermediateToFinal
        },
{
    if optimize_succeeded {
        FinalizeAction::DeleteIntermediate
    } else {
        FinalizeAction::RenameIntermediateToFinal
    }
}

} // verus!
