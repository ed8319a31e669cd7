use legofy::image_buf::ImageBuffer;
use legofy::mosaic::{cell_average, tint_channel};
use legofy::pipeline::{finalize_action, legofy_image, output_names, FinalizeAction, LegoError};

fn solid(width: u32, height: u32, rgba: [u8; 4]) -> ImageBuffer {
    let mut px: Vec<u8> = Vec::new();
    for _ in 0..(width as usize) * (height as usize) {
        px.extend_from_slice(&rgba);
    }
    ImageBuffer::from_pixels(width, height, px).unwrap()
}

fn set_px(im: &mut ImageBuffer, x: u32, y: u32, rgba: [u8; 4]) {
    let base = 4 * (y as usize * im.width as usize + x as usize);
    im.pixels[base..base + 4].copy_from_slice(&rgba);
}

fn px(im: &ImageBuffer, x: u32, y: u32) -> [u8; 4] {
    [
        im.get_channel(x, y, 0),
        im.get_channel(x, y, 1),
        im.get_channel(x, y, 2),
        im.get_channel(x, y, 3),
    ]
}

const WHITE: [u8; 4] = [255, 255, 255, 255];

#[test]
fn output_is_cropped_to_whole_cells() {
    let src = solid(105, 100, WHITE);
    let texture = solid(50, 50, WHITE);
    let out = legofy_image(&src, &texture, 50).unwrap();
    assert_eq!(out.width, 100);
    assert_eq!(out.height, 100);
    assert_eq!(out.pixels.len(), 4 * 100 * 100);
}

#[test]
fn cell_borders_keep_the_zero_default() {
    let src = solid(100, 100, WHITE);
    let texture = solid(50, 50, [128, 128, 128, 255]);
    let out = legofy_image(&src, &texture, 50).unwrap();
    for cell in 0..2u32 {
        let origin = cell * 50;
        for off in 0..50u32 {
            // Top and bottom rows of the cell, left and right columns.
            assert_eq!(px(&out, origin + off, origin), [0, 0, 0, 0]);
            assert_eq!(px(&out, origin + off, origin + 49), [0, 0, 0, 0]);
            assert_eq!(px(&out, origin, origin + off), [0, 0, 0, 0]);
            assert_eq!(px(&out, origin + 49, origin + off), [0, 0, 0, 0]);
        }
    }
}

#[test]
fn white_source_mid_gray_texture_renders_mid_gray() {
    let src = solid(100, 100, WHITE);
    let texture = solid(50, 50, [128, 128, 128, 255]);
    let out = legofy_image(&src, &texture, 50).unwrap();
    for y in 1..49u32 {
        for x in 1..49u32 {
            assert_eq!(px(&out, x, y), [128, 128, 128, 255]);
        }
    }
}

#[test]
fn transform_is_deterministic() {
    let mut src = solid(20, 20, [200, 100, 50, 255]);
    set_px(&mut src, 3, 4, [1, 2, 3, 4]);
    set_px(&mut src, 11, 7, [90, 80, 70, 60]);
    let texture = solid(13, 9, [128, 37, 240, 255]);
    let out1 = legofy_image(&src, &texture, 5).unwrap();
    let out2 = legofy_image(&src, &texture, 5).unwrap();
    assert_eq!(out1.width, out2.width);
    assert_eq!(out1.height, out2.height);
    assert_eq!(out1.pixels, out2.pixels);
}

#[test]
fn uniform_window_average_is_exact() {
    let src = solid(4, 4, [10, 20, 30, 255]);
    assert_eq!(cell_average(&src, 0, 0, 4), (10, 20, 30));
}

#[test]
fn average_uses_floor_division() {
    let mut src = solid(4, 4, [2, 2, 2, 255]);
    // The aggregation window of the single cell is (1,1)..(2,2).
    set_px(&mut src, 1, 1, [1, 2, 2, 255]);
    // Sums over the four window pixels: r = 7, g = 8, b = 8.
    assert_eq!(cell_average(&src, 0, 0, 4), (1, 2, 2));
}

#[test]
fn tint_blots_out_passes_through_and_floors() {
    assert_eq!(tint_channel(200, 0), 0);
    assert_eq!(tint_channel(123, 255), 123);
    assert_eq!(tint_channel(0, 77), 0);
    // floor(100 * 128 / 255) = floor(50.19...) = 50
    assert_eq!(tint_channel(100, 128), 50);
    assert_eq!(tint_channel(255, 255), 255);
}

#[test]
fn minimum_brick_size_averages_the_single_interior_pixel() {
    let mut src = solid(3, 3, WHITE);
    set_px(&mut src, 1, 1, [5, 6, 7, 255]);
    let texture = solid(3, 3, WHITE);
    let out = legofy_image(&src, &texture, 3).unwrap();
    assert_eq!(out.width, 3);
    assert_eq!(out.height, 3);
    assert_eq!(px(&out, 1, 1), [5, 6, 7, 255]);
    assert_eq!(px(&out, 0, 0), [0, 0, 0, 0]);
    assert_eq!(px(&out, 2, 2), [0, 0, 0, 0]);
}

#[test]
fn texture_is_resized_to_the_brick_edge() {
    // A 2 x 2 texture must be resampled up to 3 x 3 for the cell to render.
    let src = solid(3, 3, [40, 80, 120, 255]);
    let texture = solid(2, 2, [9, 9, 9, 255]);
    let out = legofy_image(&src, &texture, 3).unwrap();
    assert_eq!(out.width, 3);
    assert_eq!(out.height, 3);
    // The interior pixel is always fully opaque, the ring always default.
    assert_eq!(out.get_channel(1, 1, 3), 255);
    assert_eq!(px(&out, 0, 1), [0, 0, 0, 0]);
}

#[test]
fn brick_size_below_three_is_rejected() {
    let src = solid(10, 10, WHITE);
    let texture = solid(4, 4, WHITE);
    assert_eq!(legofy_image(&src, &texture, 2), Err(LegoError::BrickTooSmall));
    assert_eq!(legofy_image(&src, &texture, 1), Err(LegoError::BrickTooSmall));
    assert_eq!(legofy_image(&src, &texture, 0), Err(LegoError::BrickTooSmall));
}

#[test]
fn output_names_follow_the_stem() {
    let (intermediate, optimized) = output_names(&String::from("photo"));
    assert_eq!(intermediate, "photo.lego");
    assert_eq!(optimized, "photo.lego.png");
}

#[test]
fn optimizer_outcome_decides_the_intermediate_file() {
    assert_eq!(finalize_action(true), FinalizeAction::DeleteIntermediate);
    assert_eq!(finalize_action(false), FinalizeAction::RenameIntermediateToFinal);
}

#[test]
fn from_pixels_checks_the_length() {
    assert!(ImageBuffer::from_pixels(2, 2, vec![0u8; 16]).is_some());
    assert!(ImageBuffer::from_pixels(2, 2, vec![0u8; 15]).is_none());
    assert!(ImageBuffer::from_pixels(2, 2, vec![0u8; 17]).is_none());
}
