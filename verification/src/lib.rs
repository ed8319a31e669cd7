//! A verified lego-brick mosaic library.
//!
//! The library tiles a source image into square cells, averages the color of
//! each cell's interior, and re-renders the cell as a brick texture tinted by
//! that average. Decoding, encoding and file handling live outside the
//! library; the arithmetic of the transform is specified and proved here.

pub mod image_buf;
pub mod laws;
pub mod mosaic;
pub mod pipeline;
pub mod transform;
