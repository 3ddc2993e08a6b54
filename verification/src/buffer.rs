//! The output buffer: a raster image of the `image` crate, held in a struct
//! that Verus does not look into. Verified code sees the buffer through two
//! names, `image_pixels` (what colour stands at each in-range coordinate) and
//! `image_dims` (its width and height), and three small wrappers around the
//! buffer's methods.

use vstd::prelude::*;

verus! {

/// The pixel buffer the render is written into. It wraps the `image` crate's
/// RGB raster so that the finished picture can be handed to that crate's
/// encoders; Verus sees it only through `image_pixels` and `image_dims`.
#[verifier::external_body]
pub struct OutputImage {
    buf: image::RgbImage,
}

/// The colour stored at each coordinate of the buffer. Meaningful on the
/// coordinates inside the buffer's dimensions; the wrappers below pin it
/// there and nowhere else.
pub uninterp spec fn image_pixels(img: OutputImage) -> Map<(u32, u32), (u8, u8, u8)>;

/// The buffer's dimensions: (width, height).
pub uninterp spec fn image_dims(img: OutputImage) -> (u32, u32);

/// The contents of a freshly made buffer: every coordinate inside the given
/// dimensions maps to black.
pub open spec fn all_black(width: u32, height: u32) -> Map<(u32, u32), (u8, u8, u8)> {
    Map::<(u32, u32), (u8, u8, u8)>::new(
        |p: (u32, u32)| p.0 < width && p.1 < height,
        |p: (u32, u32)| (0u8, 0u8, 0u8),
    )
}

/// Relies on image::ImageBuffer::new: a width x height buffer with every
/// sample zeroed, so every pixel is black. It panics when the byte length
/// (three samples per pixel) overflows usize, which the precondition rules
/// out.
#[verifier::external_body]
pub(crate) fn new_image(width: u32, height: u32) -> (img: OutputImage)
    requires
        3 * (width as int) * (height as int) <= usize::MAX as int,
    ensures
        image_dims(img) == (width, height),
        image_pixels(img) == all_black(width, height),
{
    OutputImage { buf: image::ImageBuffer::new(width, height) }
}

/// Relies on image::ImageBuffer::put_pixel: replaces the pixel at (x, y) and
/// touches nothing else. It panics out of bounds, which the precondition
/// rules out.
#[verifier::external_body]
pub(crate) fn put_image_pixel(img: &mut OutputImage, x: u32, y: u32, color: (u8, u8, u8))
    requires
        x < image_dims(*old(img)).0,
        y < image_dims(*old(img)).1,
    ensures
        image_dims(*final(img)) == image_dims(*old(img)),
        image_pixels(*final(img)) == image_pixels(*old(img)).insert((x, y), color),
{
    img.buf.put_pixel(x, y, image::Rgb([color.0, color.1, color.2]));
}

/// Relies on image::ImageBuffer::get_pixel: returns the pixel at (x, y). It
/// panics out of bounds, which the precondition rules out.
#[verifier::external_body]
pub(crate) fn get_image_pixel(img: &OutputImage, x: u32, y: u32) -> (c: (u8, u8, u8))
    requires
        x < image_dims(*img).0,
        y < image_dims(*img).1,
    ensures
        c == image_pixels(*img)[(x, y)],
{
    let p = img.buf.get_pixel(x, y);
    (p.0[0], p.0[1], p.0[2])
}

} // verus!
