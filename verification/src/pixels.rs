//! The pixel store of a canvas: an RGBA image buffer of the `image` crate.
use vstd::prelude::*;

use crate::canvas::rgba_bytes;
use crate::color::Color;

verus! {

/// An `image::RgbaImage`: 8-bit RGBA pixels of a `width` by `height` image,
/// stored row by row.
#[verifier::external_body]
#[derive(Debug)]
pub struct PixelBuffer {
    image: image::RgbaImage,
}

/// The pixels a buffer holds, row by row: pixel `(x, y)` at index
/// `y * width + x`.
pub uninterp spec fn buffer_pixels(b: PixelBuffer) -> Seq<Color>;

/// The width a buffer was made with.
pub uninterp spec fn buffer_width(b: PixelBuffer) -> u32;

/// The height a buffer was made with.
pub uninterp spec fn buffer_height(b: PixelBuffer) -> u32;

/// `ImageBuffer::from_pixel`: a `width` by `height` image with every pixel
/// set to `color`. It panics when four bytes per pixel overflow `usize`;
/// those sizes are excluded.
#[verifier::external_body]
pub(crate) fn buffer_filled(width: u32, height: u32, color: Color) -> (r: PixelBuffer)
    requires
        4 * (width as int * height as int) <= usize::MAX,
    ensures
        buffer_width(r) == width,
        buffer_height(r) == height,
        buffer_pixels(r) == Seq::new((width as int * height as int) as nat, |i: int| color),
{
    let pixel = image::Rgba([color.red, color.green, color.blue, color.alpha]);
    PixelBuffer { image: image::RgbaImage::from_pixel(width, height, pixel) }
}

/// `ImageBuffer::width`: the width the buffer was made with.
#[verifier::external_body]
pub(crate) fn buffer_width_of(b: &PixelBuffer) -> (r: u32)
    ensures
        r == buffer_width(*b),
{
    b.image.width()
}

/// `ImageBuffer::height`: the height the buffer was made with.
#[verifier::external_body]
pub(crate) fn buffer_height_of(b: &PixelBuffer) -> (r: u32)
    ensures
        r == buffer_height(*b),
{
    b.image.height()
}

/// `ImageBuffer::get_pixel`: the pixel at `(x, y)`. It panics outside the
/// image; such coordinates are excluded.
#[verifier::external_body]
pub(crate) fn buffer_get(b: &PixelBuffer, x: u32, y: u32) -> (r: Color)
    requires
        x < buffer_width(*b),
        y < buffer_height(*b),
    ensures
        r == buffer_pixels(*b)[y * buffer_width(*b) + x],
{
    let p = b.image.get_pixel(x, y);
    Color { red: p.0[0], green: p.0[1], blue: p.0[2], alpha: p.0[3] }
}

/// `ImageBuffer::put_pixel`: sets the pixel at `(x, y)` and leaves every
/// other pixel and the dimensions as they were. It panics outside the image;
/// such coordinates are excluded.
#[verifier::external_body]
pub(crate) fn buffer_put(b: &mut PixelBuffer, x: u32, y: u32, color: Color)
    requires
        x < buffer_width(*old(b)),
        y < buffer_height(*old(b)),
    ensures
        buffer_width(*final(b)) == buffer_width(*old(b)),
        buffer_height(*final(b)) == buffer_height(*old(b)),
        buffer_pixels(*final(b)) == buffer_pixels(*old(b)).update(
            y * buffer_width(*old(b)) + x,
            color,
        ),
{
    b.image.put_pixel(x, y, image::Rgba([color.red, color.green, color.blue, color.alpha]));
}

/// `ImageBuffer::into_raw`: the underlying bytes, the red, green, blue and
/// alpha bytes of each pixel in turn, row by row.
#[verifier::external_body]
pub(crate) fn buffer_into_raw(b: PixelBuffer) -> (r: Vec<u8>)
    ensures
        r@ == rgba_bytes(buffer_pixels(b)),
{
    b.image.into_raw()
}

} // verus!
