//! Pixel access to decoded images.
//!
//! The source image is an `image::DynamicImage`.  Its methods are reached
//! through the small trusted wrappers of this module; everything else in the
//! crate is stated over the names `image_width`, `image_height`,
//! `image_pixels` and `stored_pixel`.

use vstd::prelude::*;

verus! {

/// Declares `image::DynamicImage` as a type whose inside is not looked into.
#[verifier::external_type_specification]
#[verifier::external_body]
pub struct ExDynamicImage(image::DynamicImage);

/// The width, in pixels, that `DynamicImage::width` reports for `img`.
pub uninterp spec fn image_width(img: image::DynamicImage) -> nat;

/// The height, in pixels, that `DynamicImage::height` reports for `img`.
pub uninterp spec fn image_height(img: image::DynamicImage) -> nat;

/// The pixels of `img` in row-major order, each as the (red, green, blue,
/// alpha) bytes that `GenericImageView::get_pixel` reports.
pub uninterp spec fn image_pixels(img: image::DynamicImage) -> Seq<(u8, u8, u8, u8)>;

/// What `get_pixel` reports at a position after `put_pixel` stored `pixel`
/// there.  The image converts the pixel to its own colour type, so this is
/// `pixel` itself only for 8-bit RGBA images.
pub uninterp spec fn stored_pixel(img: image::DynamicImage, pixel: (u8, u8, u8, u8)) -> (
    u8,
    u8,
    u8,
    u8,
);

/// The colour read outside the image.
pub open spec fn white() -> (u8, u8, u8, u8) {
    (255u8, 255u8, 255u8, 255u8)
}

/// Row-major index of the pixel at column `x`, row `y`.
pub open spec fn pixel_index(img: image::DynamicImage, x: int, y: int) -> int {
    x + y * image_width(img)
}

/// Whether `(x, y)` lies inside the image.
pub open spec fn inside(img: image::DynamicImage, x: int, y: int) -> bool {
    0 <= x < image_width(img) && 0 <= y < image_height(img)
}

/// The pixel at `(x, y)`, or white where the position lies outside the image.
pub open spec fn protected_pixel(img: image::DynamicImage, x: int, y: int) -> (u8, u8, u8, u8) {
    if inside(img, x, y) {
        image_pixels(img)[pixel_index(img, x, y)]
    } else {
        white()
    }
}

/// Trusted: calls `image::DynamicImage::width`, which returns the width of
/// the underlying buffer.
#[verifier::external_body]
pub(crate) fn raster_width(img: &image::DynamicImage) -> (w: u32)
    ensures
        w == image_width(*img),
{
    img.width()
}

/// Trusted: calls `image::DynamicImage::height`, which returns the height of
/// the underlying buffer.  There is one pixel for each column of each row.
#[verifier::external_body]
pub(crate) fn raster_height(img: &image::DynamicImage) -> (h: u32)
    ensures
        h == image_height(*img),
        h * image_width(*img) == image_pixels(*img).len(),
{
    img.height()
}

/// Trusted: calls `GenericImageView::get_pixel` on a `DynamicImage`, which
/// panics outside the image and otherwise returns the pixel converted to
/// 8-bit RGBA.  The four bytes are handed back unchanged as a tuple.
#[verifier::external_body]
pub(crate) fn raster_pixel(img: &image::DynamicImage, x: u32, y: u32) -> (p: (u8, u8, u8, u8))
    requires
        x < image_width(*img),
        y < image_height(*img),
    ensures
        p == image_pixels(*img)[pixel_index(*img, x as int, y as int)],
{
    let p = image::GenericImageView::get_pixel(img, x, y);
    (p.0[0], p.0[1], p.0[2], p.0[3])
}

/// Trusted: calls `GenericImage::put_pixel` on a `DynamicImage`, which panics
/// outside the image and otherwise overwrites the one pixel at `(x, y)` with
/// `pixel` converted to the image's colour type.  Size and all other pixels
/// stay as they were.
#[verifier::external_body]
pub(crate) fn raster_put(img: &mut image::DynamicImage, x: u32, y: u32, pixel: (u8, u8, u8, u8))
    requires
        x < image_width(*old(img)),
        y < image_height(*old(img)),
    ensures
        image_width(*final(img)) == image_width(*old(img)),
        image_height(*final(img)) == image_height(*old(img)),
        image_pixels(*final(img)) == image_pixels(*old(img)).update(
            pixel_index(*old(img), x as int, y as int),
            stored_pixel(*old(img), pixel),
        ),
{
    image::GenericImage::put_pixel(img, x, y, image::Rgba([pixel.0, pixel.1, pixel.2, pixel.3]));
}

/// The pixel at `(x, y)`, or white where the position lies outside the image.
pub fn pixel_or_white(img: &image::DynamicImage, x: i64, y: i64) -> (p: (u8, u8, u8, u8))
    ensures
        p == protected_pixel(*img, x as int, y as int),
{
    let w: u32 = raster_width(img);
    let h: u32 = raster_height(img);
    if x < 0 || y < 0 || x >= w as i64 || y >= h as i64 {
        (255u8, 255u8, 255u8, 255u8)
    } else {
        raster_pixel(img, x as u32, y as u32)
    }
}

/// Reads the pixel at `(x, y)`; positions outside the image read as white.
pub fn get_protected(img: &image::DynamicImage, x: i32, y: i32) -> (p: (u8, u8, u8, u8))
    ensures
        p == protected_pixel(*img, x as int, y as int),
{
    pixel_or_white(img, x as i64, y as i64)
}

/// Writes `pixel` at `(x, y)`; positions outside the image are left alone.
pub fn put_protected(img: &mut image::DynamicImage, x: i32, y: i32, pixel: (u8, u8, u8, u8))
    ensures
        image_width(*final(img)) == image_width(*old(img)),
        image_height(*final(img)) == image_height(*old(img)),
        inside(*old(img), x as int, y as int) ==> image_pixels(*final(img)) == image_pixels(
            *old(img),
        ).update(pixel_index(*old(img), x as int, y as int), stored_pixel(*old(img), pixel)),
        !inside(*old(img), x as int, y as int) ==> image_pixels(*final(img)) == image_pixels(
            *old(img),
        ),
{
    let w: u32 = raster_width(img);
    let h: u32 = raster_height(img);
    if x < 0 || y < 0 || x as i64 >= w as i64 || y as i64 >= h as i64 {
        return ;
    }
    raster_put(img, x as u32, y as u32, pixel);
}

} // verus!
