//! The host image: an RGBA buffer of the `image` crate, seen by the verifier
//! as a width, a height and a flat sequence of channel samples.

use vstd::prelude::*;
use image::Rgba;
use image::RgbaImage;

verus! {

/// An image of four 8-bit channels per pixel, held in an `image::RgbaImage`.
/// The verifier does not look inside: what it knows of an image is its
/// `image_width`, its `image_height` and its `image_samples`, as the functions
/// below state them of the buffer's own methods.
#[verifier::external_body]
pub struct HostImage {
    buffer: RgbaImage,
}

/// The width of an image, in pixels.
pub uninterp spec fn image_width(image: HostImage) -> nat;

/// The height of an image, in pixels.
pub uninterp spec fn image_height(image: HostImage) -> nat;

/// The channel samples of an image's pixels: row by row from the top left,
/// and within a pixel red, green, blue, alpha. There are four for each pixel.
pub uninterp spec fn image_samples(image: HostImage) -> Seq<u8>;

/// The position in `image_samples` of the red channel of pixel `(x, y)` in an
/// image that is `width` pixels wide.
pub open spec fn sample_index(width: int, x: int, y: int) -> int {
    4 * (y * width + x)
}

/// The samples after the four that start at `start` have been replaced by
/// those of `rgba`.
pub open spec fn with_pixel(samples: Seq<u8>, start: int, rgba: Seq<u8>) -> Seq<u8> {
    Seq::new(
        samples.len(),
        |k: int|
            if start <= k < start + 4 {
                rgba[k - start]
            } else {
                samples[k]
            },
    )
}

/// `ImageBuffer::from_raw`: a buffer over `samples`, or nothing where `samples`
/// holds fewer than four samples for each of the `width * height` pixels, or
/// where the length of a row or of the image is more than the machine can
/// count. The pixels are read from the front of `samples`.
#[verifier::external_body]
fn buffer_from_raw(width: u32, height: u32, samples: Vec<u8>) -> (result: Option<HostImage>)
    ensures
        result is Some <==> (4 * width <= usize::MAX && 4 * width * height <= samples@.len()),
        result matches Some(image) ==> {
            &&& image_width(image) == width
            &&& image_height(image) == height
            &&& image_samples(image) == samples@.subrange(0, 4 * width * height)
        },
{
    match RgbaImage::from_raw(width, height, samples) {
        Some(buffer) => Some(HostImage { buffer }),
        None => None,
    }
}

/// `ImageBuffer::dimensions`: the width and the height that the buffer was made
/// with. Every way of making a buffer checks that it holds four samples
/// for each of its `width * height` pixels.
#[verifier::external_body]
fn buffer_dimensions(image: &HostImage) -> (result: (u32, u32))
    ensures
        result.0 == image_width(*image),
        result.1 == image_height(*image),
        image_samples(*image).len() == 4 * result.0 * result.1,
{
    image.buffer.dimensions()
}

/// `ImageBuffer::get_pixel`: the four samples of pixel `(x, y)`. The outside
/// function panics on a position outside the image, which `requires` leaves out.
#[verifier::external_body]
fn buffer_get_pixel(image: &HostImage, x: u32, y: u32) -> (result: [u8; 4])
    requires
        x < image_width(*image),
        y < image_height(*image),
    ensures
        result@ == image_samples(*image).subrange(
            sample_index(image_width(*image) as int, x as int, y as int),
            sample_index(image_width(*image) as int, x as int, y as int) + 4,
        ),
{
    image.buffer.get_pixel(x, y).0
}

/// `ImageBuffer::put_pixel`: replaces the four samples of pixel `(x, y)` and
/// leaves every other sample and the dimensions as they were. The outside
/// function panics on a position outside the image, which `requires` leaves out.
#[verifier::external_body]
fn buffer_put_pixel(image: &mut HostImage, x: u32, y: u32, rgba: [u8; 4])
    requires
        x < image_width(*old(image)),
        y < image_height(*old(image)),
    ensures
        image_width(*final(image)) == image_width(*old(image)),
        image_height(*final(image)) == image_height(*old(image)),
        image_samples(*final(image)) == with_pixel(
            image_samples(*old(image)),
            sample_index(image_width(*old(image)) as int, x as int, y as int),
            rgba@,
        ),
{
    image.buffer.put_pixel(x, y, Rgba(rgba))
}

/// `ImageBuffer::as_raw`: the buffer's container. It starts with the samples of
/// the image's pixels and may be longer than they are.
#[verifier::external_body]
fn buffer_as_raw(image: &HostImage) -> (result: &Vec<u8>)
    ensures
        result@.len() >= image_samples(*image).len(),
        result@.subrange(0, image_samples(*image).len() as int) == image_samples(*image),
{
    image.buffer.as_raw()
}

impl HostImage {
    /// An image of `width` by `height` pixels over `samples`, which holds the
    /// pixels row by row, four samples each. There is none where `samples` is
    /// too short for that many pixels, nor where the samples of one row are
    /// more than the machine can count; what `samples` holds beyond the
    /// pixels is no part of the image.
    pub fn from_raw(width: u32, height: u32, samples: Vec<u8>) -> (result: Option<HostImage>)
        ensures
            result is Some <==> (4 * width <= usize::MAX && 4 * width * height <= samples@.len()),
            result matches Some(image) ==> {
                &&& image_width(image) == width
                &&& image_height(image) == height
                &&& image_samples(image) == samples@.subrange(0, 4 * width * height)
            },
    {
        buffer_from_raw(width, height, samples)
    }

    /// The width and the height, in pixels.
    pub fn dimensions(&self) -> (result: (u32, u32))
        ensures
            result.0 == image_width(*self),
            result.1 == image_height(*self),
            image_samples(*self).len() == 4 * image_width(*self) * image_height(*self),
    {
        buffer_dimensions(self)
    }

    /// The four samples of pixel `(x, y)`: red, green, blue, alpha.
    pub fn get_pixel(&self, x: u32, y: u32) -> (result: [u8; 4])
        requires
            x < image_width(*self),
            y < image_height(*self),
        ensures
            result@ == image_samples(*self).subrange(
                sample_index(image_width(*self) as int, x as int, y as int),
                sample_index(image_width(*self) as int, x as int, y as int) + 4,
            ),
    {
        buffer_get_pixel(self, x, y)
    }

    /// Replaces the four samples of pixel `(x, y)`; nothing else changes.
    pub fn put_pixel(&mut self, x: u32, y: u32, rgba: [u8; 4])
        requires
            x < image_width(*old(self)),
            y < image_height(*old(self)),
        ensures
            image_width(*final(self)) == image_width(*old(self)),
            image_height(*final(self)) == image_height(*old(self)),
            image_samples(*final(self)) == with_pixel(
                image_samples(*old(self)),
                sample_index(image_width(*old(self)) as int, x as int, y as int),
                rgba@,
            ),
    {
        buffer_put_pixel(self, x, y, rgba);
    }

    /// The samples of the image's pixels, as a slice.
    pub fn samples(&self) -> (result: &[u8])
        ensures
            result@ == image_samples(*self),
    {
        let raw: &Vec<u8> = buffer_as_raw(self);
        let (width, height) = buffer_dimensions(self);
        if width == 0 || height == 0 {
            assert(4 * width * height == 0) by (nonlinear_arith)
                requires
                    width == 0 || height == 0,
            ;
            return vstd::slice::slice_subrange(raw.as_slice(), 0, 0);
        }
        let raw_length: usize = raw.len();
        assert(4 * width <= 4 * width * height) by (nonlinear_arith)
            requires
                height >= 1,
        ;
        assert(4 * width * height <= raw_length);
        let row: usize = 4 * (width as usize);
        assert(row * height == 4 * width * height) by (nonlinear_arith)
            requires
                row == 4 * width,
        ;
        let count: usize = row * (height as usize);
        vstd::slice::slice_subrange(raw.as_slice(), 0, count)
    }
}

} // verus!
