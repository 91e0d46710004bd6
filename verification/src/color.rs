//! Writing finished pixels into the output raster.

use vstd::prelude::*;

verus! {

/// The output raster: an `image::RgbImage`, eight bits to a sample. The
/// verifier does not look inside it: the contracts speak of its width,
/// height and samples by the three names below, and what they say rests on
/// the trusted functions that call into `image`.
#[verifier::external_body]
pub struct Raster {
    img: image::RgbImage,
}

/// The number of pixels in a row of the raster.
pub uninterp spec fn raster_width(img: Raster) -> u32;

/// The number of rows of the raster.
pub uninterp spec fn raster_height(img: Raster) -> u32;

/// The samples of the raster: row after row from the top, pixel after pixel
/// from the left, three samples to a pixel.
pub uninterp spec fn raster_samples(img: Raster) -> Seq<u8>;

/// The place of the first sample of the pixel in column `x` of row `y`.
pub open spec fn spec_sample_index(width: u32, x: u32, y: u32) -> int {
    (y * width + x) * 3
}

/// `samples` with the pixel in column `x` of row `y` set to `pixel`.
pub open spec fn spec_put(samples: Seq<u8>, width: u32, x: u32, y: u32, pixel: (u8, u8, u8)) -> Seq<
    u8,
> {
    let at = spec_sample_index(width, x, y);
    samples.update(at, pixel.0).update(at + 1, pixel.1).update(at + 2, pixel.2)
}

/// `image::ImageBuffer::new`. Trusted: the raster has the dimensions asked
/// for and every sample is zero. The call works out the length of a row,
/// then that of the raster, and panics where either does not fit the
/// machine word or the raster has more samples than a vector can hold;
/// such dimensions are excluded.
#[verifier::external_body]
fn image_new(width: u32, height: u32) -> (img: Raster)
    requires
        3 * width <= usize::MAX,
        3 * width * height <= isize::MAX,
    ensures
        raster_width(img) == width,
        raster_height(img) == height,
        raster_samples(img) == Seq::new((3 * width * height) as nat, |i: int| 0u8),
{
    Raster { img: image::ImageBuffer::new(width, height) }
}

/// `image::ImageBuffer::into_raw`. Trusted: it hands out the samples.
#[verifier::external_body]
fn image_into_raw(img: Raster) -> (samples: Vec<u8>)
    ensures
        samples@ == raster_samples(img),
{
    img.img.into_raw()
}

/// `image::ImageBuffer::width`. Trusted: it gives the raster's width.
#[verifier::external_body]
fn image_width(img: &Raster) -> (w: u32)
    ensures
        w == raster_width(*img),
{
    img.img.width()
}

/// `image::ImageBuffer::height`. Trusted: it gives the raster's height.
#[verifier::external_body]
fn image_height(img: &Raster) -> (h: u32)
    ensures
        h == raster_height(*img),
{
    img.img.height()
}

/// `image::ImageBuffer::put_pixel`. Trusted: inside the raster it
/// overwrites the three samples of the pixel in column `x` of row `y` and
/// leaves every other sample and both dimensions as they were. Outside the
/// raster the call panics, so such positions are excluded.
#[verifier::external_body]
fn put_rgb(img: &mut Raster, x: u32, y: u32, pixel: (u8, u8, u8))
    requires
        x < raster_width(*old(img)),
        y < raster_height(*old(img)),
    ensures
        raster_width(*final(img)) == raster_width(*old(img)),
        raster_height(*final(img)) == raster_height(*old(img)),
        raster_samples(*final(img)) == spec_put(
            raster_samples(*old(img)),
            raster_width(*old(img)),
            x,
            y,
            pixel,
        ),
{
    img.img.put_pixel(x, y, image::Rgb([pixel.0, pixel.1, pixel.2]));
}

/// The code `value` held between `min` and `max`: `max` where `value` lies
/// above it, else `min` where `value` lies below it, else `value` itself.
pub open spec fn spec_champ(value: i64, min: i64, max: i64) -> i64 {
    if value > max {
        max
    } else if value < min {
        min
    } else {
        value
    }
}

pub fn champ(value: i64, min: i64, max: i64) -> (r: i64)
    ensures
        r == spec_champ(value, min, max),
        min <= max ==> min <= r <= max,
{
    if value > max {
        return max;
    }
    if value < min {
        return min;
    }
    value
}

impl Raster {
    /// A raster of `width` by `height` black pixels. The samples of a row
    /// must fit the machine word, and those of the raster a vector.
    pub fn new(width: u32, height: u32) -> (r: Self)
        requires
            3 * width <= usize::MAX,
            3 * width * height <= isize::MAX,
        ensures
            raster_width(r) == width,
            raster_height(r) == height,
            raster_samples(r) == Seq::new((3 * width * height) as nat, |i: int| 0u8),
    {
        image_new(width, height)
    }

    pub fn width(&self) -> (w: u32)
        ensures
            w == raster_width(*self),
    {
        image_width(self)
    }

    pub fn height(&self) -> (h: u32)
        ensures
            h == raster_height(*self),
    {
        image_height(self)
    }

    /// The samples, row after row from the top.
    pub fn into_raw(self) -> (samples: Vec<u8>)
        ensures
            samples@ == raster_samples(self),
    {
        image_into_raw(self)
    }
}

/// Whether column `i` of row `j` lies in the raster.
pub fn in_raster(img: &Raster, i: usize, j: usize) -> (r: bool)
    ensures
        r == (i < raster_width(*img) && j < raster_height(*img)),
{
    let w = image_width(img);
    let h = image_height(img);
    i < w as usize && j < h as usize
}

/// Sets the pixel in column `i` of row `j` to `pixel`; nothing else in the
/// raster changes.
pub fn write_color(pixel: (u8, u8, u8), img: &mut Raster, i: usize, j: usize)
    requires
        i < raster_width(*old(img)),
        j < raster_height(*old(img)),
    ensures
        raster_width(*final(img)) == raster_width(*old(img)),
        raster_height(*final(img)) == raster_height(*old(img)),
        raster_samples(*final(img)) == spec_put(
            raster_samples(*old(img)),
            raster_width(*old(img)),
            i as u32,
            j as u32,
            pixel,
        ),
{
    put_rgb(img, i as u32, j as u32, pixel);
}

} // verus!
