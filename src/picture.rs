//! RGB images held in an `image` crate buffer, and reading one channel of one pixel.
use vstd::prelude::*;

verus! {

/// One of the three colour components of a pixel.
#[derive(Clone, Copy, Debug, PartialEq, Eq, Structural)]
pub enum Channel {
    Red,
    Green,
    Blue,
}

/// An RGB image with eight bits per channel.
#[verifier::external_body]
pub struct Picture {
    pub rgb: image::RgbImage,
}

/// The width of a picture, in pixels.
pub uninterp spec fn picture_width(p: Picture) -> u32;

/// The height of a picture, in pixels.
pub uninterp spec fn picture_height(p: Picture) -> u32;

/// The pixels of a picture, keyed by `(x, y)`, each as `(red, green, blue)`.
pub uninterp spec fn picture_pixels(p: Picture) -> Map<(int, int), (u8, u8, u8)>;

/// The value of channel `c` in pixel `p`.
pub open spec fn channel_of(p: (u8, u8, u8), c: Channel) -> u8 {
    match c {
        Channel::Red => p.0,
        Channel::Green => p.1,
        Channel::Blue => p.2,
    }
}

/// The black pixel, which every pixel of a new picture holds.
pub open spec fn black() -> (u8, u8, u8) {
    (0u8, 0u8, 0u8)
}

/// Whether `(x, y)` is a pixel position of a `width` by `height` picture.
pub open spec fn in_bounds(width: u32, height: u32, x: int, y: int) -> bool {
    0 <= x < width && 0 <= y < height
}

/// The value of channel `c` at `(x, y)` in the picture.
pub open spec fn sample_of(p: Picture, x: int, y: int, c: Channel) -> u8 {
    channel_of(picture_pixels(p)[(x, y)], c)
}

impl Picture {
    /// Relies on `image::ImageBuffer::new`: a picture of the given size with
    /// every channel zero. It panics when three bytes per pixel overflow `usize`.
    #[verifier::external_body]
    pub(crate) fn new(width: u32, height: u32) -> (r: Picture)
        requires
            3 * width * height <= usize::MAX,
        ensures
            picture_width(r) == width,
            picture_height(r) == height,
            picture_pixels(r) == Map::new(
                |k: (int, int)| in_bounds(width, height, k.0, k.1),
                |k: (int, int)| black(),
            ),
    {
        Picture { rgb: image::ImageBuffer::new(width, height) }
    }

    /// Relies on `image::ImageBuffer::dimensions`: the width and the height.
    /// Every constructor of the buffer checks that its byte count,
    /// three per pixel, fits in `usize`.
    #[verifier::external_body]
    pub(crate) fn dimensions(&self) -> (r: (u32, u32))
        ensures
            r.0 == picture_width(*self),
            r.1 == picture_height(*self),
            3 * r.0 * r.1 <= usize::MAX,
    {
        self.rgb.dimensions()
    }

    /// Relies on `image::ImageBuffer::get_pixel`, which panics outside the
    /// picture: one channel of the pixel at `(x, y)`.
    #[verifier::external_body]
    fn channel_at(&self, x: u32, y: u32, c: usize) -> (r: u8)
        requires
            x < picture_width(*self),
            y < picture_height(*self),
            c < 3,
        ensures
            c == 0 ==> r == picture_pixels(*self)[(x as int, y as int)].0,
            c == 1 ==> r == picture_pixels(*self)[(x as int, y as int)].1,
            c == 2 ==> r == picture_pixels(*self)[(x as int, y as int)].2,
    {
        self.rgb.get_pixel(x, y).0[c]
    }

    /// Relies on `image::ImageBuffer::put_pixel`, which panics outside the
    /// picture: the pixel at `(x, y)` becomes `(red, green, blue)`.
    #[verifier::external_body]
    pub(crate) fn put_pixel(&mut self, x: u32, y: u32, red: u8, green: u8, blue: u8)
        requires
            x < picture_width(*old(self)),
            y < picture_height(*old(self)),
        ensures
            picture_width(*final(self)) == picture_width(*old(self)),
            picture_height(*final(self)) == picture_height(*old(self)),
            picture_pixels(*final(self)) == picture_pixels(*old(self)).insert(
                (x as int, y as int),
                (red, green, blue),
            ),
    {
        self.rgb.put_pixel(x, y, image::Rgb([red, green, blue]))
    }

    /// The width of the picture, in pixels.
    pub fn width(&self) -> (r: u32)
        ensures
            r == picture_width(*self),
    {
        self.dimensions().0
    }

    /// The height of the picture, in pixels.
    pub fn height(&self) -> (r: u32)
        ensures
            r == picture_height(*self),
    {
        self.dimensions().1
    }

    /// The value of channel `c` of the pixel at `(x, y)`.
    pub fn sample(&self, x: u32, y: u32, c: Channel) -> (r: u8)
        requires
            x < picture_width(*self),
            y < picture_height(*self),
        ensures
            r == sample_of(*self, x as int, y as int, c),
    {
        let index: usize = match c {
            Channel::Red => 0,
            Channel::Green => 1,
            Channel::Blue => 2,
        };
        self.channel_at(x, y, index)
    }
}

} // verus!
