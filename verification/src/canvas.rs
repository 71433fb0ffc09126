//! The raster canvas: an RGB image buffer of the `image` crate, seen by the
//! proofs as a width, a height and a map from coordinates to channel triples.

use crate::color_spaces::RGBColor;
use vstd::prelude::*;

verus! {

/// A fixed-size 2D buffer of RGB pixels, indexed by column and row. It holds
/// an `image::RgbImage`, which the proofs cannot look into: they go by
/// `image_width`, `image_height` and `image_pixels`.
#[verifier::external_body]
pub struct Canvas {
    img: image::RgbImage,
}

/// The pixels that an image buffer holds, by `(x, y)`.
pub uninterp spec fn image_pixels(img: Canvas) -> Map<
    (int, int),
    (u8, u8, u8),
>;

/// The width that an image buffer was made with.
pub uninterp spec fn image_width(img: Canvas) -> nat;

/// The height that an image buffer was made with.
pub uninterp spec fn image_height(img: Canvas) -> nat;

/// The pixels of a fresh buffer: every coordinate inside it, all black.
pub open spec fn blank_pixels(width: nat, height: nat) -> Map<(int, int), (u8, u8, u8)> {
    Map::new(
        |p: (int, int)| 0 <= p.0 < width && 0 <= p.1 < height,
        |p: (int, int)| (0u8, 0u8, 0u8),
    )
}

/// `image::ImageBuffer::new`: a buffer of the given size with every sample
/// zero. It panics when three bytes per pixel are more than a vector can
/// hold, which the precondition leaves out.
#[verifier::external_body]
fn image_new(width: u32, height: u32) -> (img: Canvas)
    requires
        3 * (width * height) <= usize::MAX / 2,
    ensures
        image_width(img) == width,
        image_height(img) == height,
        image_pixels(img) == blank_pixels(width as nat, height as nat),
{
    Canvas { img: image::ImageBuffer::new(width, height) }
}

/// `image::ImageBuffer::put_pixel`: overwrites the pixel at `(x, y)` and
/// leaves every other pixel and the size as they were. It panics outside the
/// buffer, which the precondition leaves out.
#[verifier::external_body]
fn image_put_pixel(
    img: &mut Canvas,
    x: u32,
    y: u32,
    r: u8,
    g: u8,
    b: u8,
)
    requires
        x < image_width(*old(img)),
        y < image_height(*old(img)),
    ensures
        image_width(*final(img)) == image_width(*old(img)),
        image_height(*final(img)) == image_height(*old(img)),
        image_pixels(*final(img)) == image_pixels(*old(img)).insert(
            (x as int, y as int),
            (r, g, b),
        ),
{
    img.img.put_pixel(x, y, image::Rgb([r, g, b]))
}

/// `image::ImageBuffer::get_pixel`: the three samples of the pixel at
/// `(x, y)`. It panics outside the buffer, which the precondition leaves out.
#[verifier::external_body]
fn image_get_pixel(img: &Canvas, x: u32, y: u32) -> (px: (
    u8,
    u8,
    u8,
))
    requires
        x < image_width(*img),
        y < image_height(*img),
    ensures
        px == image_pixels(*img)[(x as int, y as int)],
{
    let p = img.img.get_pixel(x, y);
    (p.0[0], p.0[1], p.0[2])
}

/// `image::ImageBuffer::width`.
#[verifier::external_body]
fn image_width_of(img: &Canvas) -> (w: u32)
    ensures
        w == image_width(*img),
{
    img.img.width()
}

/// `image::ImageBuffer::height`.
#[verifier::external_body]
fn image_height_of(img: &Canvas) -> (h: u32)
    ensures
        h == image_height(*img),
{
    img.img.height()
}

/// The color that a channel triple stands for.
pub open spec fn color_of(px: (u8, u8, u8)) -> RGBColor {
    RGBColor { r: px.0, g: px.1, b: px.2 }
}

/// Black, the background of a fresh canvas.
pub open spec fn black() -> RGBColor {
    RGBColor { r: 0, g: 0, b: 0 }
}

/// `image::ImageBuffer::into_raw`: the samples of the buffer, three per
/// pixel, row after row from the top, each row from the left.
#[verifier::external_body]
fn image_into_raw(img: Canvas) -> (raw: Vec<u8>)
    ensures
        raw@.len() == 3 * (image_width(img) * image_height(img)),
        forall|x: int, y: int|
            0 <= x < image_width(img) && 0 <= y < image_height(img) ==> (
            raw@[(y * image_width(img) + x) * 3],
            raw@[(y * image_width(img) + x) * 3 + 1],
            raw@[(y * image_width(img) + x) * 3 + 2],
        ) == #[trigger] image_pixels(img)[(x, y)],
{
    img.img.into_raw()
}

impl Canvas {
    /// Width in pixels.
    pub open spec fn spec_width(&self) -> nat {
        image_width(*self)
    }

    /// Height in pixels.
    pub open spec fn spec_height(&self) -> nat {
        image_height(*self)
    }

    /// The color of the pixel in column `x` of row `y`.
    pub open spec fn spec_pixel(&self, x: int, y: int) -> RGBColor {
        color_of(image_pixels(*self)[(x, y)])
    }

    /// Whether `(x, y)` lies on the canvas.
    pub open spec fn contains(&self, x: int, y: int) -> bool {
        0 <= x < self.spec_width() && 0 <= y < self.spec_height()
    }

    /// Whether a vector can hold three bytes for each pixel.
    pub open spec fn fits(width: nat, height: nat) -> bool {
        3 * (width * height) <= usize::MAX / 2
    }

    /// A black canvas of the given size, or `None` where it would hold more
    /// bytes than a vector can.
    pub fn try_new(width: u32, height: u32) -> (res: Option<Canvas>)
        ensures
            res is Some <==> Self::fits(width as nat, height as nat),
            res is Some ==> res->Some_0.spec_width() == width && res->Some_0.spec_height()
                == height && forall|x: int, y: int| #[trigger]
                res->Some_0.contains(x, y) ==> res->Some_0.spec_pixel(x, y) == black(),
    {
        assert(width * height <= 0xFFFF_FFFF * 0xFFFF_FFFF) by (nonlinear_arith)
            requires
                width <= 0xFFFF_FFFF,
                height <= 0xFFFF_FFFF,
        ;
        let area: u128 = (width as u128) * (height as u128);
        if 3 * area <= (usize::MAX / 2) as u128 {
            let canvas = image_new(width, height);
            assert forall|x: int, y: int| #[trigger] canvas.contains(x, y) implies canvas.spec_pixel(
                x,
                y,
            ) == black() by {
                assert(blank_pixels(width as nat, height as nat).contains_key((x, y)));
            }
            Some(canvas)
        } else {
            None
        }
    }

    /// A black canvas of the given size.
    pub fn new(width: u32, height: u32) -> (canvas: Canvas)
        requires
            Self::fits(width as nat, height as nat),
        ensures
            canvas.spec_width() == width,
            canvas.spec_height() == height,
            forall|x: int, y: int| #[trigger]
                canvas.contains(x, y) ==> canvas.spec_pixel(x, y) == black(),
    {
        let canvas = image_new(width, height);
        assert forall|x: int, y: int| #[trigger] canvas.contains(x, y) implies canvas.spec_pixel(
            x,
            y,
        ) == black() by {
            assert(blank_pixels(width as nat, height as nat).contains_key((x, y)));
        }
        canvas
    }

    /// Width in pixels.
    pub fn width(&self) -> (w: u32)
        ensures
            w == self.spec_width(),
    {
        image_width_of(self)
    }

    /// Height in pixels.
    pub fn height(&self) -> (h: u32)
        ensures
            h == self.spec_height(),
    {
        image_height_of(self)
    }

    /// The color at `(x, y)`, or `None` outside the canvas.
    pub fn get_pixel(&self, x: u32, y: u32) -> (res: Option<RGBColor>)
        ensures
            res == if self.contains(x as int, y as int) {
                Some(self.spec_pixel(x as int, y as int))
            } else {
                None
            },
    {
        if x < self.width() && y < self.height() {
            let px = image_get_pixel(self, x, y);
            Some(RGBColor { r: px.0, g: px.1, b: px.2 })
        } else {
            None
        }
    }

    /// Overwrites the pixel at `(x, y)`; every other pixel stays.
    pub fn put_pixel(&mut self, x: u32, y: u32, color: RGBColor)
        requires
            old(self).contains(x as int, y as int),
        ensures
            final(self).spec_width() == old(self).spec_width(),
            final(self).spec_height() == old(self).spec_height(),
            forall|a: int, b: int|
                #[trigger] final(self).spec_pixel(a, b) == if a == x && b == y {
                    color
                } else {
                    old(self).spec_pixel(a, b)
                },
    {
        image_put_pixel(self, x, y, color.r, color.g, color.b);
    }

    /// Hands the pixel data over to whoever encodes it: three bytes per
    /// pixel, red first, row after row from the top.
    pub fn into_raw(self) -> (raw: Vec<u8>)
        ensures
            raw@.len() == 3 * (self.spec_width() * self.spec_height()),
            forall|x: int, y: int| #[trigger]
                self.contains(x, y) ==> self.spec_pixel(x, y) == (RGBColor {
                    r: raw@[(y * self.spec_width() + x) * 3],
                    g: raw@[(y * self.spec_width() + x) * 3 + 1],
                    b: raw@[(y * self.spec_width() + x) * 3 + 2],
                }),
    {
        image_into_raw(self)
    }
}

} // verus!
