//! Color representations and the integer conversions between them.
//!
//! RGB is the canonical form. The other spaces are derived values, computed on
//! demand in fixed-point integer arithmetic: every quotient is rounded down.

use vstd::prelude::*;
use vstd::std_specs::convert::FromSpecImpl;

verus! {

/// A 24-bit color, one byte per channel.
#[derive(Clone, Copy, Debug, PartialEq, Eq, Structural)]
pub struct RGBColor {
    pub r: u8,
    pub g: u8,
    pub b: u8,
}

/// Hue in degrees `[0, 360)`, saturation and value in percent `[0, 100]`.
#[derive(Clone, Copy, Debug, PartialEq, Eq, Structural)]
pub struct HSVColor {
    pub h: u16,
    pub s: u8,
    pub v: u8,
}

/// CIE XYZ tristimulus values on the scale of the channels: Y of white is
/// 255, and Z of white, the largest value there is, 277.
#[derive(Clone, Copy, Debug, PartialEq, Eq, Structural)]
pub struct XYZColor {
    pub x: u16,
    pub y: u16,
    pub z: u16,
}

/// BT.601 luma and chroma in thousandths: `y` of pure white is 255000, and
/// the chroma channels are centred on 128000.
#[derive(Clone, Copy, Debug, PartialEq, Eq, Structural)]
pub struct YUVColor {
    pub y: i32,
    pub u: i32,
    pub v: i32,
}

/// The largest of three channel values.
pub open spec fn max3(a: int, b: int, c: int) -> int {
    if a >= b && a >= c {
        a
    } else if b >= c {
        b
    } else {
        c
    }
}

/// The smallest of three channel values.
pub open spec fn min3(a: int, b: int, c: int) -> int {
    if a <= b && a <= c {
        a
    } else if b <= c {
        b
    } else {
        c
    }
}

/// Chroma: the spread between the strongest and the weakest channel.
pub open spec fn chroma(c: RGBColor) -> int {
    max3(c.r as int, c.g as int, c.b as int) - min3(c.r as int, c.g as int, c.b as int)
}

/// Value in percent: the strongest channel over 255.
pub open spec fn hsv_value(c: RGBColor) -> int {
    max3(c.r as int, c.g as int, c.b as int) * 100 / 255
}

/// Saturation in percent: chroma over the strongest channel, 0 for black.
pub open spec fn hsv_saturation(c: RGBColor) -> int {
    let top = max3(c.r as int, c.g as int, c.b as int);
    if top == 0 {
        0
    } else {
        chroma(c) * 100 / top
    }
}

/// Sixty times the hue sector position, scaled by the chroma and shifted to
/// be non-negative: the sector is chosen by the strongest channel, red first.
pub open spec fn hue_numerator(c: RGBColor) -> int {
    let top = max3(c.r as int, c.g as int, c.b as int);
    let ch = chroma(c);
    if top == c.r {
        360 * ch + 60 * (c.g - c.b)
    } else if top == c.g {
        120 * ch + 60 * (c.b - c.r)
    } else {
        240 * ch + 60 * (c.r - c.g)
    }
}

/// Hue in whole degrees, 0 for a gray.
pub open spec fn hsv_hue(c: RGBColor) -> int {
    if chroma(c) == 0 {
        0
    } else {
        (hue_numerator(c) / chroma(c)) % 360
    }
}

/// The HSV form of an RGB color.
pub open spec fn hsv_of(c: RGBColor) -> HSVColor {
    HSVColor { h: hsv_hue(c) as u16, s: hsv_saturation(c) as u8, v: hsv_value(c) as u8 }
}

/// X of the sRGB (D65) matrix in units of 10^-7.
pub open spec fn xyz_x_sum(r: u8, g: u8, b: u8) -> int {
    4124564 * r + 3575761 * g + 1804375 * b
}

/// Y of the sRGB (D65) matrix in units of 10^-7.
pub open spec fn xyz_y_sum(r: u8, g: u8, b: u8) -> int {
    2126729 * r + 7151522 * g + 721750 * b
}

/// Z of the sRGB (D65) matrix in units of 10^-7.
pub open spec fn xyz_z_sum(r: u8, g: u8, b: u8) -> int {
    193339 * r + 1191920 * g + 9503041 * b
}

/// The XYZ form of an RGB triple: each matrix sum rounded down to a whole
/// number.
pub open spec fn xyz_of(r: u8, g: u8, b: u8) -> XYZColor {
    XYZColor {
        x: (xyz_x_sum(r, g, b) / 10000000) as u16,
        y: (xyz_y_sum(r, g, b) / 10000000) as u16,
        z: (xyz_z_sum(r, g, b) / 10000000) as u16,
    }
}

/// Luma in thousandths: `0.299 R + 0.587 G + 0.114 B`.
pub open spec fn yuv_y(c: RGBColor) -> int {
    299 * c.r + 587 * c.g + 114 * c.b
}

/// Blue-difference chroma in thousandths: `0.492 (B - Y) + 128`.
pub open spec fn yuv_u(c: RGBColor) -> int {
    (492 * (1000 * c.b - yuv_y(c))) / 1000 + 128000
}

/// Red-difference chroma in thousandths: `0.877 (R - Y) + 128`.
pub open spec fn yuv_v(c: RGBColor) -> int {
    (877 * (1000 * c.r - yuv_y(c))) / 1000 + 128000
}

/// The YUV form of an RGB color.
pub open spec fn yuv_of(c: RGBColor) -> YUVColor {
    YUVColor { y: yuv_y(c) as i32, u: yuv_u(c) as i32, v: yuv_v(c) as i32 }
}

/// A channel in millionths brought to a byte: rounded down, then cut off at
/// 0 and at 255.
pub open spec fn channel_byte(millionths: int) -> int {
    if millionths < 0 {
        0
    } else if millionths / 1000000 > 255 {
        255
    } else {
        millionths / 1000000
    }
}

/// Red in millionths: `Y + 1.403 (V - 128)`.
pub open spec fn yuv_red(c: YUVColor) -> int {
    1000 * c.y + 1403 * (c.v - 128000)
}

/// Green in millionths: `Y - 0.344 (U - 128) - 0.714 (V - 128)`.
pub open spec fn yuv_green(c: YUVColor) -> int {
    1000 * c.y - 344 * (c.u - 128000) - 714 * (c.v - 128000)
}

/// Blue in millionths: `Y + 1.770 (U - 128)`.
pub open spec fn yuv_blue(c: YUVColor) -> int {
    1000 * c.y + 1770 * (c.u - 128000)
}

/// The RGB form of a YUV color.
pub open spec fn rgb_of_yuv(c: YUVColor) -> RGBColor {
    RGBColor {
        r: channel_byte(yuv_red(c)) as u8,
        g: channel_byte(yuv_green(c)) as u8,
        b: channel_byte(yuv_blue(c)) as u8,
    }
}

/// Hue, saturation and value stay inside their ranges for every color.
pub proof fn lemma_hsv_ranges(c: RGBColor)
    ensures
        0 <= hsv_hue(c) < 360,
        0 <= hsv_saturation(c) <= 100,
        0 <= hsv_value(c) <= 100,
        chroma(c) == 0 ==> hsv_hue(c) == 0,
        max3(c.r as int, c.g as int, c.b as int) == 0 ==> hsv_saturation(c) == 0 && hsv_hue(c) == 0,
{
    let top = max3(c.r as int, c.g as int, c.b as int);
    let ch = chroma(c);
    if top > 0 {
        assert(0 <= ch * 100 / top <= 100) by (nonlinear_arith)
            requires
                0 <= ch <= top,
                top > 0,
        ;
    }
}

/// Each channel divided by 255 in whole numbers: 1 for a full channel, else 0.
pub fn linearalize(a: u8, b: u8, c: u8) -> (res: (u8, u8, u8))
    ensures
        res.0 as int == a as int / 255,
        res.1 as int == b as int / 255,
        res.2 as int == c as int / 255,
{
    (a / 0xFF, b / 0xFF, c / 0xFF)
}

/// The three sums of the sRGB (D65) matrix, in units of 10^-7.
pub fn xyz_sums(r: u8, g: u8, b: u8) -> (sums: (u64, u64, u64))
    ensures
        sums.0 == xyz_x_sum(r, g, b),
        sums.1 == xyz_y_sum(r, g, b),
        sums.2 == xyz_z_sum(r, g, b),
        sums.0 <= 9504700 * 255,
        sums.1 <= 10000001 * 255,
        sums.2 <= 10888300 * 255,
{
    let r: u64 = r as u64;
    let g: u64 = g as u64;
    let b: u64 = b as u64;
    (
        4124564 * r + 3575761 * g + 1804375 * b,
        2126729 * r + 7151522 * g + 721750 * b,
        193339 * r + 1191920 * g + 9503041 * b,
    )
}

fn byte_of_millionths(millionths: i64) -> (res: u8)
    ensures
        res as int == channel_byte(millionths as int),
{
    if millionths < 0 {
        0
    } else {
        let q: u64 = (millionths as u64) / 1000000;
        if q > 255 {
            255
        } else {
            q as u8
        }
    }
}

impl RGBColor {
    /// Luma and chroma of this color, each rounded down to a thousandth.
    pub fn to_yuv(&self) -> (res: YUVColor)
        ensures
            res == yuv_of(*self),
    {
        let r: i64 = self.r as i64;
        let g: i64 = self.g as i64;
        let b: i64 = self.b as i64;
        let y: i64 = 299 * r + 587 * g + 114 * b;
        let shifted_u: u64 = (492 * (1000 * b - y) + 200000000) as u64;
        let shifted_v: u64 = (877 * (1000 * r - y) + 200000000) as u64;
        let u: i64 = (shifted_u / 1000) as i64 - 200000 + 128000;
        let v: i64 = (shifted_v / 1000) as i64 - 200000 + 128000;
        YUVColor { y: y as i32, u: u as i32, v: v as i32 }
    }

    /// The color of a luma and chroma triple: each channel rounded down to a
    /// whole number and cut off at 0 and at 255.
    pub fn from_yuv(value: YUVColor) -> (res: Self)
        ensures
            res == rgb_of_yuv(value),
    {
        let y: i64 = value.y as i64;
        let u: i64 = value.u as i64 - 128000;
        let v: i64 = value.v as i64 - 128000;
        let r: u8 = byte_of_millionths(1000 * y + 1403 * v);
        let g: u8 = byte_of_millionths(1000 * y - 344 * u - 714 * v);
        let b: u8 = byte_of_millionths(1000 * y + 1770 * u);
        Self { r, g, b }
    }

    /// A copy with each channel divided by 255 in whole numbers.
    pub fn normalize(&self) -> (res: Self)
        ensures
            res.r as int == self.r as int / 255,
            res.g as int == self.g as int / 255,
            res.b as int == self.b as int / 255,
    {
        let r: u8 = self.r / 0xFF;
        let g: u8 = self.g / 0xFF;
        let b: u8 = self.b / 0xFF;
        Self { r, g, b }
    }

    /// Divides each channel by 255 in whole numbers, in place.
    pub fn normalized(&mut self)
        ensures
            final(self).r as int == old(self).r as int / 255,
            final(self).g as int == old(self).g as int / 255,
            final(self).b as int == old(self).b as int / 255,
    {
        self.r = self.r / 0xFF;
        self.g = self.g / 0xFF;
        self.b = self.b / 0xFF;
    }

    /// Hue, saturation and value of this color. Black and grays, where the
    /// quotients have a zero divisor, get saturation 0 and hue 0.
    pub fn to_hsv(&self) -> (res: HSVColor)
        ensures
            res == hsv_of(*self),
            res.h < 360,
            res.s <= 100,
            res.v <= 100,
    {
        proof {
            lemma_hsv_ranges(*self);
        }
        let r: u32 = self.r as u32;
        let g: u32 = self.g as u32;
        let b: u32 = self.b as u32;
        let top: u32 = if r >= g && r >= b { r } else if g >= b { g } else { b };
        let low: u32 = if r <= g && r <= b { r } else if g <= b { g } else { b };
        let ch: u32 = top - low;
        let v: u32 = top * 100 / 255;
        let s: u32 = if top == 0 { 0 } else { ch * 100 / top };
        let h: u32 = if ch == 0 {
            0
        } else if top == r {
            ((360 * ch + 60 * g - 60 * b) / ch) % 360
        } else if top == g {
            ((120 * ch + 60 * b - 60 * r) / ch) % 360
        } else {
            ((240 * ch + 60 * r - 60 * g) / ch) % 360
        };
        HSVColor { h: h as u16, s: s as u8, v: v as u8 }
    }
}

impl XYZColor {
    /// The sRGB (D65) matrix applied to the three channels, each product sum
    /// rounded down to a whole number.
    pub fn from_rgb(r: u8, g: u8, b: u8) -> (res: Self)
        ensures
            res == xyz_of(r, g, b),
            res.x <= 242,
            res.y <= 255,
            res.z <= 277,
    {
        let sums = xyz_sums(r, g, b);
        Self {
            x: (sums.0 / 10000000) as u16,
            y: (sums.1 / 10000000) as u16,
            z: (sums.2 / 10000000) as u16,
        }
    }
}

impl From<RGBColor> for HSVColor {
    fn from(col: RGBColor) -> (res: Self) {
        col.to_hsv()
    }
}

impl FromSpecImpl<RGBColor> for HSVColor {
    open spec fn obeys_from_spec() -> bool {
        true
    }

    open spec fn from_spec(col: RGBColor) -> Self {
        hsv_of(col)
    }
}

impl From<RGBColor> for YUVColor {
    fn from(rgb: RGBColor) -> (res: Self) {
        rgb.to_yuv()
    }
}

impl FromSpecImpl<RGBColor> for YUVColor {
    open spec fn obeys_from_spec() -> bool {
        true
    }

    open spec fn from_spec(rgb: RGBColor) -> Self {
        yuv_of(rgb)
    }
}

impl From<YUVColor> for RGBColor {
    fn from(value: YUVColor) -> (res: Self) {
        RGBColor::from_yuv(value)
    }
}

impl FromSpecImpl<YUVColor> for RGBColor {
    open spec fn obeys_from_spec() -> bool {
        true
    }

    open spec fn from_spec(value: YUVColor) -> Self {
        rgb_of_yuv(value)
    }
}

impl From<RGBColor> for XYZColor {
    fn from(value: RGBColor) -> (res: Self) {
        XYZColor::from_rgb(value.r, value.g, value.b)
    }
}

impl FromSpecImpl<RGBColor> for XYZColor {
    open spec fn obeys_from_spec() -> bool {
        true
    }

    open spec fn from_spec(value: RGBColor) -> Self {
        xyz_of(value.r, value.g, value.b)
    }
}

} // verus!
