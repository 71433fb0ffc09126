//! CIE L*a*b* in fixed point, derived from the XYZ matrix sums against the
//! D65 white point.

use crate::color_spaces::{xyz_sums, xyz_x_sum, xyz_y_sum, xyz_z_sum, RGBColor};
use vstd::prelude::*;
use vstd::std_specs::convert::FromSpecImpl;

verus! {

/// Lightness `[0, 100]` and the two signed opponent axes, in hundredths.
#[derive(Clone, Copy, Debug, PartialEq, Eq, Structural)]
pub struct LABColor {
    pub l: i32,
    pub a: i32,
    pub b: i32,
}

/// The greatest `r >= from` whose cube is at most `n`, when `from` is one.
pub open spec fn cube_root_from(n: nat, from: nat) -> nat
    decreases n - from,
{
    if from >= n || (from + 1) * (from + 1) * (from + 1) > n {
        from
    } else {
        cube_root_from(n, from + 1)
    }
}

/// The cube root of `n`, rounded down.
pub open spec fn cube_root(n: nat) -> nat {
    cube_root_from(n, 0)
}

/// The CIE compression `f(t)` of `t = num / den` in ten-thousandths: the cube
/// root above `(6/29)^3`, the line `7.787 t + 16/116` at or below it.
pub open spec fn lab_compress(num: int, den: int) -> int {
    if 24389 * num > 216 * den {
        cube_root(((num * 1000000000000) / den) as nat) as int
    } else {
        (77870 * 29 * num + 40000 * den) / (29 * den)
    }
}

/// `f(X / Xn)` in ten-thousandths, `Xn = 95.0489` where Y of white is 100.
pub open spec fn lab_fx(c: RGBColor) -> int {
    lab_compress(xyz_x_sum(c.r, c.g, c.b), 255int * 9504890)
}

/// `f(Y / Yn)` in ten-thousandths, `Yn = 100`.
pub open spec fn lab_fy(c: RGBColor) -> int {
    lab_compress(xyz_y_sum(c.r, c.g, c.b), 255int * 10000000)
}

/// `f(Z / Zn)` in ten-thousandths, `Zn = 108.8840`.
pub open spec fn lab_fz(c: RGBColor) -> int {
    lab_compress(xyz_z_sum(c.r, c.g, c.b), 255int * 10888400)
}

/// Lightness in hundredths: `116 f(Y / Yn) - 16`, not below 0.
pub open spec fn lab_l(c: RGBColor) -> int {
    if 116 * lab_fy(c) < 160000 {
        0
    } else {
        (116 * lab_fy(c) - 160000) / 100
    }
}

/// Green to red in hundredths: `500 (f(X / Xn) - f(Y / Yn))`.
pub open spec fn lab_a(c: RGBColor) -> int {
    5 * (lab_fx(c) - lab_fy(c))
}

/// Blue to yellow in hundredths: `200 (f(Y / Yn) - f(Z / Zn))`.
pub open spec fn lab_b(c: RGBColor) -> int {
    2 * (lab_fy(c) - lab_fz(c))
}

/// The L*a*b* form of an RGB color, from its XYZ matrix sums as they are,
/// neither rounded nor cut off.
pub open spec fn lab_of(c: RGBColor) -> LABColor {
    LABColor { l: lab_l(c) as i32, a: lab_a(c) as i32, b: lab_b(c) as i32 }
}

/// A number whose cube is at most `n`, while the cube of the next is above
/// `n`, is the rounded-down cube root of `n`.
pub proof fn lemma_cube_root_unique(n: nat, r: nat, from: nat)
    requires
        from <= r,
        r * r * r <= n < (r + 1) * (r + 1) * (r + 1),
    ensures
        cube_root_from(n, from) == r,
    decreases r - from,
{
    if from < r {
        let f = from as int;
        let r = r as int;
        assert((f + 1) * (f + 1) * (f + 1) <= r * r * r && f < r * r * r) by (nonlinear_arith)
            requires
                0 <= f < r,
        ;
        lemma_cube_root_unique(n, r as nat, from + 1);
    } else {
        let r = r as int;
        assert(r <= r * r * r) by (nonlinear_arith)
            requires
                r >= 0,
        ;
    }
}

/// The cube root of `n`, rounded down.
pub fn cube_root_u64(n: u64) -> (r: u64)
    requires
        n < 0x8000_0000_0000_0000,
    ensures
        r == cube_root(n as nat),
        r * r * r <= n < (r + 1) * (r + 1) * (r + 1),
{
    let mut low: u64 = 0;
    let mut high: u64 = 0x20_0000;
    assert(0x20_0000 * 0x20_0000 * 0x20_0000 == 0x8000_0000_0000_0000) by (nonlinear_arith);
    while high - low > 1
        invariant
            low < high <= 0x20_0000,
            low * low * low <= n < high * high * high,
        decreases high - low,
    {
        let mid: u64 = low + (high - low) / 2;
        assert(mid * mid <= 0x20_0000 * 0x20_0000 && mid * mid * mid <= 0x20_0000 * 0x20_0000
            * 0x20_0000) by (nonlinear_arith)
            requires
                0 <= mid <= 0x20_0000,
        ;
        if mid * mid * mid <= n {
            low = mid;
        } else {
            high = mid;
        }
    }
    proof {
        lemma_cube_root_unique(n as nat, low as nat, 0);
    }
    low
}

fn compress(num: u64, den: u64) -> (f: u64)
    requires
        2400000000 <= den <= 2800000000,
        num * 10000000 <= den * 10000001,
    ensures
        f == lab_compress(num as int, den as int),
        f <= 10000,
{
    assert(num <= 2800000280) by (nonlinear_arith)
        requires
            num * 10000000 <= den * 10000001,
            den <= 2800000000,
    ;
    if 24389 * num > 216 * den {
        assert(num * 1000000000000 <= 2800000280 * 1000000000000) by (nonlinear_arith)
            requires
                num <= 2800000280,
        ;
        let scaled: u128 = (num as u128) * 1000000000000 / (den as u128);
        assert(scaled <= 1000000100000) by (nonlinear_arith)
            requires
                scaled == (num * 1000000000000) / (den as int),
                num * 10000000 <= den * 10000001,
                den >= 2400000000,
        ;
        let root: u64 = cube_root_u64(scaled as u64);
        assert(root <= 10000) by (nonlinear_arith)
            requires
                root * root * root <= 1000000100000,
                root >= 0,
        ;
        root
    } else {
        assert(77870 * 29 * num == 2258230 * num) by (nonlinear_arith);
        let q: u64 = (2258230 * num + 40000 * den) / (29 * den);
        assert(q <= 10000) by (nonlinear_arith)
            requires
                q == (2258230 * num + 40000 * den) / (29 * den),
                24389 * num <= 216 * den,
                den >= 2400000000,
                num >= 0,
        ;
        q
    }
}

impl RGBColor {
    /// L*, a* and b* of this color against the D65 white point, each in
    /// hundredths, from the XYZ matrix sums as they are. Lightness stays
    /// between 0 and 100.
    pub fn to_lab(&self) -> (res: LABColor)
        ensures
            res == lab_of(*self),
            res.l == lab_l(*self),
            res.a == lab_a(*self),
            res.b == lab_b(*self),
            0 <= res.l <= 10000,
            -50000 <= res.a <= 50000,
            -20000 <= res.b <= 20000,
    {
        let sums = xyz_sums(self.r, self.g, self.b);
        let fx: i64 = compress(sums.0, 255 * 9504890) as i64;
        let fy: i64 = compress(sums.1, 255 * 10000000) as i64;
        let fz: i64 = compress(sums.2, 255 * 10888400) as i64;
        let l: i64 = if 116 * fy < 160000 {
            0
        } else {
            (116 * fy - 160000) / 100
        };
        LABColor { l: l as i32, a: (5 * (fx - fy)) as i32, b: (2 * (fy - fz)) as i32 }
    }
}

impl From<RGBColor> for LABColor {
    fn from(rgb: RGBColor) -> (res: Self) {
        rgb.to_lab()
    }
}

impl FromSpecImpl<RGBColor> for LABColor {
    open spec fn obeys_from_spec() -> bool {
        true
    }

    open spec fn from_spec(rgb: RGBColor) -> Self {
        lab_of(rgb)
    }
}

} // verus!
