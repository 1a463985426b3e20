//! Textures: spatially varying colors with exact integer contracts.
//!
//! The closed set here covers the texture kinds whose sampling is pure
//! arithmetic: a constant color, a checker pattern, and a lookup into an
//! in-memory pixel grid. Decoding an image file into that grid is I/O and
//! stays with the caller.

use vstd::prelude::*;
use crate::fx::{tdiv, fdiv, floor_div, i_div, FP_ONE, COORD_LIM};
use crate::vec3::{Vec3, Point3, Color, vec_in_range};

verus! {

/// The fixed-point value of pi, used by the checker pattern's sign rule.
pub const PI_FP: i128 = 13493037705;

/// A texture that is the same color everywhere.
#[derive(Clone, Copy, PartialEq, Eq, Structural, Debug)]
pub struct SolidColor {
    pub color_value: Color,
}

/// Two solid colors alternating in a sine-sign checker pattern.
#[derive(Clone, Copy, PartialEq, Eq, Structural, Debug)]
pub struct CheckerTexture {
    pub odd: SolidColor,
    pub even: SolidColor,
}

/// A lookup into a row-major grid of 8-bit RGB pixels.
#[derive(Clone, PartialEq, Eq, Debug)]
pub struct ImageTexture {
    pub width: u32,
    pub height: u32,
    pub pixel_color: Vec<(u8, u8, u8)>,
}

/// A texture of any supported kind.
#[derive(Clone, PartialEq, Eq, Debug)]
pub enum Texture {
    Solid(SolidColor),
    Checker(CheckerTexture),
    Image(ImageTexture),
}

/// The sign of `sin(10 c)` is decided by the parity of `floor(10 c / pi)`;
/// the checker takes the odd color when the product of the three signs is
/// negative, that is when the summed parity is odd.
pub open spec fn checker_is_odd(p: Point3) -> bool {
    let kx = fdiv(10 * p.x, PI_FP as int);
    let ky = fdiv(10 * p.y, PI_FP as int);
    let kz = fdiv(10 * p.z, PI_FP as int);
    (kx + ky + kz) % 2 != 0
}

/// The pixel grid matches the stated dimensions and stays small enough
/// for exact index arithmetic.
pub open spec fn image_wf(t: ImageTexture) -> bool {
    t.pixel_color@.len() == (t.width as int) * (t.height as int)
        && t.width <= 65536
        && t.height <= 65536
}

/// Clamp a fixed-point coordinate into `[0, 1]`.
pub open spec fn sclamp01(u: int) -> int {
    if u < 0 { 0 } else if u > FP_ONE { FP_ONE as int } else { u }
}

/// The pixel column sampled for texture coordinate `u`.
pub open spec fn spixel_index(u: int, extent: int) -> int {
    let i = tdiv(sclamp01(u) * extent, FP_ONE as int);
    if i >= extent { extent - 1 } else { i }
}

/// An 8-bit channel brought to a fixed-point color in `[0, 1)`.
pub open spec fn schannel(c: int) -> int {
    tdiv(c * FP_ONE * 1000, 255999)
}

/// The color an image texture returns at `(u, v)`: cyan for an empty
/// image, else the nearest pixel, v running bottom-up.
pub open spec fn simage_value(t: ImageTexture, u: int, v: int) -> Color {
    if t.pixel_color@.len() == 0 {
        Vec3 { x: 0i128, y: FP_ONE, z: FP_ONE }
    } else {
        let i = spixel_index(u, t.width as int);
        let j = spixel_index(v, t.height as int);
        let pix = t.pixel_color@[j * (t.width as int) + i];
        Vec3 {
            x: schannel(pix.0 as int) as i128,
            y: schannel(pix.1 as int) as i128,
            z: schannel(pix.2 as int) as i128,
        }
    }
}

/// The color a texture returns at surface coordinates `(u, v)` and point `p`.
pub open spec fn stexture_value(t: Texture, u: int, v: int, p: Point3) -> Color {
    match t {
        Texture::Solid(s) => s.color_value,
        Texture::Checker(c) => if checker_is_odd(p) {
            c.odd.color_value
        } else {
            c.even.color_value
        },
        Texture::Image(img) => simage_value(img, u, v),
    }
}

impl SolidColor {
    /// A texture of one color.
    pub fn new(color_value: Color) -> (r: SolidColor)
        ensures
            r == (SolidColor { color_value }),
    {
        SolidColor { color_value }
    }
}

impl CheckerTexture {
    /// A checker of two colors.
    pub fn new(c1: Color, c2: Color) -> (r: CheckerTexture)
        ensures
            r.odd.color_value == c1,
            r.even.color_value == c2,
    {
        CheckerTexture { odd: SolidColor::new(c1), even: SolidColor::new(c2) }
    }
}

impl ImageTexture {
    /// Wrap an in-memory pixel grid. The caller decodes the file.
    pub fn new(width: u32, height: u32, pixel_color: Vec<(u8, u8, u8)>) -> (r: ImageTexture)
        requires
            pixel_color@.len() == (width as int) * (height as int),
            width <= 65536,
            height <= 65536,
        ensures
            r.width == width,
            r.height == height,
            r.pixel_color == pixel_color,
            image_wf(r),
    {
        ImageTexture { width, height, pixel_color }
    }
}

/// Clamp a fixed-point coordinate into `[0, 1]`.
fn clamp01(u: i128) -> (r: i128)
    ensures
        r == sclamp01(u as int),
{
    if u < 0 {
        0
    } else if u > FP_ONE {
        FP_ONE
    } else {
        u
    }
}

/// The sampled pixel column for a texture coordinate.
fn pixel_index(u: i128, extent: u32) -> (r: usize)
    requires
        1 <= extent <= 65536,
    ensures
        r == spixel_index(u as int, extent as int),
        r < extent,
{
    let c = clamp01(u);
    proof {
        assert(c as int * extent as int >= 0
            && c as int * extent as int <= FP_ONE * 65536) by (nonlinear_arith)
            requires 0 <= c <= FP_ONE, 0 <= extent <= 65536
        ;
    }
    let i = i_div(c * (extent as i128), FP_ONE);
    proof {
        crate::fx::lemma_tdiv_abs_le(c as int * extent as int, FP_ONE as int);
    }
    if i >= extent as i128 {
        (extent - 1) as usize
    } else {
        i as usize
    }
}

impl Texture {
    /// The color of this texture at `(u, v)` and point `p`.
    pub fn value(&self, u: i128, v: i128, p: &Point3) -> (r: Color)
        requires
            vec_in_range(*p, COORD_LIM as int),
            match self {
                Texture::Image(img) => image_wf(*img),
                _ => true,
            },
        ensures
            r == stexture_value(*self, u as int, v as int, *p),
    {
        match self {
            Texture::Solid(s) => s.color_value,
            Texture::Checker(c) => {
                let kx = floor_div(10 * p.x, PI_FP);
                let ky = floor_div(10 * p.y, PI_FP);
                let kz = floor_div(10 * p.z, PI_FP);
                let m = (kx + ky + kz).checked_rem_euclid(2).unwrap();
                if m != 0 {
                    c.odd.color_value
                } else {
                    c.even.color_value
                }
            }
            Texture::Image(img) => {
                if img.pixel_color.len() == 0 {
                    Vec3 { x: 0, y: FP_ONE, z: FP_ONE }
                } else {
                    proof {
                        assert(img.width >= 1 && img.height >= 1) by (nonlinear_arith)
                            requires
                                img.pixel_color@.len() == (img.width as int) * (img.height as int),
                                img.pixel_color@.len() > 0,
                        ;
                    }
                    let i = pixel_index(u, img.width);
                    let j = pixel_index(v, img.height);
                    proof {
                        assert((j as int) * (img.width as int) + (i as int)
                            < (img.width as int) * (img.height as int)
                            && (j as int) * (img.width as int)
                                <= (img.width as int) * (img.height as int)) by (nonlinear_arith)
                            requires
                                i < img.width as int,
                                j < img.height as int,
                                0 <= i,
                                0 <= j,
                        ;
                    }
                    let idx = j * (img.width as usize) + i;
                    let pix = img.pixel_color[idx];
                    let cx = channel(pix.0);
                    let cy = channel(pix.1);
                    let cz = channel(pix.2);
                    Vec3 { x: cx, y: cy, z: cz }
                }
            }
        }
    }
}

/// An 8-bit channel brought to fixed point.
fn channel(c: u8) -> (r: i128)
    ensures
        r == schannel(c as int),
        0 <= r < FP_ONE,
{
    let r = i_div((c as i128) * FP_ONE * 1000, 255999);
    proof {
        let x = c as int * FP_ONE * 1000;
        crate::fx::lemma_tdiv_abs_le(x, 255999);
        assert(tdiv(x, 255999) == x / 255999);
        vstd::arithmetic::div_mod::lemma_div_is_ordered(x, 1095216660480000, 255999);
        assert(1095216660480000int / 255999int < FP_ONE);
    }
    r
}

} // verus!

verus! {

/// Textures that can be copied exactly: everything but an image grid.
pub open spec fn texture_dupable(t: Texture) -> bool {
    !(t is Image)
}

impl Texture {
    /// An exact copy of a non-image texture.
    pub fn duplicate(&self) -> (r: Texture)
        requires
            texture_dupable(*self),
        ensures
            r == *self,
    {
        match self {
            Texture::Solid(s) => Texture::Solid(*s),
            Texture::Checker(c) => Texture::Checker(*c),
            Texture::Image(_) => Texture::Solid(SolidColor { color_value: Vec3 { x: 0, y: 0, z: 0 } }),
        }
    }
}

} // verus!
