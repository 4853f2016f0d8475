//! Fixed-point colours and the materials that emit and reflect them.

use vstd::prelude::*;
use crate::vector::{Pt, Vec3, Wide, bounded, dot, normal_max};

verus! {

/// The fixed-point unit of a colour channel: a channel value of `ONE` is a
/// transport weight of one.
pub const ONE: u64 = 65536;

/// The brightest value a channel can hold; arithmetic saturates there.
pub const CHANNEL_MAX: u64 = 0xffff_ffff_ffff_ffff;

/// An unnormalised colour, one fixed-point value per channel.
#[derive(Clone, Copy, Debug, PartialEq, Eq, Structural)]
pub struct Color {
    pub r: u64,
    pub g: u64,
    pub b: u64,
}

/// Types with a black value: no light at all.
pub trait Black: Sized {
    spec fn is_black(&self) -> bool;

    fn black() -> (r: Self)
        ensures
            r.is_black(),
    ;
}

impl Black for Color {
    open spec fn is_black(&self) -> bool {
        self.r == 0 && self.g == 0 && self.b == 0
    }

    fn black() -> (r: Color) {
        Color { r: 0, g: 0, b: 0 }
    }
}

pub open spec fn black_color() -> Color {
    Color { r: 0, g: 0, b: 0 }
}

/// Caps a non-negative channel value at `CHANNEL_MAX`.
pub open spec fn sat(x: int) -> int {
    if x > CHANNEL_MAX as int {
        CHANNEL_MAX as int
    } else {
        x
    }
}

/// Fixed-point product of two channel values, rounded down but to at least
/// one unit when both are non-zero.
pub open spec fn mul_ch(a: int, b: int) -> int {
    if a * b > 0 && a * b / ONE as int == 0 {
        // A product of two non-zero values is never rounded away to nothing.
        1
    } else {
        sat(a * b / ONE as int)
    }
}

/// Saturating sum of two channel values.
pub open spec fn add_ch(a: int, b: int) -> int {
    sat(a + b)
}

/// Channel-wise filtering of `a` by `b`.
pub open spec fn filter(a: Color, b: Color) -> Color {
    Color {
        r: mul_ch(a.r as int, b.r as int) as u64,
        g: mul_ch(a.g as int, b.g as int) as u64,
        b: mul_ch(a.b as int, b.b as int) as u64,
    }
}

/// `a` scaled by the fixed-point weight `k`.
pub open spec fn weigh(a: Color, k: int) -> Color {
    Color {
        r: mul_ch(a.r as int, k) as u64,
        g: mul_ch(a.g as int, k) as u64,
        b: mul_ch(a.b as int, k) as u64,
    }
}

/// Channel-wise saturating sum.
pub open spec fn mix(a: Color, b: Color) -> Color {
    Color {
        r: add_ch(a.r as int, b.r as int) as u64,
        g: add_ch(a.g as int, b.g as int) as u64,
        b: add_ch(a.b as int, b.b as int) as u64,
    }
}

fn mul_channel(a: u64, b: u64) -> (r: u64)
    ensures
        r == mul_ch(a as int, b as int),
{
    proof {
        assert(0 <= (a as int) * (b as int) <= 0xffff_ffff_ffff_ffff_ffff_ffff_ffff_ffffint)
            by (nonlinear_arith);
    }
    let ab: u128 = (a as u128) * (b as u128);
    let p: u128 = ab / (ONE as u128);
    if ab > 0 && p == 0 {
        1
    } else if p > CHANNEL_MAX as u128 {
        CHANNEL_MAX
    } else {
        p as u64
    }
}

fn add_channel(a: u64, b: u64) -> (r: u64)
    ensures
        r == add_ch(a as int, b as int),
{
    let s: u128 = a as u128 + b as u128;
    if s > CHANNEL_MAX as u128 {
        CHANNEL_MAX
    } else {
        s as u64
    }
}

impl Color {
    pub fn new(r: u64, g: u64, b: u64) -> (c: Color)
        ensures
            c == (Color { r, g, b }),
    {
        Color { r, g, b }
    }

    /// Channel-wise fixed-point product: `self` seen through the filter `o`.
    pub fn filtered(&self, o: &Color) -> (c: Color)
        ensures
            c == filter(*self, *o),
    {
        Color { r: mul_channel(self.r, o.r), g: mul_channel(self.g, o.g), b: mul_channel(self.b, o.b) }
    }

    /// Every channel scaled by the fixed-point weight `k`.
    pub fn weighed(&self, k: u64) -> (c: Color)
        ensures
            c == weigh(*self, k as int),
    {
        Color { r: mul_channel(self.r, k), g: mul_channel(self.g, k), b: mul_channel(self.b, k) }
    }

    /// Channel-wise saturating sum.
    pub fn mixed(&self, o: &Color) -> (c: Color)
        ensures
            c == mix(*self, *o),
    {
        Color { r: add_channel(self.r, o.r), g: add_channel(self.g, o.g), b: add_channel(self.b, o.b) }
    }
}

/// What light does where a ray meets a triangle.
#[derive(Clone, Copy, Debug, PartialEq, Eq, Structural)]
pub enum Surface {
    /// A diffuse reflector that emits nothing.
    Matt { color: Color },
    /// A pure emitter that reflects nothing.
    Light { color: Color },
}

/// A diffuse reflector of the given colour.
pub fn matt(color: Color) -> (s: Surface)
    ensures
        s == (Surface::Matt { color }),
{
    Surface::Matt { color }
}

/// A light source of the given colour.
pub fn light(color: Color) -> (s: Surface)
    ensures
        s == (Surface::Light { color }),
{
    Surface::Light { color }
}

/// `a` and `b` are both non-zero and of the same sign.
pub open spec fn same_sign(a: int, b: int) -> bool {
    (a > 0 && b > 0) || (a < 0 && b < 0)
}

impl Surface {
    pub open spec fn emitted_spec(self) -> Color {
        match self {
            Surface::Matt { .. } => black_color(),
            Surface::Light { color } => color,
        }
    }

    /// The weight with which light arriving along `i` leaves along `o`, at a
    /// surface with normal `n`.  A matt surface passes its colour when `i`
    /// and `o` point to opposite sides of the surface, and black otherwise
    /// (also when `i` grazes it); a light reflects nothing.
    pub open spec fn reflected_spec(self, n: Pt, i: Pt, o: Pt) -> Color {
        match self {
            Surface::Matt { color } => {
                let v = dot(i, n);
                if v == 0 || same_sign(dot(o, n), v) {
                    black_color()
                } else {
                    color
                }
            },
            Surface::Light { .. } => black_color(),
        }
    }

    /// The light the surface gives off by itself.
    pub fn emitted(&self) -> (c: Color)
        ensures
            c == self.emitted_spec(),
    {
        match self {
            Surface::Matt { .. } => Color::black(),
            Surface::Light { color } => *color,
        }
    }

    /// See `reflected_spec`.  `n` is a triangle's normal, `i` and `o` are
    /// directions within the coordinate range.
    pub fn reflected(&self, n: &Wide, i: &Vec3, o: &Vec3) -> (c: Color)
        requires
            bounded(n@, normal_max()),
            i.in_range(),
            o.in_range(),
        ensures
            c == self.reflected_spec(n@, i@, o@),
    {
        match self {
            Surface::Matt { color } => {
                let v = Wide::from_vec(i).dot(n, Ghost(16384int), Ghost(normal_max()));
                let w = Wide::from_vec(o).dot(n, Ghost(16384int), Ghost(normal_max()));
                if v == 0 || (w > 0 && v > 0) || (w < 0 && v < 0) {
                    Color::black()
                } else {
                    *color
                }
            },
            Surface::Light { .. } => Color::black(),
        }
    }
}

} // verus!
