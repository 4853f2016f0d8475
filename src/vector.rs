//! Integer 3-vectors: the coordinates a scene is written in, and the wide
//! intermediates that exact intersection tests compute with.

use vstd::prelude::*;

verus! {

/// Largest magnitude of any coordinate of a vertex, a ray origin or a ray
/// direction.  It is the largest power of two that keeps every intermediate
/// value exact in machine integers: an intersection test reaches about
/// `9216 * COORD_MAX^7 < 2^112` in `i128`, and the cosine weight squares
/// `ONE * (d . n) < 2^63` in `u128`; the next power of two would overflow
/// the second.
pub const COORD_MAX: i64 = 16384;

/// Bound on the coordinates of a triangle's normal, the cross product of two
/// of its edges: `8 * COORD_MAX^2`.
pub open spec fn normal_max() -> int {
    2147483648
}

/// A point or direction in scene coordinates.
#[derive(Clone, Copy, Debug, PartialEq, Eq, Structural)]
pub struct Vec3 {
    pub x: i64,
    pub y: i64,
    pub z: i64,
}

/// Mathematical model of a vector.
pub type Pt = (int, int, int);

pub open spec fn abs(a: int) -> int {
    if a < 0 {
        -a
    } else {
        a
    }
}

pub open spec fn plus(a: Pt, b: Pt) -> Pt {
    (a.0 + b.0, a.1 + b.1, a.2 + b.2)
}

pub open spec fn minus(a: Pt, b: Pt) -> Pt {
    (a.0 - b.0, a.1 - b.1, a.2 - b.2)
}

pub open spec fn scale(a: Pt, k: int) -> Pt {
    (a.0 * k, a.1 * k, a.2 * k)
}

pub open spec fn dot(a: Pt, b: Pt) -> int {
    a.0 * b.0 + a.1 * b.1 + a.2 * b.2
}

pub open spec fn cross(a: Pt, b: Pt) -> Pt {
    (a.1 * b.2 - a.2 * b.1, a.2 * b.0 - a.0 * b.2, a.0 * b.1 - a.1 * b.0)
}

/// Every coordinate of `a` has magnitude at most `m`.
pub open spec fn bounded(a: Pt, m: int) -> bool {
    abs(a.0) <= m && abs(a.1) <= m && abs(a.2) <= m
}

/// The vector with the given coordinates, each truncated to `i64`.
pub open spec fn to_vec(p: Pt) -> Vec3 {
    Vec3 { x: p.0 as i64, y: p.1 as i64, z: p.2 as i64 }
}

impl View for Vec3 {
    type V = Pt;

    open spec fn view(&self) -> Pt {
        (self.x as int, self.y as int, self.z as int)
    }
}

impl Vec3 {
    pub fn new(x: i64, y: i64, z: i64) -> (r: Vec3)
        ensures
            r@ == (x as int, y as int, z as int),
    {
        Vec3 { x, y, z }
    }

    /// The vector lies within the coordinate range of a scene.
    pub open spec fn in_range(self) -> bool {
        bounded(self@, COORD_MAX as int)
    }

    pub fn is_in_range(&self) -> (r: bool)
        ensures
            r == self.in_range(),
    {
        -COORD_MAX <= self.x && self.x <= COORD_MAX && -COORD_MAX <= self.y && self.y
            <= COORD_MAX && -COORD_MAX <= self.z && self.z <= COORD_MAX
    }

    /// `a + b`, for two vectors whose sum stays within `i64`.
    pub fn add(&self, b: &Vec3) -> (r: Vec3)
        requires
            self.in_range(),
            b.in_range(),
        ensures
            r@ == plus(self@, b@),
    {
        Vec3 { x: self.x + b.x, y: self.y + b.y, z: self.z + b.z }
    }
}

pub proof fn lemma_mul_bound(a: int, b: int, ma: int, mb: int)
    requires
        abs(a) <= ma,
        abs(b) <= mb,
    ensures
        abs(a * b) <= ma * mb,
{
    assert(-ma <= a <= ma);
    assert(-mb <= b <= mb);
    assert(-(ma * mb) <= a * b <= ma * mb) by (nonlinear_arith)
        requires
            -ma <= a <= ma,
            -mb <= b <= mb,
    ;
}

/// A cross product is orthogonal to both of its factors.
pub proof fn lemma_cross_orthogonal(a: Pt, b: Pt)
    ensures
        dot(cross(a, b), a) == 0,
        dot(cross(a, b), b) == 0,
{
    let (a0, a1, a2) = a;
    let (b0, b1, b2) = b;
    assert((a1 * b2 - a2 * b1) * a0 + (a2 * b0 - a0 * b2) * a1 + (a0 * b1 - a1 * b0) * a2 == 0)
        by (nonlinear_arith);
    assert((a1 * b2 - a2 * b1) * b0 + (a2 * b0 - a0 * b2) * b1 + (a0 * b1 - a1 * b0) * b2 == 0)
        by (nonlinear_arith);
}

/// The normal `(b - a) x (c - a)` of a triangle does not change when its
/// vertices are rotated.
pub proof fn lemma_cross_cyclic(a: Pt, b: Pt, c: Pt)
    ensures
        cross(minus(c, b), minus(a, b)) == cross(minus(b, a), minus(c, a)),
{
    let (a0, a1, a2) = a;
    let (b0, b1, b2) = b;
    let (c0, c1, c2) = c;
    assert((c1 - b1) * (a2 - b2) - (c2 - b2) * (a1 - b1) == (b1 - a1) * (c2 - a2) - (b2 - a2) * (
    c1 - a1)) by (nonlinear_arith);
    assert((c2 - b2) * (a0 - b0) - (c0 - b0) * (a2 - b2) == (b2 - a2) * (c0 - a0) - (b0 - a0) * (
    c2 - a2)) by (nonlinear_arith);
    assert((c0 - b0) * (a1 - b1) - (c1 - b1) * (a0 - b0) == (b0 - a0) * (c1 - a1) - (b1 - a1) * (
    c0 - a0)) by (nonlinear_arith);
}

/// `n . (v - w) == n . v - n . w`.
pub proof fn lemma_dot_minus(n: Pt, v: Pt, w: Pt)
    ensures
        dot(n, minus(v, w)) == dot(n, v) - dot(n, w),
{
    let (n0, n1, n2) = n;
    assert(n0 * (v.0 - w.0) + n1 * (v.1 - w.1) + n2 * (v.2 - w.2) == (n0 * v.0 + n1 * v.1 + n2
        * v.2) - (n0 * w.0 + n1 * w.1 + n2 * w.2)) by (nonlinear_arith);
}

/// `r` is the integer square root of `x`: the largest `r` with `r * r <= x`.
pub open spec fn is_root(x: int, r: int) -> bool {
    0 <= r && r * r <= x < (r + 1) * (r + 1)
}

/// The integer square root of `x`.
pub open spec fn root(x: int) -> int {
    choose|r: int| is_root(x, r)
}

/// A non-negative integer has exactly one integer square root.
pub proof fn lemma_root_unique(x: int, r: int, s: int)
    requires
        is_root(x, r),
        is_root(x, s),
    ensures
        r == s,
{
    if r < s {
        assert((r + 1) * (r + 1) <= s * s) by (nonlinear_arith)
            requires
                0 <= r < s,
        ;
    } else if s < r {
        assert((s + 1) * (s + 1) <= r * r) by (nonlinear_arith)
            requires
                0 <= s < r,
        ;
    }
}

/// The integer square root, by bisection.
pub fn isqrt(x: u128) -> (r: u64)
    ensures
        r == root(x as int),
        is_root(x as int, r as int),
{
    let mut lo: u128 = 0;
    let mut hi: u128 = 0x1_0000_0000_0000_0000;
    assert(hi * hi > x) by (nonlinear_arith)
        requires
            hi == 0x1_0000_0000_0000_0000int,
            x <= 0xffff_ffff_ffff_ffff_ffff_ffff_ffff_ffffint,
    ;
    while hi - lo > 1
        invariant
            lo < hi <= 0x1_0000_0000_0000_0000,
            lo * lo <= x,
            x < hi * hi,
        decreases hi - lo,
    {
        let mid: u128 = lo + (hi - lo) / 2;
        assert(mid * mid <= 0xffff_ffff_ffff_ffff * 0xffff_ffff_ffff_ffffint) by (nonlinear_arith)
            requires
                mid <= 0xffff_ffff_ffff_ffffint,
        ;
        if mid * mid <= x {
            lo = mid;
        } else {
            hi = mid;
        }
    }
    assert(hi == lo + 1);
    proof {
        assert(is_root(x as int, lo as int));
        let c = root(x as int);
        lemma_root_unique(x as int, c, lo as int);
    }
    lo as u64
}

/// A vector of `i128` coordinates, wide enough for the exact intermediate
/// values of an intersection test.
#[derive(Clone, Copy, Debug)]
pub struct Wide {
    pub x: i128,
    pub y: i128,
    pub z: i128,
}

impl View for Wide {
    type V = Pt;

    open spec fn view(&self) -> Pt {
        (self.x as int, self.y as int, self.z as int)
    }
}

/// The bound under which `i128` arithmetic is carried out.
pub open spec fn wide_max() -> int {
    i128::MAX as int
}

impl Wide {
    pub fn from_vec(v: &Vec3) -> (r: Wide)
        ensures
            r@ == v@,
    {
        Wide { x: v.x as i128, y: v.y as i128, z: v.z as i128 }
    }

    pub(crate) fn minus(&self, b: &Wide, Ghost(ma): Ghost<int>, Ghost(mb): Ghost<int>) -> (r: Wide)
        requires
            bounded(self@, ma),
            bounded(b@, mb),
            ma + mb <= wide_max(),
        ensures
            r@ == minus(self@, b@),
            bounded(r@, ma + mb),
    {
        Wide { x: self.x - b.x, y: self.y - b.y, z: self.z - b.z }
    }

    pub(crate) fn plus(&self, b: &Wide, Ghost(ma): Ghost<int>, Ghost(mb): Ghost<int>) -> (r: Wide)
        requires
            bounded(self@, ma),
            bounded(b@, mb),
            ma + mb <= wide_max(),
        ensures
            r@ == plus(self@, b@),
            bounded(r@, ma + mb),
    {
        Wide { x: self.x + b.x, y: self.y + b.y, z: self.z + b.z }
    }

    pub(crate) fn scale(&self, k: i128, Ghost(ma): Ghost<int>, Ghost(mk): Ghost<int>) -> (r: Wide)
        requires
            bounded(self@, ma),
            abs(k as int) <= mk,
            ma * mk <= wide_max(),
        ensures
            r@ == scale(self@, k as int),
            bounded(r@, ma * mk),
    {
        proof {
            lemma_mul_bound(self.x as int, k as int, ma, mk);
            lemma_mul_bound(self.y as int, k as int, ma, mk);
            lemma_mul_bound(self.z as int, k as int, ma, mk);
        }
        Wide { x: self.x * k, y: self.y * k, z: self.z * k }
    }

    pub(crate) fn dot(&self, b: &Wide, Ghost(ma): Ghost<int>, Ghost(mb): Ghost<int>) -> (r: i128)
        requires
            bounded(self@, ma),
            bounded(b@, mb),
            3 * (ma * mb) <= wide_max(),
        ensures
            r == dot(self@, b@),
            abs(r as int) <= 3 * (ma * mb),
    {
        proof {
            lemma_mul_bound(self.x as int, b.x as int, ma, mb);
            lemma_mul_bound(self.y as int, b.y as int, ma, mb);
            lemma_mul_bound(self.z as int, b.z as int, ma, mb);
        }
        self.x * b.x + self.y * b.y + self.z * b.z
    }

    pub(crate) fn cross(&self, b: &Wide, Ghost(ma): Ghost<int>, Ghost(mb): Ghost<int>) -> (r: Wide)
        requires
            bounded(self@, ma),
            bounded(b@, mb),
            2 * (ma * mb) <= wide_max(),
        ensures
            r@ == cross(self@, b@),
            bounded(r@, 2 * (ma * mb)),
    {
        proof {
            lemma_mul_bound(self.x as int, b.y as int, ma, mb);
            lemma_mul_bound(self.x as int, b.z as int, ma, mb);
            lemma_mul_bound(self.y as int, b.x as int, ma, mb);
            lemma_mul_bound(self.y as int, b.z as int, ma, mb);
            lemma_mul_bound(self.z as int, b.x as int, ma, mb);
            lemma_mul_bound(self.z as int, b.y as int, ma, mb);
        }
        Wide {
            x: self.y * b.z - self.z * b.y,
            y: self.z * b.x - self.x * b.z,
            z: self.x * b.y - self.y * b.x,
        }
    }
}

} // verus!
