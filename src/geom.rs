//! Triangles, rays, and the exact ray-triangle intersection test.
//!
//! A hit lies at distance `t = num / den` along a ray, with `den > 0`; the
//! hit point is `origin + direction * t`, which an intersection test keeps
//! exact as the scaled point `origin * den + direction * num`.  A hit hands
//! out that exact point; rounding to the grid happens only where a bounce
//! ray has to start from it.

use vstd::prelude::*;
use crate::vector::{
    Pt, Vec3, Wide, COORD_MAX, abs, bounded, cross, dot, lemma_cross_cyclic, lemma_cross_orthogonal,
    lemma_dot_minus, lemma_mul_bound, minus, normal_max, plus, scale,
};
use crate::surface::Surface;

verus! {

/// A half-line from `orig` along `dir`; `dir` need not be normalised.
#[derive(Clone, Copy, Debug, PartialEq, Eq, Structural)]
pub struct Ray {
    pub orig: Vec3,
    pub dir: Vec3,
}

impl Ray {
    pub fn new(orig: Vec3, dir: Vec3) -> (r: Ray)
        ensures
            r == (Ray { orig, dir }),
    {
        Ray { orig, dir }
    }

    pub open spec fn wf(self) -> bool {
        self.orig.in_range() && self.dir.in_range()
    }
}

/// The plane of a triangle: `dot(n, p) == d` for each point `p` of it.  The
/// normal is not normalised.
#[derive(Clone, Copy, Debug)]
pub struct Plane {
    pub n: Wide,
    pub d: i128,
}

/// A triangle with its plane and its surface.
#[derive(Clone, Copy, Debug)]
pub struct Poly {
    pub points: [Vec3; 3],
    pub plane: Plane,
    pub surface: Surface,
}

/// Bound on a plane offset and on `dot(normal, v)` for `v` in range:
/// `3 * normal_max() * COORD_MAX`.
pub open spec fn offset_max() -> int {
    105553116266496
}

/// Bound on a scaled point: `3 * COORD_MAX * offset_max()`.
pub open spec fn point_max() -> int {
    5188146770730811392
}

/// The face normal of the triangle `a b c`: `(b - a) x (c - a)`.  Winding
/// order decides its sign and so which side faces front.
pub open spec fn normal_of(a: Pt, b: Pt, c: Pt) -> Pt {
    cross(minus(b, a), minus(c, a))
}

/// The exact outcome of an intersection: the meeting point scaled by `den`,
/// `num` and `den`.  The point itself is `scaled / den`, at distance
/// `num / den` along the ray.
pub type HitModel = (Pt, int, int);

/// `p / den` rounded to the nearest grid point, halves rounded up.
pub open spec fn round_point(p: Pt, den: int) -> Pt {
    ((2 * p.0 + den) / (2 * den), (2 * p.1 + den) / (2 * den), (2 * p.2 + den) / (2 * den))
}

/// The grid point nearest to where a hit lies.
pub open spec fn grid_of(h: HitModel) -> Pt {
    round_point(h.0, h.2)
}

/// The distance of `h` is strictly smaller than that of `g`.
pub open spec fn closer(h: HitModel, g: HitModel) -> bool {
    h.1 * g.2 < g.1 * h.2
}

impl Poly {
    pub open spec fn vertex(self, i: int) -> Pt {
        self.points[i]@
    }

    pub open spec fn normal(self) -> Pt {
        self.plane.n@
    }

    /// The plane agrees with the vertices, which lie in range.
    pub open spec fn wf(self) -> bool {
        &&& self.points[0].in_range()
        &&& self.points[1].in_range()
        &&& self.points[2].in_range()
        &&& self.normal() == normal_of(self.vertex(0), self.vertex(1), self.vertex(2))
        &&& self.plane.d == dot(self.normal(), self.vertex(0))
        &&& bounded(self.normal(), normal_max())
        &&& abs(self.plane.d as int) <= offset_max()
    }

    /// `dot(normal, direction)`: zero when the ray runs parallel to the plane.
    pub open spec fn denom(self, ray: Ray) -> int {
        dot(self.normal(), ray.dir@)
    }

    /// Numerator of the distance to the plane, with the sign of the
    /// denominator folded in so that `t_den` is positive.
    pub open spec fn t_num(self, ray: Ray) -> int {
        let num = self.plane.d - dot(self.normal(), ray.orig@);
        if self.denom(ray) < 0 {
            -num
        } else {
            num
        }
    }

    pub open spec fn t_den(self, ray: Ray) -> int {
        abs(self.denom(ray))
    }

    /// The point where the ray meets the plane, scaled by `t_den`.
    pub open spec fn scaled_point(self, ray: Ray) -> Pt {
        plus(scale(ray.orig@, self.t_den(ray)), scale(ray.dir@, self.t_num(ray)))
    }

    /// The point where the ray meets the plane lies on the inner side of the
    /// edge from vertex `i` to vertex `i + 1` (mod 3), or on the edge.
    pub open spec fn inside_edge(self, ray: Ray, i: int) -> bool {
        let j = (i + 1) % 3;
        let edge = minus(self.vertex(j), self.vertex(i));
        let c = minus(self.scaled_point(ray), scale(self.vertex(i), self.t_den(ray)));
        dot(self.normal(), cross(edge, c)) >= 0
    }

    /// The ray meets the triangle: not parallel to its plane, the plane lies
    /// strictly ahead, and the meeting point is inside all three edges.
    pub open spec fn hits(self, ray: Ray) -> bool {
        &&& self.denom(ray) != 0
        &&& self.t_num(ray) > 0
        &&& self.inside_edge(ray, 0)
        &&& self.inside_edge(ray, 1)
        &&& self.inside_edge(ray, 2)
    }

    pub open spec fn hit_spec(self, ray: Ray) -> Option<HitModel> {
        if self.hits(ray) {
            Some(
                (
                    self.scaled_point(ray),
                    self.t_num(ray),
                    self.t_den(ray),
                ),
            )
        } else {
            None
        }
    }
}

/// One intersection, exact: the point `scaled / den`, at distance
/// `num / den` along the ray.
#[derive(Clone, Copy, Debug)]
pub struct Hit {
    pub scaled: Wide,
    pub num: i128,
    pub den: i128,
}

impl View for Hit {
    type V = HitModel;

    open spec fn view(&self) -> HitModel {
        (self.scaled@, self.num as int, self.den as int)
    }
}

impl Hit {
    /// The values lie within what an intersection test of a scene produces.
    pub open spec fn wf(self) -> bool {
        &&& bounded(self.scaled@, point_max())
        &&& 0 < self.num <= 2 * offset_max()
        &&& 0 < self.den <= offset_max()
    }

    /// The grid point nearest to the hit, halves rounded up.
    pub fn grid_point(&self) -> (r: Vec3)
        requires
            self.wf(),
        ensures
            r@ == grid_of(self@),
    {
        Vec3 {
            x: round_coord(self.scaled.x, self.den),
            y: round_coord(self.scaled.y, self.den),
            z: round_coord(self.scaled.z, self.den),
        }
    }
}

/// `p / den` rounded to the nearest integer, halves rounded up.
fn round_coord(p: i128, den: i128) -> (q: i64)
    requires
        abs(p as int) <= point_max(),
        0 < den <= offset_max(),
    ensures
        q == (2 * p + den) / (2 * den),
{
    let a: i128 = 2 * p + den;
    let b: i128 = 2 * den;
    let q = floor_div(a, b);
    proof {
        vstd::arithmetic::div_mod::lemma_fundamental_div_mod(a as int, b as int);
        let r = a as int % b as int;
        if q >= 0 {
            assert(2 * q <= b * q) by (nonlinear_arith)
                requires
                    q >= 0,
                    b >= 2,
            ;
        } else {
            assert(b * (q + 1) <= 2 * (q + 1)) by (nonlinear_arith)
                requires
                    q + 1 <= 0,
                    b >= 2,
            ;
            assert(b * (q + 1) == b * q + b) by (nonlinear_arith);
        }
        assert(-6000000000000000000 <= q <= 6000000000000000000int);
    }
    q as i64
}

/// `a / b` rounded down.
fn floor_div(a: i128, b: i128) -> (q: i128)
    requires
        b > 0,
    ensures
        q == a / b,
        abs(q as int) <= abs(a as int),
{
    if a >= 0 {
        let q = a / b;
        proof {
            vstd::arithmetic::div_mod::lemma_div_is_ordered_by_denominator(a as int, 1, b as int);
        }
        q
    } else {
        let m: i128 = -(a + 1);
        let q0 = m / b;
        proof {
            vstd::arithmetic::div_mod::lemma_fundamental_div_mod(m as int, b as int);
            vstd::arithmetic::div_mod::lemma_fundamental_div_mod(a as int, b as int);
            vstd::arithmetic::div_mod::lemma_div_is_ordered_by_denominator(m as int, 1, b as int);
            let r0 = m as int % b as int;
            assert(a as int == (-q0 - 1) * b + (b - 1 - r0)) by (nonlinear_arith)
                requires
                    m == -(a + 1),
                    m == b * q0 + r0,
            ;
            vstd::arithmetic::div_mod::lemma_fundamental_div_mod_converse(
                a as int,
                b as int,
                -q0 - 1,
                b - 1 - r0,
            );
        }
        -q0 - 1
    }
}

impl Poly {
    /// The triangle `points` with its plane.  A degenerate triangle (all
    /// three points on one line) gets a zero normal, and no ray ever hits it.
    pub fn new(points: [Vec3; 3], surface: Surface) -> (p: Poly)
        requires
            points[0].in_range(),
            points[1].in_range(),
            points[2].in_range(),
        ensures
            p.wf(),
            p.points == points,
            p.surface == surface,
    {
        let b = Ghost(COORD_MAX as int);
        let a0 = Wide::from_vec(&points[0]);
        let e1 = Wide::from_vec(&points[1]).minus(&a0, b, b);
        let e2 = Wide::from_vec(&points[2]).minus(&a0, b, b);
        let n = e1.cross(&e2, Ghost(2 * COORD_MAX as int), Ghost(2 * COORD_MAX as int));
        let d = n.dot(&a0, Ghost(normal_max()), b);
        Poly { points, plane: Plane { n, d }, surface }
    }

    /// The triangle's normal.
    pub fn n(&self) -> (r: &Wide)
        ensures
            r@ == self.normal(),
    {
        &self.plane.n
    }

    /// Whether the point `p / den`, where the ray meets the plane, lies on
    /// the inner side of edge `i` or on it.
    fn inside(&self, ray: &Ray, p: &Wide, den: i128, i: usize) -> (r: bool)
        requires
            self.wf(),
            ray.wf(),
            self.denom(*ray) != 0,
            p@ == self.scaled_point(*ray),
            den == self.t_den(*ray),
            bounded(p@, point_max()),
            0 < den <= offset_max(),
            i < 3,
        ensures
            r == self.inside_edge(*ray, i as int),
    {
        let b = Ghost(16384int);
        let j: usize = (i + 1) % 3;
        let vi = Wide::from_vec(&self.points[i]);
        let edge = Wide::from_vec(&self.points[j]).minus(&vi, b, b);
        let vs = vi.scale(den, b, Ghost(offset_max()));
        let c = p.minus(&vs, Ghost(point_max()), Ghost(1729382256910270464int));
        let cr = edge.cross(&c, Ghost(32768int), Ghost(6917529027641081856int));
        let s = self.plane.n.dot(&cr, Ghost(normal_max()), Ghost(453347182355485940514816int));
        s >= 0
    }

    /// Where the ray meets the triangle, if it does: see `hits`.
    pub fn hit(&self, ray: &Ray) -> (r: Option<Hit>)
        requires
            self.wf(),
            ray.wf(),
        ensures
            r.is_some() == self.hits(*ray),
            r matches Some(h) ==> self.hit_spec(*ray) == Some(h@),
            r matches Some(h) ==> h.wf(),
    {
        let b = Ghost(COORD_MAX as int);
        let n = &self.plane.n;
        let dot = n.dot(&Wide::from_vec(&ray.dir), Ghost(normal_max()), b);
        if dot == 0 {
            // The ray runs parallel to the plane.
            return None;
        }
        let to_plane = self.plane.d - n.dot(&Wide::from_vec(&ray.orig), Ghost(normal_max()), b);
        let (num, den) = if dot < 0 {
            (-to_plane, -dot)
        } else {
            (to_plane, dot)
        };
        if num <= 0 {
            // The plane lies behind the ray's origin, or through it.
            return None;
        }
        let p = Wide::from_vec(&ray.orig).scale(den, b, Ghost(offset_max())).plus(
            &Wide::from_vec(&ray.dir).scale(num, b, Ghost(2 * offset_max())),
            Ghost(1729382256910270464int),
            Ghost(3458764513820540928int),
        );
        let mut i: usize = 0;
        while i < 3
            invariant
                i <= 3,
                self.wf(),
                ray.wf(),
                self.denom(*ray) != 0,
                p@ == self.scaled_point(*ray),
                bounded(p@, point_max()),
                den == self.t_den(*ray),
                0 < den <= offset_max(),
                forall|k: int| 0 <= k < i ==> self.inside_edge(*ray, k),
            decreases 3 - i,
        {
            if !self.inside(ray, &p, den, i) {
                // The point lies outside this edge.
                return None;
            }
            i += 1;
        }
        Some(Hit { scaled: p, num, den })
    }
}

/// Every triangle of the scene is well formed.
pub open spec fn scene_wf(polys: Seq<Poly>) -> bool {
    forall|i: int| 0 <= i < polys.len() ==> #[trigger] polys[i].wf()
}

/// The nearest hit among the first `k` triangles, leaving out the one at
/// index `exclude`, with the index of its triangle.  On equal distances the
/// earlier triangle wins.
pub open spec fn nearest(polys: Seq<Poly>, ray: Ray, exclude: Option<usize>, k: int) -> Option<
    (HitModel, int),
>
    decreases k,
{
    if k <= 0 {
        None
    } else {
        let prev = nearest(polys, ray, exclude, k - 1);
        if exclude == Some((k - 1) as usize) {
            prev
        } else {
            match polys[k - 1].hit_spec(ray) {
                None => prev,
                Some(h) => match prev {
                    None => Some((h, k - 1)),
                    Some(g) => if closer(h, g.0) {
                        Some((h, k - 1))
                    } else {
                        prev
                    },
                },
            }
        }
    }
}

/// The nearest hit comes from a triangle among the first `k`, not the
/// excluded one, which the ray hits there.
pub proof fn lemma_nearest_is_hit(polys: Seq<Poly>, ray: Ray, exclude: Option<usize>, k: int)
    requires
        k <= polys.len(),
    ensures
        nearest(polys, ray, exclude, k) matches Some((h, i)) ==> 0 <= i < k && exclude != Some(
            i as usize,
        ) && polys[i].hit_spec(ray) == Some(h),
    decreases k,
{
    if k > 0 {
        lemma_nearest_is_hit(polys, ray, exclude, k - 1);
    }
}

/// The nearest hit over the whole scene.
pub open spec fn nearest_hit(polys: Seq<Poly>, ray: Ray, exclude: Option<usize>) -> Option<
    (HitModel, int),
> {
    nearest(polys, ray, exclude, polys.len() as int)
}

/// A ray parallel to a triangle's plane never hits the triangle.
pub proof fn lemma_parallel_ray_misses(p: Poly, ray: Ray)
    requires
        dot(p.normal(), ray.dir@) == 0,
    ensures
        p.hit_spec(ray) is None,
{
}

/// A ray whose origin lies on the triangle's plane or beyond it, along the
/// ray's own direction, never hits the triangle: the distance
/// `(d - n . orig) / (n . dir)` to the plane is not positive.
pub proof fn lemma_plane_behind_misses(p: Poly, ray: Ray)
    requires
        (p.plane.d - dot(p.normal(), ray.orig@)) * dot(p.normal(), ray.dir@) <= 0,
    ensures
        p.hit_spec(ray) is None,
{
    let num = p.plane.d - dot(p.normal(), ray.orig@);
    let den = dot(p.normal(), ray.dir@);
    if den > 0 && num > 0 {
        assert(num * den > 0) by (nonlinear_arith)
            requires
                num > 0,
                den > 0,
        ;
    }
    if den < 0 && num < 0 {
        assert(num * den > 0) by (nonlinear_arith)
            requires
                num < 0,
                den < 0,
        ;
    }
}

/// Where `3 x == m (e + f)` with `m > 0` and `n == e x f`, the edge test
/// `n . (e x x)` passes: three times it is `m (n . n)`.
proof fn lemma_edge_test_of_centroid(n: Pt, e: Pt, f: Pt, x: Pt, m: int)
    requires
        n == cross(e, f),
        scale(x, 3) == scale(plus(e, f), m),
        m > 0,
    ensures
        dot(n, cross(e, x)) >= 0,
{
    let u = cross(e, x);
    assert(3 * u.0 == n.0 * m) by {
        assert(3 * (e.1 * x.2 - e.2 * x.1) == e.1 * (3 * x.2) - e.2 * (3 * x.1)) by (nonlinear_arith);
        assert(e.1 * ((e.2 + f.2) * m) - e.2 * ((e.1 + f.1) * m) == (e.1 * f.2 - e.2 * f.1) * m)
            by (nonlinear_arith);
    }
    assert(3 * u.1 == n.1 * m) by {
        assert(3 * (e.2 * x.0 - e.0 * x.2) == e.2 * (3 * x.0) - e.0 * (3 * x.2)) by (nonlinear_arith);
        assert(e.2 * ((e.0 + f.0) * m) - e.0 * ((e.2 + f.2) * m) == (e.2 * f.0 - e.0 * f.2) * m)
            by (nonlinear_arith);
    }
    assert(3 * u.2 == n.2 * m) by {
        assert(3 * (e.0 * x.1 - e.1 * x.0) == e.0 * (3 * x.1) - e.1 * (3 * x.0)) by (nonlinear_arith);
        assert(e.0 * ((e.1 + f.1) * m) - e.1 * ((e.0 + f.0) * m) == (e.0 * f.1 - e.1 * f.0) * m)
            by (nonlinear_arith);
    }
    let (u0, u1, u2) = u;
    let (n0, n1, n2) = n;
    assert(3 * (n0 * u0) == m * (n0 * n0)) by (nonlinear_arith)
        requires
            3 * u0 == n0 * m,
    ;
    assert(3 * (n1 * u1) == m * (n1 * n1)) by (nonlinear_arith)
        requires
            3 * u1 == n1 * m,
    ;
    assert(3 * (n2 * u2) == m * (n2 * n2)) by (nonlinear_arith)
        requires
            3 * u2 == n2 * m,
    ;
    assert(m * (n0 * n0) >= 0 && m * (n1 * n1) >= 0 && m * (n2 * n2) >= 0) by (nonlinear_arith)
        requires
            m > 0,
    ;
}

/// One coordinate of `3 (k o + j d) == k v`, taken against a coordinate
/// `c` of the normal.
proof fn lemma_aim_coordinate(c: int, o: int, d: int, v: int, k: int, j: int)
    requires
        3 * (o * k + d * j) == v * k,
    ensures
        3 * k * (c * o) + 3 * j * (c * d) == k * (c * v),
{
    assert(3 * k * (c * o) + 3 * j * (c * d) == c * (3 * (o * k + d * j))) by (nonlinear_arith);
    assert(c * (v * k) == k * (c * v)) by (nonlinear_arith);
}

/// One coordinate of the scaled meeting point of a ray aimed at the
/// centroid at distance `j / k`, where the hit has distance `t / m`.
proof fn lemma_meeting_coordinate(o: int, d: int, v: int, k: int, j: int, t: int, m: int)
    requires
        3 * (o * k + d * j) == v * k,
        k * t == j * m,
        k > 0,
    ensures
        3 * (o * m + d * t) == v * m,
{
    assert(k * (3 * (o * m + d * t)) == 3 * m * (o * k) + 3 * d * (k * t)) by (nonlinear_arith);
    assert(3 * d * (k * t) == 3 * d * (j * m));
    assert(3 * m * (o * k) + 3 * d * (j * m) == m * (3 * (o * k + d * j))) by (nonlinear_arith);
    assert(m * (3 * (o * k + d * j)) == m * (v * k));
    assert(m * (v * k) == k * (v * m)) by (nonlinear_arith);
    assert(3 * (o * m + d * t) == v * m) by (nonlinear_arith)
        requires
            k * (3 * (o * m + d * t)) == k * (v * m),
            k > 0,
    ;
}

/// A ray from off the plane of a non-degenerate triangle, aimed so that it
/// passes the centroid at distance `j / k` (`3 * (k orig + j dir)` is `k`
/// times the sum of the vertices), hits the triangle exactly at the
/// centroid (`3 * scaled == den * (v0 + v1 + v2)`), at distance `j / k`.
pub proof fn lemma_centroid_hit(p: Poly, ray: Ray, j: int, k: int)
    requires
        p.wf(),
        p.normal() != (0int, 0int, 0int),
        dot(p.normal(), ray.orig@) != p.plane.d,
        j > 0,
        k > 0,
        scale(plus(scale(ray.orig@, k), scale(ray.dir@, j)), 3) == scale(
            plus(plus(p.vertex(0), p.vertex(1)), p.vertex(2)),
            k,
        ),
    ensures
        p.hits(ray),
        p.t_den(ray) > 0,
        p.t_num(ray) * k == j * p.t_den(ray),
        scale(p.scaled_point(ray), 3) == scale(
            plus(plus(p.vertex(0), p.vertex(1)), p.vertex(2)),
            p.t_den(ray),
        ),
        p.hit_spec(ray) == Some((p.scaled_point(ray), p.t_num(ray), p.t_den(ray))),
{
    let n = p.normal();
    let (v0, v1, v2) = (p.vertex(0), p.vertex(1), p.vertex(2));
    let vsum = plus(plus(v0, v1), v2);
    let o = ray.orig@;
    let d = ray.dir@;
    // Every vertex lies on the plane, so `n . vsum == 3 * offset`.
    lemma_cross_orthogonal(minus(v1, v0), minus(v2, v0));
    lemma_dot_minus(n, v1, v0);
    lemma_dot_minus(n, v2, v0);
    assert(dot(n, vsum) == dot(n, v0) + dot(n, v1) + dot(n, v2)) by (nonlinear_arith)
        requires
            vsum == plus(plus(v0, v1), v2),
    ;
    // So `j * denom == k * num`: the distance is `j / k`.
    lemma_aim_coordinate(n.0, o.0, d.0, vsum.0, k, j);
    lemma_aim_coordinate(n.1, o.1, d.1, vsum.1, k, j);
    lemma_aim_coordinate(n.2, o.2, d.2, vsum.2, k, j);
    let no = dot(n, o);
    let nd = dot(n, d);
    let nv = dot(n, vsum);
    assert(3 * k * no + 3 * j * nd == k * nv) by (nonlinear_arith)
        requires
            3 * k * (n.0 * o.0) + 3 * j * (n.0 * d.0) == k * (n.0 * vsum.0),
            3 * k * (n.1 * o.1) + 3 * j * (n.1 * d.1) == k * (n.1 * vsum.1),
            3 * k * (n.2 * o.2) + 3 * j * (n.2 * d.2) == k * (n.2 * vsum.2),
            no == n.0 * o.0 + n.1 * o.1 + n.2 * o.2,
            nd == n.0 * d.0 + n.1 * d.1 + n.2 * d.2,
            nv == n.0 * vsum.0 + n.1 * vsum.1 + n.2 * vsum.2,
    ;
    let num = p.plane.d - no;
    assert(j * nd == k * num) by (nonlinear_arith)
        requires
            3 * k * no + 3 * j * nd == k * nv,
            nv == 3 * p.plane.d,
            num == p.plane.d - no,
    ;
    assert(num != 0);
    if nd >= 0 {
        assert(nd > 0 && num > 0) by (nonlinear_arith)
            requires
                j * nd == k * num,
                nd >= 0,
                num != 0,
                j > 0,
                k > 0,
        ;
    } else {
        assert(num < 0) by (nonlinear_arith)
            requires
                j * nd == k * num,
                nd < 0,
                j > 0,
                k > 0,
        ;
    }
    let m = p.t_den(ray);
    let t = p.t_num(ray);
    assert(t * k == j * m) by (nonlinear_arith)
        requires
            j * nd == k * num,
            (nd > 0 && t == num && m == nd) || (nd < 0 && t == -num && m == -nd),
    ;
    // The meeting point is the centroid.
    let sp = p.scaled_point(ray);
    lemma_meeting_coordinate(o.0, d.0, vsum.0, k, j, t, m);
    lemma_meeting_coordinate(o.1, d.1, vsum.1, k, j, t, m);
    lemma_meeting_coordinate(o.2, d.2, vsum.2, k, j, t, m);
    assert(scale(sp, 3) == scale(vsum, m));
    // Each edge test sees the centroid on the inner side.
    lemma_cross_cyclic(v0, v1, v2);
    lemma_cross_cyclic(v1, v2, v0);
    assert forall|i: int| 0 <= i < 3 implies p.inside_edge(ray, i) by {
        let vi = p.vertex(i);
        let vj = p.vertex((i + 1) % 3);
        let vk = p.vertex((i + 2) % 3);
        let e = minus(vj, vi);
        let f = minus(vk, vi);
        let x = minus(sp, scale(vi, m));
        assert(vsum == plus(plus(vi, vj), vk));
        assert(scale(x, 3) == scale(plus(e, f), m)) by {
            assert(3 * (sp.0 - vi.0 * m) == (vj.0 - vi.0 + (vk.0 - vi.0)) * m) by (nonlinear_arith)
                requires
                    3 * sp.0 == (vi.0 + vj.0 + vk.0) * m,
            ;
            assert(3 * (sp.1 - vi.1 * m) == (vj.1 - vi.1 + (vk.1 - vi.1)) * m) by (nonlinear_arith)
                requires
                    3 * sp.1 == (vi.1 + vj.1 + vk.1) * m,
            ;
            assert(3 * (sp.2 - vi.2 * m) == (vj.2 - vi.2 + (vk.2 - vi.2)) * m) by (nonlinear_arith)
                requires
                    3 * sp.2 == (vi.2 + vj.2 + vk.2) * m,
            ;
        }
        lemma_edge_test_of_centroid(n, e, f, x, m);
    }
    assert(p.inside_edge(ray, 0) && p.inside_edge(ray, 1) && p.inside_edge(ray, 2));
}

/// Of two triangles that a ray both hits, the nearest hit is the one at the
/// strictly smaller distance, in either order of the two.
pub proof fn lemma_nearest_of_two(a: Poly, b: Poly, ray: Ray)
    requires
        a.hits(ray),
        b.hits(ray),
        closer(a.hit_spec(ray).unwrap(), b.hit_spec(ray).unwrap()),
    ensures
        nearest_hit(seq![a, b], ray, None) == Some((a.hit_spec(ray).unwrap(), 0int)),
        nearest_hit(seq![b, a], ray, None) == Some((a.hit_spec(ray).unwrap(), 1int)),
{
    let ha = a.hit_spec(ray).unwrap();
    let hb = b.hit_spec(ray).unwrap();
    assert(!closer(hb, ha));
    let s1 = seq![a, b];
    let s2 = seq![b, a];
    assert(s1[0] == a && s1[1] == b);
    assert(s2[0] == b && s2[1] == a);
    assert(nearest(s1, ray, None, 0) is None);
    assert(nearest(s2, ray, None, 0) is None);
    assert(s1[0].hit_spec(ray) == Some(ha));
    assert(s2[0].hit_spec(ray) == Some(hb));
    assert(nearest(s1, ray, None, 1) == Some((ha, 0int)));
    assert(nearest(s2, ray, None, 1) == Some((hb, 0int)));
}

/// Leaving out the one triangle that a ray hits leaves no hit at all, while
/// the same search without exclusion finds that triangle.
pub proof fn lemma_exclude_only_hit(polys: Seq<Poly>, ray: Ray, e: usize)
    requires
        e < polys.len(),
        polys[e as int].hits(ray),
        forall|j: int| 0 <= j < polys.len() && j != e ==> !(#[trigger] polys[j].hits(ray)),
    ensures
        nearest_hit(polys, ray, Some(e)) is None,
        nearest_hit(polys, ray, None) == Some((polys[e as int].hit_spec(ray).unwrap(), e as int)),
{
    lemma_exclude_only_hit_prefix(polys, ray, e, polys.len() as int);
}

proof fn lemma_exclude_only_hit_prefix(polys: Seq<Poly>, ray: Ray, e: usize, k: int)
    requires
        e < polys.len(),
        0 <= k <= polys.len(),
        polys[e as int].hits(ray),
        forall|j: int| 0 <= j < polys.len() && j != e ==> !(#[trigger] polys[j].hits(ray)),
    ensures
        nearest(polys, ray, Some(e), k) is None,
        k <= e ==> nearest(polys, ray, None, k) is None,
        k > e ==> nearest(polys, ray, None, k) == Some(
            (polys[e as int].hit_spec(ray).unwrap(), e as int),
        ),
    decreases k,
{
    if k > 0 {
        lemma_exclude_only_hit_prefix(polys, ray, e, k - 1);
        if k - 1 != e {
            assert(!polys[k - 1].hits(ray));
        }
    }
}

/// The point where the ray first meets a triangle of `polys`, other than
/// the one at index `exclude`, and that triangle's index.
pub fn shoot(polys: &[Poly], ray: &Ray, exclude: Option<usize>) -> (r: Option<(Hit, usize)>)
    requires
        scene_wf(polys@),
        ray.wf(),
    ensures
        match r {
            None => nearest_hit(polys@, *ray, exclude) is None,
            Some((h, i)) => nearest_hit(polys@, *ray, exclude) == Some((h@, i as int)) && h.wf(),
        },
{
    let mut closest: Option<(Hit, usize)> = None;
    let mut k: usize = 0;
    while k < polys.len()
        invariant
            k <= polys@.len(),
            scene_wf(polys@),
            ray.wf(),
            match closest {
                None => nearest(polys@, *ray, exclude, k as int) is None,
                Some((c, j)) => nearest(polys@, *ray, exclude, k as int) == Some((c@, j as int))
                    && c.wf(),
            },
        decreases polys@.len() - k,
    {
        let skip = match exclude {
            Some(e) => e == k,
            None => false,
        };
        if !skip {
            assert(polys@[k as int].wf());
            if let Some(h) = polys[k].hit(ray) {
                let replace = match &closest {
                    None => true,
                    Some((c, _)) => {
                        proof {
                            lemma_mul_bound(h.num as int, c.den as int, 2 * offset_max(), offset_max());
                            lemma_mul_bound(c.num as int, h.den as int, 2 * offset_max(), offset_max());
                        }
                        c.num * h.den > h.num * c.den
                    },
                };
                if replace {
                    closest = Some((h, k));
                }
            }
        }
        k += 1;
    }
    closest
}

} // verus!
