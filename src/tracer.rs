//! The recursive light gather: at each hit, the surface's own light plus,
//! for each of a fixed set of sample directions, the light that arrives
//! from there, filtered by the surface and weighted by the cosine of the
//! angle to the normal.

use vstd::prelude::*;
use crate::vector::{Pt, Vec3, Wide, abs, bounded, dot, isqrt, normal_max, root, to_vec};
use crate::surface::{Black, Color, Surface, ONE, black_color, filter, mix, mul_ch, weigh};
use crate::geom::{Poly, Ray, grid_of, lemma_nearest_is_hit, nearest_hit, offset_max, scene_wf, shoot};

verus! {

/// The fixed sample directions and the deepest bounce followed.
pub struct Tracer {
    pub all_dirs: Vec<Vec3>,
    pub max_depth: u32,
}

/// The fixed-point cosine of the angle between `d` and the normal `n`,
/// taken positive: the largest `w` with `w^2 |d|^2 |n|^2 <= ONE^2 (d . n)^2`.
/// It is zero where `d` runs along the surface, and at least one unit
/// everywhere else.
pub open spec fn lambert(d: Pt, n: Pt) -> int {
    let dn = dot(d, n);
    if dn == 0 {
        0
    } else {
        let w = root((ONE * ONE) as int * (dn * dn) / (dot(d, d) * dot(n, n)));
        if w < 1 {
            1
        } else {
            w
        }
    }
}

/// The light that arrives along `ray`, at bounce `depth`, from the nearest
/// triangle of `scene` other than the one at index `exclude`.  Bounce rays
/// start at the grid point nearest to the hit; where that point lies
/// outside the coordinate range no bounce ray starts, and only the light
/// emitted there arrives.
pub open spec fn trace_spec(
    dirs: Seq<Vec3>,
    max_depth: int,
    scene: Seq<Poly>,
    ray: Ray,
    exclude: Option<usize>,
    depth: int,
) -> Color
    decreases max_depth + 1 - depth, dirs.len() + 1,
{
    if depth > max_depth {
        black_color()
    } else {
        match nearest_hit(scene, ray, exclude) {
            None => black_color(),
            Some((h, i)) => if to_vec(grid_of(h)).in_range() {
                gather(dirs, max_depth, scene, ray.dir, grid_of(h), i, depth, dirs.len() as int)
            } else {
                scene[i].surface.emitted_spec()
            },
        }
    }
}

/// The light that leaves triangle `i` at `point` against `incoming`: what
/// it emits, plus what it reflects from the first `k` sample directions.
/// From the deepest bounce no further rays are followed.
pub open spec fn gather(
    dirs: Seq<Vec3>,
    max_depth: int,
    scene: Seq<Poly>,
    incoming: Vec3,
    point: Pt,
    i: int,
    depth: int,
    k: int,
) -> Color
    decreases max_depth + 1 - depth, k,
{
    let poly = scene[i];
    if k <= 0 {
        poly.surface.emitted_spec()
    } else {
        let prev = gather(dirs, max_depth, scene, incoming, point, i, depth, k - 1);
        let d = dirs[k - 1];
        let refl = poly.surface.reflected_spec(poly.normal(), d@, incoming@);
        if refl == black_color() {
            prev
        } else {
            let arriving = if 0 <= depth < max_depth {
                trace_spec(
                    dirs,
                    max_depth,
                    scene,
                    Ray { orig: to_vec(point), dir: d },
                    Some(i as usize),
                    depth + 1,
                )
            } else {
                black_color()
            };
            mix(prev, weigh(filter(arriving, refl), lambert(d@, poly.normal())))
        }
    }
}

/// Past the deepest bounce, nothing is gathered, whatever the scene.
pub proof fn lemma_past_max_depth_is_black(
    dirs: Seq<Vec3>,
    max_depth: int,
    scene: Seq<Poly>,
    ray: Ray,
    exclude: Option<usize>,
    depth: int,
)
    requires
        depth > max_depth,
    ensures
        trace_spec(dirs, max_depth, scene, ray, exclude, depth) == black_color(),
{
}

/// Where the nearest triangle a ray meets is a light, the ray carries
/// exactly that light's colour: a light reflects nothing.
pub proof fn lemma_light_seen_directly(
    dirs: Seq<Vec3>,
    max_depth: int,
    scene: Seq<Poly>,
    ray: Ray,
    exclude: Option<usize>,
    depth: int,
)
    requires
        0 <= depth <= max_depth,
        nearest_hit(scene, ray, exclude) matches Some((h, i)) && scene[i].surface is Light,
    ensures
        trace_spec(dirs, max_depth, scene, ray, exclude, depth) == nearest_surface(
            scene,
            ray,
            exclude,
        ).emitted_spec(),
{
    let (h, i) = nearest_hit(scene, ray, exclude).unwrap();
    lemma_light_gathers_nothing(dirs, max_depth, scene, ray.dir, grid_of(h), i, depth, dirs.len() as int);
}

/// The surface of the nearest triangle that a ray meets.
pub open spec fn nearest_surface(scene: Seq<Poly>, ray: Ray, exclude: Option<usize>) -> Surface {
    scene[nearest_hit(scene, ray, exclude).unwrap().1].surface
}

proof fn lemma_light_gathers_nothing(
    dirs: Seq<Vec3>,
    max_depth: int,
    scene: Seq<Poly>,
    incoming: Vec3,
    point: Pt,
    i: int,
    depth: int,
    k: int,
)
    requires
        scene[i].surface is Light,
    ensures
        gather(dirs, max_depth, scene, incoming, point, i, depth, k)
            == scene[i].surface.emitted_spec(),
    decreases k,
{
    if k > 0 {
        lemma_light_gathers_nothing(dirs, max_depth, scene, incoming, point, i, depth, k - 1);
    }
}

/// At the deepest bounce a matt triangle, which emits nothing, passes on
/// no light: no ray leaves it to gather any.
pub proof fn lemma_matt_at_max_depth_is_black(
    dirs: Seq<Vec3>,
    max_depth: int,
    scene: Seq<Poly>,
    ray: Ray,
    exclude: Option<usize>,
)
    requires
        0 <= max_depth,
        nearest_hit(scene, ray, exclude) matches Some((h, i)) && scene[i].surface is Matt,
    ensures
        trace_spec(dirs, max_depth, scene, ray, exclude, max_depth) == black_color(),
{
    let (h, i) = nearest_hit(scene, ray, exclude).unwrap();
    lemma_matt_gathers_nothing(dirs, max_depth, scene, ray.dir, grid_of(h), i, dirs.len() as int);
}

proof fn lemma_matt_gathers_nothing(
    dirs: Seq<Vec3>,
    max_depth: int,
    scene: Seq<Poly>,
    incoming: Vec3,
    point: Pt,
    i: int,
    k: int,
)
    requires
        scene[i].surface is Matt,
    ensures
        gather(dirs, max_depth, scene, incoming, point, i, max_depth, k) == black_color(),
    decreases k,
{
    if k > 0 {
        lemma_matt_gathers_nothing(dirs, max_depth, scene, incoming, point, i, k - 1);
        let poly = scene[i];
        let d = dirs[k - 1];
        let refl = poly.surface.reflected_spec(poly.normal(), d@, incoming@);
        let w = lambert(d@, poly.normal());
        assert(filter(black_color(), refl) == black_color());
        assert(weigh(black_color(), w) == black_color());
    }
}

/// The light gathered at a hit never loses brightness in any channel as
/// more sample directions are taken in.
proof fn lemma_gather_grows(
    dirs: Seq<Vec3>,
    max_depth: int,
    scene: Seq<Poly>,
    incoming: Vec3,
    point: Pt,
    i: int,
    depth: int,
    j: int,
    k: int,
)
    requires
        0 <= j <= k,
    ensures
        ({
            let a = gather(dirs, max_depth, scene, incoming, point, i, depth, j);
            let b = gather(dirs, max_depth, scene, incoming, point, i, depth, k);
            a.r <= b.r && a.g <= b.g && a.b <= b.b
        }),
    decreases k,
{
    if j < k {
        lemma_gather_grows(dirs, max_depth, scene, incoming, point, i, depth, j, k - 1);
    }
}

/// A product of two non-zero channel values is not zero.
proof fn lemma_product_positive(a: int, b: int)
    requires
        a > 0,
        b > 0,
    ensures
        mul_ch(a, b) >= 1,
{
    assert(a * b > 0) by (nonlinear_arith)
        requires
            a > 0,
            b > 0,
    ;
}

/// A matt triangle lit through one bounce by a light passes some of that
/// light on: where a sample direction leaves the matt triangle towards the
/// ray's side and meets a light first, each channel in which both the matt
/// colour and the light colour are non-zero comes out non-zero.
pub proof fn lemma_matt_lit_through_bounce(
    dirs: Seq<Vec3>,
    max_depth: int,
    scene: Seq<Poly>,
    ray: Ray,
    exclude: Option<usize>,
    depth: int,
    j: int,
)
    requires
        0 <= depth < max_depth,
        0 <= j < dirs.len(),
        nearest_hit(scene, ray, exclude) is Some,
        ({
            let (h, i) = nearest_hit(scene, ray, exclude).unwrap();
            let bounce = Ray { orig: to_vec(grid_of(h)), dir: dirs[j] };
            &&& to_vec(grid_of(h)).in_range()
            &&& scene[i].surface is Matt
            &&& scene[i].surface.reflected_spec(scene[i].normal(), dirs[j]@, ray.dir@)
                != black_color()
            &&& nearest_hit(scene, bounce, Some(i as usize)) is Some
            &&& nearest_surface(scene, bounce, Some(i as usize)) is Light
        }),
    ensures
        ({
            let (h, i) = nearest_hit(scene, ray, exclude).unwrap();
            let bounce = Ray { orig: to_vec(grid_of(h)), dir: dirs[j] };
            let m = scene[i].surface.reflected_spec(scene[i].normal(), dirs[j]@, ray.dir@);
            let e = nearest_surface(scene, bounce, Some(i as usize)).emitted_spec();
            let c = trace_spec(dirs, max_depth, scene, ray, exclude, depth);
            &&& m.r > 0 && e.r > 0 ==> c.r > 0
            &&& m.g > 0 && e.g > 0 ==> c.g > 0
            &&& m.b > 0 && e.b > 0 ==> c.b > 0
        }),
{
    let (h, i) = nearest_hit(scene, ray, exclude).unwrap();
    let bounce = Ray { orig: to_vec(grid_of(h)), dir: dirs[j] };
    let poly = scene[i];
    let d = dirs[j];
    let m = poly.surface.reflected_spec(poly.normal(), d@, ray.dir@);
    let e = nearest_surface(scene, bounce, Some(i as usize)).emitted_spec();
    lemma_light_seen_directly(dirs, max_depth, scene, bounce, Some(i as usize), depth + 1);
    let arriving = trace_spec(dirs, max_depth, scene, bounce, Some(i as usize), depth + 1);
    assert(arriving == e);
    assert(dot(d@, poly.normal()) != 0);
    let w = lambert(d@, poly.normal());
    assert(w >= 1);
    let n = dirs.len() as int;
    let step = gather(dirs, max_depth, scene, ray.dir, grid_of(h), i, depth, j + 1);
    let prev = gather(dirs, max_depth, scene, ray.dir, grid_of(h), i, depth, j);
    assert(step == mix(prev, weigh(filter(e, m), w)));
    lemma_gather_grows(dirs, max_depth, scene, ray.dir, grid_of(h), i, depth, j + 1, n);
    if m.r > 0 && e.r > 0 {
        lemma_product_positive(e.r as int, m.r as int);
        lemma_product_positive(mul_ch(e.r as int, m.r as int), w);
    }
    if m.g > 0 && e.g > 0 {
        lemma_product_positive(e.g as int, m.g as int);
        lemma_product_positive(mul_ch(e.g as int, m.g as int), w);
    }
    if m.b > 0 && e.b > 0 {
        lemma_product_positive(e.b as int, m.b as int);
        lemma_product_positive(mul_ch(e.b as int, m.b as int), w);
    }
}

/// A matt triangle passes on no light in a channel that its colour lacks.
pub proof fn lemma_matt_keeps_dark_channels(
    dirs: Seq<Vec3>,
    max_depth: int,
    scene: Seq<Poly>,
    ray: Ray,
    exclude: Option<usize>,
    depth: int,
)
    requires
        nearest_hit(scene, ray, exclude) matches Some((h, i)) && scene[i].surface is Matt,
    ensures
        ({
            let color = nearest_surface(scene, ray, exclude)->Matt_color;
            let c = trace_spec(dirs, max_depth, scene, ray, exclude, depth);
            &&& color.r == 0 ==> c.r == 0
            &&& color.g == 0 ==> c.g == 0
            &&& color.b == 0 ==> c.b == 0
        }),
{
    let (h, i) = nearest_hit(scene, ray, exclude).unwrap();
    lemma_matt_gather_dark(dirs, max_depth, scene, ray.dir, grid_of(h), i, depth, dirs.len() as int);
}

proof fn lemma_matt_gather_dark(
    dirs: Seq<Vec3>,
    max_depth: int,
    scene: Seq<Poly>,
    incoming: Vec3,
    point: Pt,
    i: int,
    depth: int,
    k: int,
)
    requires
        scene[i].surface is Matt,
    ensures
        ({
            let color = scene[i].surface->Matt_color;
            let c = gather(dirs, max_depth, scene, incoming, point, i, depth, k);
            &&& color.r == 0 ==> c.r == 0
            &&& color.g == 0 ==> c.g == 0
            &&& color.b == 0 ==> c.b == 0
        }),
    decreases k,
{
    if k > 0 {
        lemma_matt_gather_dark(dirs, max_depth, scene, incoming, point, i, depth, k - 1);
        let poly = scene[i];
        let color = poly.surface->Matt_color;
        let d = dirs[k - 1];
        let refl = poly.surface.reflected_spec(poly.normal(), d@, incoming@);
        if refl != black_color() {
            assert(refl == color);
            let arriving = if 0 <= depth < max_depth {
                trace_spec(
                    dirs,
                    max_depth,
                    scene,
                    Ray { orig: to_vec(point), dir: d },
                    Some(i as usize),
                    depth + 1,
                )
            } else {
                black_color()
            };
            let w = lambert(d@, poly.normal());
            let f = filter(arriving, refl);
            if color.r == 0 {
                lemma_product_zero(arriving.r as int, 0);
                lemma_product_zero(0, w);
            }
            if color.g == 0 {
                lemma_product_zero(arriving.g as int, 0);
                lemma_product_zero(0, w);
            }
            if color.b == 0 {
                lemma_product_zero(arriving.b as int, 0);
                lemma_product_zero(0, w);
            }
        }
    }
}

/// `lambert(d, n)`.
fn lambert_weight(d: &Vec3, n: &Wide) -> (w: u64)
    requires
        d.in_range(),
        bounded(n@, normal_max()),
    ensures
        w == lambert(d@, n@),
{
    let dw = Wide::from_vec(d);
    let dn = dw.dot(n, Ghost(16384int), Ghost(normal_max()));
    if dn == 0 {
        return 0;
    }
    let dd = dw.dot(&dw, Ghost(16384int), Ghost(16384int));
    let nn = n.dot(n, Ghost(normal_max()), Ghost(normal_max()));
    proof {
        lemma_square_sum(d@);
        lemma_square_sum(n@);
        lemma_zero_square_sum(d@);
        lemma_zero_square_sum(n@);
        if dd == 0 || nn == 0 {
            lemma_dot_with_zero(d@, n@);
        }
    }
    let a: u128 = if dn < 0 {
        (-dn) as u128
    } else {
        dn as u128
    };
    assert(a * a <= offset_max() * offset_max()) by (nonlinear_arith)
        requires
            0 <= a <= offset_max(),
    ;
    assert((ONE * ONE) as int * (a * a) <= 65536 * 65536 * (offset_max() * offset_max()))
        by (nonlinear_arith)
        requires
            a * a <= offset_max() * offset_max(),
    ;
    assert(normal_max() * normal_max() == 4611686018427387904int);
    assert(dd <= 805306368int && nn <= 13835058055282163712int);
    assert(0 < dd * nn <= 805306368 * 13835058055282163712int) by (nonlinear_arith)
        requires
            0 < dd <= 805306368int,
            0 < nn <= 13835058055282163712int,
    ;
    assert((dn as int) * (dn as int) == a * a) by (nonlinear_arith)
        requires
            a == abs(dn as int),
    ;
    let x: u128 = (ONE as u128) * (ONE as u128) * (a * a);
    let y: u128 = (dd as u128) * (nn as u128);
    let w = isqrt(x / y);
    if w == 0 {
        1
    } else {
        w
    }
}

/// A dot product with the zero vector is zero.
proof fn lemma_dot_with_zero(a: Pt, b: Pt)
    ensures
        a == (0int, 0int, 0int) || b == (0int, 0int, 0int) ==> dot(a, b) == 0,
{
    assert(a.0 == 0 && a.1 == 0 && a.2 == 0 ==> dot(a, b) == 0) by (nonlinear_arith);
    assert(b.0 == 0 && b.1 == 0 && b.2 == 0 ==> dot(a, b) == 0) by (nonlinear_arith);
}

/// A product with a zero channel value is zero.
proof fn lemma_product_zero(a: int, b: int)
    requires
        a == 0 || b == 0,
    ensures
        mul_ch(a, b) == 0,
{
    assert(a * b == 0) by (nonlinear_arith)
        requires
            a == 0 || b == 0,
    ;
}

/// A sum of squares is zero only for the zero vector.
proof fn lemma_zero_square_sum(a: Pt)
    ensures
        dot(a, a) == 0 ==> a == (0int, 0int, 0int),
{
    assert(a.0 * a.0 >= 0 && a.1 * a.1 >= 0 && a.2 * a.2 >= 0) by (nonlinear_arith);
    if a.0 != 0 {
        assert(a.0 * a.0 > 0) by (nonlinear_arith)
            requires
                a.0 != 0,
        ;
    }
    if a.1 != 0 {
        assert(a.1 * a.1 > 0) by (nonlinear_arith)
            requires
                a.1 != 0,
        ;
    }
    if a.2 != 0 {
        assert(a.2 * a.2 > 0) by (nonlinear_arith)
            requires
                a.2 != 0,
        ;
    }
}

/// A sum of squares is not negative.
proof fn lemma_square_sum(a: Pt)
    ensures
        dot(a, a) >= 0,
{
    assert(a.0 * a.0 >= 0 && a.1 * a.1 >= 0 && a.2 * a.2 >= 0) by (nonlinear_arith);
}

impl Tracer {
    /// A tracer that gathers light from `all_dirs` at each hit and follows
    /// bounces down to depth `max_depth`.
    pub fn new(all_dirs: Vec<Vec3>, max_depth: u32) -> (t: Tracer)
        ensures
            t.all_dirs@ == all_dirs@,
            t.max_depth == max_depth,
    {
        Tracer { all_dirs, max_depth }
    }

    /// Every sample direction lies in the coordinate range.
    pub open spec fn wf(&self) -> bool {
        forall|i: int| 0 <= i < self.all_dirs@.len() ==> (#[trigger] self.all_dirs@[i]).in_range()
    }

    /// The light arriving along `ray` at bounce `depth`: black past
    /// `max_depth` or where the ray meets nothing; otherwise what the
    /// nearest triangle (other than `exclude`) emits and reflects towards
    /// the ray's origin.  See `trace_spec`.
    pub fn trace(&self, scene: &[Poly], ray: &Ray, exclude: Option<usize>, depth: u32) -> (c: Color)
        requires
            self.wf(),
            scene_wf(scene@),
            ray.wf(),
        ensures
            c == trace_spec(
                self.all_dirs@,
                self.max_depth as int,
                scene@,
                *ray,
                exclude,
                depth as int,
            ),
        decreases self.max_depth - depth,
    {
        if depth > self.max_depth {
            return Color::black();
        }
        let (hit, idx) = match shoot(scene, ray, exclude) {
            None => return Color::black(),
            Some(found) => found,
        };
        let point = hit.grid_point();
        proof {
            lemma_nearest_is_hit(scene@, *ray, exclude, scene@.len() as int);
        }
        let ghost dirs = self.all_dirs@;
        let ghost md = self.max_depth as int;
        let poly = &scene[idx];
        assert(poly.wf());
        let mut all_light = poly.surface.emitted();
        if !point.is_in_range() {
            return all_light;
        }
        let n = poly.n();
        let mut k: usize = 0;
        while k < self.all_dirs.len()
            invariant
                k <= dirs.len(),
                dirs == self.all_dirs@,
                md == self.max_depth as int,
                self.wf(),
                scene_wf(scene@),
                ray.wf(),
                poly == scene@[idx as int],
                poly.wf(),
                point.in_range(),
                n@ == poly.normal(),
                depth <= self.max_depth,
                all_light == gather(dirs, md, scene@, ray.dir, point@, idx as int, depth as int, k as int),
            decreases dirs.len() - k,
        {
            let dir = self.all_dirs[k];
            assert(dirs[k as int].in_range());
            let refl = poly.surface.reflected(n, &dir, &ray.dir);
            if refl != Color::black() {
                let arriving = if depth < self.max_depth {
                    let bounce = Ray { orig: point, dir };
                    self.trace(scene, &bounce, Some(idx), depth + 1)
                } else {
                    Color::black()
                };
                let weight = lambert_weight(&dir, n);
                all_light = all_light.mixed(&arriving.filtered(&refl).weighed(weight));
            }
            k += 1;
        }
        all_light
    }
}

} // verus!
