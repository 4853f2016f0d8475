use raytrace::geom::{Poly, Ray};
use raytrace::surface::{light, matt, Black, Color, Surface, ONE};
use raytrace::tracer::Tracer;
use raytrace::vector::{Vec3, Wide};

fn v(x: i64, y: i64, z: i64) -> Vec3 {
    Vec3::new(x, y, z)
}

/// The six axis directions, each of length 1000.
fn axis_dirs() -> Vec<Vec3> {
    vec![
        v(1000, 0, 0),
        v(-1000, 0, 0),
        v(0, 1000, 0),
        v(0, -1000, 0),
        v(0, 0, 1000),
        v(0, 0, -1000),
    ]
}

/// A triangle in the plane z = `z`, around the z axis, facing +z.
fn facing(z: i64, size: i64, surface: Surface) -> Poly {
    Poly::new([v(-size, -size, z), v(size, -size, z), v(0, size, z)], surface)
}

fn white() -> Color {
    Color::new(ONE, ONE, ONE)
}

fn half_red() -> Color {
    Color::new(ONE / 2, 0, 0)
}

/// A large light at z = -100 and a small red matt triangle at z = -50,
/// both facing +z, seen from z = -70 looking towards +z: the camera ray
/// meets the matt triangle, whose bounce towards -z meets the light.
fn lit_matt_scene() -> (Vec<Poly>, Ray) {
    let scene = vec![
        facing(-100, 2000, light(white())),
        facing(-50, 100, matt(half_red())),
    ];
    (scene, Ray::new(v(0, 0, -70), v(0, 0, 1000)))
}

#[test]
fn past_max_depth_is_black() {
    let (scene, ray) = lit_matt_scene();
    let tracer = Tracer::new(axis_dirs(), 2);
    assert_eq!(tracer.trace(&scene, &ray, None, 3), Color::black());
    let direct = Ray::new(v(0, 0, 0), v(0, 0, -1));
    let lights = vec![facing(-100, 2000, light(white()))];
    assert_eq!(tracer.trace(&lights, &direct, None, 3), Color::black());
    assert_eq!(tracer.trace(&lights, &direct, None, 2), white());
}

#[test]
fn light_seen_directly_gives_its_colour() {
    let scene = vec![facing(-10, 10, light(Color::new(3, 5, 7)))];
    let tracer = Tracer::new(axis_dirs(), 3);
    let ray = Ray::new(v(0, 0, 0), v(0, 0, -1));
    assert_eq!(tracer.trace(&scene, &ray, None, 0), Color::new(3, 5, 7));
}

#[test]
fn ray_into_nothing_is_black() {
    let scene = vec![facing(-10, 10, light(white()))];
    let tracer = Tracer::new(axis_dirs(), 3);
    let ray = Ray::new(v(0, 0, 0), v(0, 0, 1));
    assert_eq!(tracer.trace(&scene, &ray, None, 0), Color::black());
    assert_eq!(tracer.trace(&[], &ray, None, 0), Color::black());
}

#[test]
fn matt_lit_indirectly_needs_a_bounce() {
    let (scene, ray) = lit_matt_scene();
    let lit = Tracer::new(axis_dirs(), 1).trace(&scene, &ray, None, 0);
    assert!(lit.r > 0);
    let unlit = Tracer::new(axis_dirs(), 0).trace(&scene, &ray, None, 0);
    assert_eq!(unlit, Color::black());
}

#[test]
fn matt_filters_the_light_it_reflects() {
    let (scene, ray) = lit_matt_scene();
    let c = Tracer::new(axis_dirs(), 4).trace(&scene, &ray, None, 0);
    assert!(c.r > 0);
    assert_eq!((c.g, c.b), (0, 0));
    // One direction reaches the light, head on: white filtered by one half,
    // at full cosine weight.
    assert_eq!(c.r, ONE / 2);
}

#[test]
fn slanted_bounce_is_weighted_by_cosine() {
    let scene = vec![
        facing(-100, 2000, light(white())),
        facing(-50, 100, matt(Color::new(ONE, ONE, ONE))),
    ];
    let ray = Ray::new(v(0, 0, -70), v(0, 0, 1000));
    // cos 45 degrees = 0.7071067..., of which ONE * cos = 46340.95...
    let c = Tracer::new(vec![v(0, 1000, -1000)], 1).trace(&scene, &ray, None, 0);
    assert_eq!(c, Color::new(46340, 46340, 46340));
}

#[test]
fn cosine_weight_never_exceeds_one() {
    // A matt triangle with normal (1, 1, 1), seen head on, and a light
    // straight along that normal.
    let scene = vec![
        Poly::new([v(0, 0, 0), v(1, -1, 0), v(0, 1, -1)], matt(white())),
        Poly::new([v(300, 0, 0), v(0, 300, 0), v(0, 0, 300)], light(white())),
    ];
    let ray = Ray::new(v(10, 10, 10), v(-1, -1, -1));
    let c = Tracer::new(vec![v(1, 1, 1)], 1).trace(&scene, &ray, None, 0);
    assert_eq!(c, white());
}

#[test]
fn faint_matt_lit_through_a_bounce_stays_lit() {
    let faint = |k: u64| {
        vec![
            facing(-100, 2000, light(Color::new(k, 0, 0))),
            facing(-50, 100, matt(Color::new(k, 0, 0))),
        ]
    };
    let ray = Ray::new(v(0, 0, -70), v(0, 0, 1000));
    // Red of one unit each, head on.
    let c = Tracer::new(vec![v(0, 0, -1000)], 1).trace(&faint(1), &ray, None, 0);
    assert_eq!(c, Color::new(1, 0, 0));
    // Red of 1/256 each, at 45 degrees.
    let c = Tracer::new(vec![v(0, 1000, -1000)], 1).trace(&faint(ONE / 256), &ray, None, 0);
    assert_eq!(c, Color::new(1, 0, 0));
}

#[test]
fn products_of_non_zero_channels_stay_non_zero() {
    assert_eq!(Color::new(1, 0, 5).filtered(&Color::new(1, 7, 0)), Color::new(1, 0, 0));
    assert_eq!(Color::new(1, 0, 3).weighed(1), Color::new(1, 0, 1));
    assert_eq!(Color::new(3, 3, 3).weighed(0), Color::black());
}

#[test]
fn bounce_does_not_hit_its_own_triangle() {
    // A light behind a matt triangle and facing it: the matt triangle only
    // sees the light along the direction that leaves it towards -z.
    let (scene, ray) = lit_matt_scene();
    let c = Tracer::new(vec![v(0, 0, -1000), v(0, 0, -1000)], 1).trace(&scene, &ray, None, 0);
    assert_eq!(c, Color::new(ONE, 0, 0));
}

#[test]
fn matt_reflects_only_back_to_the_incoming_side() {
    let s = matt(half_red());
    let n = Wide { x: 0, y: 0, z: 400 };
    // The ray travels along -z onto the front face; a sample direction
    // back towards +z passes the colour, one onward along -z does not.
    assert_eq!(s.reflected(&n, &v(0, 0, 1), &v(0, 0, -1)), half_red());
    assert_eq!(s.reflected(&n, &v(0, 0, -1), &v(0, 0, -1)), Color::black());
    // A sample direction along the surface gathers nothing.
    assert_eq!(s.reflected(&n, &v(1, 0, 0), &v(0, 0, -1)), Color::black());
    // A ray travelling along the surface lies on neither side, so a sample
    // direction off the surface passes the colour.
    assert_eq!(s.reflected(&n, &v(0, 0, 1), &v(1, 0, 0)), half_red());
    assert_eq!(s.emitted(), Color::black());
}

#[test]
fn light_emits_and_never_reflects() {
    let s = light(white());
    let n = Wide { x: 0, y: 0, z: 400 };
    assert_eq!(s.emitted(), white());
    assert_eq!(s.reflected(&n, &v(0, 0, 1), &v(0, 0, -1)), Color::black());
}

#[test]
fn colour_arithmetic_is_fixed_point() {
    let c = Color::new(2 * ONE, ONE, 3);
    assert_eq!(c.filtered(&Color::new(ONE / 2, ONE, 0)), Color::new(ONE, ONE, 0));
    // 3 / 4 of a unit is not rounded away: it comes out as one unit.
    assert_eq!(c.weighed(ONE / 4), Color::new(ONE / 2, ONE / 4, 1));
    assert_eq!(c.mixed(&Color::new(1, 2, 3)), Color::new(2 * ONE + 1, ONE + 2, 6));
}

#[test]
fn colour_arithmetic_saturates() {
    let top = Color::new(u64::MAX, u64::MAX, 0);
    assert_eq!(top.mixed(&Color::new(1, 0, 0)), Color::new(u64::MAX, u64::MAX, 0));
    assert_eq!(top.weighed(2 * ONE), Color::new(u64::MAX, u64::MAX, 0));
    assert_eq!(top.filtered(&Color::new(ONE, ONE / 2, 0)), Color::new(u64::MAX, u64::MAX / 2, 0));
}
