use raytrace::geom::{shoot, Poly, Ray};
use raytrace::vector::Wide;
use raytrace::shapes::add_par;
use raytrace::surface::{matt, Color};
use raytrace::vector::{isqrt, Vec3};

fn v(x: i64, y: i64, z: i64) -> Vec3 {
    Vec3::new(x, y, z)
}

fn scaled(w: &Wide) -> (i128, i128, i128) {
    (w.x, w.y, w.z)
}

/// The nearest hit as its grid point and the index of its triangle.
fn nearest(polys: &[Poly], ray: &Ray, exclude: Option<usize>) -> Option<(Vec3, usize)> {
    shoot(polys, ray, exclude).map(|(h, i)| (h.grid_point(), i))
}

fn grey() -> raytrace::surface::Surface {
    matt(Color::new(100, 100, 100))
}

/// A triangle in the plane z = `z`, around the z axis, facing +z.
fn facing(z: i64, size: i64) -> Poly {
    Poly::new([v(-size, -size, z), v(size, -size, z), v(0, size, z)], grey())
}

#[test]
fn normal_follows_winding() {
    let p = facing(-10, 10);
    let n = p.n();
    // (b - a) x (c - a) = (20, 0, 0) x (10, 20, 0).
    assert_eq!((n.x, n.y, n.z), (0, 0, 400));
    let q = Poly::new([v(-10, -10, -10), v(0, 10, -10), v(10, -10, -10)], grey());
    assert!(q.n().z < 0);
    assert_eq!(q.plane.d, q.n().z as i128 * -10);
}

#[test]
fn parallel_ray_misses() {
    let p = facing(-10, 10);
    let ray = Ray::new(v(0, 0, 0), v(1, 0, 0));
    assert!(p.hit(&ray).is_none());
    let ray = Ray::new(v(0, 0, -10), v(0, 1, 0));
    assert!(p.hit(&ray).is_none());
}

#[test]
fn plane_behind_origin_misses() {
    let p = facing(-10, 10);
    // Moving away from the plane.
    assert!(p.hit(&Ray::new(v(0, 0, 0), v(0, 0, 1))).is_none());
    // Starting past the plane.
    assert!(p.hit(&Ray::new(v(0, 0, -20), v(0, 0, -1))).is_none());
    // Starting on the plane itself.
    assert!(p.hit(&Ray::new(v(0, 0, -10), v(0, 0, -1))).is_none());
}

#[test]
fn ray_at_centroid_hits_it() {
    let p = Poly::new([v(3, 0, -9), v(0, 6, -12), v(-3, -3, -6)], grey());
    // Centroid (0, 1, -9); origin (3, 4, 0), so direction (-3, -3, -9).
    let h = p.hit(&Ray::new(v(3, 4, 0), v(-3, -3, -9))).unwrap();
    assert_eq!(h.grid_point(), v(0, 1, -9));
    assert_eq!(scaled(&h.scaled), (0, h.den, -9 * h.den));
    assert!(h.num > 0);
    assert_eq!(h.num, h.den);
}

#[test]
fn ray_at_off_grid_centroid_hits_it_exactly() {
    let p = Poly::new([v(0, 0, -9), v(1, 0, -9), v(0, 1, -9)], grey());
    // Centroid (1/3, 1/3, -9), reached at a third of the direction.
    let h = p.hit(&Ray::new(v(0, 0, 0), v(1, 1, -27))).unwrap();
    let (x, y, z) = scaled(&h.scaled);
    assert_eq!((3 * x, 3 * y, 3 * z), (h.den, h.den, -27 * h.den));
    assert_eq!(3 * h.num, h.den);
    assert_eq!(h.grid_point(), v(0, 0, -9));
}

#[test]
fn hit_point_and_distance() {
    let p = facing(-10, 10);
    let h = p.hit(&Ray::new(v(0, 0, 0), v(0, 0, -4))).unwrap();
    assert_eq!(h.grid_point(), v(0, 0, -10));
    // t = 10 / 4.
    assert_eq!(h.num * 4, h.den * 10);
}

#[test]
fn hit_point_is_exact_and_rounds_to_nearest() {
    let p = facing(-3, 10);
    // Meets the plane at (1/2, -1/2, -3).
    let h = p.hit(&Ray::new(v(0, 0, 0), v(1, -1, -6))).unwrap();
    let (x, y, z) = scaled(&h.scaled);
    assert_eq!((2 * x, 2 * y, z), (h.den, -h.den, -3 * h.den));
    assert_eq!(h.num * 2, h.den);
    assert_eq!(h.grid_point(), v(1, 0, -3));
    // Meets the plane at (1/3, -2/3, -3).
    let h = p.hit(&Ray::new(v(0, 0, 0), v(1, -2, -9))).unwrap();
    assert_eq!(h.grid_point(), v(0, -1, -3));
}

#[test]
fn point_outside_edges_misses() {
    let p = facing(-10, 10);
    assert!(p.hit(&Ray::new(v(30, 0, 0), v(0, 0, -1))).is_none());
    assert!(p.hit(&Ray::new(v(0, -11, 0), v(0, 0, -1))).is_none());
}

#[test]
fn point_on_edge_and_vertex_hits() {
    let p = facing(-10, 10);
    assert!(p.hit(&Ray::new(v(0, -10, 0), v(0, 0, -1))).is_some());
    assert!(p.hit(&Ray::new(v(10, -10, 0), v(0, 0, -1))).is_some());
}

#[test]
fn back_face_is_hit_too() {
    let p = facing(-10, 10);
    let h = p.hit(&Ray::new(v(0, 0, -20), v(0, 0, 1))).unwrap();
    assert_eq!(h.grid_point(), v(0, 0, -10));
}

#[test]
fn degenerate_triangle_is_never_hit() {
    let p = Poly::new([v(0, 0, -5), v(1, 1, -5), v(2, 2, -5)], grey());
    let n = p.n();
    assert_eq!((n.x, n.y, n.z), (0, 0, 0));
    assert!(p.hit(&Ray::new(v(1, 1, 0), v(0, 0, -1))).is_none());
}

#[test]
fn nearest_of_two_in_either_order() {
    let near = facing(-5, 10);
    let far = facing(-10, 10);
    let ray = Ray::new(v(0, 0, 0), v(0, 0, -1));
    let (p, i) = nearest(&[near, far], &ray, None).unwrap();
    assert_eq!((p, i), (v(0, 0, -5), 0));
    let (p, i) = nearest(&[far, near], &ray, None).unwrap();
    assert_eq!((p, i), (v(0, 0, -5), 1));
}

#[test]
fn equal_distances_first_wins() {
    let a = facing(-5, 10);
    let b = facing(-5, 20);
    let ray = Ray::new(v(0, 0, 0), v(0, 0, -1));
    assert_eq!(nearest(&[a, b], &ray, None).unwrap().1, 0);
    assert_eq!(nearest(&[b, a], &ray, None).unwrap().1, 0);
}

#[test]
fn excluding_the_only_hit_leaves_none() {
    let target = facing(-5, 10);
    let aside = Poly::new([v(100, 100, -5), v(110, 100, -5), v(100, 110, -5)], grey());
    let ray = Ray::new(v(0, 0, 0), v(0, 0, -1));
    let scene = [aside, target];
    assert_eq!(nearest(&scene, &ray, None), Some((v(0, 0, -5), 1)));
    assert_eq!(nearest(&scene, &ray, Some(1)), None);
}

#[test]
fn excluding_the_nearest_finds_the_next() {
    let scene = [facing(-5, 10), facing(-10, 10)];
    let ray = Ray::new(v(0, 0, 0), v(0, 0, -1));
    assert_eq!(nearest(&scene, &ray, Some(0)), Some((v(0, 0, -10), 1)));
}

#[test]
fn empty_scene_has_no_hit() {
    let ray = Ray::new(v(0, 0, 0), v(0, 0, -1));
    assert!(shoot(&[], &ray, None).is_none());
}

#[test]
fn parallelogram_is_two_triangles() {
    let mut polys = vec![facing(-1, 1)];
    add_par(v(0, 0, 0), v(0, 0, -10), v(10, 0, 0), grey(), &mut polys);
    assert_eq!(polys.len(), 3);
    assert_eq!(polys[1].points, [v(0, 0, 0), v(0, 0, -10), v(10, 0, -10)]);
    assert_eq!(polys[2].points, [v(0, 0, 0), v(10, 0, 0), v(10, 0, -10)]);
    // Both halves cover the middle of the parallelogram.
    let down = Ray::new(v(5, 5, -5), v(0, -1, 0));
    assert!(polys[1].hit(&down).is_some());
    assert!(polys[2].hit(&down).is_some());
    let outside = Ray::new(v(11, 5, -5), v(0, -1, 0));
    assert!(polys[1].hit(&outside).is_none());
    assert!(polys[2].hit(&outside).is_none());
}

#[test]
fn integer_square_root() {
    assert_eq!(isqrt(0), 0);
    assert_eq!(isqrt(1), 1);
    assert_eq!(isqrt(15), 3);
    assert_eq!(isqrt(16), 4);
    assert_eq!(isqrt(1_000_000), 1000);
    assert_eq!(isqrt(u64::MAX as u128), 0xffff_ffff);
    assert_eq!(isqrt(u128::MAX), u64::MAX);
}

#[test]
fn vector_range_and_sum() {
    assert!(v(16384, -16384, 0).is_in_range());
    assert!(!v(16385, 0, 0).is_in_range());
    assert_eq!(v(1, 2, 3).add(&v(-4, 5, 6)), v(-3, 7, 9));
}
