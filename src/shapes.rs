//! Shapes built from triangles.

use vstd::prelude::*;
use crate::vector::{Vec3, plus, to_vec};
use crate::surface::Surface;
use crate::geom::Poly;

verus! {

/// Appends to `trg` the parallelogram with corner `a` and sides `b_side` and
/// `c_side`, as two triangles `a b d` and `a c d` that share the diagonal from
/// `a` to the far corner `d`.
pub fn add_par(a: Vec3, b_side: Vec3, c_side: Vec3, surface: Surface, trg: &mut Vec<Poly>)
    requires
        a.in_range(),
        b_side.in_range(),
        c_side.in_range(),
        to_vec(plus(a@, b_side@)).in_range(),
        to_vec(plus(a@, c_side@)).in_range(),
        to_vec(plus(plus(a@, b_side@), c_side@)).in_range(),
    ensures
        final(trg)@.len() == old(trg)@.len() + 2,
        forall|i: int| 0 <= i < old(trg)@.len() ==> final(trg)@[i] == old(trg)@[i],
        ({
            let b = plus(a@, b_side@);
            let c = plus(a@, c_side@);
            let d = plus(b, c_side@);
            let p = final(trg)@[old(trg)@.len() as int];
            let q = final(trg)@[old(trg)@.len() + 1int];
            &&& p.wf() && p.surface == surface
            &&& p.vertex(0) == a@ && p.vertex(1) == b && p.vertex(2) == d
            &&& q.wf() && q.surface == surface
            &&& q.vertex(0) == a@ && q.vertex(1) == c && q.vertex(2) == d
        }),
{
    let b = a.add(&b_side);
    let c = a.add(&c_side);
    assert(b@ == plus(a@, b_side@));
    let d = b.add(&c_side);
    trg.push(Poly::new([a, b, d], surface));
    trg.push(Poly::new([a, c, d], surface));
}

} // verus!
