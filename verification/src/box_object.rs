//! A box as the six rectangles that bound it.

use crate::aabb::Aabb;
use crate::aarect::{XyRect, XzRect, YzRect};
use crate::vec3::Point3;
use vstd::prelude::*;

verus! {

/// One face of a box.
#[derive(Clone, Copy, Debug, PartialEq, Eq, Structural)]
pub enum Side {
    Xy(XyRect),
    Xz(XzRect),
    Yz(YzRect),
}

/// A box between two opposite corners, held as its six faces.
#[derive(Debug)]
pub struct BoxObject {
    pub box_min: Point3,
    pub box_max: Point3,
    pub sides: Vec<Side>,
}

/// The faces of the box between `lo` and `hi`, all of the material `ptr`:
/// for each pair of axes the face through `hi` and then the face through
/// `lo`, each spanning the box along the other two axes.
pub open spec fn spec_sides(lo: Point3, hi: Point3, ptr: usize) -> Seq<Side> {
    seq![
        Side::Xy(XyRect { mp: ptr, x0: lo.x, x1: hi.x, y0: lo.y, y1: hi.y, k: hi.z }),
        Side::Xy(XyRect { mp: ptr, x0: lo.x, x1: hi.x, y0: lo.y, y1: hi.y, k: lo.z }),
        Side::Xz(XzRect { mp: ptr, x0: lo.x, x1: hi.x, z0: lo.z, z1: hi.z, k: hi.y }),
        Side::Xz(XzRect { mp: ptr, x0: lo.x, x1: hi.x, z0: lo.z, z1: hi.z, k: lo.y }),
        Side::Yz(YzRect { mp: ptr, y0: lo.y, y1: hi.y, z0: lo.z, z1: hi.z, k: hi.x }),
        Side::Yz(YzRect { mp: ptr, y0: lo.y, y1: hi.y, z0: lo.z, z1: hi.z, k: lo.x }),
    ]
}

impl Side {
    /// The corner of the face with the smallest coordinates.
    pub open spec fn low(self) -> Point3 {
        match self {
            Side::Xy(r) => Point3 { x: r.x0, y: r.y0, z: r.k },
            Side::Xz(r) => Point3 { x: r.x0, y: r.k, z: r.z0 },
            Side::Yz(r) => Point3 { x: r.k, y: r.y0, z: r.z0 },
        }
    }

    /// The corner of the face with the largest coordinates.
    pub open spec fn high(self) -> Point3 {
        match self {
            Side::Xy(r) => Point3 { x: r.x1, y: r.y1, z: r.k },
            Side::Xz(r) => Point3 { x: r.x1, y: r.k, z: r.z1 },
            Side::Yz(r) => Point3 { x: r.k, y: r.y1, z: r.z1 },
        }
    }
}

impl BoxObject {
    /// The box between the corners `lo` and `hi`, of the material `ptr`.
    pub fn new(lo: Point3, hi: Point3, ptr: usize) -> (r: Self)
        ensures
            r.box_min == lo,
            r.box_max == hi,
            r.sides@ == spec_sides(lo, hi, ptr),
    {
        let mut sides: Vec<Side> = Vec::new();
        sides.push(Side::Xy(XyRect::new(lo.x, hi.x, lo.y, hi.y, hi.z, ptr)));
        sides.push(Side::Xy(XyRect::new(lo.x, hi.x, lo.y, hi.y, lo.z, ptr)));
        sides.push(Side::Xz(XzRect::new(lo.x, hi.x, lo.z, hi.z, hi.y, ptr)));
        sides.push(Side::Xz(XzRect::new(lo.x, hi.x, lo.z, hi.z, lo.y, ptr)));
        sides.push(Side::Yz(YzRect::new(lo.y, hi.y, lo.z, hi.z, hi.x, ptr)));
        sides.push(Side::Yz(YzRect::new(lo.y, hi.y, lo.z, hi.z, lo.x, ptr)));
        assert(sides@ =~= spec_sides(lo, hi, ptr));
        BoxObject { box_min: lo, box_max: hi, sides }
    }

    /// The box itself bounds the box.
    pub fn bounding_box(&self) -> (r: Option<Aabb>)
        ensures
            r == Some(Aabb { minimum: self.box_min, maximum: self.box_max }),
    {
        Some(Aabb::new(&self.box_min, &self.box_max))
    }
}

/// With the corners in order, every face lies in the box and the six faces
/// together reach each of the box's faces: the box is the smallest one
/// around its sides.
pub proof fn lemma_sides_span_box(lo: Point3, hi: Point3, ptr: usize)
    requires
        lo.le(hi),
    ensures
        forall|i: int|
            0 <= i < 6 ==> (Aabb { minimum: lo, maximum: hi }).contains(
                (#[trigger] spec_sides(lo, hi, ptr)[i]).low(),
            ) && (Aabb { minimum: lo, maximum: hi }).contains(spec_sides(lo, hi, ptr)[i].high()),
        spec_sides(lo, hi, ptr)[1].low() == lo,
        spec_sides(lo, hi, ptr)[0].high() == hi,
{
}

} // verus!
