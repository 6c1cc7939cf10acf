//! Query results of ray traversal and of emissive-surface sampling.

use vstd::prelude::*;

use crate::material::Material;
use crate::rat::Rat;
use crate::vec3::{in_world, Vec3};

verus! {

/// A nearest-hit record: the grid-rounded hit point, the surface's
/// fixed-point unit normal, the exact rational ray parameter, and the
/// material of the surface that was hit.
#[derive(Clone, Copy, PartialEq, Eq, Structural, Debug)]
pub struct Intersection {
    pub coords: Vec3,
    pub normal: Vec3,
    pub distance: Rat,
    pub m: Material,
}

impl Intersection {
    pub open spec fn wf(self) -> bool {
        &&& self.distance.wf()
        &&& in_world(self.coords)
        &&& in_world(self.normal)
    }
}

/// A point drawn on an emissive surface: its grid coordinates, the
/// surface's fixed-point unit normal, and the exact area-measure density
/// the point was drawn with.
#[derive(Clone, Copy, PartialEq, Eq, Structural, Debug)]
pub struct SampleResult {
    pub coords: Vec3,
    pub normal: Vec3,
    pub pdf: Rat,
}

} // verus!
