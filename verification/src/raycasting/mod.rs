//! Objects with bounding boxes, and the bounding volume hierarchy that
//! organises them.

pub mod bounding_volume_hierarchy;
pub use bounding_volume_hierarchy::BoundingVolumeHierarchy;

use vstd::prelude::*;

use crate::realtype::Real;
use crate::util::BoundingBox;

verus! {

/// Any object for which an axis-aligned bounding box can be computed. The
/// object lies entirely inside its box.
pub trait HasBoundingBox<T: Real> {
    /// The box of the object.
    spec fn bounding_box_spec(&self) -> BoundingBox<T>;

    /// Computes the box of the object.
    fn bounding_box(&self) -> (r: BoundingBox<T>)
        ensures
            r == self.bounding_box_spec(),
    ;
}

/// A box is its own bounding box.
impl<T: Real> HasBoundingBox<T> for BoundingBox<T> {
    open spec fn bounding_box_spec(&self) -> BoundingBox<T> {
        *self
    }

    fn bounding_box(&self) -> (r: BoundingBox<T>) {
        *self
    }
}

} // verus!
