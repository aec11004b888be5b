//! Controlling the presentation of objects: setting colors.

use vstd::prelude::*;

use crate::math::Color;
use crate::store::Handle;
use crate::topology::{clone_cycle_handle, handle_cycle_v, Region, RegionV};

verus! {

/// Setting the color of an object: hands back a bare, uninserted copy of
/// the object with the color applied.
pub trait SetColor: Sized {
    /// The object with the color applied, by content.
    spec fn with_color(self, color: Color) -> RegionV;

    /// A bare copy of the object with its color set.
    fn set_color(&self, color: Color) -> (r: Region)
        ensures
            r@ == self.with_color(color),
    ;
}

impl SetColor for Handle<Region> {
    open spec fn with_color(self, color: Color) -> RegionV {
        RegionV {
            exterior: self.obj@.exterior,
            interiors: self.obj@.interiors,
            color: Option::Some(color),
        }
    }

    fn set_color(&self, color: Color) -> (r: Region) {
        let region = self.get();
        let mut interiors: Vec<Handle<crate::topology::Cycle>> = Vec::new();
        let n = region.interiors.len();
        let mut i: usize = 0;
        while i < n
            invariant
                i <= n,
                n == region.interiors@.len(),
                interiors@.len() == i as int,
                forall|j: int|
                    0 <= j < i as int ==> handle_cycle_v(#[trigger] interiors@[j])
                        == handle_cycle_v(region.interiors@[j]),
            decreases n - i,
        {
            interiors.push(clone_cycle_handle(&region.interiors[i]));
            i += 1;
        }
        let r = Region::new(
            clone_cycle_handle(region.exterior()),
            interiors,
            Option::Some(color),
        );
        proof {
            assert(r@.interiors =~= self.obj@.interiors);
        }
        r
    }
}

} // verus!
