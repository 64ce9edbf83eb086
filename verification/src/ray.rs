//! The mouse ray and how it is kept from tick to tick.

use vstd::prelude::*;

verus! {

/// Three coordinates in the host's scalar type. The library stores and moves
/// coordinates and never computes with them.
#[derive(Debug, PartialEq)]
pub struct Vec3<S> {
    pub x: S,
    pub y: S,
    pub z: S,
}

impl<S: Copy> Clone for Vec3<S> {
    fn clone(&self) -> (r: Self)
        ensures
            r == *self,
    {
        *self
    }
}

impl<S: Copy> Copy for Vec3<S> {

}

/// A half-line in world space: an origin and a direction.
#[derive(Debug, PartialEq)]
pub struct Ray<S> {
    pub origin: Vec3<S>,
    pub direction: Vec3<S>,
}

impl<S: Copy> Clone for Ray<S> {
    fn clone(&self) -> (r: Self)
        ensures
            r == *self,
    {
        *self
    }
}

impl<S: Copy> Copy for Ray<S> {

}

/// The ray from the image plane through the mouse pointer into the scene, as
/// of the latest cursor move for which a ray could be built.
#[derive(Debug, PartialEq)]
pub struct MouseRay<S> {
    pub ray: Ray<S>,
}

/// The ray that stays after a tick. `built` holds, in order of arrival, what
/// the cursor moves of the tick gave: a ray, or nothing where none could be
/// built. The last ray built wins; without any, `prev` is retained.
pub open spec fn latest_ray<S>(prev: Ray<S>, built: Seq<Option<Ray<S>>>) -> Ray<S>
    decreases built.len(),
{
    if built.len() == 0 {
        prev
    } else {
        match built.last() {
            Some(ray) => ray,
            None => latest_ray(prev, built.drop_last()),
        }
    }
}

impl<S: Copy> MouseRay<S> {
    /// A mouse ray that starts out as `ray`.
    pub fn new(ray: Ray<S>) -> (r: Self)
        ensures
            r.ray == ray,
    {
        MouseRay { ray }
    }

    /// Folds the cursor moves of one tick into the mouse ray.
    pub fn update(&mut self, built: &Vec<Option<Ray<S>>>)
        ensures
            final(self).ray == latest_ray(old(self).ray, built@),
    {
        let mut k: usize = 0;
        while k < built.len()
            invariant
                k <= built.len(),
                self.ray == latest_ray(old(self).ray, built@.take(k as int)),
            decreases built.len() - k,
        {
            proof {
                let upto = built@.take(k + 1);
                assert(upto.drop_last() == built@.take(k as int));
                assert(upto.last() == built@[k as int]);
            }
            match built[k] {
                Some(ray) => {
                    self.ray = ray;
                },
                None => {},
            }
            k += 1;
        }
        assert(built@.take(k as int) == built@);
    }
}

} // verus!
