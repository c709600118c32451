use vstd::prelude::*;

verus! {

/// A two-dimensional vector, used for pixel positions, sizes and resolutions.
#[derive(Clone, Copy, Debug, PartialEq, Eq, Structural)]
pub struct Vec2d<T> {
    pub x: T,
    pub y: T,
}

} // verus!
