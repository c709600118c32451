use vstd::prelude::*;

verus! {

/// A plane of a YUV 4:2:0 planar image.
///
/// The Y plane has the full luma resolution; the U and V chroma planes are
/// subsampled to half the width and half the height.
#[derive(Clone, Copy, Debug, PartialEq, Eq, Structural)]
pub enum Plane {
    Y,
    U,
    V,
}

impl Plane {
    /// The index of this plane's framebuffer within a YUV render target.
    pub open spec fn spec_index(self) -> int {
        match self {
            Plane::Y => 0,
            Plane::U => 1,
            Plane::V => 2,
        }
    }

    /// The index of this plane's framebuffer within a YUV render target.
    pub fn index(self) -> (r: usize)
        ensures
            r == self.spec_index(),
    {
        match self {
            Plane::Y => 0,
            Plane::U => 1,
            Plane::V => 2,
        }
    }
}

/// The pixel dimensions of `plane` for a target whose Y plane measures
/// `width` by `height`.
pub open spec fn spec_plane_dimensions(plane: Plane, width: int, height: int) -> (int, int) {
    match plane {
        Plane::Y => (width, height),
        Plane::U => (width / 2, height / 2),
        Plane::V => (width / 2, height / 2),
    }
}

/// The byte offset at which `plane` starts inside a packed YUV 4:2:0 buffer
/// whose Y plane measures `width` by `height`: Y at 0, U after the whole Y
/// plane, V after Y plus a quarter-sized U plane.
pub open spec fn spec_plane_offset(plane: Plane, width: int, height: int) -> int {
    match plane {
        Plane::Y => 0,
        Plane::U => width * height,
        Plane::V => (width * height * 5) / 4,
    }
}

/// The number of bytes a packed YUV 4:2:0 buffer for a `width` by `height`
/// Y plane takes: the Y plane plus two quarter-sized chroma planes.
pub open spec fn spec_buffer_size(width: int, height: int) -> int {
    (width * height * 3) / 2
}

/// The pixel dimensions of `plane` for a target whose Y plane measures
/// `width` by `height`.
pub fn plane_dimensions(plane: Plane, width: usize, height: usize) -> (r: (usize, usize))
    ensures
        r.0 == spec_plane_dimensions(plane, width as int, height as int).0,
        r.1 == spec_plane_dimensions(plane, width as int, height as int).1,
{
    match plane {
        Plane::Y => (width, height),
        Plane::U => (width / 2, height / 2),
        Plane::V => (width / 2, height / 2),
    }
}

/// The byte offset at which `plane` starts inside a packed YUV 4:2:0 buffer
/// whose Y plane measures `width` by `height`.
pub fn plane_offset(plane: Plane, width: usize, height: usize) -> (r: usize)
    requires
        width * height * 5 <= usize::MAX,
    ensures
        r == spec_plane_offset(plane, width as int, height as int),
{
    let pixels: usize = width * height;
    match plane {
        Plane::Y => 0,
        Plane::U => pixels,
        Plane::V => pixels * 5 / 4,
    }
}

/// The number of bytes a buffer must hold for the contents of a whole
/// YUV 4:2:0 render target with a `width` by `height` Y plane to fit.
pub fn buffer_size(width: usize, height: usize) -> (r: usize)
    requires
        width * height * 5 <= usize::MAX,
    ensures
        r == spec_buffer_size(width as int, height as int),
{
    let pixels: usize = width * height;
    pixels * 3 / 2
}

} // verus!
