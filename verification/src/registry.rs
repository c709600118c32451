use vstd::prelude::*;

use crate::texture_transformations::{TextureTransformation, TextureTransformationKind};

verus! {

/// Maps every transformation variant to the GPU pipeline that applies it.
///
/// The registry is built once at startup and looked up by variant tag during
/// compositing; `P` is whatever the rendering backend uses for a compiled
/// pipeline. Reaching the compositing stage with a variant that was never
/// registered is a programming error, so lookups require the tag to be
/// registered.
pub struct TextureTransformationRegistry<P> {
    pub cropping: Option<P>,
    pub corners_rounding: Option<P>,
}

impl<P> TextureTransformationRegistry<P> {
    /// The pipeline registered for `kind`, if any.
    pub open spec fn spec_get(&self, kind: TextureTransformationKind) -> Option<P> {
        match kind {
            TextureTransformationKind::Cropping => self.cropping,
            TextureTransformationKind::CornersRounding => self.corners_rounding,
        }
    }

    /// Whether a pipeline has been registered for `kind`.
    pub open spec fn is_registered(&self, kind: TextureTransformationKind) -> bool {
        self.spec_get(kind) is Some
    }

    /// Creates an empty registry.
    pub fn new() -> (r: Self)
        ensures
            forall|kind: TextureTransformationKind| !r.is_registered(kind),
    {
        TextureTransformationRegistry { cropping: None, corners_rounding: None }
    }

    /// Registers `pipeline` for `kind`, replacing any earlier registration.
    pub fn register(&mut self, kind: TextureTransformationKind, pipeline: P)
        ensures
            final(self).spec_get(kind) == Some(pipeline),
            forall|other: TextureTransformationKind|
                other != kind ==> final(self).spec_get(other) == old(self).spec_get(other),
    {
        match kind {
            TextureTransformationKind::Cropping => {
                self.cropping = Some(pipeline);
            },
            TextureTransformationKind::CornersRounding => {
                self.corners_rounding = Some(pipeline);
            },
        }
    }

    /// The pipeline that applies `transformation`.
    pub fn get(&self, transformation: &TextureTransformation) -> (r: &P)
        requires
            self.is_registered(transformation.spec_kind()),
        ensures
            Some(*r) == self.spec_get(transformation.spec_kind()),
    {
        self.get_from_typeid(transformation.kind())
    }

    /// The pipeline registered for the variant tag `id`.
    pub fn get_from_typeid(&self, id: TextureTransformationKind) -> (r: &P)
        requires
            self.is_registered(id),
        ensures
            Some(*r) == self.spec_get(id),
    {
        match id {
            TextureTransformationKind::Cropping => self.cropping.as_ref().unwrap(),
            TextureTransformationKind::CornersRounding => self.corners_rounding.as_ref().unwrap(),
        }
    }
}

} // verus!
