use vstd::prelude::*;

use crate::math::Vec2d;
use crate::videos::{VideoPlacement, VideoProperties};

verus! {

/// Crops a video to a rectangular region of its frame.
///
/// The region is given relative to the full frame, in thousandths of the
/// respective extent: a `top_left` of `(100, 100)` with a `crop_size` of
/// `(500, 250)` keeps half the width and a quarter of the height, starting a
/// tenth of the way in from the top-left corner. When `transform_position` is
/// set, the placement position is shifted so the cropped region stays where
/// the region appeared inside the uncropped placement.
#[derive(Clone, Copy, Debug, PartialEq, Eq, Structural)]
pub struct Cropping {
    pub top_left: Vec2d<u32>,
    pub crop_size: Vec2d<u32>,
    pub transform_position: bool,
}

impl Cropping {
    /// Builds a cropping effect from its relative region.
    pub fn new(top_left: Vec2d<u32>, crop_size: Vec2d<u32>, transform_position: bool) -> (r: Self)
        ensures
            r == (Cropping { top_left, crop_size, transform_position }),
    {
        Cropping { top_left, crop_size, transform_position }
    }
}

/// Rounds the corners of a video.
///
/// `video_width` and `video_height` are shader parameters in pixels; they are
/// filled in from the placement size the upstream chain produces, since the
/// radius has to be judged against the dimensions after any cropping.
#[derive(Clone, Copy, Debug, PartialEq, Eq, Structural)]
pub struct CornersRounding {
    pub corner_rounding_radius: u32,
    pub video_width: u32,
    pub video_height: u32,
}

/// The closed set of per-stream effects a transformation chain can hold.
///
/// Each effect is a pure function from video properties to video properties,
/// together with the parameters its GPU pipeline consumes. Effects are
/// applied in chain order: each stage's output properties become the next
/// stage's input.
#[derive(Clone, Copy, Debug, PartialEq, Eq, Structural)]
pub enum TextureTransformation {
    Cropping(Cropping),
    CornersRounding(CornersRounding),
}

/// Tags naming each transformation variant; the registry keys GPU pipelines
/// by tag.
#[derive(Clone, Copy, Debug, PartialEq, Eq, Structural)]
pub enum TextureTransformationKind {
    Cropping,
    CornersRounding,
}

impl TextureTransformation {
    /// The tag of this transformation's variant.
    pub open spec fn spec_kind(self) -> TextureTransformationKind {
        match self {
            TextureTransformation::Cropping(_) => TextureTransformationKind::Cropping,
            TextureTransformation::CornersRounding(_) => TextureTransformationKind::CornersRounding,
        }
    }

    /// The tag of this transformation's variant.
    pub fn kind(&self) -> (r: TextureTransformationKind)
        ensures
            r == self.spec_kind(),
    {
        match self {
            TextureTransformation::Cropping(_) => TextureTransformationKind::Cropping,
            TextureTransformation::CornersRounding(_) => TextureTransformationKind::CornersRounding,
        }
    }
}

/// `value` scaled by a ratio given in thousandths, truncating, and saturating
/// at `u32::MAX` for ratios above one.
pub open spec fn spec_scale(value: u32, ratio: u32) -> u32 {
    let exact = (value as int) * (ratio as int) / 1000;
    if exact > u32::MAX {
        u32::MAX
    } else {
        exact as u32
    }
}

/// An offset added to a position, saturating at the bounds of `i32`.
pub open spec fn spec_offset_position(position: i32, offset: u32) -> i32 {
    let exact = position as int + offset as int;
    if exact > i32::MAX {
        i32::MAX
    } else {
        exact as i32
    }
}

fn scale(value: u32, ratio: u32) -> (r: u32)
    ensures
        r == spec_scale(value, ratio),
{
    proof {
        assert((value as int) * (ratio as int) <= (u32::MAX as int) * (u32::MAX as int))
            by (nonlinear_arith)
            requires
                value <= u32::MAX,
                ratio <= u32::MAX,
        ;
    }
    let wide: u64 = (value as u64) * (ratio as u64) / 1000;
    if wide > u32::MAX as u64 {
        u32::MAX
    } else {
        wide as u32
    }
}

fn offset_position(position: i32, offset: u32) -> (r: i32)
    ensures
        r == spec_offset_position(position, offset),
{
    let wide: i64 = position as i64 + offset as i64;
    if wide > i32::MAX as i64 {
        i32::MAX
    } else {
        wide as i32
    }
}

/// The properties a cropping effect produces: resolution and placement size
/// shrink by the crop ratios, and, when requested, the position shifts by the
/// crop origin measured inside the original placement.
pub open spec fn spec_crop(c: Cropping, p: VideoProperties) -> VideoProperties {
    VideoProperties {
        resolution: Vec2d {
            x: spec_scale(p.resolution.x, c.crop_size.x),
            y: spec_scale(p.resolution.y, c.crop_size.y),
        },
        placement: VideoPlacement {
            position: if c.transform_position {
                Vec2d {
                    x: spec_offset_position(p.placement.position.x, spec_scale(p.placement.size.x, c.top_left.x)),
                    y: spec_offset_position(p.placement.position.y, spec_scale(p.placement.size.y, c.top_left.y)),
                }
            } else {
                p.placement.position
            },
            size: Vec2d {
                x: spec_scale(p.placement.size.x, c.crop_size.x),
                y: spec_scale(p.placement.size.y, c.crop_size.y),
            },
            z: p.placement.z,
        },
    }
}

/// What one transformation does to the video properties handed to it.
pub open spec fn spec_transform(t: TextureTransformation, p: VideoProperties) -> VideoProperties {
    match t {
        TextureTransformation::Cropping(c) => spec_crop(c, p),
        TextureTransformation::CornersRounding(_) => p,
    }
}

/// One transformation with its shader parameters filled in from the
/// properties its stage receives: corner rounding records the pixel
/// dimensions it will be judged against; cropping carries no derived state.
pub open spec fn spec_fill(t: TextureTransformation, p: VideoProperties) -> TextureTransformation {
    match t {
        TextureTransformation::Cropping(c) => TextureTransformation::Cropping(c),
        TextureTransformation::CornersRounding(cr) => TextureTransformation::CornersRounding(
            CornersRounding {
                corner_rounding_radius: cr.corner_rounding_radius,
                video_width: p.placement.size.x,
                video_height: p.placement.size.y,
            },
        ),
    }
}

/// The whole chain with every stage's parameters filled in, each stage seeing
/// the properties produced by the stages before it.
pub open spec fn fill_chain(chain: Seq<TextureTransformation>, p: VideoProperties) -> Seq<
    TextureTransformation,
>
    decreases chain.len(),
{
    if chain.len() == 0 {
        chain
    } else {
        seq![spec_fill(chain[0], p)] + fill_chain(chain.drop_first(), spec_transform(chain[0], p))
    }
}

/// The cumulative effect of the whole chain on the given properties, applied
/// in list order.
pub open spec fn apply_chain(chain: Seq<TextureTransformation>, p: VideoProperties) -> VideoProperties
    decreases chain.len(),
{
    if chain.len() == 0 {
        p
    } else {
        apply_chain(chain.drop_first(), spec_transform(chain[0], p))
    }
}

/// Filling a stage's parameters never changes what the stage does to the
/// properties, so the chain's cumulative effect is unaffected by filling.
pub proof fn lemma_fill_chain_preserves_apply(chain: Seq<TextureTransformation>, p: VideoProperties)
    ensures
        apply_chain(fill_chain(chain, p), p) == apply_chain(chain, p),
    decreases chain.len(),
{
    if chain.len() == 0 {
    } else {
        let filled = fill_chain(chain, p);
        assert(filled[0] == spec_fill(chain[0], p));
        assert(filled.drop_first() =~= fill_chain(chain.drop_first(), spec_transform(chain[0], p)));
        assert(spec_transform(spec_fill(chain[0], p), p) == spec_transform(chain[0], p));
        lemma_fill_chain_preserves_apply(chain.drop_first(), spec_transform(chain[0], p));
    }
}

/// Filling parameters twice from the same upstream properties is the same as
/// filling them once.
pub proof fn lemma_fill_chain_idempotent(chain: Seq<TextureTransformation>, p: VideoProperties)
    ensures
        fill_chain(fill_chain(chain, p), p) == fill_chain(chain, p),
    decreases chain.len(),
{
    if chain.len() == 0 {
    } else {
        let filled = fill_chain(chain, p);
        assert(filled[0] == spec_fill(chain[0], p));
        assert(filled.drop_first() =~= fill_chain(chain.drop_first(), spec_transform(chain[0], p)));
        assert(spec_fill(spec_fill(chain[0], p), p) == spec_fill(chain[0], p));
        assert(spec_transform(spec_fill(chain[0], p), p) == spec_transform(chain[0], p));
        lemma_fill_chain_idempotent(chain.drop_first(), spec_transform(chain[0], p));
        assert(fill_chain(filled, p) =~= filled);
    }
}

/// A copy of a transformation chain, stage for stage.
pub fn copy_transformations(chain: &Vec<TextureTransformation>) -> (r: Vec<TextureTransformation>)
    ensures
        r@ == chain@,
{
    let mut copied: Vec<TextureTransformation> = Vec::new();
    let mut i: usize = 0;
    while i < chain.len()
        invariant
            i <= chain@.len(),
            copied@ == chain@.take(i as int),
        decreases chain@.len() - i,
    {
        copied.push(chain[i]);
        proof {
            assert(copied@ =~= chain@.take(i as int + 1));
        }
        i = i + 1;
    }
    proof {
        assert(copied@ =~= chain@);
    }
    copied
}

/// Runs the chain once over `base`: fills every stage's parameters in place
/// and returns the cumulative transformed properties.
pub fn apply_transformations(base: VideoProperties, chain: &mut Vec<TextureTransformation>) -> (r: VideoProperties)
    ensures
        final(chain)@ == fill_chain(old(chain)@, base),
        r == apply_chain(old(chain)@, base),
{
    let ghost c0 = chain@;
    let mut filled: Vec<TextureTransformation> = Vec::new();
    let mut props = base;
    let mut i: usize = 0;
    proof {
        assert(c0.skip(0) =~= c0);
        assert(filled@ + fill_chain(c0, base) =~= fill_chain(c0, base));
    }
    while i < chain.len()
        invariant
            i <= chain@.len(),
            chain@ == c0,
            filled@.len() == i,
            fill_chain(c0, base) == filled@ + fill_chain(c0.skip(i as int), props),
            apply_chain(c0, base) == apply_chain(c0.skip(i as int), props),
        decreases chain@.len() - i,
    {
        let t = chain[i];
        proof {
            assert(c0.skip(i as int).len() > 0);
            assert(c0.skip(i as int)[0] == c0[i as int]);
            assert(c0.skip(i as int).drop_first() =~= c0.skip(i as int + 1));
            assert(filled@.push(spec_fill(t, props)) + fill_chain(c0.skip(i as int + 1), spec_transform(t, props))
                =~= filled@ + (seq![spec_fill(t, props)] + fill_chain(c0.skip(i as int + 1), spec_transform(t, props))));
        }
        let next = match t {
            TextureTransformation::Cropping(c) => {
                let placement = props.placement;
                let resolution = props.resolution;
                VideoProperties {
                    resolution: Vec2d {
                        x: scale(resolution.x, c.crop_size.x),
                        y: scale(resolution.y, c.crop_size.y),
                    },
                    placement: VideoPlacement {
                        position: if c.transform_position {
                            Vec2d {
                                x: offset_position(placement.position.x, scale(placement.size.x, c.top_left.x)),
                                y: offset_position(placement.position.y, scale(placement.size.y, c.top_left.y)),
                            }
                        } else {
                            placement.position
                        },
                        size: Vec2d {
                            x: scale(placement.size.x, c.crop_size.x),
                            y: scale(placement.size.y, c.crop_size.y),
                        },
                        z: placement.z,
                    },
                }
            },
            TextureTransformation::CornersRounding(_) => props,
        };
        let stage = match t {
            TextureTransformation::Cropping(c) => TextureTransformation::Cropping(c),
            TextureTransformation::CornersRounding(cr) => TextureTransformation::CornersRounding(
                CornersRounding {
                    corner_rounding_radius: cr.corner_rounding_radius,
                    video_width: props.placement.size.x,
                    video_height: props.placement.size.y,
                },
            ),
        };
        assert(next == spec_transform(t, props));
        assert(stage == spec_fill(t, props));
        filled.push(stage);
        props = next;
        i = i + 1;
    }
    proof {
        assert(c0.skip(c0.len() as int) =~= Seq::<TextureTransformation>::empty());
        assert(fill_chain(c0, base) =~= filled@);
    }
    *chain = filled;
    props
}

} // verus!
