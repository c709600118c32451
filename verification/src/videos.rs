use vstd::prelude::*;

use crate::math::Vec2d;
use crate::texture_transformations::{
    apply_chain, apply_transformations, fill_chain, lemma_fill_chain_idempotent,
    lemma_fill_chain_preserves_apply, TextureTransformation,
};

verus! {

/// Where a video is placed on the output frame.
///
/// `z` is a back-to-front ordering key in thousandths of the unit interval
/// (not a camera depth): streams are composited in descending `z` order, so
/// with per-pixel alpha blending the stream with the lowest `z` ends up
/// visually on top. Ties among equal `z` values are broken by iteration
/// order, which is stable but deliberately left unspecified.
#[derive(Clone, Copy, Debug, PartialEq, Eq, Structural)]
pub struct VideoPlacement {
    /// Position of the top-left corner in pixels.
    pub position: Vec2d<i32>,
    /// Size on the output frame in pixels.
    pub size: Vec2d<u32>,
    /// Back-to-front ordering key, in thousandths.
    pub z: u32,
}

/// A stream's input resolution together with its placement on the output.
#[derive(Clone, Copy, Debug, PartialEq, Eq, Structural)]
pub struct VideoProperties {
    /// Resolution of the decoded input frames in pixels.
    pub resolution: Vec2d<u32>,
    /// Placement on the output frame.
    pub placement: VideoPlacement,
}

/// One decoded frame: a presentation timestamp in nanoseconds and the raw
/// pixel bytes to upload for it.
pub struct Frame {
    pub pts: u64,
    pub data: Vec<u8>,
}

/// The mathematical value of a [`Frame`].
#[verifier::ext_equal]
pub ghost struct FrameModel {
    pub pts: u64,
    pub data: Seq<u8>,
}

impl View for Frame {
    type V = FrameModel;

    open spec fn view(&self) -> FrameModel {
        FrameModel { pts: self.pts, data: self.data@ }
    }
}

/// What a stream contributed to one output tick.
#[derive(Clone, Copy, Debug, PartialEq, Eq, Structural)]
pub enum DrawResult {
    /// The stream's front frame, carrying this timestamp, is drawn this tick
    /// and consumed afterwards.
    Rendered(u64),
    /// Nothing of this stream is eligible this tick; buffered frames are
    /// kept for a future tick.
    NotRendered,
    /// The stream has ended and is fully drained; the caller must evict it.
    EndOfStream,
}

/// The mathematical value of an [`InputVideo`].
#[verifier::ext_equal]
pub ghost struct InputVideoModel {
    pub frames: Seq<FrameModel>,
    pub base_properties: VideoProperties,
    pub transformed_properties: VideoProperties,
    pub texture_transformations: Seq<TextureTransformation>,
    pub ended: bool,
}

/// One registered input stream: its frame FIFO, the properties the caller
/// set (`base_properties`), the properties after the transformation chain
/// (`transformed_properties`, the only ones compositing reads), the chain
/// itself with its parameters filled in, and the end-of-stream flag.
pub struct InputVideo {
    pub frames: Vec<Frame>,
    pub base_properties: VideoProperties,
    pub transformed_properties: VideoProperties,
    pub texture_transformations: Vec<TextureTransformation>,
    pub ended: bool,
}

impl View for InputVideo {
    type V = InputVideoModel;

    open spec fn view(&self) -> InputVideoModel {
        InputVideoModel {
            frames: self.frames@.map_values(|f: Frame| f@),
            base_properties: self.base_properties,
            transformed_properties: self.transformed_properties,
            texture_transformations: self.texture_transformations@,
            ended: self.ended,
        }
    }
}

/// The front of a frame FIFO after discarding superseded frames for the
/// given output interval: while at least two frames are buffered and the
/// second-oldest still falls before the window's end, the oldest is dropped,
/// since a newer frame within or before the window is strictly more current.
/// On the first-ever tick there is no interval and nothing is discarded.
pub open spec fn advanced_frames(frames: Seq<FrameModel>, interval: Option<(u64, u64)>) -> Seq<
    FrameModel,
>
    decreases frames.len(),
{
    match interval {
        None => frames,
        Some(iv) => if frames.len() >= 2 && frames[1].pts < iv.1 {
            advanced_frames(frames.drop_first(), interval)
        } else {
            frames
        },
    }
}

impl InputVideoModel {
    /// A stream is ready for the current tick iff it holds at least one
    /// buffered frame or has been marked end-of-stream; the interval bounds
    /// play no role in readiness.
    pub open spec fn is_ready(self) -> bool {
        self.frames.len() > 0 || self.ended
    }

    /// The stored transformation parameters and transformed properties are
    /// exactly what recomputing them from the base properties yields.
    pub open spec fn wf(self) -> bool {
        &&& self.texture_transformations == fill_chain(
            self.texture_transformations,
            self.base_properties,
        )
        &&& self.transformed_properties == apply_chain(
            self.texture_transformations,
            self.base_properties,
        )
    }

    /// This stream after the staleness cleanup for `interval`.
    pub open spec fn advanced(self, interval: Option<(u64, u64)>) -> InputVideoModel {
        InputVideoModel { frames: advanced_frames(self.frames, interval), ..self }
    }

    /// The tick decision for a stream whose FIFO has already been advanced:
    /// an empty, ended stream is drained; an empty, live stream contributes
    /// nothing; a front frame at or past the window's end (the window is
    /// half-open, so a frame exactly at the end is too new) is kept for a
    /// future tick; otherwise the front frame is rendered. With no interval
    /// — the first-ever tick — the front frame is taken as it is.
    pub open spec fn outcome(self, interval: Option<(u64, u64)>) -> DrawResult {
        if self.frames.len() == 0 {
            if self.ended {
                DrawResult::EndOfStream
            } else {
                DrawResult::NotRendered
            }
        } else {
            match interval {
                Some(iv) => if self.frames[0].pts >= iv.1 {
                    DrawResult::NotRendered
                } else {
                    DrawResult::Rendered(self.frames[0].pts)
                },
                None => DrawResult::Rendered(self.frames[0].pts),
            }
        }
    }

    /// This stream once the tick is over: rendered streams lose their front
    /// frame, all others are unchanged.
    pub open spec fn after_tick(self, interval: Option<(u64, u64)>) -> InputVideoModel {
        if self.outcome(interval) is Rendered {
            InputVideoModel { frames: self.frames.drop_first(), ..self }
        } else {
            self
        }
    }
}

/// The readiness law: a stream is ready exactly when its FIFO is non-empty
/// or it has ended — equivalently, `is_ready` is false iff the FIFO is empty
/// and the stream is not ended. Consequently a stream is always ready right
/// after a frame is appended, and right after it is marked end-of-stream,
/// whatever state it was in before.
pub proof fn lemma_readiness(v: InputVideoModel, f: FrameModel)
    ensures
        v.is_ready() <==> !(v.frames.len() == 0 && !v.ended),
        (InputVideoModel { frames: v.frames.push(f), ..v }).is_ready(),
        (InputVideoModel { ended: true, ..v }).is_ready(),
{
}

impl InputVideo {
    /// Creates a stream with an empty FIFO, fills the chain's parameters and
    /// computes the transformed properties from the base properties.
    pub fn new(
        base_properties: VideoProperties,
        texture_transformations: Vec<TextureTransformation>,
    ) -> (r: InputVideo)
        ensures
            r@.frames.len() == 0,
            r@.ended == false,
            r@.base_properties == base_properties,
            r@.texture_transformations == fill_chain(texture_transformations@, base_properties),
            r@.transformed_properties == apply_chain(texture_transformations@, base_properties),
            r@.wf(),
    {
        let mut chain = texture_transformations;
        let ghost c0 = chain@;
        let transformed = apply_transformations(base_properties, &mut chain);
        let frames: Vec<Frame> = Vec::new();
        proof {
            lemma_fill_chain_idempotent(c0, base_properties);
            lemma_fill_chain_preserves_apply(c0, base_properties);
            assert(frames@.map_values(|f: Frame| f@) =~= Seq::<FrameModel>::empty());
        }
        InputVideo {
            frames,
            base_properties,
            transformed_properties: transformed,
            texture_transformations: chain,
            ended: false,
        }
    }

    /// Appends a frame to the FIFO; no reordering is performed. Frames are
    /// expected to arrive with non-decreasing timestamps, but a violation
    /// only degrades frame selection, it is never rejected.
    pub fn upload_data(&mut self, data: Vec<u8>, pts: u64)
        ensures
            final(self)@.frames == old(self)@.frames.push(FrameModel { pts, data: data@ }),
            final(self)@.base_properties == old(self)@.base_properties,
            final(self)@.transformed_properties == old(self)@.transformed_properties,
            final(self)@.texture_transformations == old(self)@.texture_transformations,
            final(self)@.ended == old(self)@.ended,
    {
        let ghost f0 = self.frames@;
        let frame = Frame { pts, data };
        proof {
            assert(f0.push(Frame { pts, data: frame.data }).map_values(|f: Frame| f@) =~= f0.map_values(
                |f: Frame| f@,
            ).push(FrameModel { pts, data: frame.data@ }));
        }
        self.frames.push(frame);
    }

    /// Readiness for the current tick: true iff something is buffered or the
    /// stream has ended. The interval is what the decision is nominally made
    /// against, but its bounds cannot matter: an empty, live stream must be
    /// waited for whatever the window, and a buffered frame beyond the
    /// window still means the tick can proceed without this stream.
    #[allow(unused_variables)]
    pub fn is_frame_ready(&self, interval: Option<(u64, u64)>) -> (r: bool)
        ensures
            r == self@.is_ready(),
    {
        self.frames.len() > 0 || self.ended
    }

    /// Marks the stream ended; idempotent. Frames already buffered remain
    /// eligible to render until drained.
    pub fn send_end_of_stream(&mut self)
        ensures
            final(self)@ == (InputVideoModel { ended: true, ..old(self)@ }),
    {
        self.ended = true;
    }

    /// The timestamp of the oldest buffered frame, if any.
    pub fn front_pts(&self) -> (r: Option<u64>)
        ensures
            match r {
                Some(pts) => self@.frames.len() > 0 && pts == self@.frames[0].pts,
                None => self@.frames.len() == 0,
            },
    {
        if self.frames.len() > 0 {
            Some(self.frames[0].pts)
        } else {
            None
        }
    }

    /// Discards superseded frames from the front of the FIFO for the given
    /// output interval (see [`advanced_frames`]).
    pub fn remove_stale_frames(&mut self, interval: Option<(u64, u64)>)
        ensures
            final(self)@ == old(self)@.advanced(interval),
    {
        let ghost m0 = self@;
        if let Some(iv) = interval {
            let end = iv.1;
            while self.frames.len() >= 2 && self.frames[1].pts < end
                invariant
                    advanced_frames(self@.frames, interval) == advanced_frames(m0.frames, interval),
                    self@.base_properties == m0.base_properties,
                    self@.transformed_properties == m0.transformed_properties,
                    self@.texture_transformations == m0.texture_transformations,
                    self@.ended == m0.ended,
                    interval == Some((iv.0, end)),
                decreases self.frames.len(),
            {
                let ghost before = self@.frames;
                let _ = self.frames.remove(0);
                proof {
                    assert(self.frames@.map_values(|f: Frame| f@) =~= before.drop_first());
                    assert(advanced_frames(before, interval) == advanced_frames(
                        before.drop_first(),
                        interval,
                    ));
                }
            }
            proof {
                assert(advanced_frames(self@.frames, interval) == self@.frames);
                assert(final(self)@ =~= old(self)@.advanced(interval));
            }
        } else {
            proof {
                assert(final(self)@ =~= old(self)@.advanced(interval));
            }
        }
    }

    /// Decides what this stream contributes to the current tick, without
    /// consuming anything (see [`InputVideoModel::outcome`]).
    pub fn select(&self, interval: Option<(u64, u64)>) -> (r: DrawResult)
        ensures
            r == self@.outcome(interval),
    {
        if self.frames.len() == 0 {
            if self.ended {
                DrawResult::EndOfStream
            } else {
                DrawResult::NotRendered
            }
        } else {
            let front = self.frames[0].pts;
            match interval {
                Some(iv) => if front >= iv.1 {
                    DrawResult::NotRendered
                } else {
                    DrawResult::Rendered(front)
                },
                None => DrawResult::Rendered(front),
            }
        }
    }

    /// Removes and returns the front frame, once its render has been issued.
    pub fn pop_frame(&mut self) -> (r: Frame)
        requires
            old(self)@.frames.len() > 0,
        ensures
            r@ == old(self)@.frames[0],
            final(self)@.frames == old(self)@.frames.drop_first(),
            final(self)@.base_properties == old(self)@.base_properties,
            final(self)@.transformed_properties == old(self)@.transformed_properties,
            final(self)@.texture_transformations == old(self)@.texture_transformations,
            final(self)@.ended == old(self)@.ended,
    {
        let ghost before = self.frames@;
        let frame = self.frames.remove(0);
        proof {
            assert(self.frames@.map_values(|f: Frame| f@) =~= before.map_values(|f: Frame| f@)
                .drop_first());
        }
        frame
    }

    /// Replaces the base properties (and, when given, the transformation
    /// chain) and recomputes the transformed properties; the frame FIFO and
    /// the end-of-stream flag are untouched.
    pub fn update_properties(
        &mut self,
        base_properties: VideoProperties,
        new_texture_transformations: Option<Vec<TextureTransformation>>,
    )
        ensures
            final(self)@.frames == old(self)@.frames,
            final(self)@.ended == old(self)@.ended,
            final(self)@.base_properties == base_properties,
            ({
                let chain = match new_texture_transformations {
                    Some(c) => c@,
                    None => old(self)@.texture_transformations,
                };
                &&& final(self)@.texture_transformations == fill_chain(chain, base_properties)
                &&& final(self)@.transformed_properties == apply_chain(chain, base_properties)
            }),
            final(self)@.wf(),
    {
        if let Some(chain) = new_texture_transformations {
            self.texture_transformations = chain;
        }
        let ghost c0 = self.texture_transformations@;
        self.base_properties = base_properties;
        let transformed = apply_transformations(base_properties, &mut self.texture_transformations);
        self.transformed_properties = transformed;
        proof {
            lemma_fill_chain_idempotent(c0, base_properties);
            lemma_fill_chain_preserves_apply(c0, base_properties);
        }
    }
}

} // verus!
