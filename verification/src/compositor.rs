use vstd::arithmetic::div_mod::{
    lemma_div_is_ordered, lemma_div_is_ordered_by_denominator, lemma_div_pos_is_pos,
    lemma_fundamental_div_mod, lemma_mod_bound,
};
use vstd::prelude::*;

use crate::errors::CompositorError;
use crate::math::Vec2d;
use crate::texture_transformations::{
    apply_chain, copy_transformations, fill_chain, TextureTransformation,
};
use crate::videos::{
    DrawResult, Frame, FrameModel, InputVideo, InputVideoModel, VideoPlacement, VideoProperties,
};

verus! {

/// The pixel format of the raw video buffers crossing the boundary.
#[derive(Clone, Copy, Debug, PartialEq, Eq, Structural)]
pub enum PixelFormat {
    I420,
}

/// The static parameters of the output stream: its resolution, pixel format
/// and frame rate, the latter as a rational number of frames
/// (`framerate_num`) per seconds (`framerate_denom`).
#[derive(Clone, Copy, Debug, PartialEq, Eq, Structural)]
pub struct RawVideo {
    pub width: u32,
    pub height: u32,
    pub pixel_format: PixelFormat,
    pub framerate_num: u64,
    pub framerate_denom: u64,
}

/// The mathematical value of a [`State`].
#[verifier::ext_equal]
pub ghost struct StateModel {
    pub input_videos: Seq<(usize, InputVideoModel)>,
    pub output_caps: RawVideo,
    pub last_pts: Option<u64>,
}

/// The compositor: all registered input streams keyed by their caller-chosen
/// id (kept sorted by id, so iteration order is ascending id), the timestamp
/// of the most recently produced output frame (`None` before the first), and
/// the static output parameters.
pub struct State {
    pub input_videos: Vec<(usize, InputVideo)>,
    pub output_caps: RawVideo,
    pub last_pts: Option<u64>,
}

impl View for State {
    type V = StateModel;

    open spec fn view(&self) -> StateModel {
        StateModel {
            input_videos: self.input_videos@.map_values(|e: (usize, InputVideo)| (e.0, e.1@)),
            output_caps: self.output_caps,
            last_pts: self.last_pts,
        }
    }
}

/// The position of the stream with id `idx`, or `-1` if no such stream is
/// registered.
pub open spec fn find_index(videos: Seq<(usize, InputVideoModel)>, idx: usize) -> int
    decreases videos.len(),
{
    if videos.len() == 0 {
        -1
    } else if videos[0].0 == idx {
        0
    } else {
        let rest = find_index(videos.drop_first(), idx);
        if rest < 0 {
            -1
        } else {
            rest + 1
        }
    }
}

/// Whether a stream with id `idx` is currently registered.
pub open spec fn id_registered(videos: Seq<(usize, InputVideoModel)>, idx: usize) -> bool {
    find_index(videos, idx) >= 0
}

/// The registered stream with id `idx`, if any.
pub open spec fn stream_of(videos: Seq<(usize, InputVideoModel)>, idx: usize) -> Option<
    InputVideoModel,
> {
    if find_index(videos, idx) >= 0 {
        Some(videos[find_index(videos, idx)].1)
    } else {
        None
    }
}

/// What [`find_index`] finds: the first position holding `idx`, every
/// position before it holding some other id; `-1` means no position holds
/// `idx` at all.
pub proof fn lemma_find_index(videos: Seq<(usize, InputVideoModel)>, idx: usize)
    ensures
        find_index(videos, idx) >= -1,
        find_index(videos, idx) == -1 ==> forall|i: int|
            0 <= i < videos.len() ==> (#[trigger] videos[i]).0 != idx,
        find_index(videos, idx) >= 0 ==> {
            let k = find_index(videos, idx);
            &&& k < videos.len()
            &&& videos[k].0 == idx
            &&& forall|i: int| 0 <= i < k ==> (#[trigger] videos[i]).0 != idx
        },
    decreases videos.len(),
{
    if videos.len() == 0 {
    } else if videos[0].0 == idx {
    } else {
        lemma_find_index(videos.drop_first(), idx);
        assert(forall|i: int|
            1 <= i < videos.len() ==> (#[trigger] videos[i]) == videos.drop_first()[i - 1]);
    }
}

/// `videos` with `(idx, m)` inserted in id order: the new entry goes in front
/// of the first entry whose id exceeds `idx`.
pub open spec fn insert_sorted(
    videos: Seq<(usize, InputVideoModel)>,
    idx: usize,
    m: InputVideoModel,
) -> Seq<(usize, InputVideoModel)>
    decreases videos.len(),
{
    if videos.len() == 0 {
        seq![(idx, m)]
    } else if idx < videos[0].0 {
        seq![(idx, m)] + videos
    } else {
        seq![videos[0]] + insert_sorted(videos.drop_first(), idx, m)
    }
}

/// Where ids below `idx` fill exactly the first `p` positions,
/// [`insert_sorted`] splices the new entry in at position `p`.
proof fn lemma_insert_sorted_at(
    videos: Seq<(usize, InputVideoModel)>,
    idx: usize,
    m: InputVideoModel,
    p: int,
)
    requires
        0 <= p <= videos.len(),
        forall|j: int| 0 <= j < p ==> (#[trigger] videos[j]).0 < idx,
        p < videos.len() ==> videos[p].0 > idx,
    ensures
        insert_sorted(videos, idx, m) == videos.subrange(0, p) + seq![(idx, m)] + videos.subrange(
            p,
            videos.len() as int,
        ),
    decreases videos.len(),
{
    if videos.len() == 0 {
        assert(insert_sorted(videos, idx, m) =~= videos.subrange(0, p) + seq![(idx, m)]
            + videos.subrange(p, videos.len() as int));
    } else if p == 0 {
        assert(idx < videos[0].0);
        assert(insert_sorted(videos, idx, m) =~= videos.subrange(0, p) + seq![(idx, m)]
            + videos.subrange(p, videos.len() as int));
    } else {
        assert(videos[0].0 < idx);
        let rest = videos.drop_first();
        assert(forall|j: int| 0 <= j < p - 1 ==> (#[trigger] rest[j]).0 < idx);
        lemma_insert_sorted_at(rest, idx, m, p - 1);
        assert(insert_sorted(videos, idx, m) =~= videos.subrange(0, p) + seq![(idx, m)]
            + videos.subrange(p, videos.len() as int));
    }
}

/// Rounding division upwards.
pub open spec fn spec_ceil_div(a: int, b: int) -> int {
    if a % b == 0 {
        a / b
    } else {
        a / b + 1
    }
}

/// The exact end of the output window that opens at `start` nanoseconds:
/// `start` plus one output frame duration (`denom / num` seconds), rounded up
/// to a whole microsecond.
pub open spec fn spec_interval_end(start: int, num: int, denom: int) -> int {
    spec_ceil_div(start * num + denom * 1_000_000_000, num * 1_000_000) * 1_000_000
}

/// An exact nanosecond count clamped into `u64`.
pub open spec fn clamp_u64(v: int) -> u64 {
    if v > u64::MAX {
        u64::MAX
    } else if v < 0 {
        0
    } else {
        v as u64
    }
}

/// Rounding a nonnegative value up to a multiple of `b` neither goes below
/// the value nor reaches the next multiple.
proof fn lemma_ceil_div_bounds(a: int, b: int)
    requires
        a >= 0,
        b >= 1,
    ensures
        spec_ceil_div(a, b) >= 0,
        spec_ceil_div(a, b) * b >= a,
        spec_ceil_div(a, b) * b < a + b,
{
    lemma_fundamental_div_mod(a, b);
    lemma_mod_bound(a, b);
    lemma_div_pos_is_pos(a, b);
    let q = a / b;
    let r = a % b;
    assert(q * b == a - r) by (nonlinear_arith)
        requires
            a == b * q + r,
    ;
    if r != 0 {
        assert((q + 1) * b == a - r + b) by (nonlinear_arith)
            requires
                a == b * q + r,
        ;
    }
}

/// When the exact window-end arithmetic does not even fit in 128 bits, the
/// window end itself lies beyond `u64`, so clamping to `u64::MAX` is exact.
proof fn lemma_interval_end_above_u64(start: int, num: int, denom: int)
    requires
        0 <= start,
        1 <= num <= u64::MAX,
        1 <= denom,
        start * num + denom * 1_000_000_000 > u128::MAX,
    ensures
        spec_interval_end(start, num, denom) > u64::MAX,
{
    let s = start * num + denom * 1_000_000_000;
    let d = num * 1_000_000;
    assert(d >= 1_000_000);
    lemma_ceil_div_bounds(s, d);
    let c = spec_ceil_div(s, d);
    let e = c * 1_000_000;
    assert(e * num >= s) by (nonlinear_arith)
        requires
            c * d >= s,
            d == num * 1_000_000,
            e == c * 1_000_000,
    ;
    assert(e > u64::MAX) by (nonlinear_arith)
        requires
            e * num >= s,
            s > u128::MAX,
            1 <= num <= u64::MAX,
            e >= 0,
    ;
}

impl StateModel {
    /// The compositor's invariant: a valid frame rate, streams strictly
    /// sorted by id (so ids are unique), and every stream well formed.
    pub open spec fn wf(self) -> bool {
        &&& self.output_caps.framerate_num >= 1
        &&& self.output_caps.framerate_denom >= 1
        &&& forall|i: int, j: int|
            0 <= i < j < self.input_videos.len() ==> (#[trigger] self.input_videos[i]).0 < (
            #[trigger] self.input_videos[j]).0
        &&& forall|i: int|
            0 <= i < self.input_videos.len() ==> (#[trigger] self.input_videos[i]).1.wf()
    }

    /// The current output interval: `None` before the very first tick (no
    /// temporal constraint), otherwise the half-open window that starts at
    /// the last produced timestamp and ends one frame duration later,
    /// rounded up to a whole microsecond and clamped into `u64`.
    pub open spec fn spec_frame_interval(self) -> Option<(u64, u64)> {
        match self.last_pts {
            None => None,
            Some(start) => Some(
                (
                    start,
                    clamp_u64(
                        spec_interval_end(
                            start as int,
                            self.output_caps.framerate_num as int,
                            self.output_caps.framerate_denom as int,
                        ),
                    ),
                ),
            ),
        }
    }

    /// Every registered stream is ready under the current interval.
    pub open spec fn all_ready(self) -> bool {
        forall|i: int|
            0 <= i < self.input_videos.len() ==> (#[trigger] self.input_videos[i]).1.is_ready()
    }
}

impl State {
    /// Creates a compositor with no streams for the given output parameters.
    pub fn new(output_caps: RawVideo) -> (r: State)
        requires
            output_caps.framerate_num >= 1,
            output_caps.framerate_denom >= 1,
        ensures
            r@.input_videos.len() == 0,
            r@.output_caps == output_caps,
            r@.last_pts is None,
            r@.wf(),
    {
        State { input_videos: Vec::new(), output_caps, last_pts: None }
    }

    /// The position of the stream with id `idx` in the stream list, if any.
    fn find_video_index(&self, idx: usize) -> (r: Option<usize>)
        ensures
            match r {
                Some(i) => {
                    &&& i < self@.input_videos.len()
                    &&& self@.input_videos[i as int].0 == idx
                    &&& find_index(self@.input_videos, idx) == i as int
                },
                None => find_index(self@.input_videos, idx) == -1,
            },
    {
        let mut i: usize = 0;
        while i < self.input_videos.len()
            invariant
                i <= self@.input_videos.len(),
                forall|j: int| 0 <= j < i ==> (#[trigger] self@.input_videos[j]).0 != idx,
            decreases self@.input_videos.len() - i,
        {
            if self.input_videos[i].0 == idx {
                proof {
                    lemma_find_index(self@.input_videos, idx);
                    let k = find_index(self@.input_videos, idx);
                    assert(self@.input_videos[i as int].0 == idx);
                    assert(k >= 0);
                    assert(k == i as int);
                }
                return Some(i);
            }
            i = i + 1;
        }
        proof {
            lemma_find_index(self@.input_videos, idx);
            let k = find_index(self@.input_videos, idx);
            if k >= 0 {
                assert(self@.input_videos[k].0 == idx);
            }
        }
        None
    }

    /// A shared borrow of the stream with id `idx`, if one is registered.
    pub fn get_video(&self, idx: usize) -> (r: Option<&InputVideo>)
        ensures
            match r {
                Some(v) => stream_of(self@.input_videos, idx) == Some(v@),
                None => stream_of(self@.input_videos, idx) is None,
            },
    {
        match self.find_video_index(idx) {
            Some(i) => Some(&self.input_videos[i].1),
            None => None,
        }
    }

    /// Appends a frame to the FIFO of stream `idx`; rejects unknown ids.
    pub fn upload_texture(&mut self, idx: usize, frame: Vec<u8>, pts: u64) -> (r: Result<
        (),
        CompositorError,
    >)
        requires
            old(self)@.wf(),
        ensures
            final(self)@.wf(),
            final(self)@.output_caps == old(self)@.output_caps,
            final(self)@.last_pts == old(self)@.last_pts,
            !id_registered(old(self)@.input_videos, idx) ==> {
                &&& r == Err::<(), CompositorError>(CompositorError::UnknownStreamId(idx))
                &&& final(self)@ == old(self)@
            },
            id_registered(old(self)@.input_videos, idx) ==> {
                let k = find_index(old(self)@.input_videos, idx);
                let v0 = old(self)@.input_videos[k].1;
                &&& r == Ok::<(), CompositorError>(())
                &&& final(self)@.input_videos == old(self)@.input_videos.update(
                    k,
                    (
                        idx,
                        InputVideoModel {
                            frames: v0.frames.push(crate::videos::FrameModel { pts, data: frame@ }),
                            ..v0
                        },
                    ),
                )
            },
    {
        proof {
            lemma_find_index(old(self)@.input_videos, idx);
        }
        match self.find_video_index(idx) {
            None => Err(CompositorError::UnknownStreamId(idx)),
            Some(i) => {
                let ghost before = self@.input_videos;
                self.input_videos[i].1.upload_data(frame, pts);
                proof {
                    let k = i as int;
                    assert(self@.input_videos =~= before.update(
                        k,
                        (idx, self@.input_videos[k].1),
                    ));
                }
                Ok(())
            },
        }
    }

    /// True iff every registered stream is ready under the current interval:
    /// each has a buffered frame or has ended. With no streams this is
    /// vacuously true.
    pub fn all_frames_ready(&self) -> (r: bool)
        requires
            self@.wf(),
        ensures
            r == self@.all_ready(),
    {
        let interval = self.frame_interval();
        let mut i: usize = 0;
        while i < self.input_videos.len()
            invariant
                i <= self@.input_videos.len(),
                forall|j: int| 0 <= j < i ==> (#[trigger] self@.input_videos[j]).1.is_ready(),
            decreases self@.input_videos.len() - i,
        {
            if !self.input_videos[i].1.is_frame_ready(interval) {
                proof {
                    assert(!(self@.input_videos[i as int]).1.is_ready());
                }
                return false;
            }
            i = i + 1;
        }
        true
    }

    /// Registers a new stream with id `idx`, an empty frame FIFO and the
    /// given base properties and transformation chain; rejects an id that is
    /// already in use.
    pub fn add_video(
        &mut self,
        idx: usize,
        base_properties: VideoProperties,
        texture_transformations: Vec<TextureTransformation>,
    ) -> (r: Result<(), CompositorError>)
        requires
            old(self)@.wf(),
        ensures
            final(self)@.wf(),
            final(self)@.output_caps == old(self)@.output_caps,
            final(self)@.last_pts == old(self)@.last_pts,
            id_registered(old(self)@.input_videos, idx) ==> {
                &&& r == Err::<(), CompositorError>(CompositorError::DuplicateStreamId(idx))
                &&& final(self)@ == old(self)@
            },
            !id_registered(old(self)@.input_videos, idx) ==> {
                &&& r == Ok::<(), CompositorError>(())
                &&& final(self)@.input_videos == insert_sorted(
                    old(self)@.input_videos,
                    idx,
                    InputVideoModel {
                        frames: Seq::empty(),
                        base_properties,
                        transformed_properties: apply_chain(
                            texture_transformations@,
                            base_properties,
                        ),
                        texture_transformations: fill_chain(
                            texture_transformations@,
                            base_properties,
                        ),
                        ended: false,
                    },
                )
            },
    {
        proof {
            lemma_find_index(old(self)@.input_videos, idx);
        }
        let ghost tx0 = texture_transformations@;
        match self.find_video_index(idx) {
            Some(_) => Err(CompositorError::DuplicateStreamId(idx)),
            None => {
                let ghost before = self@.input_videos;
                let video = InputVideo::new(base_properties, texture_transformations);
                let ghost m = video@;
                proof {
                    assert(m =~= InputVideoModel {
                        frames: Seq::empty(),
                        base_properties,
                        transformed_properties: apply_chain(tx0, base_properties),
                        texture_transformations: fill_chain(tx0, base_properties),
                        ended: false,
                    });
                }
                let mut p: usize = 0;
                while p < self.input_videos.len() && self.input_videos[p].0 < idx
                    invariant
                        p <= self@.input_videos.len(),
                        self@.input_videos == before,
                        forall|j: int| 0 <= j < p ==> (#[trigger] before[j]).0 < idx,
                    decreases self@.input_videos.len() - p,
                {
                    p = p + 1;
                }
                proof {
                    if (p as int) < before.len() {
                        assert(before[p as int].0 != idx);
                        assert(before[p as int].0 > idx);
                    }
                    lemma_insert_sorted_at(before, idx, m, p as int);
                }
                self.input_videos.insert(p, (idx, video));
                proof {
                    let vids = self@.input_videos;
                    assert(vids =~= before.subrange(0, p as int) + seq![(idx, m)]
                        + before.subrange(p as int, before.len() as int));
                    assert(vids == insert_sorted(before, idx, m));
                    assert forall|a: int, b: int| 0 <= a < b < vids.len() implies (
                    #[trigger] vids[a]).0 < (#[trigger] vids[b]).0 by {
                        assert(forall|j: int|
                            0 <= j < before.len() && j >= p ==> (#[trigger] before[j]).0 > idx);
                    }
                    assert(final(self)@.wf());
                }
                Ok(())
            },
        }
    }

    /// Merges the provided fields into the stream's base properties (omitted
    /// fields are preserved), replaces the transformation chain if one is
    /// given, and recomputes the transformed properties; the frame FIFO is
    /// never touched. Rejects unknown ids. With nothing to merge and no new
    /// chain the whole state is unchanged.
    pub fn update_properties(
        &mut self,
        idx: usize,
        resolution: Option<Vec2d<u32>>,
        placement: Option<VideoPlacement>,
        new_texture_transformations: Option<Vec<TextureTransformation>>,
    ) -> (r: Result<(), CompositorError>)
        requires
            old(self)@.wf(),
        ensures
            final(self)@.wf(),
            final(self)@.output_caps == old(self)@.output_caps,
            final(self)@.last_pts == old(self)@.last_pts,
            !id_registered(old(self)@.input_videos, idx) ==> {
                &&& r == Err::<(), CompositorError>(CompositorError::UnknownStreamId(idx))
                &&& final(self)@ == old(self)@
            },
            id_registered(old(self)@.input_videos, idx) ==> {
                let k = find_index(old(self)@.input_videos, idx);
                let v0 = old(self)@.input_videos[k].1;
                let base = merge_properties(v0.base_properties, resolution, placement);
                let chain = match new_texture_transformations {
                    Some(c) => c@,
                    None => v0.texture_transformations,
                };
                &&& r == Ok::<(), CompositorError>(())
                &&& final(self)@.input_videos == old(self)@.input_videos.update(
                    k,
                    (
                        idx,
                        InputVideoModel {
                            frames: v0.frames,
                            base_properties: base,
                            transformed_properties: apply_chain(chain, base),
                            texture_transformations: fill_chain(chain, base),
                            ended: v0.ended,
                        },
                    ),
                )
            },
            (id_registered(old(self)@.input_videos, idx) && resolution is None && placement is None
                && new_texture_transformations is None) ==> final(self)@ == old(self)@,
    {
        proof {
            lemma_find_index(old(self)@.input_videos, idx);
        }
        match self.find_video_index(idx) {
            None => Err(CompositorError::UnknownStreamId(idx)),
            Some(i) => {
                let ghost before = self@.input_videos;
                let ghost k = i as int;
                let ghost v0 = before[k].1;
                let mut base = self.input_videos[i].1.base_properties;
                if let Some(res) = resolution {
                    base.resolution = res;
                }
                if let Some(plc) = placement {
                    base.placement = plc;
                }
                let ghost all_omitted = resolution is None && placement is None
                    && new_texture_transformations is None;
                self.input_videos[i].1.update_properties(base, new_texture_transformations);
                proof {
                    assert(self@.input_videos =~= before.update(
                        k,
                        (idx, self@.input_videos[k].1),
                    ));
                    if all_omitted {
                        assert(v0.wf());
                        assert(self@.input_videos[k].1 == v0);
                        assert(self@.input_videos =~= before);
                        assert(final(self)@ == old(self)@);
                    }
                }
                Ok(())
            },
        }
    }

    /// Evicts the stream with id `idx`, discarding its buffered frames
    /// immediately; rejects unknown ids.
    pub fn remove_video(&mut self, idx: usize) -> (r: Result<(), CompositorError>)
        requires
            old(self)@.wf(),
        ensures
            final(self)@.wf(),
            final(self)@.output_caps == old(self)@.output_caps,
            final(self)@.last_pts == old(self)@.last_pts,
            !id_registered(old(self)@.input_videos, idx) ==> {
                &&& r == Err::<(), CompositorError>(CompositorError::UnknownStreamId(idx))
                &&& final(self)@ == old(self)@
            },
            id_registered(old(self)@.input_videos, idx) ==> {
                let k = find_index(old(self)@.input_videos, idx);
                &&& r == Ok::<(), CompositorError>(())
                &&& final(self)@.input_videos == old(self)@.input_videos.remove(k)
            },
    {
        proof {
            lemma_find_index(old(self)@.input_videos, idx);
        }
        match self.find_video_index(idx) {
            None => Err(CompositorError::UnknownStreamId(idx)),
            Some(i) => {
                let ghost before = self@.input_videos;
                let _ = self.input_videos.remove(i);
                proof {
                    assert(self@.input_videos =~= before.remove(i as int));
                }
                Ok(())
            },
        }
    }

    /// Marks the stream with id `idx` ended; its buffered frames remain
    /// eligible to render until drained. Rejects unknown ids.
    pub fn send_end_of_stream(&mut self, idx: usize) -> (r: Result<(), CompositorError>)
        requires
            old(self)@.wf(),
        ensures
            final(self)@.wf(),
            final(self)@.output_caps == old(self)@.output_caps,
            final(self)@.last_pts == old(self)@.last_pts,
            !id_registered(old(self)@.input_videos, idx) ==> {
                &&& r == Err::<(), CompositorError>(CompositorError::UnknownStreamId(idx))
                &&& final(self)@ == old(self)@
            },
            id_registered(old(self)@.input_videos, idx) ==> {
                let k = find_index(old(self)@.input_videos, idx);
                let v0 = old(self)@.input_videos[k].1;
                &&& r == Ok::<(), CompositorError>(())
                &&& final(self)@.input_videos == old(self)@.input_videos.update(
                    k,
                    (idx, InputVideoModel { ended: true, ..v0 }),
                )
            },
    {
        proof {
            lemma_find_index(old(self)@.input_videos, idx);
        }
        match self.find_video_index(idx) {
            None => Err(CompositorError::UnknownStreamId(idx)),
            Some(i) => {
                let ghost before = self@.input_videos;
                self.input_videos[i].1.send_end_of_stream();
                proof {
                    assert(self@.input_videos =~= before.update(
                        i as int,
                        (idx, self@.input_videos[i as int].1),
                    ));
                }
                Ok(())
            },
        }
    }

    /// The current output interval `[start, end)` in nanoseconds, or `None`
    /// before the first tick. The end is the last produced timestamp plus
    /// one frame duration, rounded up to a whole microsecond; arithmetic
    /// that leaves `u64` saturates at `u64::MAX`.
    pub fn frame_interval(&self) -> (r: Option<(u64, u64)>)
        requires
            self@.wf(),
        ensures
            r == self@.spec_frame_interval(),
    {
        match self.last_pts {
            None => None,
            Some(start) => {
                let num = self.output_caps.framerate_num;
                let denom = self.output_caps.framerate_denom;
                let ghost end_exact: int = spec_interval_end(
                    start as int,
                    num as int,
                    denom as int,
                );
                proof {
                    assert((start as int) * (num as int) <= (u64::MAX as int) * (
                    u64::MAX as int)) by (nonlinear_arith)
                        requires
                            start <= u64::MAX,
                            num <= u64::MAX,
                    ;
                }
                let q: u128 = (start as u128) * (num as u128);
                let dur: u128 = (denom as u128) * 1_000_000_000;
                let d: u128 = (num as u128) * 1_000_000;
                let ghost s_exact: int = (start as int) * (num as int) + (denom as int)
                    * 1_000_000_000;
                let end: u64 = match q.checked_add(dur) {
                    None => {
                        proof {
                            lemma_interval_end_above_u64(start as int, num as int, denom as int);
                        }
                        u64::MAX
                    },
                    Some(s) => {
                        proof {
                            assert(d >= 1_000_000);
                        }
                        let quo = s / d;
                        let rem = s % d;
                        let c: u128 = if rem == 0 {
                            quo
                        } else {
                            proof {
                                lemma_div_is_ordered_by_denominator(
                                    s as int,
                                    1_000_000,
                                    d as int,
                                );
                                lemma_div_is_ordered(s as int, u128::MAX as int, 1_000_000);
                            }
                            quo + 1
                        };
                        proof {
                            assert(c == spec_ceil_div(s_exact, (num as int) * 1_000_000));
                        }
                        match c.checked_mul(1_000_000) {
                            None => {
                                proof {
                                    assert(end_exact == (c as int) * 1_000_000);
                                }
                                u64::MAX
                            },
                            Some(e) => {
                                proof {
                                    assert(end_exact == (c as int) * 1_000_000);
                                    assert(e as int == end_exact);
                                }
                                if e > u64::MAX as u128 {
                                    u64::MAX
                                } else {
                                    e as u64
                                }
                            },
                        }
                    },
                };
                proof {
                    assert(end == clamp_u64(end_exact));
                }
                Some((start, end))
            },
        }
    }
}

/// One draw issued during a tick: which stream, the frame to draw, and the
/// geometry and transformation parameters to draw it with. A tick hands the
/// rendering backend these commands in back-to-front order (descending `z`).
pub struct DrawCommand {
    pub video_idx: usize,
    pub frame: Frame,
    pub properties: VideoProperties,
    pub texture_transformations: Vec<TextureTransformation>,
}

/// The mathematical value of a [`DrawCommand`].
#[verifier::ext_equal]
pub ghost struct DrawCommandModel {
    pub video_idx: usize,
    pub frame: FrameModel,
    pub properties: VideoProperties,
    pub texture_transformations: Seq<TextureTransformation>,
}

impl View for DrawCommand {
    type V = DrawCommandModel;

    open spec fn view(&self) -> DrawCommandModel {
        DrawCommandModel {
            video_idx: self.video_idx,
            frame: self.frame@,
            properties: self.properties,
            texture_transformations: self.texture_transformations@,
        }
    }
}

/// The `z` ordering key of the stream at position `j`.
pub open spec fn z_at(videos: Seq<(usize, InputVideoModel)>, j: int) -> u32 {
    videos[j].1.transformed_properties.placement.z
}

/// What one stream contributes to the registry after a tick: nothing when it
/// is drained and evicted, otherwise its advanced (and, when rendered,
/// popped) self.
pub open spec fn tick_one(e: (usize, InputVideoModel), interval: Option<(u64, u64)>) -> Seq<
    (usize, InputVideoModel),
> {
    let adv = e.1.advanced(interval);
    if adv.outcome(interval) is EndOfStream {
        Seq::empty()
    } else {
        seq![(e.0, adv.after_tick(interval))]
    }
}

/// The stream registry once one tick is over: every stream advanced,
/// rendered streams popped by one frame, drained ended streams evicted,
/// relative order kept.
pub open spec fn tick_videos(
    videos: Seq<(usize, InputVideoModel)>,
    interval: Option<(u64, u64)>,
) -> Seq<(usize, InputVideoModel)>
    decreases videos.len(),
{
    if videos.len() == 0 {
        Seq::empty()
    } else {
        tick_one(videos[0], interval) + tick_videos(videos.drop_first(), interval)
    }
}

/// [`tick_videos`] distributes over appending one stream at the back.
proof fn lemma_tick_videos_push(
    videos: Seq<(usize, InputVideoModel)>,
    e: (usize, InputVideoModel),
    interval: Option<(u64, u64)>,
)
    ensures
        tick_videos(videos.push(e), interval) == tick_videos(videos, interval) + tick_one(
            e,
            interval,
        ),
    decreases videos.len(),
{
    if videos.len() == 0 {
        assert(videos.push(e)[0] == e);
        assert(videos.push(e).drop_first() =~= Seq::<(usize, InputVideoModel)>::empty());
        assert(tick_videos(videos.push(e), interval) == tick_one(e, interval) + tick_videos(
            videos.push(e).drop_first(),
            interval,
        ));
        assert(tick_videos(videos.push(e).drop_first(), interval) == Seq::<(
            usize,
            InputVideoModel,
        )>::empty());
        assert(tick_videos(videos, interval) == Seq::<(usize, InputVideoModel)>::empty());
        assert(tick_videos(videos.push(e), interval) =~= tick_videos(videos, interval) + tick_one(
            e,
            interval,
        ));
    } else {
        assert(videos.push(e)[0] == videos[0]);
        assert(videos.push(e).drop_first() =~= videos.drop_first().push(e));
        lemma_tick_videos_push(videos.drop_first(), e, interval);
        assert(tick_videos(videos.push(e), interval) == tick_one(videos[0], interval) + tick_videos(
            videos.drop_first().push(e),
            interval,
        ));
        assert(tick_videos(videos.drop_first().push(e), interval) == tick_videos(
            videos.drop_first(),
            interval,
        ) + tick_one(e, interval));
        assert(tick_videos(videos, interval) == tick_one(videos[0], interval) + tick_videos(
            videos.drop_first(),
            interval,
        ));
        assert(tick_one(videos[0], interval) + (tick_videos(videos.drop_first(), interval)
            + tick_one(e, interval)) =~= (tick_one(videos[0], interval) + tick_videos(
            videos.drop_first(),
            interval,
        )) + tick_one(e, interval));
    }
}

/// In a registry with strictly increasing ids, the id at position `j` is
/// found exactly at position `j`.
pub proof fn lemma_find_index_of(videos: Seq<(usize, InputVideoModel)>, j: int)
    requires
        0 <= j < videos.len(),
        forall|a: int, b: int|
            0 <= a < b < videos.len() ==> (#[trigger] videos[a]).0 < (#[trigger] videos[b]).0,
    ensures
        find_index(videos, videos[j].0) == j,
{
    lemma_find_index(videos, videos[j].0);
    let k = find_index(videos, videos[j].0);
    if k == -1 {
        assert(videos[j].0 != videos[j].0);
    } else {
        if k < j {
            assert(videos[k].0 < videos[j].0);
        }
        if k > j {
            assert(videos[j].0 < videos[k].0);
        }
    }
}

/// A ticked registry keeps ids strictly increasing (bounded below by the
/// first old id) and every stream well formed: advancing and popping touch
/// only the FIFO, never the properties.
proof fn lemma_tick_videos_sorted(videos: Seq<(usize, InputVideoModel)>, interval: Option<(u64, u64)>)
    requires
        forall|a: int, b: int|
            0 <= a < b < videos.len() ==> (#[trigger] videos[a]).0 < (#[trigger] videos[b]).0,
        forall|a: int| 0 <= a < videos.len() ==> (#[trigger] videos[a]).1.wf(),
    ensures
        forall|t1: int, t2: int|
            0 <= t1 < t2 < tick_videos(videos, interval).len() ==> (#[trigger] tick_videos(
                videos,
                interval,
            )[t1]).0 < (#[trigger] tick_videos(videos, interval)[t2]).0,
        forall|t: int|
            0 <= t < tick_videos(videos, interval).len() ==> (#[trigger] tick_videos(
                videos,
                interval,
            )[t]).1.wf(),
        forall|t: int|
            0 <= t < tick_videos(videos, interval).len() && videos.len() > 0 ==> (
            #[trigger] tick_videos(videos, interval)[t]).0 >= videos[0].0,
    decreases videos.len(),
{
    let tv = tick_videos(videos, interval);
    if videos.len() == 0 {
    } else {
        let rest = videos.drop_first();
        let head = tick_one(videos[0], interval);
        let tr = tick_videos(rest, interval);
        assert(forall|i: int| 0 <= i < rest.len() ==> (#[trigger] rest[i]) == videos[i + 1]);
        lemma_tick_videos_sorted(rest, interval);
        assert(tv == head + tr);
        assert forall|t: int| 0 <= t < tv.len() implies (#[trigger] tv[t]).1.wf() && tv[t].0
            >= videos[0].0 by {
            if t < head.len() {
                assert(tv[t] == (videos[0].0, videos[0].1.advanced(interval).after_tick(interval)));
                assert(videos[0].1.wf());
            } else {
                assert(tv[t] == tr[t - head.len()]);
                assert(rest.len() > 0);
                assert(tr[t - head.len()].0 >= rest[0].0);
                assert(videos[0].0 < videos[1].0);
            }
        }
        assert forall|t1: int, t2: int| 0 <= t1 < t2 < tv.len() implies (#[trigger] tv[t1]).0 < (
        #[trigger] tv[t2]).0 by {
            if t1 >= head.len() {
                assert(tv[t1] == tr[t1 - head.len()]);
                assert(tv[t2] == tr[t2 - head.len()]);
            } else {
                assert(tv[t1].0 == videos[0].0);
                assert(tv[t2] == tr[t2 - head.len()]);
                assert(rest.len() > 0);
                assert(tr[t2 - head.len()].0 >= rest[0].0);
                assert(videos[0].0 < videos[1].0);
            }
        }
    }
}

/// A stream that is ended and drained once its FIFO is advanced leaves no
/// entry in the ticked registry: its id is gone.
proof fn lemma_tick_videos_absent(videos: Seq<(usize, InputVideoModel)>, interval: Option<(u64, u64)>)
    requires
        forall|a: int, b: int|
            0 <= a < b < videos.len() ==> (#[trigger] videos[a]).0 < (#[trigger] videos[b]).0,
        forall|a: int| 0 <= a < videos.len() ==> (#[trigger] videos[a]).1.wf(),
    ensures
        forall|i: int, t: int|
            0 <= i < videos.len() && 0 <= t < tick_videos(videos, interval).len() && (
            #[trigger] videos[i]).1.advanced(interval).outcome(interval) is EndOfStream ==> (
            #[trigger] tick_videos(videos, interval)[t]).0 != videos[i].0,
    decreases videos.len(),
{
    let tv = tick_videos(videos, interval);
    if videos.len() == 0 {
    } else {
        let rest = videos.drop_first();
        let head = tick_one(videos[0], interval);
        let tr = tick_videos(rest, interval);
        assert(forall|i: int| 0 <= i < rest.len() ==> (#[trigger] rest[i]) == videos[i + 1]);
        lemma_tick_videos_absent(rest, interval);
        lemma_tick_videos_sorted(rest, interval);
        assert(tv == head + tr);
        assert forall|i: int, t: int|
            0 <= i < videos.len() && 0 <= t < tv.len() && (#[trigger] videos[i]).1.advanced(
                interval,
            ).outcome(interval) is EndOfStream implies (#[trigger] tv[t]).0 != videos[i].0 by {
            if i == 0 {
                assert(head.len() == 0);
                assert(tv[t] == tr[t]);
                assert(rest.len() > 0);
                assert(tr[t].0 >= rest[0].0);
                assert(videos[0].0 < videos[1].0);
            } else {
                if t < head.len() {
                    assert(tv[t].0 == videos[0].0);
                    assert(videos[0].0 < videos[i].0);
                } else {
                    assert(tv[t] == tr[t - head.len()]);
                    assert(rest[i - 1] == videos[i]);
                }
            }
        }
    }
}

/// The claim a draw command makes: position `j` of the advanced registry was
/// decided `Rendered`, and the command carries that stream's id, front
/// frame, transformed properties and transformation parameters.
pub open spec fn cmd_from(
    c: DrawCommandModel,
    advanced: Seq<(usize, InputVideoModel)>,
    interval: Option<(u64, u64)>,
    j: int,
) -> bool {
    &&& 0 <= j < advanced.len()
    &&& c.video_idx == advanced[j].0
    &&& advanced[j].1.outcome(interval) == DrawResult::Rendered(c.frame.pts)
    &&& advanced[j].1.frames.len() > 0
    &&& c.frame == advanced[j].1.frames[0]
    &&& c.properties == advanced[j].1.transformed_properties
    &&& c.texture_transformations == advanced[j].1.texture_transformations
}

/// Some position of `order` holds the value `v`.
pub open spec fn covered(order: Seq<usize>, v: int) -> bool {
    exists|k: int| 0 <= k < order.len() && (#[trigger] order[k]) as int == v
}

/// Whether `ids` holds `id`.
fn contains_id(ids: &Vec<usize>, id: usize) -> (r: bool)
    ensures
        r == ids@.contains(id),
{
    let mut i: usize = 0;
    while i < ids.len()
        invariant
            i <= ids@.len(),
            forall|j: int| 0 <= j < i ==> (#[trigger] ids@[j]) != id,
        decreases ids@.len() - i,
    {
        if ids[i] == id {
            proof {
                assert(ids@.contains(id));
            }
            return true;
        }
        i = i + 1;
    }
    proof {
        assert(!ids@.contains(id));
    }
    false
}

impl State {
    /// Runs the staleness cleanup on every stream (see
    /// [`InputVideo::remove_stale_frames`]).
    #[verifier::loop_isolation(false)]
    fn advance_all(&mut self, interval: Option<(u64, u64)>)
        ensures
            final(self)@.output_caps == old(self)@.output_caps,
            final(self)@.last_pts == old(self)@.last_pts,
            final(self)@.input_videos.len() == old(self)@.input_videos.len(),
            forall|j: int|
                0 <= j < old(self)@.input_videos.len() ==> #[trigger] final(self)@.input_videos[j]
                    == ((
                old(self)@.input_videos[j].0,
                old(self)@.input_videos[j].1.advanced(interval),
                )),
    {
        let ghost vexec0 = self.input_videos@;
        let n = self.input_videos.len();
        let mut advanced: Vec<(usize, InputVideo)> = Vec::new();
        let mut c: usize = 0;
        proof {
            assert(self.input_videos@ =~= vexec0.skip(0));
        }
        while c < n
            invariant
                c <= n,
                self.output_caps == old(self).output_caps,
                self.last_pts == old(self).last_pts,
                self.input_videos@ == vexec0.skip(c as int),
                advanced@.len() == c,
                forall|j: int|
                    0 <= j < c ==> (#[trigger] advanced@[j]).0 == vexec0[j].0 && advanced@[j].1@
                        == vexec0[j].1@.advanced(interval),
            decreases n - c,
        {
            let mut pair = self.input_videos.remove(0);
            proof {
                assert(vexec0.skip(c as int)[0] == vexec0[c as int]);
                assert(self.input_videos@ =~= vexec0.skip(c as int + 1));
            }
            pair.1.remove_stale_frames(interval);
            advanced.push(pair);
            c = c + 1;
        }
        self.input_videos = advanced;
        proof {
            assert forall|j: int| 0 <= j < n implies #[trigger] self@.input_videos[j] == ((
            old(self)@.input_videos[j].0,
            old(self)@.input_videos[j].1.advanced(interval),
            )) by {
                assert(self.input_videos@[j].0 == vexec0[j].0);
                assert(self.input_videos@[j].1@ == vexec0[j].1@.advanced(interval));
            }
        }
    }

    /// The stream positions in compositing order: descending `z` of the
    /// transformed properties, ties broken by position, every position
    /// appearing exactly once.
    #[verifier::loop_isolation(false)]
    fn z_order(&self) -> (r: Vec<usize>)
        ensures
            r@.len() == self@.input_videos.len(),
            forall|k: int| 0 <= k < r@.len() ==> (#[trigger] r@[k]) < r@.len(),
            forall|k1: int, k2: int|
                0 <= k1 < k2 < r@.len() ==> (#[trigger] r@[k1]) != (#[trigger] r@[k2]),
            forall|v: int| 0 <= v < r@.len() ==> #[trigger] covered(r@, v),
            forall|k1: int, k2: int|
                0 <= k1 < k2 < r@.len() ==> z_at(self@.input_videos, (#[trigger] r@[k1]) as int)
                    >= z_at(self@.input_videos, (#[trigger] r@[k2]) as int),
    {
        let ghost m = self@.input_videos;
        let n = self.input_videos.len();
        let mut sorted: Vec<usize> = Vec::new();
        let mut t: usize = 0;
        while t < n
            invariant
                t <= n,
                sorted@.len() == t,
                forall|k: int| 0 <= k < t ==> (#[trigger] sorted@[k]) < t,
                forall|k1: int, k2: int|
                    0 <= k1 < k2 < t ==> (#[trigger] sorted@[k1]) != (#[trigger] sorted@[k2]),
                forall|v: int| 0 <= v < t ==> #[trigger] covered(sorted@, v),
                forall|k1: int, k2: int|
                    0 <= k1 < k2 < t ==> z_at(m, (#[trigger] sorted@[k1]) as int) >= z_at(
                        m,
                        (#[trigger] sorted@[k2]) as int,
                    ),
            decreases n - t,
        {
            let zt = self.input_videos[t].1.transformed_properties.placement.z;
            proof {
                assert(zt == z_at(m, t as int));
            }
            let mut p: usize = 0;
            while p < sorted.len() && self.input_videos[sorted[p]].1.transformed_properties.placement.z
                >= zt
                invariant
                    p <= sorted@.len(),
                    forall|k: int| 0 <= k < p ==> z_at(m, (#[trigger] sorted@[k]) as int) >= zt,
                decreases sorted@.len() - p,
            {
                p = p + 1;
            }
            let ghost sorted0 = sorted@;
            sorted.insert(p, t);
            proof {
                assert(forall|k: int| 0 <= k < p ==> #[trigger] sorted@[k] == sorted0[k]);
                assert(sorted@[p as int] == t);
                assert(forall|k: int|
                    p < k < sorted@.len() ==> #[trigger] sorted@[k] == sorted0[k - 1]);
                if (p as int) < sorted0.len() {
                    assert(z_at(m, sorted0[p as int] as int) < zt);
                }
                assert forall|v: int| 0 <= v < t + 1 implies #[trigger] covered(sorted@, v) by {
                    if v == t {
                        assert((sorted@[p as int]) as int == v);
                    } else {
                        assert(covered(sorted0, v));
                        let k0 = choose|k0: int|
                            0 <= k0 < sorted0.len() && (#[trigger] sorted0[k0]) as int == v;
                        if k0 < p {
                            assert((sorted@[k0]) as int == v);
                        } else {
                            assert((sorted@[k0 + 1]) as int == v);
                        }
                    }
                }
                assert forall|k1: int, k2: int| 0 <= k1 < k2 < t + 1 implies z_at(
                    m,
                    (#[trigger] sorted@[k1]) as int,
                ) >= z_at(m, (#[trigger] sorted@[k2]) as int) by {
                    if k2 < p {
                    } else if k1 < p && k2 == p {
                    } else if k1 < p && k2 > p {
                        assert(sorted@[k2] == sorted0[k2 - 1]);
                        if k2 - 1 > p {
                            assert(z_at(m, sorted0[k2 - 1] as int) <= z_at(
                                m,
                                sorted0[p as int] as int,
                            ));
                        }
                    } else if k1 == p {
                        assert(sorted@[k2] == sorted0[k2 - 1]);
                        if k2 - 1 > p {
                            assert(z_at(m, sorted0[k2 - 1] as int) <= z_at(
                                m,
                                sorted0[p as int] as int,
                            ));
                        }
                    } else {
                        assert(sorted@[k1] == sorted0[k1 - 1]);
                        assert(sorted@[k2] == sorted0[k2 - 1]);
                    }
                }
            }
            t = t + 1;
        }
        sorted
    }

    /// Visits every stream in the given back-to-front order and decides what
    /// it contributes this tick: collects the draw commands and the produced
    /// timestamp (the maximum rendered timestamp, `0` if nothing rendered),
    /// pops each rendered stream's front frame, and reports which streams
    /// are ended and drained.
    #[verifier::loop_isolation(false)]
    #[verifier::rlimit(100)]
    fn decide_all(&mut self, interval: Option<(u64, u64)>, order: &Vec<usize>) -> (r: (
        u64,
        Vec<DrawCommand>,
        Vec<usize>,
    ))
        requires
            order@.len() == old(self)@.input_videos.len(),
            forall|k: int| 0 <= k < order@.len() ==> (#[trigger] order@[k]) < order@.len(),
            forall|k1: int, k2: int|
                0 <= k1 < k2 < order@.len() ==> (#[trigger] order@[k1]) != (#[trigger] order@[k2]),
            forall|v: int| 0 <= v < order@.len() ==> #[trigger] covered(order@, v),
            forall|k1: int, k2: int|
                0 <= k1 < k2 < order@.len() ==> z_at(
                    old(self)@.input_videos,
                    (#[trigger] order@[k1]) as int,
                ) >= z_at(old(self)@.input_videos, (#[trigger] order@[k2]) as int),
            forall|a: int, b: int|
                0 <= a < b < old(self)@.input_videos.len() ==> (#[trigger] old(
                    self,
                )@.input_videos[a]).0 < (#[trigger] old(self)@.input_videos[b]).0,
        ensures
            final(self)@.output_caps == old(self)@.output_caps,
            final(self)@.last_pts == old(self)@.last_pts,
            final(self)@.input_videos.len() == old(self)@.input_videos.len(),
            forall|j: int|
                0 <= j < old(self)@.input_videos.len() ==> #[trigger] final(self)@.input_videos[j]
                    == ((
                old(self)@.input_videos[j].0,
                old(self)@.input_videos[j].1.after_tick(interval),
                )),
            forall|c: int|
                0 <= c < r.1@.len() ==> cmd_from(
                    (#[trigger] r.1@[c])@,
                    old(self)@.input_videos,
                    interval,
                    find_index(old(self)@.input_videos, r.1@[c]@.video_idx),
                ),
            forall|j: int|
                0 <= j < old(self)@.input_videos.len() && (#[trigger] old(
                    self,
                )@.input_videos[j]).1.outcome(interval) is Rendered ==> exists|c: int|
                    0 <= c < r.1@.len() && (#[trigger] r.1@[c])@.video_idx == old(
                        self,
                    )@.input_videos[j].0,
            forall|c1: int, c2: int|
                0 <= c1 < c2 < r.1@.len() ==> (#[trigger] r.1@[c1])@.video_idx != (
                #[trigger] r.1@[c2])@.video_idx,
            forall|c1: int, c2: int|
                0 <= c1 < c2 < r.1@.len() ==> (#[trigger] r.1@[c1])@.properties.placement.z >= (
                #[trigger] r.1@[c2])@.properties.placement.z,
            r.1@.len() == 0 ==> r.0 == 0,
            forall|c: int| 0 <= c < r.1@.len() ==> (#[trigger] r.1@[c])@.frame.pts <= r.0,
            r.1@.len() > 0 ==> exists|c: int|
                0 <= c < r.1@.len() && (#[trigger] r.1@[c])@.frame.pts == r.0,
            forall|j: int|
                0 <= j < old(self)@.input_videos.len() ==> ((#[trigger] old(
                    self,
                )@.input_videos[j]).1.outcome(interval) is EndOfStream <==> r.2@.contains(
                    old(self)@.input_videos[j].0,
                )),
    {
        let ghost m = self@.input_videos;
        let n = self.input_videos.len();
        let mut cmds: Vec<DrawCommand> = Vec::new();
        let mut pts: u64 = 0;
        let mut ended_ids: Vec<usize> = Vec::new();
        let ghost mut slots: Seq<int> = Seq::empty();
        let mut k: usize = 0;
        while k < n
            invariant
                k <= n,
                self@.input_videos.len() == n,
                self@.output_caps == old(self)@.output_caps,
                self@.last_pts == old(self)@.last_pts,
                slots.len() == cmds@.len(),
                forall|c1: int, c2: int|
                    0 <= c1 < c2 < slots.len() ==> #[trigger] slots[c1] < #[trigger] slots[c2],
                forall|c: int| 0 <= c < slots.len() ==> 0 <= #[trigger] slots[c] < k,
                forall|c: int|
                    0 <= c < slots.len() ==> cmd_from(
                        (#[trigger] cmds@[c])@,
                        m,
                        interval,
                        order@[slots[c]] as int,
                    ),
                forall|kk: int|
                    0 <= kk < k && m[(#[trigger] order@[kk]) as int].1.outcome(
                        interval,
                    ) is Rendered ==> exists|c: int|
                        0 <= c < slots.len() && #[trigger] slots[c] == kk,
                forall|kk: int|
                    0 <= kk < k ==> #[trigger] self@.input_videos[order@[kk] as int] == ((
                    m[order@[kk] as int].0,
                    m[order@[kk] as int].1.after_tick(interval),
                    )),
                forall|j: int|
                    0 <= j < n && (forall|kk: int|
                        0 <= kk < k ==> (#[trigger] order@[kk]) as int != j)
                        ==> #[trigger] self@.input_videos[j] == m[j],
                forall|c: int| 0 <= c < cmds@.len() ==> (#[trigger] cmds@[c])@.frame.pts <= pts,
                cmds@.len() == 0 ==> pts == 0,
                cmds@.len() > 0 ==> exists|c: int|
                    0 <= c < cmds@.len() && (#[trigger] cmds@[c])@.frame.pts == pts,
                forall|e: int|
                    0 <= e < ended_ids@.len() ==> exists|kk: int|
                        0 <= kk < k && #[trigger] ended_ids@[e] == m[order@[kk] as int].0
                            && m[order@[kk] as int].1.outcome(interval) is EndOfStream,
                forall|kk: int|
                    0 <= kk < k && m[(#[trigger] order@[kk]) as int].1.outcome(
                        interval,
                    ) is EndOfStream ==> ended_ids@.contains(m[order@[kk] as int].0),
            decreases n - k,
        {
            let j = order[k];
            proof {
                assert(forall|kk: int|
                    0 <= kk < k ==> (#[trigger] order@[kk]) != order@[k as int]);
                assert(self@.input_videos[j as int] == m[j as int]);
            }
            let ghost mstate = self@.input_videos;
            let ghost ended_before = ended_ids@;
            let mut pair = self.input_videos.remove(j);
            proof {
                assert(mstate[j as int] == (pair.0, pair.1@));
                assert((pair.0, pair.1@) == m[j as int]);
            }
            let res = pair.1.select(interval);
            match res {
                DrawResult::Rendered(ts) => {
                    let id = pair.0;
                    let props = pair.1.transformed_properties;
                    let txs = copy_transformations(&pair.1.texture_transformations);
                    let frame = pair.1.pop_frame();
                    let ghost cmds0 = cmds@;
                    let ghost pts0 = pts;
                    if ts > pts {
                        pts = ts;
                    }
                    let cmd = DrawCommand {
                        video_idx: id,
                        frame,
                        properties: props,
                        texture_transformations: txs,
                    };
                    let ghost slots0 = slots;
                    proof {
                        assert(cmd_from(cmd@, m, interval, j as int));
                        slots = slots.push(k as int);
                    }
                    cmds.push(cmd);
                    proof {
                        if pts == ts {
                            assert((cmds@[cmds@.len() - 1])@.frame.pts == pts);
                        } else {
                            let c0 = choose|c0: int|
                                0 <= c0 < cmds0.len() && (#[trigger] cmds0[c0])@.frame.pts == pts0;
                            assert((cmds@[c0])@.frame.pts == pts);
                        }
                        assert forall|kk: int|
                            0 <= kk < k + 1 && m[(#[trigger] order@[kk]) as int].1.outcome(
                                interval,
                            ) is Rendered implies exists|c: int|
                            0 <= c < slots.len() && #[trigger] slots[c] == kk by {
                            if kk == k {
                                assert(slots[slots.len() - 1] == kk);
                            } else {
                                let c0 = choose|c0: int|
                                    0 <= c0 < slots0.len() && #[trigger] slots0[c0] == kk;
                                assert(slots[c0] == kk);
                            }
                        }
                    }
                },
                DrawResult::NotRendered => {
                    proof {
                        assert(m[j as int].1.after_tick(interval) == m[j as int].1);
                    }
                },
                DrawResult::EndOfStream => {
                    let ghost ended0 = ended_ids@;
                    ended_ids.push(pair.0);
                    proof {
                        assert(m[j as int].1.after_tick(interval) == m[j as int].1);
                        assert forall|e: int| 0 <= e < ended_ids@.len() implies exists|kk: int|
                            0 <= kk < k + 1 && #[trigger] ended_ids@[e] == m[order@[kk] as int].0
                                && m[order@[kk] as int].1.outcome(interval) is EndOfStream by {
                            if e < ended0.len() {
                                assert(ended_ids@[e] == ended0[e]);
                                let kk0 = choose|kk0: int|
                                    0 <= kk0 < k && #[trigger] ended0[e] == m[order@[
                                        kk0] as int].0 && m[order@[kk0] as int].1.outcome(
                                        interval,
                                    ) is EndOfStream;
                                assert(ended_ids@[e] == m[order@[kk0] as int].0);
                            } else {
                                assert(ended_ids@[e] == m[order@[k as int] as int].0);
                                assert(m[order@[k as int] as int].1.outcome(
                                    interval,
                                ) is EndOfStream);
                            }
                        }
                        assert forall|kk: int|
                            0 <= kk < k + 1 && m[(#[trigger] order@[kk]) as int].1.outcome(
                                interval,
                            ) is EndOfStream implies ended_ids@.contains(
                            m[order@[kk] as int].0,
                        ) by {
                            if kk == k {
                                assert(ended_ids@[ended_ids@.len() - 1] == m[order@[
                                    kk] as int].0);
                            } else {
                                let w = choose|w: int|
                                    0 <= w < ended0.len() && ended0[w] == m[order@[kk] as int].0;
                                assert(ended_ids@[w] == m[order@[kk] as int].0);
                            }
                        }
                    }
                },
            }
            let ghost newm = (pair.0, pair.1@);
            self.input_videos.insert(j, pair);
            proof {
                assert(self@.input_videos =~= mstate.remove(j as int).insert(j as int, newm));
                assert(self@.input_videos =~= mstate.update(j as int, newm));
                assert(newm == (m[j as int].0, m[j as int].1.after_tick(interval)));
                assert forall|kk: int| 0 <= kk < k + 1 implies #[trigger] self@.input_videos[
                    order@[kk] as int] == ((
                m[order@[kk] as int].0,
                m[order@[kk] as int].1.after_tick(interval),
                )) by {
                    if kk < k {
                        assert(order@[kk] != order@[k as int]);
                        assert(self@.input_videos[order@[kk] as int] == mstate[order@[
                            kk] as int]);
                    } else {
                        assert(self@.input_videos[j as int] == newm);
                    }
                }
                assert forall|jj: int|
                    0 <= jj < n && (forall|kk: int|
                        0 <= kk < k + 1 ==> (#[trigger] order@[kk]) as int != jj)
                        implies #[trigger] self@.input_videos[jj] == m[jj] by {
                    assert((order@[k as int]) as int != jj);
                    assert(self@.input_videos[jj] == mstate[jj]);
                    assert(forall|kk: int| 0 <= kk < k ==> (#[trigger] order@[kk]) as int != jj);
                }
                assert forall|e: int| 0 <= e < ended_ids@.len() implies exists|kk: int|
                    0 <= kk < k + 1 && #[trigger] ended_ids@[e] == m[order@[kk] as int].0
                        && m[order@[kk] as int].1.outcome(interval) is EndOfStream by {
                    if e < ended_before.len() {
                        assert(ended_ids@[e] == ended_before[e]);
                        let kk0 = choose|kk0: int|
                            0 <= kk0 < k && #[trigger] ended_before[e] == m[order@[
                                kk0] as int].0 && m[order@[kk0] as int].1.outcome(
                                interval,
                            ) is EndOfStream;
                        assert(ended_ids@[e] == m[order@[kk0] as int].0);
                        assert(m[order@[kk0] as int].1.outcome(interval) is EndOfStream);
                    } else {
                        assert(ended_ids@[e] == m[order@[k as int] as int].0);
                        assert(m[order@[k as int] as int].1.outcome(interval) is EndOfStream);
                    }
                }
            }
            k = k + 1;
        }
        proof {
            // every position was visited once, so the whole registry ticked
            assert forall|j: int| 0 <= j < n implies #[trigger] self@.input_videos[j] == ((
            m[j].0,
            m[j].1.after_tick(interval),
            )) by {
                assert(covered(order@, j));
                let kk = choose|kk: int|
                    0 <= kk < order@.len() && (#[trigger] order@[kk]) as int == j;
                assert(self@.input_videos[order@[kk] as int] == (
                    m[order@[kk] as int].0,
                    m[order@[kk] as int].1.after_tick(interval),
                ));
            }
            // a stream is reported ended iff its decision was end-of-stream
            assert forall|j: int| 0 <= j < n implies ((#[trigger] m[j]).1.outcome(
                interval,
            ) is EndOfStream <==> ended_ids@.contains(m[j].0)) by {
                assert(covered(order@, j));
                let kk = choose|kk: int|
                    0 <= kk < order@.len() && (#[trigger] order@[kk]) as int == j;
                if m[j].1.outcome(interval) is EndOfStream {
                    assert(ended_ids@.contains(m[order@[kk] as int].0));
                }
                if ended_ids@.contains(m[j].0) {
                    let e = choose|e: int|
                        0 <= e < ended_ids@.len() && ended_ids@[e] == m[j].0;
                    let kk2 = choose|kk2: int|
                        0 <= kk2 < n && #[trigger] ended_ids@[e] == m[order@[kk2] as int].0
                            && m[order@[kk2] as int].1.outcome(interval) is EndOfStream;
                    if order@[kk2] as int != j {
                        assert(m[order@[kk2] as int].0 != m[j].0);
                    }
                }
            }
            // commands: sound, complete, distinct, back to front
            assert forall|c: int| 0 <= c < cmds@.len() implies cmd_from(
                (#[trigger] cmds@[c])@,
                m,
                interval,
                find_index(m, cmds@[c]@.video_idx),
            ) by {
                let j0 = order@[slots[c]] as int;
                assert(cmd_from(cmds@[c]@, m, interval, j0));
                lemma_find_index_of(m, j0);
                assert(find_index(m, cmds@[c]@.video_idx) == j0);
            }
            assert forall|j: int|
                0 <= j < n && (#[trigger] m[j]).1.outcome(interval) is Rendered implies exists|
                c: int,
            |
                0 <= c < cmds@.len() && (#[trigger] cmds@[c])@.video_idx == m[j].0 by {
                assert(covered(order@, j));
                let kk = choose|kk: int|
                    0 <= kk < order@.len() && (#[trigger] order@[kk]) as int == j;
                assert(m[order@[kk] as int].1.outcome(interval) is Rendered);
                let c = choose|c: int| 0 <= c < slots.len() && #[trigger] slots[c] == kk;
                assert(cmd_from(cmds@[c]@, m, interval, order@[slots[c]] as int));
                assert(cmds@[c]@.video_idx == m[j].0);
            }
            assert forall|c1: int, c2: int| 0 <= c1 < c2 < cmds@.len() implies (
            #[trigger] cmds@[c1])@.video_idx != (#[trigger] cmds@[c2])@.video_idx && (
            cmds@[c1])@.properties.placement.z >= (cmds@[c2])@.properties.placement.z by {
                assert(cmd_from(cmds@[c1]@, m, interval, order@[slots[c1]] as int));
                assert(cmd_from(cmds@[c2]@, m, interval, order@[slots[c2]] as int));
                assert(slots[c1] < slots[c2]);
                assert(order@[slots[c1]] != order@[slots[c2]]);
                let j1 = order@[slots[c1]] as int;
                let j2 = order@[slots[c2]] as int;
                if j1 < j2 {
                    assert(m[j1].0 < m[j2].0);
                } else {
                    assert(m[j2].0 < m[j1].0);
                }
                assert(z_at(m, j1) >= z_at(m, j2));
            }
        }
        let result = (pts, cmds, ended_ids);
        proof {
            assert forall|j: int|
                0 <= j < m.len() && (#[trigger] m[j]).1.outcome(interval) is Rendered implies exists|
                c: int,
            |
                0 <= c < result.1@.len() && (#[trigger] result.1@[c])@.video_idx == m[j].0 by {
                let c = choose|c: int|
                    0 <= c < cmds@.len() && (#[trigger] cmds@[c])@.video_idx == m[j].0;
                assert((result.1@[c])@.video_idx == m[j].0);
            }
        }
        result
    }

    /// Rebuilds the registry without the drained ended streams, keeping the
    /// remaining streams in order: the registry becomes exactly the ticked
    /// image of what it held when the tick began.
    #[verifier::loop_isolation(false)]
    fn retain_live(
        &mut self,
        ended_ids: &Vec<usize>,
        Ghost(vids0): Ghost<Seq<(usize, InputVideoModel)>>,
        Ghost(interval): Ghost<Option<(u64, u64)>>,
    )
        requires
            old(self)@.input_videos.len() == vids0.len(),
            forall|j: int|
                0 <= j < vids0.len() ==> #[trigger] old(self)@.input_videos[j] == ((
                vids0[j].0,
                vids0[j].1.advanced(interval).after_tick(interval),
                )),
            forall|j: int|
                0 <= j < vids0.len() ==> ((#[trigger] vids0[j]).1.advanced(interval).outcome(
                    interval,
                ) is EndOfStream <==> ended_ids@.contains(vids0[j].0)),
        ensures
            final(self)@.output_caps == old(self)@.output_caps,
            final(self)@.last_pts == old(self)@.last_pts,
            final(self)@.input_videos == tick_videos(vids0, interval),
    {
        let ghost m2 = self@.input_videos;
        let n = self.input_videos.len();
        let mut kept: Vec<(usize, InputVideo)> = Vec::new();
        let mut consumed: usize = 0;
        proof {
            assert(self@.input_videos =~= m2.skip(0));
            assert(vids0.take(0) =~= Seq::<(usize, InputVideoModel)>::empty());
            assert(kept@.map_values(|e: (usize, InputVideo)| (e.0, e.1@)) =~= tick_videos(
                vids0.take(0),
                interval,
            ));
        }
        while consumed < n
            invariant
                consumed <= n,
                self@.input_videos == m2.skip(consumed as int),
                self@.output_caps == old(self)@.output_caps,
                self@.last_pts == old(self)@.last_pts,
                kept@.map_values(|e: (usize, InputVideo)| (e.0, e.1@)) == tick_videos(
                    vids0.take(consumed as int),
                    interval,
                ),
            decreases n - consumed,
        {
            let ghost kept0 = kept@;
            let ghost mstate = self@.input_videos;
            let pair = self.input_videos.remove(0);
            let keep = !contains_id(ended_ids, pair.0);
            proof {
                assert(m2.skip(consumed as int)[0] == m2[consumed as int]);
                assert(mstate[0] == (pair.0, pair.1@));
                assert((pair.0, pair.1@) == m2[consumed as int]);
                assert(self@.input_videos =~= mstate.remove(0));
                assert(mstate.remove(0) =~= m2.skip(consumed as int + 1));
                lemma_tick_videos_push(vids0.take(consumed as int), vids0[consumed as int], interval);
                assert(vids0.take(consumed as int + 1) =~= vids0.take(consumed as int).push(
                    vids0[consumed as int],
                ));
                assert(keep == !(vids0[consumed as int].1.advanced(interval).outcome(
                    interval,
                ) is EndOfStream));
            }
            if keep {
                kept.push(pair);
                proof {
                    assert(kept@.map_values(|e: (usize, InputVideo)| (e.0, e.1@)) =~= kept0
                        .map_values(|e: (usize, InputVideo)| (e.0, e.1@)).push((pair.0, pair.1@)));
                    assert(tick_one(vids0[consumed as int], interval) =~= seq![
                        m2[consumed as int],
                    ]);
                    assert(kept@.map_values(|e: (usize, InputVideo)| (e.0, e.1@)) =~= tick_videos(
                        vids0.take(consumed as int + 1),
                        interval,
                    ));
                }
            } else {
                proof {
                    assert(tick_one(vids0[consumed as int], interval) =~= Seq::<(
                        usize,
                        InputVideoModel,
                    )>::empty());
                    assert(kept@.map_values(|e: (usize, InputVideo)| (e.0, e.1@)) =~= tick_videos(
                        vids0.take(consumed as int + 1),
                        interval,
                    ));
                }
            }
            consumed = consumed + 1;
        }
        self.input_videos = kept;
        proof {
            assert(vids0.take(n as int) =~= vids0);
        }
    }

    /// Produces one output tick. Every stream's FIFO is advanced past
    /// superseded frames; the streams are visited in descending `z` of their
    /// transformed properties (ties broken by ascending id); each visited
    /// stream contributes its front frame when that frame falls before the
    /// window's end, keeps it when it is too new, or reports end-of-stream
    /// when it is ended and drained. Rendered streams lose the consumed
    /// frame, drained ended streams are evicted, and the produced timestamp —
    /// the maximum rendered timestamp, `0` if nothing rendered — becomes the
    /// new output clock. Returns that timestamp and the draw commands for
    /// the rendering backend, in the order they must be drawn (back to
    /// front).
    #[verifier::rlimit(100)]
    pub fn draw_into(&mut self) -> (r: (u64, Vec<DrawCommand>))
        requires
            old(self)@.wf(),
        ensures
            final(self)@.wf(),
            final(self)@.output_caps == old(self)@.output_caps,
            final(self)@.last_pts == Some(r.0),
            final(self)@.input_videos == tick_videos(
                old(self)@.input_videos,
                old(self)@.spec_frame_interval(),
            ),
            // a stream that has ended and holds nothing renderable is evicted
            forall|i: int|
                0 <= i < old(self)@.input_videos.len() && (#[trigger] old(
                    self,
                )@.input_videos[i]).1.advanced(old(self)@.spec_frame_interval()).outcome(
                    old(self)@.spec_frame_interval(),
                ) is EndOfStream ==> !id_registered(
                    final(self)@.input_videos,
                    old(self)@.input_videos[i].0,
                ),
            // each command renders the front frame of a registered stream
            // that was decided `Rendered`, with that stream's geometry
            forall|c: int|
                0 <= c < r.1@.len() ==> {
                    let vids = old(self)@.input_videos;
                    let itv = old(self)@.spec_frame_interval();
                    let j = find_index(vids, (#[trigger] r.1@[c])@.video_idx);
                    let adv = vids[j].1.advanced(itv);
                    &&& 0 <= j < vids.len()
                    &&& adv.outcome(itv) == DrawResult::Rendered(r.1@[c]@.frame.pts)
                    &&& adv.frames.len() > 0
                    &&& r.1@[c]@.frame == adv.frames[0]
                    &&& r.1@[c]@.properties == vids[j].1.transformed_properties
                    &&& r.1@[c]@.texture_transformations == vids[j].1.texture_transformations
                },
            // every stream decided `Rendered` has a command, and no stream
            // has two
            forall|i: int|
                0 <= i < old(self)@.input_videos.len() && (#[trigger] old(
                    self,
                )@.input_videos[i]).1.advanced(old(self)@.spec_frame_interval()).outcome(
                    old(self)@.spec_frame_interval(),
                ) is Rendered ==> exists|c: int|
                    0 <= c < r.1@.len() && (#[trigger] r.1@[c])@.video_idx == old(
                        self,
                    )@.input_videos[i].0,
            forall|c1: int, c2: int|
                0 <= c1 < c2 < r.1@.len() ==> (#[trigger] r.1@[c1])@.video_idx != (
                #[trigger] r.1@[c2])@.video_idx,
            // back to front: z never increases along the command list, so a
            // stream with strictly greater z is composited strictly earlier
            forall|c1: int, c2: int|
                0 <= c1 < c2 < r.1@.len() ==> (#[trigger] r.1@[c1])@.properties.placement.z >= (
                #[trigger] r.1@[c2])@.properties.placement.z,
            forall|c1: int, c2: int|
                0 <= c1 < r.1@.len() && 0 <= c2 < r.1@.len() && (
                #[trigger] r.1@[c1])@.properties.placement.z > (
                #[trigger] r.1@[c2])@.properties.placement.z ==> c1 < c2,
            // the produced timestamp is the maximum rendered timestamp, or 0
            r.1@.len() == 0 ==> r.0 == 0,
            forall|c: int| 0 <= c < r.1@.len() ==> (#[trigger] r.1@[c])@.frame.pts <= r.0,
            r.1@.len() > 0 ==> exists|c: int|
                0 <= c < r.1@.len() && (#[trigger] r.1@[c])@.frame.pts == r.0,
    {
        let interval = self.frame_interval();
        let ghost itv = old(self)@.spec_frame_interval();
        let ghost vids0 = self@.input_videos;
        self.advance_all(interval);
        let ghost m1 = self@.input_videos;
        proof {
            assert(forall|j: int|
                0 <= j < vids0.len() ==> #[trigger] m1[j] == ((
                vids0[j].0,
                vids0[j].1.advanced(itv),
                )));
            assert(forall|a: int, b: int|
                0 <= a < b < m1.len() ==> (#[trigger] m1[a]).0 < (#[trigger] m1[b]).0);
            assert(forall|j: int| 0 <= j < m1.len() ==> z_at(m1, j) == z_at(vids0, j));
        }
        let order = self.z_order();
        let (pts, cmds, ended_ids) = self.decide_all(interval, &order);
        proof {
            assert forall|j: int| 0 <= j < vids0.len() implies #[trigger] self@.input_videos[j]
                == ((vids0[j].0, vids0[j].1.advanced(itv).after_tick(itv))) by {
                assert(self@.input_videos[j] == (m1[j].0, m1[j].1.after_tick(itv)));
            }
            assert forall|j: int| 0 <= j < vids0.len() implies ((#[trigger] vids0[j]).1.advanced(
                itv,
            ).outcome(itv) is EndOfStream <==> ended_ids@.contains(vids0[j].0)) by {
                assert(m1[j].1 == vids0[j].1.advanced(itv));
            }
        }
        self.retain_live(&ended_ids, Ghost(vids0), Ghost(itv));
        self.last_pts = Some(pts);
        proof {
            let fin = self@.input_videos;
            assert(fin == tick_videos(vids0, itv));
            lemma_tick_videos_sorted(vids0, itv);
            lemma_tick_videos_absent(vids0, itv);

            // eviction of drained ended streams
            assert forall|i: int|
                0 <= i < vids0.len() && (#[trigger] vids0[i]).1.advanced(itv).outcome(
                    itv,
                ) is EndOfStream implies !id_registered(fin, vids0[i].0) by {
                lemma_find_index(fin, vids0[i].0);
                let kf = find_index(fin, vids0[i].0);
                if kf >= 0 {
                    assert(fin[kf].0 == vids0[i].0);
                    assert(fin[kf].0 != vids0[i].0);
                }
            }

            // each command comes from a stream that was decided `Rendered`
            assert forall|c: int| 0 <= c < cmds@.len() implies {
                let j = find_index(vids0, (#[trigger] cmds@[c])@.video_idx);
                let adv = vids0[j].1.advanced(itv);
                &&& 0 <= j < vids0.len()
                &&& adv.outcome(itv) == DrawResult::Rendered(cmds@[c]@.frame.pts)
                &&& adv.frames.len() > 0
                &&& cmds@[c]@.frame == adv.frames[0]
                &&& cmds@[c]@.properties == vids0[j].1.transformed_properties
                &&& cmds@[c]@.texture_transformations == vids0[j].1.texture_transformations
            } by {
                let j0 = find_index(m1, cmds@[c]@.video_idx);
                assert(cmd_from(cmds@[c]@, m1, itv, j0));
                assert(m1[j0] == (vids0[j0].0, vids0[j0].1.advanced(itv)));
                lemma_find_index_of(vids0, j0);
                assert(find_index(vids0, cmds@[c]@.video_idx) == j0);
            }

            // completeness of the command list
            assert forall|i: int|
                0 <= i < vids0.len() && (#[trigger] vids0[i]).1.advanced(itv).outcome(
                    itv,
                ) is Rendered implies exists|c: int|
                0 <= c < cmds@.len() && (#[trigger] cmds@[c])@.video_idx == vids0[i].0 by {
                assert(m1[i].1.outcome(itv) is Rendered);
                let c = choose|c: int|
                    0 <= c < cmds@.len() && (#[trigger] cmds@[c])@.video_idx == m1[i].0;
                assert(cmds@[c]@.video_idx == vids0[i].0);
            }

            // a stream with strictly greater z comes strictly earlier
            assert forall|c1: int, c2: int|
                0 <= c1 < cmds@.len() && 0 <= c2 < cmds@.len() && (
                #[trigger] cmds@[c1])@.properties.placement.z > (
                #[trigger] cmds@[c2])@.properties.placement.z implies c1 < c2 by {
                if c1 > c2 {
                    assert((cmds@[c2])@.properties.placement.z >= (
                    cmds@[c1])@.properties.placement.z);
                }
            }
        }
        (pts, cmds)
    }
}

/// `base` with the provided fields replaced and the omitted ones kept.
pub open spec fn merge_properties(
    base: VideoProperties,
    resolution: Option<Vec2d<u32>>,
    placement: Option<VideoPlacement>,
) -> VideoProperties {
    VideoProperties {
        resolution: match resolution {
            Some(r) => r,
            None => base.resolution,
        },
        placement: match placement {
            Some(p) => p,
            None => base.placement,
        },
    }
}

} // verus!
