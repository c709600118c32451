use video_compositor::compositor::{PixelFormat, RawVideo, State};
use video_compositor::errors::CompositorError;
use video_compositor::math::Vec2d;
use video_compositor::texture_transformations::{
    CornersRounding, Cropping, TextureTransformation,
};
use video_compositor::videos::{VideoPlacement, VideoProperties};

fn frame_bytes() -> Vec<u8> {
    vec![0x30, 0x40, 0x30, 0x40, 0x80, 0xb0]
}

fn caps(width: u32) -> RawVideo {
    RawVideo {
        width,
        height: 2,
        pixel_format: PixelFormat::I420,
        framerate_num: 1,
        framerate_denom: 1,
    }
}

fn properties(x: i32, z: u32) -> VideoProperties {
    VideoProperties {
        resolution: Vec2d { x: 2, y: 2 },
        placement: VideoPlacement {
            position: Vec2d { x, y: 0 },
            size: Vec2d { x: 2, y: 2 },
            z,
        },
    }
}

fn setup_videos(n: usize) -> State {
    let mut compositor = State::new(caps(2 * n as u32));
    for i in 0..n {
        compositor
            .add_video(i, properties(2 * i as i32, 500), Vec::new())
            .unwrap();
    }
    compositor
}

#[test]
fn ends_streams_on_eos() {
    let mut compositor = setup_videos(2);

    compositor.upload_texture(0, frame_bytes(), 0).unwrap();
    compositor.upload_texture(1, frame_bytes(), 0).unwrap();

    assert!(compositor.all_frames_ready());

    compositor.draw_into();

    compositor.send_end_of_stream(1).unwrap();
    compositor.upload_texture(0, frame_bytes(), 500_000_000).unwrap();

    assert!(compositor.all_frames_ready());
}

#[test]
fn is_ready_after_receiving_all_frames() {
    let mut compositor = setup_videos(3);

    compositor.upload_texture(0, frame_bytes(), 0).unwrap();
    assert!(!compositor.all_frames_ready());

    compositor.upload_texture(1, frame_bytes(), 0).unwrap();
    assert!(!compositor.all_frames_ready());

    compositor.upload_texture(2, frame_bytes(), 0).unwrap();
    assert!(compositor.all_frames_ready());

    compositor.draw_into();

    assert!(!compositor.all_frames_ready());

    compositor.upload_texture(0, frame_bytes(), 500_000_000).unwrap();
    assert!(!compositor.all_frames_ready());

    compositor.upload_texture(0, frame_bytes(), 1_500_000_000).unwrap();
    assert!(!compositor.all_frames_ready());

    compositor.upload_texture(1, frame_bytes(), 500_000_000).unwrap();
    assert!(!compositor.all_frames_ready());

    compositor.upload_texture(2, frame_bytes(), 500_000_000).unwrap();
    assert!(compositor.all_frames_ready());
}

#[test]
fn just_added_video_with_too_new_frames() -> Result<(), CompositorError> {
    let mut compositor = setup_videos(2);

    // for this test we need one stream that was already composited and one
    // that was not, so stream 1 is removed and re-added after the first tick
    compositor.remove_video(1)?;

    compositor.upload_texture(0, frame_bytes(), 0)?;
    assert!(compositor.all_frames_ready());
    compositor.draw_into();

    compositor.add_video(1, properties(2, 0), Vec::new())?;

    compositor.upload_texture(0, frame_bytes(), 500_000_000)?;
    // stream 1 was just added. Before the compositor sees any of its frames,
    // it has to assume they may be needed for composing the current frame.
    assert!(!compositor.all_frames_ready());

    compositor.upload_texture(1, frame_bytes(), 1_250_000_000)?;
    // now that the compositor has seen a stream 1 frame and decided it is
    // too new to be used yet, it must not block on stream 1.
    assert!(compositor.all_frames_ready());

    compositor.draw_into();
    // now a frame for stream 0 is missing.
    assert!(!compositor.all_frames_ready());

    compositor.upload_texture(0, frame_bytes(), 1_250_000_000)?;
    // now streams 0 and 1 have the same timestamps
    assert!(compositor.all_frames_ready());

    compositor.draw_into();
    // now there are no frames
    assert!(!compositor.all_frames_ready());

    compositor.upload_texture(0, frame_bytes(), 2_000_000_000)?;
    // now the compositor has to block waiting for stream 1 frames.
    assert!(!compositor.all_frames_ready());

    Ok(())
}

#[test]
fn update_properties_test() -> Result<(), CompositorError> {
    let mut compositor = setup_videos(4);
    let texture_transformations: Vec<TextureTransformation> = vec![
        TextureTransformation::Cropping(Cropping::new(
            Vec2d { x: 100, y: 100 },
            Vec2d { x: 500, y: 250 },
            true,
        )),
        TextureTransformation::CornersRounding(CornersRounding {
            corner_rounding_radius: 100,
            video_width: 0,
            video_height: 0,
        }),
    ];

    let transformed_texture_transformations: Vec<TextureTransformation> = vec![
        TextureTransformation::Cropping(Cropping::new(
            Vec2d { x: 100, y: 100 },
            Vec2d { x: 500, y: 250 },
            true,
        )),
        TextureTransformation::CornersRounding(CornersRounding {
            corner_rounding_radius: 100,
            video_width: 640,
            video_height: 180,
        }),
    ];

    assert!(compositor
        .update_properties(
            0,
            Some(Vec2d { x: 640, y: 360 }),
            Some(VideoPlacement {
                position: Vec2d { x: 0, y: 0 },
                size: Vec2d { x: 1280, y: 720 },
                z: 0,
            }),
            Some(texture_transformations),
        )
        .is_ok());

    assert_eq!(
        compositor.get_video(0).unwrap().base_properties,
        // base properties must not be affected by transformations
        VideoProperties {
            resolution: Vec2d { x: 640, y: 360 },
            placement: VideoPlacement {
                position: Vec2d { x: 0, y: 0 },
                size: Vec2d { x: 1280, y: 720 },
                z: 0,
            },
        }
    );

    assert_eq!(
        compositor.get_video(0).unwrap().transformed_properties,
        VideoProperties {
            resolution: Vec2d { x: 320, y: 90 },
            placement: VideoPlacement {
                // cropping shifts the position so the cropped region keeps
                // its place on the output frame
                position: Vec2d { x: 128, y: 72 },
                // cropping shrinks the size of the video
                size: Vec2d { x: 640, y: 180 },
                z: 0,
            },
        }
    );

    for (index, transformed_texture_transformation) in
        transformed_texture_transformations.iter().enumerate()
    {
        assert_eq!(
            compositor
                .get_video(0)
                .unwrap()
                .texture_transformations
                .get(index)
                .unwrap(),
            transformed_texture_transformation
        );
    }

    Ok(())
}

#[test]
fn stream_management_errors() {
    let mut compositor = setup_videos(1);

    assert_eq!(
        compositor.upload_texture(7, frame_bytes(), 0),
        Err(CompositorError::UnknownStreamId(7))
    );
    assert_eq!(
        compositor.update_properties(3, None, None, None),
        Err(CompositorError::UnknownStreamId(3))
    );
    assert_eq!(
        compositor.remove_video(9),
        Err(CompositorError::UnknownStreamId(9))
    );
    assert_eq!(
        compositor.send_end_of_stream(4),
        Err(CompositorError::UnknownStreamId(4))
    );
    assert_eq!(
        compositor.add_video(0, properties(0, 500), Vec::new()),
        Err(CompositorError::DuplicateStreamId(0))
    );

    // ids may be reused after removal
    compositor.remove_video(0).unwrap();
    assert!(compositor.add_video(0, properties(0, 500), Vec::new()).is_ok());
}

#[test]
fn frame_interval_is_rounded_up_to_microseconds() {
    let mut thirty_fps = State::new(RawVideo {
        width: 2,
        height: 2,
        pixel_format: PixelFormat::I420,
        framerate_num: 30,
        framerate_denom: 1,
    });
    assert_eq!(thirty_fps.frame_interval(), None);

    thirty_fps.add_video(0, properties(0, 500), Vec::new()).unwrap();
    thirty_fps.upload_texture(0, frame_bytes(), 0).unwrap();
    let (pts, cmds) = thirty_fps.draw_into();
    assert_eq!(pts, 0);
    assert_eq!(cmds.len(), 1);
    // one thirtieth of a second is 33_333_333.3 ns, rounded up to the next
    // whole microsecond: 34_000_000 ns
    assert_eq!(thirty_fps.frame_interval(), Some((0, 34_000_000)));

    let mut one_fps = setup_videos(1);
    one_fps.upload_texture(0, frame_bytes(), 0).unwrap();
    one_fps.draw_into();
    assert_eq!(one_fps.frame_interval(), Some((0, 1_000_000_000)));
}

#[test]
fn update_with_all_fields_omitted_changes_nothing() {
    let mut compositor = setup_videos(1);
    compositor
        .update_properties(
            0,
            Some(Vec2d { x: 640, y: 360 }),
            None,
            Some(vec![TextureTransformation::Cropping(Cropping::new(
                Vec2d { x: 0, y: 0 },
                Vec2d { x: 500, y: 500 },
                false,
            ))]),
        )
        .unwrap();
    compositor.upload_texture(0, frame_bytes(), 42).unwrap();

    let base_before = compositor.get_video(0).unwrap().base_properties;
    let transformed_before = compositor.get_video(0).unwrap().transformed_properties;
    let chain_before = compositor.get_video(0).unwrap().texture_transformations.clone();

    assert!(compositor.update_properties(0, None, None, None).is_ok());

    let video = compositor.get_video(0).unwrap();
    assert_eq!(video.base_properties, base_before);
    assert_eq!(video.transformed_properties, transformed_before);
    assert_eq!(video.texture_transformations, chain_before);
    assert_eq!(video.front_pts(), Some(42));
    assert_eq!(video.frames.len(), 1);
}

#[test]
fn ended_stream_drains_and_is_evicted() {
    let mut compositor = setup_videos(1);
    compositor.upload_texture(0, frame_bytes(), 0).unwrap();
    compositor.send_end_of_stream(0).unwrap();

    // the buffered frame is still eligible to render
    let (pts, cmds) = compositor.draw_into();
    assert_eq!(pts, 0);
    assert_eq!(cmds.len(), 1);
    assert!(compositor.get_video(0).is_some());

    // drained now: the next tick reports end-of-stream and evicts it
    let (_, cmds) = compositor.draw_into();
    assert!(cmds.is_empty());
    assert!(compositor.get_video(0).is_none());
}

#[test]
fn compositing_goes_back_to_front_by_z() {
    let mut compositor = State::new(caps(4));
    compositor.add_video(0, properties(0, 200), Vec::new()).unwrap();
    compositor.add_video(1, properties(2, 800), Vec::new()).unwrap();
    compositor.upload_texture(0, frame_bytes(), 10).unwrap();
    compositor.upload_texture(1, frame_bytes(), 20).unwrap();

    let (pts, cmds) = compositor.draw_into();
    assert_eq!(pts, 20);
    assert_eq!(cmds.len(), 2);
    // the highest z is drawn first, the lowest last (visually topmost)
    assert_eq!(cmds[0].video_idx, 1);
    assert_eq!(cmds[1].video_idx, 0);
    assert!(cmds[0].properties.placement.z >= cmds[1].properties.placement.z);
}

#[test]
fn draw_commands_carry_the_frame_bytes() {
    let mut compositor = setup_videos(1);
    compositor.upload_texture(0, vec![1, 2, 3, 4, 5, 6], 7).unwrap();

    let (pts, cmds) = compositor.draw_into();
    assert_eq!(pts, 7);
    assert_eq!(cmds.len(), 1);
    assert_eq!(cmds[0].frame.pts, 7);
    assert_eq!(cmds[0].frame.data, vec![1, 2, 3, 4, 5, 6]);
    assert_eq!(cmds[0].properties, properties(0, 500));
    // the rendered frame was consumed
    assert_eq!(compositor.get_video(0).unwrap().front_pts(), None);
}

#[test]
fn superseded_frames_are_dropped_before_selection() {
    let mut compositor = setup_videos(1);
    compositor.upload_texture(0, frame_bytes(), 0).unwrap();
    compositor.draw_into();
    // window is now [0, 1_000_000_000)

    compositor.upload_texture(0, frame_bytes(), 100).unwrap();
    compositor.upload_texture(0, frame_bytes(), 200).unwrap();
    compositor.upload_texture(0, frame_bytes(), 300).unwrap();
    compositor.upload_texture(0, frame_bytes(), 2_000_000_000).unwrap();

    let (pts, cmds) = compositor.draw_into();
    // the two oldest frames are superseded by the one at 300 ns, which is
    // the newest frame still inside the window; the far-future frame stays
    assert_eq!(pts, 300);
    assert_eq!(cmds.len(), 1);
    assert_eq!(
        compositor.get_video(0).unwrap().front_pts(),
        Some(2_000_000_000)
    );
}

#[test]
fn too_new_frame_is_retained_not_rendered() {
    let mut compositor = setup_videos(1);
    compositor.upload_texture(0, frame_bytes(), 0).unwrap();
    compositor.draw_into();
    // window is now [0, 1_000_000_000); a frame exactly at the end is too new
    compositor.upload_texture(0, frame_bytes(), 1_000_000_000).unwrap();

    let (pts, cmds) = compositor.draw_into();
    assert_eq!(pts, 0);
    assert!(cmds.is_empty());
    assert_eq!(
        compositor.get_video(0).unwrap().front_pts(),
        Some(1_000_000_000)
    );
}
