use video_compositor::math::Vec2d;
use video_compositor::texture_transformations::{
    CornersRounding, Cropping, TextureTransformation,
};
use video_compositor::videos::{InputVideo, VideoPlacement, VideoProperties};

fn properties() -> VideoProperties {
    VideoProperties {
        resolution: Vec2d { x: 640, y: 360 },
        placement: VideoPlacement {
            position: Vec2d { x: 0, y: 0 },
            size: Vec2d { x: 1280, y: 720 },
            z: 0,
        },
    }
}

#[test]
fn readiness_is_nonempty_or_ended_whatever_the_interval() {
    let mut video = InputVideo::new(properties(), Vec::new());

    // empty and live: never ready, under any interval
    assert!(!video.is_frame_ready(None));
    assert!(!video.is_frame_ready(Some((0, 1_000_000_000))));

    // one buffered frame, even far in the future, makes it ready
    video.upload_data(vec![1, 2, 3], 5_000_000_000);
    assert!(video.is_frame_ready(None));
    assert!(video.is_frame_ready(Some((0, 1_000_000_000))));

    // an ended stream is ready even with nothing buffered
    let mut ended = InputVideo::new(properties(), Vec::new());
    ended.send_end_of_stream();
    assert!(ended.is_frame_ready(None));
    assert!(ended.is_frame_ready(Some((0, 1_000_000_000))));
}

#[test]
fn transformation_chain_is_applied_on_creation() {
    let chain = vec![
        TextureTransformation::Cropping(Cropping::new(
            Vec2d { x: 100, y: 100 },
            Vec2d { x: 500, y: 250 },
            true,
        )),
        TextureTransformation::CornersRounding(CornersRounding {
            corner_rounding_radius: 100,
            video_width: 0,
            video_height: 0,
        }),
    ];
    let video = InputVideo::new(properties(), chain);

    assert_eq!(video.base_properties, properties());
    assert_eq!(
        video.transformed_properties,
        VideoProperties {
            resolution: Vec2d { x: 320, y: 90 },
            placement: VideoPlacement {
                position: Vec2d { x: 128, y: 72 },
                size: Vec2d { x: 640, y: 180 },
                z: 0,
            },
        }
    );
    // corner rounding sees the pixel dimensions the cropping produced
    assert_eq!(
        video.texture_transformations[1],
        TextureTransformation::CornersRounding(CornersRounding {
            corner_rounding_radius: 100,
            video_width: 640,
            video_height: 180,
        })
    );
}

#[test]
fn cropping_without_position_transform_keeps_the_position() {
    let chain = vec![TextureTransformation::Cropping(Cropping::new(
        Vec2d { x: 100, y: 100 },
        Vec2d { x: 500, y: 250 },
        false,
    ))];
    let video = InputVideo::new(properties(), chain);
    assert_eq!(video.transformed_properties.placement.position, Vec2d { x: 0, y: 0 });
    assert_eq!(video.transformed_properties.placement.size, Vec2d { x: 640, y: 180 });
}
