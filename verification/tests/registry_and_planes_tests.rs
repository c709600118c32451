use video_compositor::framebuffers::{buffer_size, plane_dimensions, plane_offset, Plane};
use video_compositor::math::Vec2d;
use video_compositor::registry::TextureTransformationRegistry;
use video_compositor::texture_transformations::{
    CornersRounding, Cropping, TextureTransformation, TextureTransformationKind,
};

#[test]
fn registry_maps_variant_tags_to_pipelines() {
    let mut registry: TextureTransformationRegistry<u32> = TextureTransformationRegistry::new();
    registry.register(TextureTransformationKind::Cropping, 7);
    registry.register(TextureTransformationKind::CornersRounding, 9);

    assert_eq!(
        *registry.get_from_typeid(TextureTransformationKind::Cropping),
        7
    );
    assert_eq!(
        *registry.get_from_typeid(TextureTransformationKind::CornersRounding),
        9
    );

    let cropping = TextureTransformation::Cropping(Cropping::new(
        Vec2d { x: 0, y: 0 },
        Vec2d { x: 1000, y: 1000 },
        false,
    ));
    let corners = TextureTransformation::CornersRounding(CornersRounding {
        corner_rounding_radius: 5,
        video_width: 0,
        video_height: 0,
    });
    assert_eq!(*registry.get(&cropping), 7);
    assert_eq!(*registry.get(&corners), 9);

    // a later registration replaces the earlier pipeline
    registry.register(TextureTransformationKind::Cropping, 11);
    assert_eq!(*registry.get(&cropping), 11);
}

#[test]
fn yuv_plane_layout() {
    // a 4x4 Y plane: 16 luma bytes, then two 2x2 chroma planes
    assert_eq!(plane_offset(Plane::Y, 4, 4), 0);
    assert_eq!(plane_offset(Plane::U, 4, 4), 16);
    assert_eq!(plane_offset(Plane::V, 4, 4), 20);
    assert_eq!(buffer_size(4, 4), 24);

    assert_eq!(plane_dimensions(Plane::Y, 4, 4), (4, 4));
    assert_eq!(plane_dimensions(Plane::U, 4, 4), (2, 2));
    assert_eq!(plane_dimensions(Plane::V, 4, 4), (2, 2));

    assert_eq!(Plane::Y.index(), 0);
    assert_eq!(Plane::U.index(), 1);
    assert_eq!(Plane::V.index(), 2);
}
