use particle_renderer::animation::assemble_animation;
use particle_renderer::bootstrap::ensure_directory_report;
use particle_renderer::bootstrap::DirectoryOutcome;
use particle_renderer::errors::RenderError;
use particle_renderer::frames::explicit_frame_names;
use particle_renderer::frames::frame_file_name;
use particle_renderer::frames::order_frames;
use particle_renderer::frames::parse_frame_name;
use particle_renderer::geometry::EnvironmentBounds;
use particle_renderer::geometry::marker_radius_or_default;
use particle_renderer::geometry::PhysicsParticle;
use particle_renderer::geometry::Vec2f;
use particle_renderer::raster::render_frame;

fn vec2(x: i64, y: i64) -> Vec2f {
    Vec2f { x, y }
}

fn particle_at(x: i64, y: i64) -> PhysicsParticle {
    PhysicsParticle { mass: 1, velocity: vec2(0, 0), position: vec2(x, y) }
}

fn bounds(tlx: i64, tly: i64, w: i64, h: i64) -> EnvironmentBounds {
    EnvironmentBounds { top_left: vec2(tlx, tly), size: vec2(w, h) }
}

fn decode(bytes: &[u8]) -> ril::Image<ril::Rgba> {
    ril::Image::from_bytes_inferred(bytes).expect("frame bytes should decode")
}

#[test]
fn render_dims_match_bounds() {
    let particles = vec![particle_at(5, 5), particle_at(-3, 40)];
    let png = render_frame(5, &particles, &bounds(0, 0, 20, 10)).unwrap();
    let img = decode(&png);
    assert_eq!(img.dimensions(), (20, 10));
}

#[test]
fn render_no_particles_is_pure_background() {
    let png = render_frame(5, &Vec::new(), &bounds(0, 0, 8, 6)).unwrap();
    let img = decode(&png);
    assert_eq!(img.dimensions(), (8, 6));
    for y in 0..6 {
        for x in 0..8 {
            assert_eq!(*img.pixel(x, y), ril::Rgba { r: 0, g: 0, b: 0, a: 255 });
        }
    }
}

#[test]
fn render_anchor_at_viewport_corner() {
    let background = ril::Rgba { r: 0, g: 0, b: 0, a: 255 };
    let marker = ril::Rgba { r: 255, g: 255, b: 255, a: 185 };
    let png = render_frame(5, &vec![particle_at(3, 4)], &bounds(3, 4, 20, 10)).unwrap();
    let img = decode(&png);
    assert_eq!(*img.pixel(0, 0), marker);
    assert_eq!(*img.pixel(5, 0), marker);
    assert_eq!(*img.pixel(0, 5), marker);
    assert_eq!(*img.pixel(4, 4), background);
    assert_eq!(*img.pixel(19, 9), background);
}

#[test]
fn render_keeps_off_canvas_anchor() {
    let background = ril::Rgba { r: 0, g: 0, b: 0, a: 255 };
    let marker = ril::Rgba { r: 255, g: 255, b: 255, a: 185 };
    let png = render_frame(5, &vec![particle_at(-2, 5)], &bounds(0, 0, 20, 10)).unwrap();
    let img = decode(&png);
    assert_eq!(*img.pixel(0, 5), marker);
    assert_eq!(*img.pixel(3, 5), marker);
    assert_eq!(*img.pixel(4, 5), background);
    assert_eq!(*img.pixel(5, 5), background);
}

#[test]
fn render_zero_radius_marks_single_pixel() {
    let background = ril::Rgba { r: 0, g: 0, b: 0, a: 255 };
    let marker = ril::Rgba { r: 255, g: 255, b: 255, a: 185 };
    let png = render_frame(0, &vec![particle_at(10, 5)], &bounds(0, 0, 20, 10)).unwrap();
    let img = decode(&png);
    assert_eq!(*img.pixel(10, 5), marker);
    assert_eq!(*img.pixel(11, 5), background);
    assert_eq!(*img.pixel(10, 6), background);
}

#[test]
fn render_later_particle_covers_overlap() {
    let marker = ril::Rgba { r: 255, g: 255, b: 255, a: 185 };
    let b = bounds(0, 0, 20, 10);
    let two =
        decode(&render_frame(3, &vec![particle_at(10, 5), particle_at(10, 5)], &b).unwrap());
    assert_eq!(*two.pixel(10, 5), marker);
    assert_eq!(*two.pixel(0, 0), ril::Rgba { r: 0, g: 0, b: 0, a: 255 });
}

#[test]
fn render_rejects_invalid_bounds() {
    assert_eq!(
        render_frame(5, &Vec::new(), &bounds(0, 0, 0, 10)),
        Err(RenderError::InvalidBounds)
    );
    assert_eq!(
        render_frame(5, &Vec::new(), &bounds(0, 0, 10, -4)),
        Err(RenderError::InvalidBounds)
    );
}

#[test]
fn parse_accepts_canonical_names() {
    assert_eq!(parse_frame_name(b"frame0.png"), Some(0));
    assert_eq!(parse_frame_name(b"frame2.png"), Some(2));
    assert_eq!(parse_frame_name(b"frame10.png"), Some(10));
    assert_eq!(parse_frame_name(b"frame18446744073709551615.png"), Some(u64::MAX));
}

#[test]
fn parse_accepts_zero_padding() {
    assert_eq!(parse_frame_name(b"frame007.png"), Some(7));
}

#[test]
fn parse_rejects_mismatched_names() {
    assert_eq!(parse_frame_name(b"cover.png"), None);
    assert_eq!(parse_frame_name(b"frame.png"), None);
    assert_eq!(parse_frame_name(b"frame12.gif"), None);
    assert_eq!(parse_frame_name(b"frame1x.png"), None);
    assert_eq!(parse_frame_name(b"Frame1.png"), None);
    assert_eq!(parse_frame_name(b"frame1.png.bak"), None);
    assert_eq!(parse_frame_name(b""), None);
}

#[test]
fn parse_rejects_index_overflow() {
    assert_eq!(parse_frame_name(b"frame18446744073709551616.png"), None);
    assert_eq!(parse_frame_name(b"frame99999999999999999999999.png"), None);
}

#[test]
fn file_names_round_trip() {
    assert_eq!(frame_file_name(0), b"frame0.png".to_vec());
    assert_eq!(frame_file_name(12345), b"frame12345.png".to_vec());
    for i in [0u64, 1, 9, 10, 99, 100, 123456789, u64::MAX] {
        let name = frame_file_name(i);
        assert_eq!(parse_frame_name(&name), Some(i));
    }
}

#[test]
fn explicit_count_requests_exact_names_in_order() {
    let names = explicit_frame_names(3);
    assert_eq!(
        names,
        vec![b"frame0.png".to_vec(), b"frame1.png".to_vec(), b"frame2.png".to_vec()]
    );
    assert_eq!(explicit_frame_names(0), Vec::<Vec<u8>>::new());
}

#[test]
fn directory_listing_sorts_numerically() {
    let listing = vec![
        b"frame2.png".to_vec(),
        b"frame10.png".to_vec(),
        b"frame1.png".to_vec(),
    ];
    let ordered = order_frames(listing).unwrap();
    assert_eq!(
        ordered,
        vec![b"frame1.png".to_vec(), b"frame2.png".to_vec(), b"frame10.png".to_vec()]
    );
}

#[test]
fn directory_listing_keeps_duplicate_indices() {
    let listing = vec![b"frame3.png".to_vec(), b"frame3.png".to_vec()];
    let ordered = order_frames(listing).unwrap();
    assert_eq!(ordered, vec![b"frame3.png".to_vec(), b"frame3.png".to_vec()]);
}

#[test]
fn directory_listing_aborts_on_mismatched_name() {
    let listing = vec![b"frame1.png".to_vec(), b"cover.png".to_vec()];
    assert_eq!(order_frames(listing), Err(RenderError::BadFrameName));
    assert_eq!(order_frames(vec![]), Ok(vec![]));
}

#[test]
fn assemble_encodes_frames_in_order() {
    let b = bounds(0, 0, 20, 10);
    let f1 = render_frame(3, &vec![particle_at(4, 4)], &b).unwrap();
    let f2 = render_frame(3, &vec![particle_at(15, 6)], &b).unwrap();
    let gif = assemble_animation(&vec![f1.clone(), f2.clone()], 30).unwrap();
    assert_eq!(&gif[0..4], &b"GIF8"[..]);
    let swapped = assemble_animation(&vec![f2, f1], 30).unwrap();
    assert_ne!(gif, swapped);
}

#[test]
fn assemble_rejects_empty_and_undecodable_input() {
    assert_eq!(assemble_animation(&Vec::new(), 30), Err(RenderError::EmptySequence));
    let frames = vec![vec![1u8, 2, 3, 4]];
    assert_eq!(assemble_animation(&frames, 30), Err(RenderError::UndecodableFrame));
}

#[test]
fn assemble_aborts_before_later_frames() {
    let b = bounds(0, 0, 20, 10);
    let good = render_frame(3, &vec![particle_at(4, 4)], &b).unwrap();
    let frames = vec![good.clone(), vec![0u8; 10], good];
    assert_eq!(assemble_animation(&frames, 30), Err(RenderError::UndecodableFrame));
}

#[test]
fn marker_radius_defaults_when_unspecified() {
    assert_eq!(marker_radius_or_default(Some(9)), 9);
    assert_eq!(marker_radius_or_default(None), 5);
}

#[test]
fn assemble_rejects_oversized_frame() {
    let wide = render_frame(1, &Vec::new(), &bounds(0, 0, 65536, 1)).unwrap();
    assert_eq!(assemble_animation(&vec![wide], 30), Err(RenderError::FrameTooLarge));
}

#[test]
fn ensure_directory_reports_creation_once() {
    assert_eq!(ensure_directory_report(DirectoryOutcome::Created), Ok(true));
    assert_eq!(ensure_directory_report(DirectoryOutcome::AlreadyExists), Ok(false));
    assert_eq!(ensure_directory_report(DirectoryOutcome::Failed), Err(RenderError::Io));
}
