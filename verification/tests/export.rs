use kineto::export::{CompositionLayout, ExportArgs};
use kineto::scalar::Scalar;

fn scalar(value: f64) -> Scalar {
    Scalar::from_bits(value.to_bits())
}

fn settings() -> ExportArgs {
    ExportArgs {
        input: "x".into(),
        output: "y".into(),
        codec: "h264".into(),
        quality: "high".into(),
        width: None,
        height: None,
        bg_type: None,
        bg_color: None,
        bg_gradient_start: None,
        bg_gradient_end: None,
        bg_gradient_angle: None,
        bg_image: None,
        bg_image_fit: "cover".into(),
        padding: scalar(0.06),
        corner_radius: 16,
        shadow: false,
        webcam: None,
        webcam_pos: None,
        webcam_shape: "circle".into(),
        webcam_corner_radius: scalar(16.0),
        motion_blur: scalar(0.0),
        zoom_segments_file: None,
        zoom_easing: "smooth".into(),
        audio_track: vec![],
        main_volume: scalar(1.0),
    }
}

#[test]
fn test_codec_quality_mapping() {
    let args = settings();
    let params = args.encoder_params();
    assert_eq!(params.crf, 18);
    assert_eq!(params.preset, "medium");

    let args_low = ExportArgs { quality: "low".into(), ..args };
    let params_low = args_low.encoder_params();
    assert_eq!(params_low.crf, 28);
    assert_eq!(params_low.preset, "fast");
}

#[test]
fn the_codec_is_handed_on() {
    let medium = ExportArgs { quality: "medium".into(), codec: "hevc".into(), ..settings() };
    let params = medium.encoder_params();
    assert_eq!((params.codec.as_str(), params.crf, params.preset.as_str()), ("hevc", 23, "medium"));
    let unknown = ExportArgs { quality: "best".into(), ..settings() };
    assert_eq!(unknown.encoder_params().crf, 18);
}

#[test]
fn every_codec_has_an_encoder() {
    let named = |codec: &str| ExportArgs { codec: codec.into(), ..settings() };
    assert_eq!(named("h264").encoder_name(), "libx264");
    assert_eq!(named("hevc").encoder_name(), "libx265");
    assert_eq!(named("?").encoder_name(), "libx264");
}

/// The layout for a padding given as a fraction.
fn layout(w: u32, h: u32, padding: f64) -> CompositionLayout {
    let pad_x = (padding * w as f64).round() as u32;
    let pad_y = (padding * h as f64).round() as u32;
    CompositionLayout::from_input(w, h, scalar(padding), pad_x, pad_y)
}

#[test]
fn test_composition_layout() {
    let layout = layout(1920, 1080, 0.06);
    assert_eq!(layout.canvas_w, 1920);
    assert_eq!(layout.canvas_h, 1080);
    assert_eq!(layout.video_x, 115); // round(0.06 * 1920)
    assert_eq!(layout.video_y, 65); // round(0.06 * 1080)
    // video_w = 1920 - 2*115 = 1690, & !1 = 1690 (already even)
    assert_eq!(layout.video_w, 1690);
    // video_h = 1080 - 2*65 = 950, & !1 = 950 (already even)
    assert_eq!(layout.video_h, 950);
}

#[test]
fn a_recording_has_even_sides() {
    let layout = layout(101, 57, 0.1);
    assert_eq!((layout.video_x, layout.video_y), (10, 6));
    assert_eq!((layout.video_w, layout.video_h), (80, 44));
    assert_eq!(layout.padding, scalar(0.1));
    // One pixel more is left on the right and below than on the left and above.
    assert_eq!(layout.canvas_w - layout.video_x - layout.video_w, 11);
    assert_eq!(layout.canvas_h - layout.video_y - layout.video_h, 7);
}

#[test]
fn the_background_is_black_unless_set() {
    assert_eq!(settings().effective_bg_color(), "#000000");
    let set = ExportArgs { bg_color: Some("#0f0f23".into()), ..settings() };
    assert_eq!(set.effective_bg_color(), "#0f0f23");
}

#[test]
fn supported_settings_need_no_warning() {
    assert!(settings().warn_unsupported().is_empty());
    let color = ExportArgs { bg_type: Some("color".into()), ..settings() };
    assert!(color.warn_unsupported().is_empty());
}

#[test]
fn unsupported_settings_are_warned_of_in_order() {
    let all = ExportArgs {
        webcam: Some("cam.mp4".into()),
        motion_blur: scalar(0.5),
        audio_track: vec!["mic.wav:0.8".into()],
        bg_type: Some("gradient".into()),
        ..settings()
    };
    assert_eq!(
        all.warn_unsupported(),
        vec![
            "WARNING: --webcam is not yet supported by kineto, ignoring",
            "WARNING: --motion-blur is not yet supported by kineto, ignoring",
            "WARNING: --audio-track is not yet supported by kineto, ignoring",
            "WARNING: --bg-type gradient is not yet supported by kineto, using color",
        ]
    );
    let image = ExportArgs { bg_type: Some("image".into()), ..settings() };
    assert_eq!(
        image.warn_unsupported(),
        vec!["WARNING: --bg-type image is not yet supported by kineto, using color"]
    );
}
