use kineto::pipeline::{
    check_dimensions, encoding, has_zoom, is_zoomed, keeps_scaler, route_packet, shows_cursor, Action,
    Encoding, Event, Message, Pipeline, Route, Stage,
};
use kineto::scalar::Scalar;
use kineto::zoom::{Window, ZoomSegment};

fn scalar(value: f64) -> Scalar {
    Scalar::from_bits(value.to_bits())
}

#[test]
fn a_recording_needs_pixels() {
    assert_eq!(check_dimensions(1, 1), Ok(()));
    let refused = Err(String::from("Input video has zero dimensions"));
    assert_eq!(check_dimensions(0, 1080), refused);
    assert_eq!(check_dimensions(1920, 0), refused);
}

#[test]
fn packets_go_by_their_stream() {
    assert_eq!(route_packet(0, 0, Some(1)), Route::Video);
    assert_eq!(route_packet(1, 0, Some(1)), Route::Audio);
    assert_eq!(route_packet(2, 0, Some(1)), Route::Skip);
    assert_eq!(route_packet(0, 0, None), Route::Video);
    assert_eq!(route_packet(3, 3, Some(3)), Route::Audio);
}

#[test]
fn the_encoder_flushes_at_the_end() {
    assert_eq!(encoding(Some(Message::Frame), false), Encoding::Encode);
    assert_eq!(encoding(Some(Message::Audio), true), Encoding::WriteAudio);
    assert_eq!(encoding(Some(Message::Audio), false), Encoding::Discard);
    assert_eq!(encoding(Some(Message::Done), true), Encoding::Flush);
    assert_eq!(encoding(None, true), Encoding::Flush);
}

#[test]
fn frames_are_counted_when_taken() {
    let mut pipeline = Pipeline::new();
    assert_eq!(pipeline.step(Event::Audio), Action::ForwardAudio);
    assert_eq!(pipeline.step(Event::Frame), Action::Compose);
    assert_eq!(pipeline.stage, Stage::Sending);
    assert_eq!(pipeline.frames, 0);
    assert_eq!(pipeline.step(Event::Delivered), Action::Receive);
    assert_eq!(pipeline.frames, 1);
    assert_eq!(pipeline.step(Event::Done), Action::ForwardDone);
    assert_eq!(pipeline.stage, Stage::Finished);
    assert_eq!(pipeline.outcome(), Ok(1));
}

#[test]
fn progress_is_reported_every_hundred_frames() {
    let mut pipeline = Pipeline::new();
    let mut reports = Vec::new();
    for _ in 0..250 {
        pipeline.step(Event::Frame);
        if pipeline.step(Event::Delivered) == Action::Report {
            reports.push(pipeline.frames);
        }
    }
    assert_eq!(reports, vec![100, 200]);
}

#[test]
fn a_lost_decoder_is_an_error() {
    let mut pipeline = Pipeline::new();
    assert_eq!(pipeline.step(Event::DecoderLost), Action::Stop);
    assert_eq!(pipeline.outcome(), Err(String::from("decode thread exited unexpectedly")));
}

#[test]
fn a_lost_encoder_ends_the_composition() {
    let mut pipeline = Pipeline::new();
    pipeline.step(Event::Frame);
    assert_eq!(pipeline.step(Event::EncoderLost), Action::Stop);
    assert_eq!(pipeline.outcome(), Ok(0));
}

#[test]
fn zooming_takes_segments_and_a_level() {
    let none: &[ZoomSegment] = &[];
    assert!(!has_zoom(None));
    assert!(!has_zoom(Some(none)));
    let zero = scalar(0.0);
    let segment = ZoomSegment {
        earliest: zero,
        zoom_in_end: zero,
        at_end: Window { start: zero, end: zero },
        hold: None,
        gap_to_next: zero,
        pan_end: zero,
        easing: None,
    };
    assert!(has_zoom(Some(&[segment])));
    assert!(!is_zoomed(scalar(1.01)));
    assert!(is_zoomed(scalar(1.02)));
    assert!(!is_zoomed(scalar(f64::NAN)));
}

#[test]
fn a_scaler_serves_crops_of_its_size() {
    assert!(keeps_scaler(Some((960, 540)), 960, 540));
    assert!(!keeps_scaler(Some((960, 540)), 960, 541));
    assert!(!keeps_scaler(None, 960, 540));
}

#[test]
fn the_cursor_may_show_during_clicks_alone() {
    assert!(shows_cursor("always", false));
    assert!(shows_cursor("click", true));
    assert!(!shows_cursor("click", false));
}
