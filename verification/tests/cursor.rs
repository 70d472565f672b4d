use kineto::cursor::{
    click_scale_at, frame_at_time, frame_count, interpolate_target, is_clicking, last_click_time,
    smooth_cursor_path, ClickPhase, CursorEvent, CursorTelemetry, PhysicsPreset, Target,
};
use kineto::scalar::Scalar;

fn scalar(value: f64) -> Scalar {
    Scalar::from_bits(value.to_bits())
}

fn event(time_ms: f64, event_type: Option<&str>) -> CursorEvent {
    CursorEvent { time_ms: scalar(time_ms), event_type: event_type.map(String::from) }
}

fn test_telemetry() -> CursorTelemetry {
    CursorTelemetry { events: vec![event(0.0, None), event(500.0, None), event(1000.0, None)] }
}

/// The times of the frames of a path, in milliseconds.
fn frame_times(total_ms: f64, fps: f64) -> Vec<f64> {
    let dt_ms = 1.0 / fps * 1000.0;
    let count = frame_count((total_ms / dt_ms).ceil() as usize);
    (0..count).map(|i| i as f64 * dt_ms).collect()
}

/// The times halfway between neighbouring frames.
fn halfway(times: &[f64]) -> Vec<Scalar> {
    times.windows(2).map(|pair| scalar((pair[0] + pair[1]) / 2.0)).collect()
}

#[test]
fn test_frame_at_time() {
    let telemetry = test_telemetry();
    let times_ms = frame_times(1000.0, 60.0);
    let times: Vec<Scalar> = times_ms.iter().map(|&t| scalar(t)).collect();
    let plans = smooth_cursor_path(&telemetry, scalar(60.0), &times);
    assert_eq!(plans.len(), times.len());
    let seconds: Vec<f64> = times_ms.iter().map(|t| t / 1000.0).collect();
    let frames: Vec<Scalar> = seconds.iter().map(|&t| scalar(t)).collect();
    let f = frame_at_time(&frames, &halfway(&seconds), scalar(0.5)).unwrap();
    assert!(seconds[f] <= 0.5 + 1.0 / 60.0);
}

#[test]
fn test_empty_telemetry() {
    let telemetry = CursorTelemetry { events: vec![] };
    let frames = smooth_cursor_path(&telemetry, scalar(60.0), &[scalar(0.0)]);
    assert!(frames.is_empty());
}

#[test]
fn a_path_has_at_least_one_frame() {
    assert_eq!(frame_count(0), 1);
    assert_eq!(frame_count(1), 1);
    assert_eq!(frame_count(60), 60);
    // A single event at the start of the recording.
    assert_eq!(frame_times(0.0, 60.0), vec![0.0]);
}

#[test]
fn no_frame_rate_gives_no_path() {
    let telemetry = test_telemetry();
    assert!(smooth_cursor_path(&telemetry, scalar(0.0), &[scalar(0.0)]).is_empty());
    assert!(smooth_cursor_path(&telemetry, scalar(-30.0), &[scalar(0.0)]).is_empty());
}

#[test]
fn the_nearest_frame_is_found() {
    let seconds = [1.0, 2.0, 2.0, 4.0];
    let times: Vec<Scalar> = seconds.iter().map(|&t| scalar(t)).collect();
    let find = |time: f64| frame_at_time(&times, &halfway(&seconds), scalar(time));
    assert_eq!(find(0.5), Some(0));
    assert_eq!(find(1.4), Some(0));
    assert_eq!(find(1.6), Some(1));
    assert_eq!(find(2.0), Some(2));
    assert_eq!(find(2.9), Some(2));
    assert_eq!(find(3.1), Some(3));
    assert_eq!(find(99.0), Some(3));
    assert_eq!(frame_at_time(&[], &[], scalar(0.0)), None);
}

#[test]
fn no_frame_is_nearer_than_the_nearest() {
    let seconds: Vec<f64> = (0..40).map(|i| i as f64 / 8.0).collect();
    let times: Vec<Scalar> = seconds.iter().map(|&t| scalar(t)).collect();
    for step in 0..200 {
        let time = step as f64 * 0.03;
        let found = frame_at_time(&times, &halfway(&seconds), scalar(time)).unwrap();
        assert!(seconds.iter().all(|t| (seconds[found] - time).abs() <= (t - time).abs()));
    }
}

#[test]
fn the_target_is_between_the_events_around_a_time() {
    let times: Vec<Scalar> = [0.0, 500.0, 1000.0].iter().map(|&t| scalar(t)).collect();
    assert_eq!(interpolate_target(&[], scalar(1.0)), Target::Origin);
    assert_eq!(interpolate_target(&times, scalar(-1.0)), Target::At(0));
    assert_eq!(interpolate_target(&times, scalar(0.0)), Target::At(0));
    assert_eq!(interpolate_target(&times, scalar(250.0)), Target::Between(0, 1));
    assert_eq!(interpolate_target(&times, scalar(500.0)), Target::Between(1, 2));
    assert_eq!(interpolate_target(&times, scalar(999.0)), Target::Between(1, 2));
    assert_eq!(interpolate_target(&times, scalar(1000.0)), Target::At(2));
    assert_eq!(interpolate_target(&times, scalar(5000.0)), Target::At(2));
}

#[test]
fn the_last_click_counts() {
    let events = vec![
        event(0.0, Some("mousedown")),
        event(100.0, Some("click")),
        event(200.0, Some("move")),
        event(300.0, None),
        event(400.0, Some("click")),
    ];
    assert_eq!(last_click_time(&events, scalar(-1.0)), None);
    assert_eq!(last_click_time(&events, scalar(0.0)), Some(0));
    assert_eq!(last_click_time(&events, scalar(350.0)), Some(1));
    assert_eq!(last_click_time(&events, scalar(400.0)), Some(4));
}

/// The size of the cursor after a click.
fn click_scale(ms_since_click: f64) -> f64 {
    match click_scale_at(scalar(ms_since_click)) {
        ClickPhase::Rest => 1.0,
        ClickPhase::Growing => 1.0 + (1.0 - (1.0 - ms_since_click / 50.0).powi(3)) * 0.3,
        ClickPhase::Shrinking => 1.3 - ((ms_since_click - 50.0) / 100.0).powi(3) * 0.3,
    }
}

#[test]
fn test_click_animation() {
    assert!((click_scale(-1.0) - 1.0).abs() < 1e-9);
    assert!((click_scale(0.0) - 1.0).abs() < 1e-9);
    // Peak near 50ms
    let peak = click_scale(50.0);
    assert!((peak - 1.3).abs() < 0.01, "Peak should be ~1.3, got {}", peak);
    // Back to 1.0 at end
    let end = click_scale(150.0);
    assert!((end - 1.0).abs() < 0.01, "Should return to 1.0, got {}", end);
}

#[test]
fn a_click_grows_and_shrinks_the_cursor() {
    assert_eq!(click_scale_at(scalar(-1.0)), ClickPhase::Rest);
    assert_eq!(click_scale_at(scalar(0.0)), ClickPhase::Growing);
    assert_eq!(click_scale_at(scalar(49.9)), ClickPhase::Growing);
    assert_eq!(click_scale_at(scalar(50.0)), ClickPhase::Shrinking);
    assert_eq!(click_scale_at(scalar(150.0)), ClickPhase::Rest);
    assert!(is_clicking(scalar(149.9)));
    assert!(!is_clicking(scalar(150.0)));
}

#[test]
fn a_path_plans_target_and_click() {
    let telemetry = CursorTelemetry {
        events: vec![event(0.0, None), event(10.0, Some("click")), event(20.0, None)],
    };
    let times: Vec<Scalar> = [0.0, 5.0, 12.0, 30.0].iter().map(|&t| scalar(t)).collect();
    let plans = smooth_cursor_path(&telemetry, scalar(60.0), &times);
    let targets: Vec<Target> = plans.iter().map(|plan| plan.target).collect();
    let clicks: Vec<Option<usize>> = plans.iter().map(|plan| plan.click).collect();
    assert_eq!(
        targets,
        vec![Target::At(0), Target::Between(0, 1), Target::Between(1, 2), Target::At(2)]
    );
    assert_eq!(clicks, vec![None, None, Some(1), Some(1)]);
}

#[test]
fn presets_go_by_name() {
    assert_eq!(PhysicsPreset::from_name("rapid"), PhysicsPreset { stiffness: 400, damping: 35 });
    assert_eq!(PhysicsPreset::from_name("linear"), PhysicsPreset { stiffness: 800, damping: 60 });
    assert_eq!(PhysicsPreset::from_name("cinematic"), PhysicsPreset { stiffness: 80, damping: 18 });
    assert_eq!(PhysicsPreset::from_name("mellow"), PhysicsPreset { stiffness: 120, damping: 22 });
    assert_eq!(PhysicsPreset::from_name("?"), PhysicsPreset { stiffness: 120, damping: 22 });
}
