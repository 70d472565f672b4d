use kineto::scalar::Scalar;
use kineto::zoom::{
    clamp_zoom_focus, compute_crop_rect, compute_zoom_at_time, resolve_easing, soft_clamp, Anchor,
    ClampZone, Easing, FocusRule, Hold, Shot, Window, ZoomSegment,
};

fn scalar(value: f64) -> Scalar {
    Scalar::from_bits(value.to_bits())
}

fn window(start: f64, length: f64) -> Window {
    Window { start: scalar(start), end: scalar(start + length) }
}

fn double(scalar: Scalar) -> f64 {
    f64::from_bits(scalar.to_bits())
}

/// The segments that `(start, end, zoom level)` stand for, with transitions of the given
/// length.
fn segments(ranges: &[(f64, f64, f64)], zoom_in: f64, zoom_out: f64) -> Vec<ZoomSegment> {
    let mut list = Vec::new();
    for (i, &(start, end, _)) in ranges.iter().enumerate() {
        let (next, gap) = match ranges.get(i + 1) {
            Some(&(next, _, _)) => (next, next - end),
            None => (f64::NAN, f64::NAN),
        };
        list.push(ZoomSegment {
            earliest: scalar(start - zoom_in / 2.0),
            zoom_in_end: scalar(start + zoom_in / 2.0),
            at_end: window(end - zoom_out / 2.0, zoom_out),
            hold: None,
            gap_to_next: scalar(gap),
            pan_end: scalar(next + zoom_in / 2.0),
            easing: None,
        });
    }
    list
}

fn level(anchor: Anchor, ranges: &[(f64, f64, f64)]) -> f64 {
    match anchor {
        Anchor::Overview => 1.0,
        Anchor::Segment(i) => ranges[i].2,
    }
}

#[test]
fn test_no_segments_returns_identity() {
    let shot = compute_zoom_at_time(&[], scalar(1.0), "smooth");
    assert_eq!(shot, Shot::Still(Anchor::Overview));
    let (z, fx, fy) = match shot {
        Shot::Still(at) => (level(at, &[]), 1920.0 / 2.0, 1080.0 / 2.0),
        _ => unreachable!(),
    };
    assert!((z - 1.0f64).abs() < 1e-9);
    assert!((fx - 960.0f64).abs() < 1e-9);
    assert!((fy - 540.0f64).abs() < 1e-9);
}

#[test]
fn test_single_segment_hold_phase() {
    let ranges = [(2.0, 5.0, 2.0)];
    // At t=3.5 (well within hold phase)
    let shot = compute_zoom_at_time(&segments(&ranges, 1.0, 0.7), scalar(3.5), "smooth");
    let z = match shot {
        Shot::Still(at) => level(at, &ranges),
        _ => unreachable!(),
    };
    assert!((z - 2.0).abs() < 1e-9);
}

#[test]
fn test_asymmetric_zoom_timing() {
    let ranges = [(2.0, 5.0, 2.0)];
    let list = segments(&ranges, 2.0, 0.5);
    let zoom = |time: f64| match compute_zoom_at_time(&list, scalar(time), "smooth") {
        Shot::Move { from, to, over, easing: Easing::Smooth } => {
            let t = (time - double(over.start)) / (double(over.end) - double(over.start));
            let eased = t * t * (3.0 - 2.0 * t);
            level(from, &ranges) + eased * (level(to, &ranges) - level(from, &ranges))
        },
        _ => unreachable!(),
    };
    // With zoom_in=2.0s, half_in=1.0, zoom starts at t=1.0
    let z1 = zoom(1.0);
    assert!((z1 - 1.0).abs() < 0.01, "Should be near 1.0 at zoom_in_start");

    // At midpoint of zoom-in
    let z2 = zoom(1.5);
    assert!(z2 > 1.0 && z2 < 2.0, "Should be mid-zoom at 1.5s");
}

#[test]
fn test_connected_panning() {
    let ranges = [(1.0, 3.0, 2.0), (3.5, 6.0, 2.5)];
    // Gap is 0.5s < 1.5s, so should use connected panning
    // At t=3.2 (between segments), should be panning, not at zoom=1.0
    let shot = compute_zoom_at_time(&segments(&ranges, 1.0, 0.7), scalar(3.2), "smooth");
    let (from, to, over) = match shot {
        Shot::Move { from, to, over, easing: Easing::Cinematic } => {
            (level(from, &ranges), level(to, &ranges), over)
        },
        _ => unreachable!(),
    };
    let (pan_start, pan_end) = (double(over.start), double(over.end));
    assert_eq!((pan_start, pan_end), (3.0 - 0.35, 3.5 + 0.5));
    let t: f64 = (3.2 - pan_start) / (pan_end - pan_start);
    let eased = if t < 0.5 { 16.0 * t.powi(5) } else { 1.0 - (-2.0 * t + 2.0).powi(5) / 2.0 };
    let z = from + eased * (to - from);
    assert!(z > 1.5, "Connected pan should maintain zoom, got {}", z);
}

#[test]
fn a_pan_lasts_until_it_has_arrived() {
    let ranges = [(1.0, 3.0, 2.0), (4.0, 6.0, 2.5)];
    let list = segments(&ranges, 1.0, 1.0);
    let pan = Shot::Move {
        from: Anchor::Segment(0),
        to: Anchor::Segment(1),
        over: Window { start: scalar(2.5), end: scalar(4.5) },
        easing: Easing::Cinematic,
    };
    for time in [2.5, 3.2, 3.5, 4.0, 4.49] {
        assert_eq!(compute_zoom_at_time(&list, scalar(time), "smooth"), pan, "at {time}");
    }
    let arrived = Shot::Still(Anchor::Segment(1));
    assert_eq!(compute_zoom_at_time(&list, scalar(4.5), "smooth"), arrived);
    assert_eq!(compute_zoom_at_time(&list, scalar(2.4), "smooth"), Shot::Still(Anchor::Segment(0)));
}

#[test]
fn a_segment_that_outlasts_the_pan_zooms_out() {
    // The second segment lies inside the first.
    let list = segments(&[(0.0, 10.0, 2.0), (2.0, 3.0, 2.5)], 1.0, 1.0);
    let there = Anchor::Segment(0);
    assert_eq!(compute_zoom_at_time(&list, scalar(9.25), "smooth"), Shot::Still(there));
    assert_eq!(
        compute_zoom_at_time(&list, scalar(9.5), "smooth"),
        Shot::Move {
            from: there,
            to: Anchor::Overview,
            over: window(9.5, 1.0),
            easing: Easing::Smooth,
        }
    );
    // The first segment is held for ten seconds, which ends after the pan would.
    let mut list = segments(&[(2.0, 5.0, 2.0), (5.25, 20.0, 2.5)], 1.0, 2.0);
    list[0].hold = Some(Hold { after: window(12.5, 2.0), latest: window(6.0, 2.0) });
    assert_eq!(
        compute_zoom_at_time(&list, scalar(6.5), "smooth"),
        Shot::Move {
            from: there,
            to: Anchor::Overview,
            over: window(6.0, 2.0),
            easing: Easing::Smooth,
        }
    );
    // A pan that would arrive as the camera leaves is none.
    let mut list = segments(&[(2.0, 5.0, 2.0), (5.5, 20.0, 2.5)], 1.0, 2.0);
    list[0].hold = Some(Hold { after: window(12.5, 2.0), latest: window(6.0, 2.0) });
    assert_eq!(
        compute_zoom_at_time(&list, scalar(6.0), "smooth"),
        Shot::Move {
            from: there,
            to: Anchor::Overview,
            over: window(6.0, 2.0),
            easing: Easing::Smooth,
        }
    );
}

#[test]
fn a_distant_segment_is_not_panned_to() {
    let ranges = [(1.0, 3.0, 2.0), (5.0, 6.0, 2.5)];
    let shot = compute_zoom_at_time(&segments(&ranges, 1.0, 0.7), scalar(3.2), "snappy");
    assert_eq!(
        shot,
        Shot::Move {
            from: Anchor::Segment(0),
            to: Anchor::Overview,
            over: window(3.0 - 0.35, 0.7),
            easing: Easing::Snappy,
        }
    );
}

#[test]
fn a_segment_is_on_from_start_to_end() {
    let ranges = [(2.0, 5.0, 2.0)];
    let list = segments(&ranges, 1.0, 0.7);
    let overview = Shot::Still(Anchor::Overview);
    let there = Anchor::Segment(0);
    let easing = Easing::Smooth;
    let over = Window { start: scalar(1.5), end: scalar(2.5) };
    let arriving = Shot::Move { from: Anchor::Overview, to: there, over, easing };
    let over = window(5.0 - 0.35, 0.7);
    let leaving = Shot::Move { from: there, to: Anchor::Overview, over, easing };
    assert_eq!(compute_zoom_at_time(&list, scalar(1.49), "smooth"), overview);
    assert_eq!(compute_zoom_at_time(&list, scalar(1.5), "smooth"), arriving);
    assert_eq!(compute_zoom_at_time(&list, scalar(2.5), "smooth"), Shot::Still(there));
    assert_eq!(compute_zoom_at_time(&list, scalar(4.65), "smooth"), leaving);
    assert_eq!(compute_zoom_at_time(&list, scalar(5.4), "smooth"), overview);
}

#[test]
fn the_first_segment_with_a_shot_wins() {
    let ranges = [(2.0, 5.0, 2.0), (2.0, 5.0, 3.0)];
    let list = segments(&ranges, 1.0, 0.7);
    assert_eq!(
        compute_zoom_at_time(&list, scalar(3.0), "smooth"),
        Shot::Still(Anchor::Segment(0))
    );
}

#[test]
fn a_segment_may_have_an_easing_of_its_own() {
    let mut list = segments(&[(2.0, 5.0, 2.0)], 1.0, 0.7);
    list[0].easing = Some(String::from("spring"));
    assert_eq!(
        compute_zoom_at_time(&list, scalar(2.0), "snappy"),
        Shot::Move {
            from: Anchor::Overview,
            to: Anchor::Segment(0),
            over: Window { start: scalar(1.5), end: scalar(2.5) },
            easing: Easing::Spring,
        }
    );
}

#[test]
fn the_camera_does_not_move_before_the_recording() {
    let list = segments(&[(0.2, 5.0, 2.0)], 1.0, 0.7);
    assert_eq!(list[0].arrival(), Window { start: scalar(0.0), end: scalar(0.7) });
    assert_eq!(
        compute_zoom_at_time(&list, scalar(-0.1), "smooth"),
        Shot::Still(Anchor::Overview)
    );
}

#[test]
fn a_hold_decides_when_the_camera_leaves() {
    let mut list = segments(&[(2.0, 5.0, 2.0)], 1.0, 0.7);
    assert_eq!(list[0].departure(), window(5.0 - 0.35, 0.7));
    // Held for a second and a half after the arrival at 2.5.
    let latest = window(5.0 + 0.35, 0.7);
    list[0].hold = Some(Hold { after: window(4.0, 0.7), latest });
    assert_eq!(list[0].departure(), window(4.0, 0.7));
    assert_eq!(
        compute_zoom_at_time(&list, scalar(4.2), "smooth"),
        Shot::Move {
            from: Anchor::Segment(0),
            to: Anchor::Overview,
            over: window(4.0, 0.7),
            easing: Easing::Smooth,
        }
    );
    // Held for longer than the segment lasts.
    list[0].hold = Some(Hold { after: window(12.5, 0.7), latest });
    assert_eq!(list[0].departure(), latest);
}

#[test]
fn easings_go_by_name() {
    assert_eq!(resolve_easing("smooth"), Easing::Smooth);
    assert_eq!(resolve_easing("snappy"), Easing::Snappy);
    assert_eq!(resolve_easing("cinematic"), Easing::Cinematic);
    assert_eq!(resolve_easing("spring"), Easing::Spring);
    assert_eq!(resolve_easing("bouncy"), Easing::Smooth);
}

/// The zone that a soft clamp finds a value in.
fn zone(value: f64, min: f64, max: f64, soft_zone: f64) -> ClampZone {
    soft_clamp(
        scalar(value),
        scalar(min),
        scalar(max),
        scalar(soft_zone),
        scalar(min + soft_zone),
        scalar(max - soft_zone),
    )
}

/// What a soft clamp makes of a value.
fn clamped(value: f64, min: f64, max: f64, soft_zone: f64) -> f64 {
    let eased = |t: f64| -t * t * t + 2.0 * t * t;
    match zone(value, min, max, soft_zone) {
        ClampZone::Min => min,
        ClampZone::Max => max,
        ClampZone::Inside => value,
        ClampZone::NearMin => min + soft_zone * eased((value - min) / soft_zone),
        ClampZone::NearMax => max - soft_zone * eased((max - value) / soft_zone),
    }
}

#[test]
fn test_soft_clamp_within_bounds() {
    let result = clamped(500.0, 200.0, 800.0, 72.0);
    assert!((result - 500.0).abs() < 1e-9, "Should pass through unchanged");
}

#[test]
fn test_soft_clamp_at_boundary() {
    // Exactly at max should return max
    let at_max = clamped(800.0, 200.0, 800.0, 72.0);
    assert!((at_max - 800.0).abs() < 1e-9, "At max should be exact, got {}", at_max);

    // Beyond max should be clamped to max
    let beyond = clamped(900.0, 200.0, 800.0, 72.0);
    assert!((beyond - 800.0).abs() < 1e-9, "Beyond max should clamp, got {}", beyond);
}

#[test]
fn test_soft_clamp_deceleration() {
    // In the soft zone, linear input should produce sub-linear output
    // Mid soft zone: input at max - soft_zone/2 should be pulled toward max
    let result = clamped(764.0, 200.0, 800.0, 72.0);
    assert!(result >= 764.0, "Soft clamp should not reduce, got {}", result);
    assert!(result <= 800.0, "Soft clamp should stay in bounds, got {}", result);
}

#[test]
fn soft_zones_lie_inside_the_bounds() {
    assert_eq!(zone(764.0, 200.0, 800.0, 72.0), ClampZone::NearMax);
    assert_eq!(zone(230.0, 200.0, 800.0, 72.0), ClampZone::NearMin);
    assert_eq!(zone(272.0, 200.0, 800.0, 72.0), ClampZone::Inside);
    assert_eq!(zone(728.0, 200.0, 800.0, 72.0), ClampZone::Inside);
    assert_eq!(zone(200.0, 200.0, 800.0, 72.0), ClampZone::Min);
}

#[test]
fn without_a_soft_zone_the_clamp_is_hard() {
    assert_eq!(zone(799.0, 200.0, 800.0, 0.0), ClampZone::Inside);
    assert_eq!(zone(801.0, 200.0, 800.0, 0.0), ClampZone::Max);
    assert_eq!(zone(199.0, 200.0, 800.0, 0.0), ClampZone::Min);
    assert_eq!(zone(500.0, 500.0, 500.0, 10.0), ClampZone::Inside);
}

#[test]
fn the_focus_is_clamped_while_zoomed() {
    let rule = |zoom: f64, min: f64, max: f64| {
        clamp_zoom_focus(scalar(zoom), scalar(min), scalar(max), scalar(min), scalar(max))
    };
    assert_eq!(rule(1.01, 9.0, 1.0), FocusRule::AsGiven);
    assert_eq!(rule(2.0, 1.0, 9.0), FocusRule::Clamped);
    assert_eq!(rule(2.0, 1.0, 1.0), FocusRule::Clamped);
    assert_eq!(rule(2.0, 9.0, 1.0), FocusRule::Centred);
    assert_eq!(rule(f64::NAN, 1.0, 9.0), FocusRule::Clamped);
}

/// The crop for a zoom level and a focus.
fn crop(zoom: f64, focus_x: f64, focus_y: f64, w: u32, h: u32) -> (u32, u32, u32, u32) {
    let crop_w = (w as f64 / zoom).round() as u32;
    let crop_h = (h as f64 / zoom).round() as u32;
    let left = (focus_x - crop_w as f64 / 2.0).floor() as i64;
    let top = (focus_y - crop_h as f64 / 2.0).floor() as i64;
    compute_crop_rect(scalar(zoom), crop_w, crop_h, left, top, w, h)
}

#[test]
fn test_crop_rect_no_zoom() {
    let (x, y, w, h) = crop(1.0, 960.0, 540.0, 1920, 1080);
    assert_eq!((x, y, w, h), (0, 0, 1920, 1080));
}

#[test]
fn test_crop_rect_2x_zoom_center() {
    let (x, y, w, h) = crop(2.0, 960.0, 540.0, 1920, 1080);
    assert_eq!(w, 960);
    assert_eq!(h, 540);
    assert_eq!(x, 480); // 960 - 960/2
    assert_eq!(y, 270); // 540 - 540/2
}

#[test]
fn test_crop_rect_clamped_to_bounds() {
    // Focus at top-left corner with 2x zoom
    let (x, y, w, h) = crop(2.0, 0.0, 0.0, 1920, 1080);
    assert_eq!(x, 0);
    assert_eq!(y, 0);
    assert_eq!(w, 960);
    assert_eq!(h, 540);
}

#[test]
fn a_crop_keeps_to_the_far_edges() {
    assert_eq!(crop(2.0, 1900.0, 1079.0, 1920, 1080), (960, 540, 960, 540));
    assert_eq!(crop(1.5, 700.4, 400.9, 1920, 1080), (60, 40, 1280, 720));
}
