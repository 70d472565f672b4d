//! Camera choreography: which shot is on at a time, how the camera is kept on the canvas,
//! and what it crops.
use crate::scalar;
use crate::scalar::Scalar;
use crate::text;
use vstd::prelude::*;

verus! {

/// A zoom level up to this counts as not zoomed: the double 1.01.
pub const NOT_ZOOMED: u64 = 0x3ff0_28f5_c28f_5c29;

/// A next segment that starts within this many seconds is panned to directly: the double
/// 1.5.
pub const CONNECTED_PAN_GAP: u64 = 0x3ff8_0000_0000_0000;

/// The course of a camera movement.
#[derive(Clone, Copy, Debug, PartialEq, Eq, Structural)]
pub enum Easing {
    /// Calm: cubic hermite.
    Smooth,
    /// Settles fast: ease-out cubic.
    Snappy,
    /// Dramatic: ease-in-out quintic.
    Cinematic,
    /// Bouncy: damped spring.
    Spring,
}

/// A half-open stretch of time.
#[derive(Clone, Copy, Debug, PartialEq, Eq, Structural)]
pub struct Window {
    pub start: Scalar,
    pub end: Scalar,
}

/// When the camera leaves a segment that it holds for a time of its own.
#[derive(Clone, Copy, Debug, PartialEq, Eq, Structural)]
pub struct Hold {
    /// After it has been held.
    pub after: Window,
    /// Half a transition after its end, at the latest.
    pub latest: Window,
}

/// A time range in which the camera zooms into a region, by what choosing a shot reads.
#[derive(Debug)]
pub struct ZoomSegment {
    /// Half a transition before the start, which may be before the recording.
    pub earliest: Scalar,
    /// Half a transition after the start: the camera has arrived.
    pub zoom_in_end: Scalar,
    /// When the camera leaves: around the end of the segment.
    pub at_end: Window,
    /// When it leaves instead, if the segment is held for a time of its own.
    pub hold: Option<Hold>,
    /// The seconds between the end of this segment and the start of the next.
    pub gap_to_next: Scalar,
    /// When a pan to the next segment arrives.
    pub pan_end: Scalar,
    /// The easing of this segment, if it has one of its own.
    pub easing: Option<String>,
}

/// What a camera looks at.
#[derive(Clone, Copy, Debug, PartialEq, Eq, Structural)]
pub enum Anchor {
    /// The whole canvas.
    Overview,
    /// The region of the segment with this index.
    Segment(usize),
}

/// What the camera does.
#[derive(Clone, Copy, Debug, PartialEq, Eq, Structural)]
pub enum Shot {
    /// Rests.
    Still(Anchor),
    /// Moves from one anchor to another over a stretch of time.
    Move { from: Anchor, to: Anchor, over: Window, easing: Easing },
}

/// The part of a range that a soft clamp finds a value in.
#[derive(Clone, Copy, Debug, PartialEq, Eq, Structural)]
pub enum ClampZone {
    /// At or beyond the lower bound, which takes the value's place.
    Min,
    /// At or beyond the upper bound, which takes the value's place.
    Max,
    /// In the soft zone above the lower bound, where the value is eased towards it.
    NearMin,
    /// In the soft zone below the upper bound, where the value is eased towards it.
    NearMax,
    /// In between, where the value stays.
    Inside,
}

/// How the camera's focus is kept on the canvas.
#[derive(Clone, Copy, Debug, PartialEq, Eq, Structural)]
pub enum FocusRule {
    /// Not zoomed: the focus stays.
    AsGiven,
    /// The focus is softly clamped in both directions.
    Clamped,
    /// The view is larger than the canvas: the focus goes to the centre.
    Centred,
}

/// The easing that a name stands for; an unknown one is smooth.
pub open spec fn easing_of(name: Seq<char>) -> Easing {
    if name == "snappy"@ {
        Easing::Snappy
    } else if name == "cinematic"@ {
        Easing::Cinematic
    } else if name == "spring"@ {
        Easing::Spring
    } else {
        Easing::Smooth
    }
}

impl Window {
    /// Whether a time is in the stretch.
    pub open spec fn holds(self, time: Scalar) -> bool {
        self.start.spec_le(time) && time.spec_lt(self.end)
    }

    /// Whether a time is in the stretch.
    pub fn contains(&self, time: Scalar) -> (inside: bool)
        ensures
            inside == self.holds(time),
    {
        self.start.le(time) && time.lt(self.end)
    }
}

impl ZoomSegment {
    /// When the camera zooms in: not before the recording starts.
    pub open spec fn spec_arrival(self) -> Window {
        Window {
            start: self.earliest.spec_max(scalar::scalar_of_bits(scalar::ZERO)),
            end: self.zoom_in_end,
        }
    }

    /// When the camera leaves: around the end, or once the segment has been held.
    pub open spec fn spec_departure(self) -> Window {
        match self.hold {
            Some(hold) => if hold.after.start.spec_min(hold.latest.start) == hold.after.start {
                hold.after
            } else {
                hold.latest
            },
            None => self.at_end,
        }
    }

    /// When the camera rests on the segment: from its arrival to its departure.
    pub open spec fn spec_rest(self) -> Window {
        Window { start: self.zoom_in_end, end: self.spec_departure().start }
    }

    /// The easing of this segment: its own, or the session's.
    pub open spec fn eased_by(self, session_easing: Seq<char>) -> Easing {
        match self.easing {
            Some(name) => easing_of(name@),
            None => easing_of(session_easing),
        }
    }

    /// When the camera pans from this segment to the next one.
    pub open spec fn spec_pan(self) -> Window {
        Window { start: self.spec_departure().start, end: self.pan_end }
    }
}

/// Whether the next segment is close.
pub open spec fn is_close(segments: Seq<ZoomSegment>, i: int) -> bool {
    i + 1 < segments.len() && segments[i].gap_to_next.spec_lt(
        scalar::scalar_of_bits(CONNECTED_PAN_GAP),
    )
}

/// Whether the camera, leaving a segment, pans to the next one instead of returning to the
/// overview: that one is close, and the camera leaves in time to pan to it.
pub open spec fn connects(segments: Seq<ZoomSegment>, i: int) -> bool {
    is_close(segments, i) && segments[i].spec_departure().start.spec_lt(segments[i].pan_end)
}

/// The shot of one segment at a time, if it has one then.
pub open spec fn segment_shot(
    segments: Seq<ZoomSegment>,
    i: int,
    time: Scalar,
    session_easing: Seq<char>,
) -> Option<Shot> {
    let segment = segments[i];
    let here = Anchor::Segment(i as usize);
    let easing = segment.eased_by(session_easing);
    if segment.spec_arrival().holds(time) {
        Some(
            Shot::Move { from: Anchor::Overview, to: here, over: segment.spec_arrival(), easing },
        )
    } else if segment.spec_rest().holds(time) {
        Some(Shot::Still(here))
    } else if connects(segments, i) {
        if segment.spec_pan().holds(time) {
            Some(
                Shot::Move {
                    from: here,
                    to: Anchor::Segment((i + 1) as usize),
                    over: segment.spec_pan(),
                    easing: Easing::Cinematic,
                },
            )
        } else {
            None
        }
    } else if segment.spec_departure().holds(time) {
        Some(
            Shot::Move {
                from: here,
                to: Anchor::Overview,
                over: segment.spec_departure(),
                easing,
            },
        )
    } else {
        None
    }
}

/// Whether an anchor is the overview or an existing segment.
pub open spec fn anchored(anchor: Anchor, segments: Seq<ZoomSegment>) -> bool {
    match anchor {
        Anchor::Overview => true,
        Anchor::Segment(i) => i < segments.len(),
    }
}

/// Whether both ends of a shot are the overview or an existing segment.
pub open spec fn shot_anchored(shot: Shot, segments: Seq<ZoomSegment>) -> bool {
    match shot {
        Shot::Still(at) => anchored(at, segments),
        Shot::Move { from, to, .. } => anchored(from, segments) && anchored(to, segments),
    }
}

/// The part of the range from `min` to `max` that a value is in, with soft zones up to
/// `soft_min` and from `soft_max` on.
pub open spec fn zone_of(
    value: Scalar,
    min: Scalar,
    max: Scalar,
    soft_zone: Scalar,
    soft_min: Scalar,
    soft_max: Scalar,
) -> ClampZone {
    if soft_zone.spec_le(scalar::scalar_of_bits(scalar::ZERO)) || max.spec_le(min) {
        if value.spec_lt(min) {
            ClampZone::Min
        } else if max.spec_lt(value) {
            ClampZone::Max
        } else {
            ClampZone::Inside
        }
    } else if value.spec_le(min) {
        ClampZone::Min
    } else if max.spec_le(value) {
        ClampZone::Max
    } else if value.spec_lt(soft_min) {
        ClampZone::NearMin
    } else if soft_max.spec_lt(value) {
        ClampZone::NearMax
    } else {
        ClampZone::Inside
    }
}

/// How the focus of a camera with the given zoom is kept on the canvas, where the focus can
/// be between the given bounds.
pub open spec fn focus_rule(
    zoom: Scalar,
    min_x: Scalar,
    max_x: Scalar,
    min_y: Scalar,
    max_y: Scalar,
) -> FocusRule {
    if zoom.spec_le(scalar::scalar_of_bits(NOT_ZOOMED)) {
        FocusRule::AsGiven
    } else if min_x.spec_le(max_x) && min_y.spec_le(max_y) {
        FocusRule::Clamped
    } else {
        FocusRule::Centred
    }
}

/// Where a crop starts on a side: at the given position, or as near to it as keeps the crop
/// on the canvas.
pub open spec fn crop_start(start: int, crop: int, side: int) -> int {
    if start < 0 {
        0
    } else if start > side - crop {
        side - crop
    } else {
        start
    }
}

/// The easing that a name stands for; an unknown one is smooth.
pub fn resolve_easing(name: &str) -> (easing: Easing)
    ensures
        easing == easing_of(name@),
{
    if text::same_text(name, "snappy") {
        Easing::Snappy
    } else if text::same_text(name, "cinematic") {
        Easing::Cinematic
    } else if text::same_text(name, "spring") {
        Easing::Spring
    } else {
        Easing::Smooth
    }
}

/// Decides what part of a range a soft clamp finds a value in.
///
/// Without a soft zone, or without a range, the clamp is a hard one.
pub fn soft_clamp(
    value: Scalar,
    min: Scalar,
    max: Scalar,
    soft_zone: Scalar,
    soft_min: Scalar,
    soft_max: Scalar,
) -> (zone: ClampZone)
    requires
        soft_zone.spec_le(scalar::scalar_of_bits(scalar::ZERO)) || max.spec_le(min) ==> min.spec_le(max),
    ensures
        zone == zone_of(value, min, max, soft_zone, soft_min, soft_max),
{
    if soft_zone.le(Scalar::from_bits(scalar::ZERO)) || max.le(min) {
        if value.lt(min) {
            ClampZone::Min
        } else if max.lt(value) {
            ClampZone::Max
        } else {
            ClampZone::Inside
        }
    } else if value.le(min) {
        ClampZone::Min
    } else if max.le(value) {
        ClampZone::Max
    } else if value.lt(soft_min) {
        ClampZone::NearMin
    } else if soft_max.lt(value) {
        ClampZone::NearMax
    } else {
        ClampZone::Inside
    }
}

/// Decides how the focus of a camera is kept on the canvas.
pub fn clamp_zoom_focus(
    zoom: Scalar,
    min_x: Scalar,
    max_x: Scalar,
    min_y: Scalar,
    max_y: Scalar,
) -> (rule: FocusRule)
    ensures
        rule == focus_rule(zoom, min_x, max_x, min_y, max_y),
{
    if zoom.le(Scalar::from_bits(NOT_ZOOMED)) {
        FocusRule::AsGiven
    } else if min_x.le(max_x) && min_y.le(max_y) {
        FocusRule::Clamped
    } else {
        FocusRule::Centred
    }
}

impl ZoomSegment {
    /// When the camera zooms in: not before the recording starts.
    pub fn arrival(&self) -> (arrival: Window)
        ensures
            arrival == self.spec_arrival(),
    {
        Window {
            start: self.earliest.max(Scalar::from_bits(scalar::ZERO)),
            end: self.zoom_in_end,
        }
    }

    /// When the camera leaves: around the end, or once the segment has been held.
    pub fn departure(&self) -> (departure: Window)
        ensures
            departure == self.spec_departure(),
    {
        match self.hold {
            Some(hold) => if hold.after.start.min(hold.latest.start) == hold.after.start {
                hold.after
            } else {
                hold.latest
            },
            None => self.at_end,
        }
    }
}

/// The shot of one segment at a time.
fn shot_of(segments: &[ZoomSegment], i: usize, time: Scalar, session_easing: &str) -> (shot: Option<
    Shot,
>)
    requires
        i < segments@.len(),
    ensures
        shot == segment_shot(segments@, i as int, time, session_easing@),
        shot matches Some(s) ==> shot_anchored(s, segments@),
{
    let segment = &segments[i];
    let here = Anchor::Segment(i);
    let easing = match &segment.easing {
        Some(name) => resolve_easing(name.as_str()),
        None => resolve_easing(session_easing),
    };
    let arrival = segment.arrival();
    let departure = segment.departure();
    let rest = Window { start: segment.zoom_in_end, end: departure.start };
    if arrival.contains(time) {
        Some(Shot::Move { from: Anchor::Overview, to: here, over: arrival, easing })
    } else if rest.contains(time) {
        Some(Shot::Still(here))
    } else if i + 1 < segments.len() && segment.gap_to_next.lt(
        Scalar::from_bits(CONNECTED_PAN_GAP),
    ) && departure.start.lt(segment.pan_end) {
        let pan = Window { start: departure.start, end: segment.pan_end };
        if pan.contains(time) {
            Some(
                Shot::Move {
                    from: here,
                    to: Anchor::Segment(i + 1),
                    over: pan,
                    easing: Easing::Cinematic,
                },
            )
        } else {
            None
        }
    } else if departure.contains(time) {
        Some(Shot::Move { from: here, to: Anchor::Overview, over: departure, easing })
    } else {
        None
    }
}

/// Decides what the camera does at a time: what the first segment that has a shot then asks
/// for, and an overview if none has.
pub fn compute_zoom_at_time(segments: &[ZoomSegment], time: Scalar, session_easing: &str) -> (shot:
    Shot)
    ensures
        forall|i: int|
            0 <= i < segments@.len() && (forall|j: int|
                0 <= j < i ==> #[trigger] segment_shot(segments@, j, time, session_easing@) is None)
                && #[trigger] segment_shot(segments@, i, time, session_easing@) is Some
                ==> segment_shot(segments@, i, time, session_easing@) == Some(shot),
        (forall|i: int|
            0 <= i < segments@.len() ==> #[trigger] segment_shot(
                segments@,
                i,
                time,
                session_easing@,
            ) is None) ==> shot == Shot::Still(Anchor::Overview),
        shot_anchored(shot, segments@),
{
    let mut i: usize = 0;
    while i < segments.len()
        invariant
            i <= segments@.len(),
            forall|j: int|
                0 <= j < i ==> #[trigger] segment_shot(segments@, j, time, session_easing@) is None,
        decreases segments@.len() - i,
    {
        if let Some(shot) = shot_of(segments, i, time, session_easing) {
            return shot;
        }
        i += 1;
    }
    Shot::Still(Anchor::Overview)
}

/// Where a crop starts on a side.
fn start_crop(start: i64, crop: u32, side: u32) -> (held: u32)
    requires
        crop <= side,
    ensures
        held == crop_start(start as int, crop as int, side as int),
{
    if start < 0 {
        0
    } else if start > (side - crop) as i64 {
        side - crop
    } else {
        start as u32
    }
}

/// The region of the canvas that a zoomed camera sees, as `(x, y, width, height)`.
///
/// `crop_w` and `crop_h` are the size of the view, and `left` and `top` where it would have
/// to start to have the focus in its middle.
pub fn compute_crop_rect(
    zoom: Scalar,
    crop_w: u32,
    crop_h: u32,
    left: i64,
    top: i64,
    canvas_w: u32,
    canvas_h: u32,
) -> (crop: (u32, u32, u32, u32))
    requires
        !zoom.spec_le(scalar::scalar_of_bits(NOT_ZOOMED)) ==> crop_w <= canvas_w && crop_h
            <= canvas_h,
    ensures
        zoom.spec_le(scalar::scalar_of_bits(NOT_ZOOMED)) ==> crop == (0u32, 0u32, canvas_w, canvas_h),
        !zoom.spec_le(scalar::scalar_of_bits(NOT_ZOOMED)) ==> {
            &&& crop.0 == crop_start(left as int, crop_w as int, canvas_w as int)
            &&& crop.1 == crop_start(top as int, crop_h as int, canvas_h as int)
            &&& crop.2 == crop_w
            &&& crop.3 == crop_h
        },
        crop.0 + crop.2 <= canvas_w,
        crop.1 + crop.3 <= canvas_h,
{
    if zoom.le(Scalar::from_bits(NOT_ZOOMED)) {
        return (0, 0, canvas_w, canvas_h);
    }
    (start_crop(left, crop_w, canvas_w), start_crop(top, crop_h, canvas_h), crop_w, crop_h)
}

/// A segment whose times are in order, and that the camera leaves for the overview, has a
/// shot from when the camera starts to zoom in to when it is back, and at no other time.
pub proof fn law_segment_is_on(
    segments: Seq<ZoomSegment>,
    i: int,
    time: Scalar,
    session_easing: Seq<char>,
)
    requires
        0 <= i < segments.len(),
        !connects(segments, i),
        segments[i].spec_arrival().start.spec_le(segments[i].spec_arrival().end),
        segments[i].spec_arrival().end.spec_le(segments[i].spec_departure().start),
        segments[i].spec_departure().start.spec_le(segments[i].spec_departure().end),
    ensures
        segment_shot(segments, i, time, session_easing) is Some <==> {
            &&& segments[i].spec_arrival().start.spec_le(time)
            &&& time.spec_lt(segments[i].spec_departure().end)
        },
{
}

/// However long a segment is held, the camera has started to leave half a transition after
/// its end.
pub proof fn law_hold_is_limited(segment: ZoomSegment)
    requires
        segment.hold is Some,
        segment.hold->0.latest.start is Number,
    ensures
        segment.spec_departure().start.spec_le(segment.hold->0.latest.start),
        segment.hold->0.after.start.spec_le(segment.hold->0.latest.start)
            ==> segment.spec_departure() == segment.hold->0.after,
{
}

/// The camera moves no sooner than its recording starts.
pub proof fn law_arrival_is_not_before_the_start(segment: ZoomSegment, time: Scalar)
    requires
        segment.spec_arrival().holds(time),
    ensures
        scalar::scalar_of_bits(scalar::ZERO).spec_le(time),
{
}

/// Once the camera has arrived at a segment, it leaves it for one that is close without
/// returning to the overview: from its departure until it has arrived there, it is between
/// the two.
pub proof fn law_connected_pan(
    segments: Seq<ZoomSegment>,
    i: int,
    time: Scalar,
    session_easing: Seq<char>,
)
    requires
        0 <= i,
        is_close(segments, i),
        !segments[i].spec_arrival().holds(time),
        segments[i].spec_departure().start.spec_le(time),
        time.spec_lt(segments[i].pan_end),
    ensures
        segment_shot(segments, i, time, session_easing) == Some(
            Shot::Move {
                from: Anchor::Segment(i as usize),
                to: Anchor::Segment((i + 1) as usize),
                over: (Window {
                    start: segments[i].spec_departure().start,
                    end: segments[i].pan_end,
                }),
                easing: Easing::Cinematic,
            },
        ),
{
}

/// A segment that is left too late to pan to the next one is left for the overview.
pub proof fn law_late_departure_zooms_out(
    segments: Seq<ZoomSegment>,
    i: int,
    time: Scalar,
    session_easing: Seq<char>,
)
    requires
        0 <= i < segments.len(),
        segments[i].pan_end.spec_le(segments[i].spec_departure().start),
        !segments[i].spec_arrival().holds(time),
        segments[i].spec_departure().holds(time),
    ensures
        segment_shot(segments, i, time, session_easing) == Some(
            Shot::Move {
                from: Anchor::Segment(i as usize),
                to: Anchor::Overview,
                over: segments[i].spec_departure(),
                easing: segments[i].eased_by(session_easing),
            },
        ),
{
}

/// A pan hands over to the segment that it leads to: when it ends, the camera rests there.
pub proof fn law_pan_hands_over(
    segments: Seq<ZoomSegment>,
    i: int,
    time: Scalar,
    session_easing: Seq<char>,
)
    requires
        0 <= i,
        connects(segments, i),
        segments[i].spec_arrival().end.spec_le(segments[i].spec_departure().start),
        segments[i].pan_end == segments[i + 1].zoom_in_end,
        segments[i].pan_end.spec_le(time),
        time.spec_lt(segments[i + 1].spec_departure().start),
    ensures
        segment_shot(segments, i, time, session_easing) is None,
        segment_shot(segments, i + 1, time, session_easing) == Some(
            Shot::Still(Anchor::Segment((i + 1) as usize)),
        ),
{
}

/// A soft clamp leaves a value outside its soft zones alone, and only such a value.
pub proof fn law_soft_clamp_leaves_middle(
    value: Scalar,
    min: Scalar,
    max: Scalar,
    soft_zone: Scalar,
    soft_min: Scalar,
    soft_max: Scalar,
)
    requires
        scalar::scalar_of_bits(scalar::ZERO).spec_lt(soft_zone),
        min.spec_lt(max),
        min.spec_le(soft_min),
        soft_max.spec_le(max),
        value is Number,
    ensures
        zone_of(value, min, max, soft_zone, soft_min, soft_max) == ClampZone::Inside <==> {
            &&& min.spec_lt(value)
            &&& value.spec_lt(max)
            &&& soft_min.spec_le(value)
            &&& value.spec_le(soft_max)
        },
{
}

/// Zooming in on a segment leads from the overview to that very segment, from half a
/// transition before its start, or the start of the recording, until the camera has arrived,
/// and with the segment's own easing or else the session's.
pub proof fn law_zoom_in_leads_to_the_segment(
    segments: Seq<ZoomSegment>,
    i: int,
    time: Scalar,
    session_easing: Seq<char>,
)
    requires
        0 <= i < segments.len() <= usize::MAX,
        scalar::scalar_of_bits(0).spec_le(time),
        segments[i].earliest.spec_le(time),
        time.spec_lt(segments[i].zoom_in_end),
    ensures
        segment_shot(segments, i, time, session_easing) matches Some(
            Shot::Move { from, to, over, easing },
        ) && {
            &&& from == Anchor::Overview
            &&& to matches Anchor::Segment(led_to) && led_to == i
            &&& over.end == segments[i].zoom_in_end
            &&& scalar::scalar_of_bits(0).spec_le(segments[i].earliest) ==> over.start
                == segments[i].earliest
            &&& segments[i].earliest.spec_lt(scalar::scalar_of_bits(0)) ==> over.start
                == scalar::scalar_of_bits(0)
            &&& segments[i].easing matches Some(own) ==> easing == easing_of(own@)
            &&& segments[i].easing is None ==> easing == easing_of(session_easing)
        },
{
}

/// The camera leaves a segment around its end; one that is held for a time of its own it
/// leaves after that, or half a transition after its end, whichever comes first.
pub proof fn law_departure_is_the_earlier(segment: ZoomSegment)
    ensures
        segment.hold is None ==> segment.spec_departure() == segment.at_end,
        segment.hold matches Some(hold) ==> {
            &&& hold.after.start.spec_le(hold.latest.start) ==> segment.spec_departure()
                == hold.after
            &&& hold.latest.start.spec_lt(hold.after.start) ==> segment.spec_departure()
                == hold.latest
        },
{
}

/// Between its arrival and its departure the camera rests on that very segment.
pub proof fn law_segment_is_rested_on(
    segments: Seq<ZoomSegment>,
    i: int,
    time: Scalar,
    session_easing: Seq<char>,
)
    requires
        0 <= i < segments.len() <= usize::MAX,
        segments[i].zoom_in_end.spec_le(time),
        segments[i].hold is None ==> time.spec_lt(segments[i].at_end.start),
        segments[i].hold matches Some(hold) ==> time.spec_lt(hold.after.start) && time.spec_lt(
            hold.latest.start,
        ),
    ensures
        segment_shot(segments, i, time, session_easing) matches Some(Shot::Still(anchor))
            && anchor matches Anchor::Segment(rested_on) && rested_on == i,
{
}

/// Zooming out leads from that very segment back to the overview, over the whole of its
/// departure and with the segment's own easing or else the session's, where there is no next
/// segment or it is not close.
pub proof fn law_zoom_out_leads_to_the_overview(
    segments: Seq<ZoomSegment>,
    i: int,
    leave: Window,
    time: Scalar,
    session_easing: Seq<char>,
)
    requires
        0 <= i < segments.len() <= usize::MAX,
        i + 1 < segments.len() ==> scalar::scalar_of_bits(0x3ff8_0000_0000_0000).spec_le(
            segments[i].gap_to_next,
        ),
        segments[i].hold is None ==> leave == segments[i].at_end,
        segments[i].hold matches Some(hold) ==> {
            ||| hold.after.start.spec_le(hold.latest.start) && leave == hold.after
            ||| hold.latest.start.spec_lt(hold.after.start) && leave == hold.latest
        },
        segments[i].zoom_in_end.spec_le(time),
        leave.start.spec_le(time),
        time.spec_lt(leave.end),
    ensures
        segment_shot(segments, i, time, session_easing) matches Some(
            Shot::Move { from, to, over, easing },
        ) && {
            &&& from matches Anchor::Segment(left) && left == i
            &&& to == Anchor::Overview
            &&& over == leave
            &&& segments[i].easing matches Some(own) ==> easing == easing_of(own@)
            &&& segments[i].easing is None ==> easing == easing_of(session_easing)
        },
{
}

/// A pan leads from that very segment to the very next one, over the time from its departure
/// until the camera has arrived there, where the next segment starts less than a second and
/// a half after the end of this one.
pub proof fn law_pan_leads_to_the_next_segment(
    segments: Seq<ZoomSegment>,
    i: int,
    leave: Window,
    time: Scalar,
    session_easing: Seq<char>,
)
    requires
        0 <= i,
        i + 1 < segments.len() <= usize::MAX,
        segments[i].gap_to_next.spec_lt(scalar::scalar_of_bits(0x3ff8_0000_0000_0000)),
        segments[i].hold is None ==> leave == segments[i].at_end,
        segments[i].hold matches Some(hold) ==> {
            ||| hold.after.start.spec_le(hold.latest.start) && leave == hold.after
            ||| hold.latest.start.spec_lt(hold.after.start) && leave == hold.latest
        },
        segments[i].zoom_in_end.spec_le(time),
        leave.start.spec_le(time),
        time.spec_lt(segments[i].pan_end),
    ensures
        segment_shot(segments, i, time, session_easing) matches Some(
            Shot::Move { from, to, over, easing },
        ) && {
            &&& from matches Anchor::Segment(left) && left == i
            &&& to matches Anchor::Segment(led_to) && led_to == i + 1
            &&& over.start == leave.start
            &&& over.end == segments[i].pan_end
            &&& easing == Easing::Cinematic
        },
{
}

/// Before the camera starts to zoom in, and after it is back, a segment has no shot.
pub proof fn law_segment_is_off(
    segments: Seq<ZoomSegment>,
    i: int,
    leave: Window,
    time: Scalar,
    session_easing: Seq<char>,
)
    requires
        0 <= i < segments.len() <= usize::MAX,
        segments[i].hold is None ==> leave == segments[i].at_end,
        segments[i].hold matches Some(hold) ==> {
            ||| hold.after.start.spec_le(hold.latest.start) && leave == hold.after
            ||| hold.latest.start.spec_lt(hold.after.start) && leave == hold.latest
        },
        segments[i].zoom_in_end.spec_le(leave.start),
        leave.start.spec_le(leave.end),
        segments[i].earliest.spec_le(segments[i].zoom_in_end),
        ({
            ||| time.spec_lt(segments[i].earliest)
            ||| leave.end.spec_le(time) && (i + 1 < segments.len() ==> segments[i].pan_end.spec_le(
                time,
            ))
        }),
    ensures
        segment_shot(segments, i, time, session_easing) is None,
{
}

/// A name that stands for no other easing stands for the smooth one.
pub proof fn law_unknown_easing_is_smooth(name: Seq<char>)
    ensures
        name == "snappy"@ ==> easing_of(name) == Easing::Snappy,
        name != "snappy"@ && name != "cinematic"@ && name != "spring"@ ==> easing_of(name)
            == Easing::Smooth,
        easing_of(name) == Easing::Cinematic ==> name == "cinematic"@,
        easing_of(name) == Easing::Spring ==> name == "spring"@,
{
}

/// A soft clamp holds a value to its bounds, eases it in the zones inside of them, and leaves
/// it in between.
pub proof fn law_soft_clamp_zones(
    value: Scalar,
    min: Scalar,
    max: Scalar,
    soft_zone: Scalar,
    soft_min: Scalar,
    soft_max: Scalar,
)
    requires
        value is Number,
        scalar::scalar_of_bits(0).spec_lt(soft_zone),
        min.spec_lt(soft_min),
        soft_min.spec_le(soft_max),
        soft_max.spec_lt(max),
    ensures
        ({
            let zone = zone_of(value, min, max, soft_zone, soft_min, soft_max);
            &&& zone is Min <==> value.spec_le(min)
            &&& zone is NearMin <==> min.spec_lt(value) && value.spec_lt(soft_min)
            &&& zone is Inside <==> soft_min.spec_le(value) && value.spec_le(soft_max)
            &&& zone is NearMax <==> soft_max.spec_lt(value) && value.spec_lt(max)
            &&& zone is Max <==> max.spec_le(value)
        }),
{
}

/// Without a soft zone, a value beyond a bound is held to it and any other is left.
pub proof fn law_hard_clamp(
    value: Scalar,
    min: Scalar,
    max: Scalar,
    soft_zone: Scalar,
    soft_min: Scalar,
    soft_max: Scalar,
)
    requires
        value is Number,
        min.spec_le(max),
        soft_zone.spec_le(scalar::scalar_of_bits(0)) || min == max,
    ensures
        ({
            let zone = zone_of(value, min, max, soft_zone, soft_min, soft_max);
            &&& zone is Min <==> value.spec_lt(min)
            &&& zone is Max <==> max.spec_lt(value)
            &&& zone is Inside <==> min.spec_le(value) && value.spec_le(max)
        }),
{
}

/// The focus stays where it is up to a zoom of 1.01. Beyond, it is clamped where there is
/// room for the view in both directions, and centred where there is none in one.
pub proof fn law_focus_is_kept_on_the_canvas(
    zoom: Scalar,
    min_x: Scalar,
    max_x: Scalar,
    min_y: Scalar,
    max_y: Scalar,
)
    requires
        zoom is Number && min_x is Number && max_x is Number && min_y is Number && max_y is Number,
    ensures
        ({
            let rule = focus_rule(zoom, min_x, max_x, min_y, max_y);
            let zoomed = scalar::scalar_of_bits(0x3ff0_28f5_c28f_5c29).spec_lt(zoom);
            let no_room = max_x.spec_lt(min_x) || max_y.spec_lt(min_y);
            &&& rule is AsGiven <==> !zoomed
            &&& rule is Centred <==> zoomed && no_room
            &&& rule is Clamped <==> zoomed && !no_room
        }),
{
}

/// A crop starts on the canvas and ends on it, and nowhere on the canvas could it start
/// nearer to where it was asked for.
pub proof fn law_crop_is_the_nearest_on_the_canvas(start: int, crop: int, side: int, other: int)
    requires
        0 <= crop <= side,
        0 <= other,
        other + crop <= side,
    ensures
        0 <= crop_start(start, crop, side),
        crop_start(start, crop, side) + crop <= side,
        crop_start(start, crop, side) - start <= if other >= start {
            other - start
        } else {
            start - other
        },
        start - crop_start(start, crop, side) <= if other >= start {
            other - start
        } else {
            start - other
        },
        start == other ==> crop_start(start, crop, side) == start,
{
}

} // verus!
