//! Cursor telemetry: what the smoothed cursor is drawn to, and when it clicks.
use crate::scalar;
use crate::scalar::Scalar;
use crate::text;
use vstd::prelude::*;

verus! {

/// How long a click makes the cursor grow, in milliseconds: the double 50.
pub const CLICK_GROWN: u64 = 0x4049_0000_0000_0000;

/// How long until it is back at its size: the double 150.
pub const CLICK_OVER: u64 = 0x4062_c000_0000_0000;

/// The spring and the damper that the cursor moves by.
#[derive(Clone, Copy, Debug, PartialEq, Eq, Structural)]
pub struct PhysicsPreset {
    pub stiffness: u32,
    pub damping: u32,
}

/// A cursor event, by what planning a path reads.
#[derive(Debug)]
pub struct CursorEvent {
    pub time_ms: Scalar,
    pub event_type: Option<String>,
}

/// The cursor events of a recording, in order.
#[derive(Debug)]
pub struct CursorTelemetry {
    pub events: Vec<CursorEvent>,
}

/// Where the cursor is drawn to.
#[derive(Clone, Copy, Debug, PartialEq, Eq, Structural)]
pub enum Target {
    /// The origin: there are no events.
    Origin,
    /// Where the event with this index happened.
    At(usize),
    /// A place between where two events happened, by the time between them.
    Between(usize, usize),
}

/// What goes into one frame of a smoothed path.
#[derive(Clone, Copy, Debug, PartialEq, Eq, Structural)]
pub struct FramePlan {
    /// Where the cursor is drawn to.
    pub target: Target,
    /// The click that it may still show.
    pub click: Option<usize>,
}

/// What a click does to the size of the cursor.
#[derive(Clone, Copy, Debug, PartialEq, Eq, Structural)]
pub enum ClickPhase {
    /// Nothing.
    Rest,
    /// It grows.
    Growing,
    /// It shrinks back.
    Shrinking,
}

/// The preset that a name stands for; an unknown one is mellow.
pub open spec fn preset_of(name: Seq<char>) -> PhysicsPreset {
    if name == "rapid"@ {
        PhysicsPreset { stiffness: 400, damping: 35 }
    } else if name == "linear"@ {
        PhysicsPreset { stiffness: 800, damping: 60 }
    } else if name == "cinematic"@ {
        PhysicsPreset { stiffness: 80, damping: 18 }
    } else {
        PhysicsPreset { stiffness: 120, damping: 22 }
    }
}

/// When the events happened.
pub open spec fn event_times(events: Seq<CursorEvent>) -> Seq<Scalar> {
    Seq::new(events.len(), |i: int| events[i].time_ms)
}

/// Times are numbers that do not decrease.
pub open spec fn in_order(times: Seq<Scalar>) -> bool {
    forall|i: int, j: int| 0 <= i <= j < times.len() ==> #[trigger] times[i].spec_le(#[trigger] times[j])
}

/// Whether the times before `cut` end at one up to `time`, and those from it on start with
/// one that is not.
pub open spec fn is_cut(times: Seq<Scalar>, time: Scalar, cut: int) -> bool {
    &&& 0 <= cut <= times.len()
    &&& cut > 0 ==> times[cut - 1].spec_le(time)
    &&& cut < times.len() ==> !times[cut].spec_le(time)
}

/// Whether a time with index `i` is up to `time` while the next is not, or is the first and
/// none is.
pub open spec fn is_latest(times: Seq<Scalar>, time: Scalar, i: int) -> bool {
    &&& 0 <= i < times.len()
    &&& {
        ||| times[i].spec_le(time) && (i + 1 < times.len() ==> !times[i + 1].spec_le(time))
        ||| i == 0 && !times[0].spec_le(time)
    }
}

/// Whether the frame with index `i` is the one that is switched to last up to a time.
pub open spec fn is_switched_to(
    frame_times: Seq<Scalar>,
    halfway: Seq<Scalar>,
    time: Scalar,
    i: int,
) -> bool {
    &&& 0 <= i < frame_times.len()
    &&& i > 0 ==> halfway[i - 1].spec_le(time)
    &&& i + 1 < frame_times.len() ==> !halfway[i].spec_le(time)
}

/// Whether `half` parts the finite doubles at the middle between two of them: below it none
/// is beyond the middle, and from it on none is before.
pub open spec fn is_halfway(a: Scalar, half: Scalar, b: Scalar) -> bool {
    forall|time: Scalar| #[trigger]
        time.is_finite() ==> if half.spec_le(time) {
            a.value() + b.value() <= 2 * time.value()
        } else {
            2 * time.value() <= a.value() + b.value()
        }
}

/// How far two finite doubles are apart.
pub open spec fn distance(a: Scalar, b: Scalar) -> int {
    if a.value() <= b.value() {
        b.value() - a.value()
    } else {
        a.value() - b.value()
    }
}

/// Whether a target is the one for a time: the first event up to its time, the last from
/// its time on, and in between the two events around it.
pub open spec fn is_target(times: Seq<Scalar>, time: Scalar, target: Target) -> bool {
    if times.len() == 0 {
        target == Target::Origin
    } else if time.spec_le(times[0]) {
        target == Target::At(0)
    } else if times.last().spec_le(time) {
        target == Target::At((times.len() - 1) as usize)
    } else {
        target matches Target::Between(a, b) && is_latest(times, time, a as int) && b == (if a + 1
            < times.len() {
            a + 1
        } else {
            a as int
        })
    }
}

/// Whether an event is a click.
pub open spec fn is_click(event: CursorEvent) -> bool {
    match event.event_type {
        Some(kind) => kind@ == "click"@ || kind@ == "mousedown"@,
        None => false,
    }
}

/// Whether an event is a click up to a time.
pub open spec fn clicked_by(event: CursorEvent, time: Scalar) -> bool {
    event.time_ms.spec_le(time) && is_click(event)
}

/// Whether `click` is the last click up to a time.
pub open spec fn is_last_click(events: Seq<CursorEvent>, time: Scalar, click: Option<usize>) -> bool {
    match click {
        Some(i) => {
            &&& i < events.len()
            &&& clicked_by(events[i as int], time)
            &&& forall|j: int| i < j < events.len() ==> !clicked_by(#[trigger] events[j], time)
        },
        None => forall|j: int| 0 <= j < events.len() ==> !clicked_by(#[trigger] events[j], time),
    }
}

/// What a click that was so many milliseconds ago does to the size of the cursor.
pub open spec fn click_phase(ms_since_click: Scalar) -> ClickPhase {
    if ms_since_click.spec_lt(scalar::scalar_of_bits(scalar::ZERO)) {
        ClickPhase::Rest
    } else if ms_since_click.spec_lt(scalar::scalar_of_bits(CLICK_GROWN)) {
        ClickPhase::Growing
    } else if ms_since_click.spec_lt(scalar::scalar_of_bits(CLICK_OVER)) {
        ClickPhase::Shrinking
    } else {
        ClickPhase::Rest
    }
}

impl PhysicsPreset {
    /// The preset that a name stands for; an unknown one is mellow.
    pub fn from_name(name: &str) -> (preset: Self)
        ensures
            preset == preset_of(name@),
    {
        if text::same_text(name, "rapid") {
            PhysicsPreset { stiffness: 400, damping: 35 }
        } else if text::same_text(name, "linear") {
            PhysicsPreset { stiffness: 800, damping: 60 }
        } else if text::same_text(name, "cinematic") {
            PhysicsPreset { stiffness: 80, damping: 18 }
        } else {
            PhysicsPreset { stiffness: 120, damping: 22 }
        }
    }
}

/// Finds where times stop being up to `time`, by bisection.
fn cut_at(times: &[Scalar], time: Scalar) -> (cut: usize)
    ensures
        is_cut(times@, time, cut as int),
{
    let mut low: usize = 0;
    let mut high: usize = times.len();
    while low < high
        invariant
            low <= high <= times@.len(),
            low > 0 ==> times@[low - 1].spec_le(time),
            high < times@.len() ==> !times@[high as int].spec_le(time),
        decreases high - low,
    {
        let middle: usize = low + (high - low) / 2;
        if times[middle].le(time) {
            low = middle + 1;
        } else {
            high = middle;
        }
    }
    low
}

/// Decides where the cursor is drawn to at a time.
pub fn interpolate_target(times: &[Scalar], time: Scalar) -> (target: Target)
    ensures
        is_target(times@, time, target),
{
    let n: usize = times.len();
    if n == 0 {
        return Target::Origin;
    }
    if time.le(times[0]) {
        return Target::At(0);
    }
    if times[n - 1].le(time) {
        return Target::At(n - 1);
    }
    let cut: usize = cut_at(times, time);
    let a: usize = if cut == 0 { 0 } else { cut - 1 };
    let b: usize = if a + 1 < n { a + 1 } else { n - 1 };
    Target::Between(a, b)
}

/// Whether an event is a click.
fn clicks(event: &CursorEvent) -> (click: bool)
    ensures
        click == is_click(*event),
{
    match &event.event_type {
        Some(kind) => text::same_text(kind.as_str(), "click") || text::same_text(
            kind.as_str(),
            "mousedown",
        ),
        None => false,
    }
}

/// Finds the last click up to a time.
pub fn last_click_time(events: &[CursorEvent], time: Scalar) -> (click: Option<usize>)
    ensures
        is_last_click(events@, time, click),
{
    let mut i: usize = events.len();
    while i > 0
        invariant
            i <= events@.len(),
            forall|j: int| i <= j < events@.len() ==> !clicked_by(#[trigger] events@[j], time),
        decreases i,
    {
        i -= 1;
        if events[i].time_ms.le(time) && clicks(&events[i]) {
            return Some(i);
        }
    }
    None
}

/// Decides what a click that was so many milliseconds ago does to the size of the cursor.
pub fn click_scale_at(ms_since_click: Scalar) -> (phase: ClickPhase)
    ensures
        phase == click_phase(ms_since_click),
{
    if ms_since_click.lt(Scalar::from_bits(scalar::ZERO)) {
        ClickPhase::Rest
    } else if ms_since_click.lt(Scalar::from_bits(CLICK_GROWN)) {
        ClickPhase::Growing
    } else if ms_since_click.lt(Scalar::from_bits(CLICK_OVER)) {
        ClickPhase::Shrinking
    } else {
        ClickPhase::Rest
    }
}

/// Whether the cursor still shows a click that was so many milliseconds ago.
pub fn is_clicking(ms_since_click: Scalar) -> (clicking: bool)
    ensures
        clicking == ms_since_click.spec_lt(scalar::scalar_of_bits(CLICK_OVER)),
{
    ms_since_click.lt(Scalar::from_bits(CLICK_OVER))
}

/// How many frames a path has that lasts so many, rounded up: at least one.
pub fn frame_count(whole: usize) -> (count: usize)
    ensures
        count == if whole == 0 {
            1
        } else {
            whole
        },
{
    if whole == 0 {
        1
    } else {
        whole
    }
}

/// Plans a smoothed path: for every frame, where the cursor is drawn to and which click it
/// may show.
///
/// There is no path without events or without a frame rate.
pub fn smooth_cursor_path(telemetry: &CursorTelemetry, fps: Scalar, frame_times: &[Scalar]) -> (plans:
    Vec<FramePlan>)
    ensures
        telemetry.events@.len() == 0 || fps.spec_le(scalar::scalar_of_bits(scalar::ZERO))
            ==> plans@.len() == 0,
        telemetry.events@.len() > 0 && !fps.spec_le(scalar::scalar_of_bits(scalar::ZERO))
            ==> plans@.len() == frame_times@.len(),
        forall|i: int|
            0 <= i < plans@.len() ==> {
                &&& is_target(
                    event_times(telemetry.events@),
                    frame_times@[i],
                    (#[trigger] plans@[i]).target,
                )
                &&& is_last_click(telemetry.events@, frame_times@[i], plans@[i].click)
            },
{
    let mut plans: Vec<FramePlan> = Vec::new();
    let events = &telemetry.events;
    if events.len() == 0 || fps.le(Scalar::from_bits(scalar::ZERO)) {
        return plans;
    }
    let mut times: Vec<Scalar> = Vec::new();
    let mut e: usize = 0;
    while e < events.len()
        invariant
            e <= events@.len(),
            times@.len() == e,
            forall|i: int| 0 <= i < e ==> #[trigger] times@[i] == events@[i].time_ms,
        decreases events@.len() - e,
    {
        times.push(events[e].time_ms);
        e += 1;
    }
    assert(times@ =~= event_times(events@));
    let mut f: usize = 0;
    while f < frame_times.len()
        invariant
            f <= frame_times@.len(),
            times@ == event_times(events@),
            plans@.len() == f,
            forall|i: int|
                0 <= i < f ==> {
                    &&& is_target(
                        event_times(events@),
                        frame_times@[i],
                        (#[trigger] plans@[i]).target,
                    )
                    &&& is_last_click(events@, frame_times@[i], plans@[i].click)
                },
        decreases frame_times@.len() - f,
    {
        let time = frame_times[f];
        let target = interpolate_target(times.as_slice(), time);
        let click = last_click_time(events.as_slice(), time);
        plans.push(FramePlan { target, click });
        f += 1;
    }
    plans
}

/// Finds the frame nearest to a time, by bisection of the times halfway between neighbouring
/// frames.
///
/// `halfway` holds, for every frame but the last, when the next one becomes the nearer of the
/// two.
pub fn frame_at_time(frame_times: &[Scalar], halfway: &[Scalar], time: Scalar) -> (frame: Option<
    usize,
>)
    requires
        frame_times@.len() > 0 ==> halfway@.len() == frame_times@.len() - 1,
    ensures
        frame is None <==> frame_times@.len() == 0,
        frame matches Some(i) ==> is_switched_to(frame_times@, halfway@, time, i as int),
{
    if frame_times.len() == 0 {
        return None;
    }
    Some(cut_at(halfway, time))
}

/// The nearest frame is the nearest: among frames in order, none is closer to the time than
/// the one that is found.
pub proof fn law_frame_is_nearest(
    frame_times: Seq<Scalar>,
    halfway: Seq<Scalar>,
    time: Scalar,
    i: int,
    j: int,
)
    requires
        is_switched_to(frame_times, halfway, time, i),
        halfway.len() == frame_times.len() - 1,
        0 <= j < frame_times.len(),
        time.is_finite(),
        in_order(frame_times),
        forall|k: int| 0 <= k < frame_times.len() ==> (#[trigger] frame_times[k]).is_finite(),
        forall|k: int|
            0 <= k < halfway.len() ==> is_halfway(
                frame_times[k],
                #[trigger] halfway[k],
                frame_times[k + 1],
            ),
    ensures
        distance(frame_times[i], time) <= distance(frame_times[j], time),
{
    let nearest = frame_times[i];
    let other = frame_times[j];
    if j < i {
        let before = frame_times[i - 1];
        assert(is_halfway(before, halfway[i - 1], nearest));
        assert(other.spec_le(before));
        scalar::law_order_is_by_value(other, before);
        scalar::law_order_is_by_value(before, nearest);
    }
    if j > i {
        let after = frame_times[i + 1];
        assert(is_halfway(nearest, halfway[i], after));
        assert(after.spec_le(other));
        scalar::law_order_is_by_value(after, other);
        scalar::law_order_is_by_value(nearest, after);
    }
}

/// At a time after the first and before the last of events that happened at numbered times,
/// the cursor is drawn between two events that follow each other, the one up to the time
/// and the other after it.
pub proof fn law_target_surrounds_time(times: Seq<Scalar>, time: Scalar, target: Target)
    requires
        is_target(times, time, target),
        times.len() > 0,
        times[0].spec_lt(time),
        time.spec_lt(times.last()),
        forall|i: int| 0 <= i < times.len() ==> (#[trigger] times[i]) is Number,
    ensures
        target matches Target::Between(a, b) && b == a + 1 && b < times.len()
            && times[a as int].spec_le(time) && time.spec_lt(times[b as int]),
{
}

/// A cursor that shows a click is growing or shrinking, from the click on.
pub proof fn law_clicking_is_moving(ms_since_click: Scalar)
    requires
        scalar::scalar_of_bits(scalar::ZERO).spec_le(ms_since_click),
    ensures
        ms_since_click.spec_lt(scalar::scalar_of_bits(CLICK_OVER)) <==> click_phase(ms_since_click)
            != ClickPhase::Rest,
{
}

/// Up to the first event the cursor is drawn to where that happened, and from the last on to
/// where the last happened.
pub proof fn law_target_is_held_at_the_ends(times: Seq<Scalar>, time: Scalar, target: Target)
    requires
        is_target(times, time, target),
        0 < times.len() <= usize::MAX,
    ensures
        time.spec_le(times[0]) ==> target == Target::At(0),
        times[0].spec_lt(time) && times.last().spec_le(time) ==> (target matches Target::At(i) && i
            == times.len() - 1),
{
}

/// An event is a click if it is called one, or a press of the button.
pub proof fn law_clicks_go_by_name(event: CursorEvent)
    ensures
        is_click(event) <==> (event.event_type matches Some(name) && (name@ == "click"@ || name@
            == "mousedown"@)),
{
}

/// The last click is a click, has happened, and no click after it has; there is none only
/// where no click has happened.
pub proof fn law_last_click_is_the_last(
    events: Seq<CursorEvent>,
    time: Scalar,
    click: Option<usize>,
    j: int,
)
    requires
        is_last_click(events, time, click),
        0 <= j < events.len(),
        is_click(events[j]),
        events[j].time_ms.spec_le(time),
    ensures
        click matches Some(i) && j <= i < events.len() && is_click(events[i as int])
            && events[i as int].time_ms.spec_le(time),
{
    assert(clicked_by(events[j], time));
}

/// A click makes the cursor grow for 50 milliseconds and shrink back for another 100.
pub proof fn law_click_grows_and_shrinks(ms_since_click: Scalar)
    requires
        ms_since_click is Number,
    ensures
        ({
            let (start, grown, over) = (
                scalar::scalar_of_bits(0),
                scalar::scalar_of_bits(0x4049_0000_0000_0000),
                scalar::scalar_of_bits(0x4062_c000_0000_0000),
            );
            let phase = click_phase(ms_since_click);
            &&& phase is Growing <==> start.spec_le(ms_since_click) && ms_since_click.spec_lt(grown)
            &&& phase is Shrinking <==> grown.spec_le(ms_since_click) && ms_since_click.spec_lt(over)
            &&& phase is Rest <==> ms_since_click.spec_lt(start) || over.spec_le(ms_since_click)
        }),
{
}

} // verus!
