//! The decisions of the pipeline that takes a recording apart and puts it together again:
//! a stage that decodes, a stage that composes, and a stage that encodes.
use crate::raster::RgbaImage;
use crate::scalar;
use crate::scalar::Scalar;
use crate::sprite;
use crate::text;
use crate::zoom;
use crate::zoom::ZoomSegment;
use vstd::prelude::*;

verus! {

/// Progress is reported every so many frames.
pub const REPORT_EVERY: u64 = 100;

/// Where a packet of the recording goes.
#[derive(Clone, Copy, Debug, PartialEq, Eq, Structural)]
pub enum Route {
    /// To the encoder, as it is.
    Audio,
    /// To the decoder.
    Video,
    /// Nowhere.
    Skip,
}

/// What the composing stage hears of.
#[derive(Clone, Copy, Debug, PartialEq, Eq, Structural)]
pub enum Event {
    /// The decoder passes an audio packet on.
    Audio,
    /// The decoder hands a frame over.
    Frame,
    /// The decoder has reached the end of the recording.
    Done,
    /// The decoder is gone without having said so.
    DecoderLost,
    /// The encoder has taken the composed frame.
    Delivered,
    /// The encoder is gone.
    EncoderLost,
}

/// What the composing stage does next.
#[derive(Clone, Copy, Debug, PartialEq, Eq, Structural)]
pub enum Action {
    /// Pass the audio packet on, and wait for the decoder.
    ForwardAudio,
    /// Compose the frame and offer it to the encoder.
    Compose,
    /// Tell the encoder that nothing follows, and stop.
    ForwardDone,
    /// Wait for the decoder.
    Receive,
    /// Report progress, and wait for the decoder.
    Report,
    /// Stop.
    Stop,
}

/// What the composing stage waits for.
#[derive(Clone, Copy, Debug, PartialEq, Eq, Structural)]
pub enum Stage {
    /// For the decoder.
    Receiving,
    /// For the encoder, with a composed frame.
    Sending,
    /// For nothing: it has stopped.
    Finished,
    /// For nothing: it has lost the decoder.
    Failed,
}

/// The composing stage.
#[derive(Clone, Copy, Debug, PartialEq, Eq, Structural)]
pub struct Pipeline {
    /// How many frames the encoder has taken.
    pub frames: u64,
    pub stage: Stage,
}

/// What reaches the encoder.
#[derive(Clone, Copy, Debug, PartialEq, Eq, Structural)]
pub enum Message {
    Frame,
    Audio,
    Done,
}

/// What the encoder does with what reaches it.
#[derive(Clone, Copy, Debug, PartialEq, Eq, Structural)]
pub enum Encoding {
    /// Encode the frame and write what comes of it.
    Encode,
    /// Write the packet to the audio stream.
    WriteAudio,
    /// Drop the packet.
    Discard,
    /// Flush the encoder, end the file and stop.
    Flush,
}

/// Checks that a recording has pixels.
pub fn check_dimensions(width: u32, height: u32) -> (checked: Result<(), String>)
    ensures
        checked is Ok <==> width > 0 && height > 0,
        checked matches Err(message) ==> message@ == "Input video has zero dimensions"@,
{
    if width == 0 || height == 0 {
        return Err("Input video has zero dimensions".to_owned());
    }
    Ok(())
}

/// Decides where a packet of a stream goes: audio passes by, the recording is decoded, and
/// other streams are left out.
pub fn route_packet(stream: usize, video: usize, audio: Option<usize>) -> (route: Route)
    ensures
        route is Audio <==> audio == Some(stream),
        route is Video <==> audio != Some(stream) && stream == video,
{
    match audio {
        Some(index) if index == stream => Route::Audio,
        _ => if stream == video {
            Route::Video
        } else {
            Route::Skip
        },
    }
}

/// Decides what the encoder does with a message, or with the loss of the composing stage.
pub fn encoding(message: Option<Message>, has_audio: bool) -> (next: Encoding)
    ensures
        next is Encode <==> message == Some(Message::Frame),
        next is WriteAudio <==> message == Some(Message::Audio) && has_audio,
        next is Flush <==> message == Some(Message::Done) || message is None,
{
    match message {
        Some(Message::Frame) => Encoding::Encode,
        Some(Message::Audio) => if has_audio {
            Encoding::WriteAudio
        } else {
            Encoding::Discard
        },
        Some(Message::Done) => Encoding::Flush,
        None => Encoding::Flush,
    }
}

/// Whether a recording is zoomed at all.
pub fn has_zoom(segments: Option<&[ZoomSegment]>) -> (has: bool)
    ensures
        has == (segments matches Some(list) && list@.len() > 0),
{
    match segments {
        Some(list) => list.len() > 0,
        None => false,
    }
}

/// Whether a zoom level asks for a crop.
pub fn is_zoomed(zoom_level: Scalar) -> (zoomed: bool)
    ensures
        zoomed == scalar::scalar_of_bits(zoom::NOT_ZOOMED).spec_lt(zoom_level),
{
    Scalar::from_bits(zoom::NOT_ZOOMED).lt(zoom_level)
}

/// Whether a scaler made for one crop serves another.
pub fn keeps_scaler(made_for: Option<(u32, u32)>, crop_w: u32, crop_h: u32) -> (keeps: bool)
    ensures
        keeps == (made_for == Some((crop_w, crop_h))),
{
    match made_for {
        Some((w, h)) => w == crop_w && h == crop_h,
        None => false,
    }
}

/// Whether the cursor is drawn: always, or during clicks alone.
pub fn shows_cursor(cursor_display: &str, is_clicking: bool) -> (shows: bool)
    ensures
        shows == (cursor_display@ != "click"@ || is_clicking),
{
    !text::same_text(cursor_display, "click") || is_clicking
}

/// The sprite to draw the cursor with: the arrow, unless another was loaded.
pub fn choose_sprite(loaded: Option<RgbaImage>) -> (chosen: RgbaImage)
    ensures
        loaded matches Some(image) ==> chosen == image,
        loaded is None ==> {
            &&& chosen.wf()
            &&& chosen.width == sprite::ARROW_WIDTH + 2
            &&& chosen.height == sprite::ARROW_HEIGHT + 2
            &&& chosen.shows(|x: int, y: int| sprite::sprite_color(x, y))
        },
{
    match loaded {
        Some(image) => image,
        None => sprite::generate_cursor_sprite(),
    }
}

impl Pipeline {
    /// Whether an event can come while the stage waits as it does.
    pub open spec fn awaits(self, event: Event) -> bool {
        match self.stage {
            Stage::Receiving => event is Audio || event is Frame || event is Done
                || event is DecoderLost,
            Stage::Sending => event is Delivered || event is EncoderLost,
            _ => false,
        }
    }

    /// The composing stage after an event.
    pub open spec fn after(self, event: Event) -> Pipeline {
        match event {
            Event::Audio => self,
            Event::Frame => Pipeline { stage: Stage::Sending, ..self },
            Event::Done | Event::EncoderLost => Pipeline { stage: Stage::Finished, ..self },
            Event::DecoderLost => Pipeline { stage: Stage::Failed, ..self },
            Event::Delivered => Pipeline {
                frames: (self.frames + 1) as u64,
                stage: Stage::Receiving,
            },
        }
    }

    /// What the composing stage does on an event.
    pub open spec fn answer(self, event: Event) -> Action {
        match event {
            Event::Audio => Action::ForwardAudio,
            Event::Frame => Action::Compose,
            Event::Done => Action::ForwardDone,
            Event::DecoderLost | Event::EncoderLost => Action::Stop,
            Event::Delivered => if (self.frames + 1) % REPORT_EVERY as int == 0 {
                Action::Report
            } else {
                Action::Receive
            },
        }
    }

    /// Whether events can come one after another.
    pub open spec fn awaits_all(self, events: Seq<Event>) -> bool
        decreases events.len(),
    {
        events.len() == 0 || self.awaits_all(events.drop_last()) && self.after_all(
            events.drop_last(),
        ).awaits(events.last())
    }

    /// The composing stage after one event after another.
    pub open spec fn after_all(self, events: Seq<Event>) -> Pipeline
        decreases events.len(),
    {
        if events.len() == 0 {
            self
        } else {
            self.after_all(events.drop_last()).after(events.last())
        }
    }

    /// A composing stage that waits for its first frame.
    pub open spec fn spec_new() -> Pipeline {
        Pipeline { frames: 0, stage: Stage::Receiving }
    }

    /// A composing stage that waits for its first frame.
    pub fn new() -> (pipeline: Self)
        ensures
            pipeline == Pipeline::spec_new(),
    {
        Pipeline { frames: 0, stage: Stage::Receiving }
    }

    /// Takes an event in and says what to do.
    pub fn step(&mut self, event: Event) -> (action: Action)
        requires
            old(self).awaits(event),
            old(self).frames < u64::MAX,
        ensures
            *final(self) == old(self).after(event),
            action == old(self).answer(event),
    {
        match event {
            Event::Audio => Action::ForwardAudio,
            Event::Frame => {
                self.stage = Stage::Sending;
                Action::Compose
            },
            Event::Done => {
                self.stage = Stage::Finished;
                Action::ForwardDone
            },
            Event::DecoderLost => {
                self.stage = Stage::Failed;
                Action::Stop
            },
            Event::EncoderLost => {
                self.stage = Stage::Finished;
                Action::Stop
            },
            Event::Delivered => {
                self.frames = self.frames + 1;
                self.stage = Stage::Receiving;
                if self.frames % REPORT_EVERY == 0 {
                    Action::Report
                } else {
                    Action::Receive
                }
            },
        }
    }

    /// What came of composing: the number of frames, unless the decoder was lost.
    pub fn outcome(&self) -> (outcome: Result<u64, String>)
        ensures
            outcome is Err <==> self.stage is Failed,
            outcome matches Ok(frames) ==> frames == self.frames,
            outcome matches Err(message) ==> message@ == "decode thread exited unexpectedly"@,
    {
        match self.stage {
            Stage::Failed => Err("decode thread exited unexpectedly".to_owned()),
            _ => Ok(self.frames),
        }
    }
}

/// The frames that are counted are the frames that the encoder has taken; while the stage
/// waits for the decoder, those are all that the decoder has handed over.
pub proof fn law_frames_are_counted(events: Seq<Event>)
    requires
        Pipeline::spec_new().awaits_all(events),
        events.len() <= u64::MAX,
    ensures
        ({
            let pipeline = Pipeline::spec_new().after_all(events);
            let taken = events.filter(|event: Event| event is Delivered).len();
            let handed_over = events.filter(|event: Event| event is Frame).len();
            &&& pipeline.frames == taken
            &&& taken <= events.len()
            &&& pipeline.stage is Receiving ==> handed_over == taken
            &&& pipeline.stage is Sending ==> handed_over == taken + 1
        }),
    decreases events.len(),
{
    reveal(Seq::filter);
    if events.len() > 0 {
        law_frames_are_counted(events.drop_last());
    }
}

/// Nothing is awaited once the composing stage has stopped.
pub proof fn law_stopped_is_final(pipeline: Pipeline, event: Event)
    requires
        pipeline.stage is Finished || pipeline.stage is Failed,
    ensures
        !pipeline.awaits(event),
{
}

/// The composing stage stops exactly when it answers that it does.
pub proof fn law_stops_when_it_says_so(pipeline: Pipeline, event: Event)
    requires
        pipeline.awaits(event),
    ensures
        pipeline.after(event).stage is Finished || pipeline.after(event).stage is Failed
            <==> pipeline.answer(event) is Stop || pipeline.answer(event) is ForwardDone,
{
}

/// Progress is reported with every hundredth frame that the encoder has taken, and with no
/// other.
pub proof fn law_progress_is_reported(pipeline: Pipeline, event: Event)
    requires
        pipeline.awaits(event),
        pipeline.frames < u64::MAX,
    ensures
        pipeline.answer(event) is Report <==> event is Delivered && pipeline.after(event).frames
            % 100 == 0,
        event is Delivered <==> pipeline.after(event).frames == pipeline.frames + 1,
        event !is Delivered ==> pipeline.after(event).frames == pipeline.frames,
{
}

/// Audio passes by without a change; a frame is composed and then offered; and what is
/// awaited next is the decoder, unless a frame is on offer or the stage has stopped.
pub proof fn law_frames_are_composed_one_by_one(pipeline: Pipeline, event: Event)
    requires
        pipeline.awaits(event),
    ensures
        event is Audio ==> pipeline.after(event) == pipeline && pipeline.answer(event)
            is ForwardAudio,
        pipeline.answer(event) is Compose <==> event is Frame,
        event is Frame <==> pipeline.after(event).awaits(Event::Delivered),
        event is Audio || event is Delivered <==> pipeline.after(event).awaits(Event::Frame),
        pipeline.answer(event) is ForwardDone <==> event is Done,
        pipeline.after(event).stage is Failed <==> event is DecoderLost,
{
}

} // verus!
