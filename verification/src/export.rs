//! Export settings, and the layout of a recording on its canvas.
use crate::scalar;
use crate::scalar::Scalar;
use crate::text;
use vstd::prelude::*;

verus! {

/// The settings of an export.
#[derive(Debug)]
pub struct ExportArgs {
    /// Input video file path.
    pub input: String,
    /// Output video file path.
    pub output: String,
    /// Video codec: h264, hevc.
    pub codec: String,
    /// Quality: low, medium, high.
    pub quality: String,
    /// Output width.
    pub width: Option<u32>,
    /// Output height.
    pub height: Option<u32>,
    /// Background type: none, color, gradient, image.
    pub bg_type: Option<String>,
    /// Background colour.
    pub bg_color: Option<String>,
    /// First colour of a background gradient.
    pub bg_gradient_start: Option<String>,
    /// Last colour of a background gradient.
    pub bg_gradient_end: Option<String>,
    /// Angle of a background gradient.
    pub bg_gradient_angle: Option<Scalar>,
    /// Path to a background image.
    pub bg_image: Option<String>,
    /// Fit of a background image: cover, contain.
    pub bg_image_fit: String,
    /// Padding as a fraction of the canvas.
    pub padding: Scalar,
    /// Corner radius in pixels.
    pub corner_radius: u32,
    /// Whether the recording casts a shadow.
    pub shadow: bool,
    /// Path to a webcam recording.
    pub webcam: Option<String>,
    /// Webcam position and size.
    pub webcam_pos: Option<String>,
    /// Webcam shape: circle, rounded_rect, rectangle.
    pub webcam_shape: String,
    /// Webcam corner radius.
    pub webcam_corner_radius: Scalar,
    /// Motion blur intensity.
    pub motion_blur: Scalar,
    /// Path to the zoom segments.
    pub zoom_segments_file: Option<String>,
    /// Zoom easing: smooth, snappy, cinematic, spring.
    pub zoom_easing: String,
    /// Additional audio tracks.
    pub audio_track: Vec<String>,
    /// Volume of the recording's own audio.
    pub main_volume: Scalar,
}

/// The parameters of the video encoder.
#[derive(Debug)]
pub struct EncoderParams {
    pub codec: String,
    pub crf: u32,
    pub preset: String,
}

/// Where a recording lies on its canvas.
#[derive(Clone, Copy, Debug, PartialEq, Eq, Structural)]
pub struct CompositionLayout {
    pub canvas_w: u32,
    pub canvas_h: u32,
    pub video_x: u32,
    pub video_y: u32,
    pub video_w: u32,
    pub video_h: u32,
    pub padding: Scalar,
}

/// One warning, if it applies.
pub open spec fn warning(applies: bool, message: Seq<char>) -> Seq<Seq<char>> {
    if applies {
        seq![message]
    } else {
        seq![]
    }
}

/// Whether an optional text is the given one.
pub open spec fn is_text(option: Option<String>, expected: Seq<char>) -> bool {
    match option {
        Some(given) => given@ == expected,
        None => false,
    }
}

/// The largest even number up to `n`.
pub open spec fn even_part(n: int) -> int {
    2 * (n / 2)
}

impl ExportArgs {
    /// The warnings about settings that are accepted but not acted upon.
    pub open spec fn unsupported(self) -> Seq<Seq<char>> {
        warning(
            self.webcam is Some,
            "WARNING: --webcam is not yet supported by kineto, ignoring"@,
        ) + warning(
            scalar::scalar_of_bits(scalar::ZERO).spec_lt(self.motion_blur),
            "WARNING: --motion-blur is not yet supported by kineto, ignoring"@,
        ) + warning(
            self.audio_track@.len() > 0,
            "WARNING: --audio-track is not yet supported by kineto, ignoring"@,
        ) + warning(
            is_text(self.bg_type, "gradient"@),
            "WARNING: --bg-type gradient is not yet supported by kineto, using color"@,
        ) + warning(
            is_text(self.bg_type, "image"@),
            "WARNING: --bg-type image is not yet supported by kineto, using color"@,
        )
    }

    /// The constant rate factor of a quality: the lower, the better.
    pub open spec fn crf_of(quality: Seq<char>) -> u32 {
        if quality == "low"@ {
            28
        } else if quality == "medium"@ {
            23
        } else {
            18
        }
    }

    /// The encoder preset of a quality.
    pub open spec fn preset_of(quality: Seq<char>) -> Seq<char> {
        if quality == "low"@ {
            "fast"@
        } else {
            "medium"@
        }
    }

    /// The warnings about settings that are accepted but not acted upon.
    pub fn warn_unsupported(&self) -> (lines: Vec<String>)
        ensures
            lines@.len() == self.unsupported().len(),
            forall|i: int|
                0 <= i < lines@.len() ==> (#[trigger] lines@[i])@ == self.unsupported()[i],
    {
        let mut lines: Vec<String> = Vec::new();
        if self.webcam.is_some() {
            lines.push("WARNING: --webcam is not yet supported by kineto, ignoring".to_owned());
        }
        if Scalar::from_bits(scalar::ZERO).lt(self.motion_blur) {
            lines.push("WARNING: --motion-blur is not yet supported by kineto, ignoring".to_owned());
        }
        if self.audio_track.len() > 0 {
            lines.push("WARNING: --audio-track is not yet supported by kineto, ignoring".to_owned());
        }
        if is_set_to(&self.bg_type, "gradient") {
            lines.push(
                "WARNING: --bg-type gradient is not yet supported by kineto, using color".to_owned(),
            );
        }
        if is_set_to(&self.bg_type, "image") {
            lines.push(
                "WARNING: --bg-type image is not yet supported by kineto, using color".to_owned(),
            );
        }
        lines
    }

    /// The background colour: black, unless one is set.
    pub fn effective_bg_color(&self) -> (color: &str)
        ensures
            self.bg_color matches Some(set) ==> color@ == set@,
            self.bg_color is None ==> color@ == "#000000"@,
    {
        match &self.bg_color {
            Some(set) => set.as_str(),
            None => "#000000",
        }
    }

    /// The encoder of the codec: HEVC has one of its own, and everything else is H.264.
    pub fn encoder_name(&self) -> (name: &str)
        ensures
            name@ == if self.codec@ == "hevc"@ {
                "libx265"@
            } else {
                "libx264"@
            },
    {
        if text::same_text(self.codec.as_str(), "hevc") {
            "libx265"
        } else {
            "libx264"
        }
    }

    /// Maps codec and quality to encoder parameters; an unknown quality is high.
    pub fn encoder_params(&self) -> (params: EncoderParams)
        ensures
            params.codec@ == self.codec@,
            params.crf == ExportArgs::crf_of(self.quality@),
            params.preset@ == ExportArgs::preset_of(self.quality@),
    {
        let quality = self.quality.as_str();
        let crf: u32 = if text::same_text(quality, "low") {
            28
        } else if text::same_text(quality, "medium") {
            23
        } else {
            18
        };
        let preset = if text::same_text(quality, "low") {
            "fast"
        } else {
            "medium"
        };
        EncoderParams { codec: self.codec.clone(), crf, preset: preset.to_owned() }
    }
}

/// Whether an optional text is the given one.
fn is_set_to(option: &Option<String>, expected: &str) -> (set: bool)
    ensures
        set == is_text(*option, expected@),
{
    match option {
        Some(given) => text::same_text(given.as_str(), expected),
        None => false,
    }
}

impl CompositionLayout {
    /// The recording lies on the canvas and has even sides.
    pub open spec fn wf(self) -> bool {
        &&& self.video_x + self.video_w <= self.canvas_w
        &&& self.video_y + self.video_h <= self.canvas_h
        &&& self.video_w % 2 == 0
        &&& self.video_h % 2 == 0
    }

    /// Lays a recording out on a canvas of its own size.
    ///
    /// `pad_x` and `pad_y` are what the padding comes to in pixels. Sides are made even, as
    /// H.264 asks for.
    pub fn from_input(input_w: u32, input_h: u32, padding: Scalar, pad_x: u32, pad_y: u32) -> (layout:
        Self)
        requires
            2 * pad_x <= input_w,
            2 * pad_y <= input_h,
        ensures
            layout.wf(),
            layout.canvas_w == input_w,
            layout.canvas_h == input_h,
            layout.video_x == pad_x,
            layout.video_y == pad_y,
            layout.video_w == even_part(input_w - 2 * pad_x),
            layout.video_h == even_part(input_h - 2 * pad_y),
            layout.padding == padding,
    {
        let inner_w: u32 = input_w - 2 * pad_x;
        let inner_h: u32 = input_h - 2 * pad_y;
        CompositionLayout {
            canvas_w: input_w,
            canvas_h: input_h,
            video_x: pad_x,
            video_y: pad_y,
            video_w: inner_w - inner_w % 2,
            video_h: inner_h - inner_h % 2,
            padding,
        }
    }
}

/// A recording laid out has the same margin on opposite sides, but for the pixel that an
/// even side may cost.
pub proof fn law_layout_is_centred(
    layout: CompositionLayout,
    input_w: int,
    input_h: int,
    pad_x: int,
    pad_y: int,
)
    requires
        layout.canvas_w == input_w,
        layout.canvas_h == input_h,
        layout.video_x == pad_x,
        layout.video_y == pad_y,
        layout.video_w == even_part(input_w - 2 * pad_x),
        layout.video_h == even_part(input_h - 2 * pad_y),
    ensures
        0 <= layout.canvas_w - (layout.video_x + layout.video_w) - layout.video_x <= 1,
        0 <= layout.canvas_h - (layout.video_y + layout.video_h) - layout.video_y <= 1,
{
}

/// The even part of a side is even, and the side itself or one pixel less.
pub proof fn law_even_part_is_close(n: int)
    ensures
        even_part(n) % 2 == 0,
        n - 1 <= even_part(n) <= n,
{
}

/// There is one warning for every setting that is accepted and not acted upon.
pub proof fn law_every_unsupported_setting_is_warned_of(args: ExportArgs)
    ensures
        ({
            let webcam = if args.webcam is Some { 1int } else { 0 };
            let blur = if scalar::scalar_of_bits(0).spec_lt(args.motion_blur) { 1int } else { 0 };
            let audio = if args.audio_track@.len() > 0 { 1int } else { 0 };
            let background = if args.bg_type matches Some(kind) && (kind@ == "gradient"@ || kind@
                == "image"@) { 1int } else { 0 };
            args.unsupported().len() == webcam + blur + audio + background
        }),
{
    reveal_strlit("gradient");
    reveal_strlit("image");
    assert("gradient"@.len() != "image"@.len());
}

/// Quality goes from low over medium to high, which anything else is, too: the higher, the
/// lower the rate factor.
pub proof fn law_quality_lowers_the_rate_factor(quality: Seq<char>)
    ensures
        ExportArgs::crf_of("low"@) == 28,
        ExportArgs::crf_of("medium"@) == 23,
        quality != "low"@ && quality != "medium"@ ==> ExportArgs::crf_of(quality) == 18,
        ExportArgs::preset_of("low"@) == "fast"@,
        quality != "low"@ ==> ExportArgs::preset_of(quality) == "medium"@,
{
    reveal_strlit("low");
    reveal_strlit("medium");
    assert("low"@.len() != "medium"@.len());
}

} // verus!
