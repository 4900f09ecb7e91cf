use vstd::prelude::*;

verus! {

/// Container and codec of the converted animation.
#[derive(Clone, Copy, Debug, PartialEq, Eq, Structural)]
pub enum OutputFormat {
    WebmVp9,
    MovProres4444,
    Webp,
    Gif,
}

/// Frame rates whose frame delay is a whole number of GIF ticks (10 ms).
pub open spec fn spec_gif_supports_fps(fps: u32) -> bool {
    fps <= 50 && fps > 0 && 100int % (fps as int) == 0
}

/// Whether GIF output can carry `fps` frames per second exactly: GIF stores
/// frame delays in units of 10 ms.
pub fn gif_supports_fps(fps: u32) -> (r: bool)
    ensures
        r == spec_gif_supports_fps(fps),
{
    fps <= 50 && fps > 0 && 100 % fps == 0
}

impl OutputFormat {
    pub open spec fn spec_default_fps(self) -> u32 {
        match self {
            OutputFormat::Gif => 50,
            _ => 60,
        }
    }

    /// File extension used for a default output path.
    pub fn file_extension(self) -> (r: &'static str)
        ensures
            r@ == match self {
                OutputFormat::WebmVp9 => "webm"@,
                OutputFormat::MovProres4444 => "mov"@,
                OutputFormat::Webp => "webp"@,
                OutputFormat::Gif => "gif"@,
            },
    {
        match self {
            OutputFormat::WebmVp9 => "webm",
            OutputFormat::MovProres4444 => "mov",
            OutputFormat::Webp => "webp",
            OutputFormat::Gif => "gif",
        }
    }

    /// Human-readable name of the format.
    pub fn description(self) -> (r: &'static str)
        ensures
            r@ == match self {
                OutputFormat::WebmVp9 => "VP9 alpha WebM"@,
                OutputFormat::MovProres4444 => "ProRes 4444 alpha MOV"@,
                OutputFormat::Webp => "animated WebP"@,
                OutputFormat::Gif => "animated GIF"@,
            },
    {
        match self {
            OutputFormat::WebmVp9 => "VP9 alpha WebM",
            OutputFormat::MovProres4444 => "ProRes 4444 alpha MOV",
            OutputFormat::Webp => "animated WebP",
            OutputFormat::Gif => "animated GIF",
        }
    }

    /// Frame rate used when none is requested: 50 for GIF, 60 otherwise.
    pub fn default_fps(self) -> (r: u32)
        ensures
            r == self.spec_default_fps(),
    {
        match self {
            OutputFormat::Gif => 50,
            OutputFormat::WebmVp9 | OutputFormat::MovProres4444 | OutputFormat::Webp => 60,
        }
    }
}


/// Encoding options that the rules below read.
///
/// The source and destination paths, the encoder location and the two
/// fractional settings (playback speed and rotation) stay with the caller;
/// what the rules need to know of them comes in a [`HostChecks`].
#[derive(Clone, Copy, Debug)]
pub struct ConvertOptions {
    pub fps: u32,
    pub width: Option<usize>,
    pub height: Option<usize>,
    pub quality: u8,
    pub flip_horizontal: bool,
    pub flip_vertical: bool,
    pub threads: usize,
    pub output_format: OutputFormat,
}

/// Facts about the options that depend on floating-point values or on the
/// file system, established by the caller.
#[derive(Clone, Copy, Debug)]
pub struct HostChecks {
    /// The playback speed lies in `0.1..=10.0`.
    pub play_speed_in_range: bool,
    /// The rotation in degrees is a finite number.
    pub rotation_finite: bool,
    /// The output path equals the input path.
    pub output_is_input: bool,
    /// The input path names an existing regular file.
    pub input_is_file: bool,
}

/// Why a set of options is refused.
#[derive(Clone, Copy, Debug, PartialEq, Eq, Structural)]
pub enum OptionsError {
    FpsOutOfRange,
    GifFpsUnsupported,
    QualityOutOfRange,
    PlaySpeedOutOfRange,
    RotationNotFinite,
    ZeroDimension,
    OutputOverwritesInput,
    NoThreads,
    InputNotAFile,
}

impl OptionsError {
    /// The message shown to the user.
    pub fn message(self) -> (r: String)
        ensures
            r@ == self.spec_message(),
    {
        let text: &str = match self {
            OptionsError::FpsOutOfRange => "--fps must be in the range 1..=240",
            OptionsError::GifFpsUnsupported => "GIF --fps must be one of 1, 2, 4, 5, 10, 20, 25, or 50 so every frame delay is an integer multiple of 10ms",
            OptionsError::QualityOutOfRange => "--quality must be in the range 0..=100",
            OptionsError::PlaySpeedOutOfRange => "--play-speed must be in the range 0.1..=10.0",
            OptionsError::RotationNotFinite => "--rotation must be a finite number",
            OptionsError::ZeroDimension => "--width and --height must be positive when set",
            OptionsError::OutputOverwritesInput => "--output must not overwrite the input file",
            OptionsError::NoThreads => "--threads must be at least 1",
            OptionsError::InputNotAFile => "input is not a file",
        };
        String::from_str(text)
    }

    pub open spec fn spec_message(self) -> Seq<char> {
        match self {
            OptionsError::FpsOutOfRange => "--fps must be in the range 1..=240"@,
            OptionsError::GifFpsUnsupported => "GIF --fps must be one of 1, 2, 4, 5, 10, 20, 25, or 50 so every frame delay is an integer multiple of 10ms"@,
            OptionsError::QualityOutOfRange => "--quality must be in the range 0..=100"@,
            OptionsError::PlaySpeedOutOfRange => "--play-speed must be in the range 0.1..=10.0"@,
            OptionsError::RotationNotFinite => "--rotation must be a finite number"@,
            OptionsError::ZeroDimension => "--width and --height must be positive when set"@,
            OptionsError::OutputOverwritesInput => "--output must not overwrite the input file"@,
            OptionsError::NoThreads => "--threads must be at least 1"@,
            OptionsError::InputNotAFile => "input is not a file"@,
        }
    }
}

/// VP9 constant-rate factor for a quality percentage.
pub open spec fn spec_vp9_crf(quality: u8) -> u8 {
    if 95 <= quality <= 100 { 15 }
    else if 90 <= quality <= 94 { 20 }
    else if 80 <= quality <= 89 { 25 }
    else if 70 <= quality <= 79 { 30 }
    else if 60 <= quality <= 69 { 35 }
    else if 50 <= quality <= 59 { 40 }
    else if 40 <= quality <= 49 { 45 }
    else if 30 <= quality <= 39 { 50 }
    else { 55 }
}

/// VP9 `cpu-used` speed setting for a quality percentage.
pub open spec fn spec_vp9_cpu_used(quality: u8) -> u8 {
    if 90 <= quality <= 100 { 0 }
    else if 80 <= quality <= 89 { 1 }
    else if 70 <= quality <= 79 { 2 }
    else if 60 <= quality <= 69 { 3 }
    else if 50 <= quality <= 59 { 4 }
    else if 40 <= quality <= 49 { 5 }
    else if 30 <= quality <= 39 { 6 }
    else { 8 }
}

/// ProRes per-macroblock bit ceiling for a quality percentage.
pub open spec fn spec_prores_bits_per_mb(quality: u8) -> u16 {
    if 95 <= quality <= 100 { 8000 }
    else if 90 <= quality <= 94 { 7000 }
    else if 80 <= quality <= 89 { 6000 }
    else if 70 <= quality <= 79 { 5000 }
    else if 60 <= quality <= 69 { 4000 }
    else if 50 <= quality <= 59 { 3500 }
    else if 40 <= quality <= 49 { 3000 }
    else if 30 <= quality <= 39 { 2500 }
    else { 2000 }
}

/// The first rule that a set of options breaks, in the order in which the
/// rules are checked, or `Ok` when it breaks none.
pub open spec fn spec_validate(o: ConvertOptions, host: HostChecks) -> Result<(), OptionsError> {
    if o.fps == 0 || o.fps > 240 {
        Err(OptionsError::FpsOutOfRange)
    } else if o.output_format == OutputFormat::Gif && !spec_gif_supports_fps(o.fps) {
        Err(OptionsError::GifFpsUnsupported)
    } else if o.quality > 100 {
        Err(OptionsError::QualityOutOfRange)
    } else if !host.play_speed_in_range {
        Err(OptionsError::PlaySpeedOutOfRange)
    } else if !host.rotation_finite {
        Err(OptionsError::RotationNotFinite)
    } else if o.width == Some(0usize) || o.height == Some(0usize) {
        Err(OptionsError::ZeroDimension)
    } else if host.output_is_input {
        Err(OptionsError::OutputOverwritesInput)
    } else if o.threads == 0 {
        Err(OptionsError::NoThreads)
    } else if !host.input_is_file {
        Err(OptionsError::InputNotAFile)
    } else {
        Ok(())
    }
}

impl ConvertOptions {
    /// Checks the options; the first broken rule is reported.
    pub fn validate(&self, host: &HostChecks) -> (r: Result<(), OptionsError>)
        ensures
            r == spec_validate(*self, *host),
    {
        if self.fps == 0 || self.fps > 240 {
            return Err(OptionsError::FpsOutOfRange);
        }
        if self.output_format == OutputFormat::Gif && !gif_supports_fps(self.fps) {
            return Err(OptionsError::GifFpsUnsupported);
        }
        if self.quality > 100 {
            return Err(OptionsError::QualityOutOfRange);
        }
        if !host.play_speed_in_range {
            return Err(OptionsError::PlaySpeedOutOfRange);
        }
        if !host.rotation_finite {
            return Err(OptionsError::RotationNotFinite);
        }
        let zero_width = match self.width {
            Some(w) => w == 0,
            None => false,
        };
        let zero_height = match self.height {
            Some(h) => h == 0,
            None => false,
        };
        if zero_width || zero_height {
            return Err(OptionsError::ZeroDimension);
        }
        if host.output_is_input {
            return Err(OptionsError::OutputOverwritesInput);
        }
        if self.threads == 0 {
            return Err(OptionsError::NoThreads);
        }
        if !host.input_is_file {
            return Err(OptionsError::InputNotAFile);
        }
        Ok(())
    }

    /// VP9 CRF for the quality setting (lower is better quality).
    pub fn vp9_crf(&self) -> (r: u8)
        ensures
            r == spec_vp9_crf(self.quality),
    {
        let q = self.quality;
        if 95 <= q && q <= 100 { 15 }
        else if 90 <= q && q <= 94 { 20 }
        else if 80 <= q && q <= 89 { 25 }
        else if 70 <= q && q <= 79 { 30 }
        else if 60 <= q && q <= 69 { 35 }
        else if 50 <= q && q <= 59 { 40 }
        else if 40 <= q && q <= 49 { 45 }
        else if 30 <= q && q <= 39 { 50 }
        else { 55 }
    }

    /// VP9 `cpu-used` for the quality setting (lower is slower and better).
    pub fn vp9_cpu_used(&self) -> (r: u8)
        ensures
            r == spec_vp9_cpu_used(self.quality),
    {
        let q = self.quality;
        if 90 <= q && q <= 100 { 0 }
        else if 80 <= q && q <= 89 { 1 }
        else if 70 <= q && q <= 79 { 2 }
        else if 60 <= q && q <= 69 { 3 }
        else if 50 <= q && q <= 59 { 4 }
        else if 40 <= q && q <= 49 { 5 }
        else if 30 <= q && q <= 39 { 6 }
        else { 8 }
    }

    /// ProRes per-macroblock bitrate ceiling for the quality setting; the
    /// 4444 profile and the alpha depth do not depend on it.
    pub fn prores_bits_per_mb(&self) -> (r: u16)
        ensures
            r == spec_prores_bits_per_mb(self.quality),
    {
        let q = self.quality;
        if 95 <= q && q <= 100 { 8000 }
        else if 90 <= q && q <= 94 { 7000 }
        else if 80 <= q && q <= 89 { 6000 }
        else if 70 <= q && q <= 79 { 5000 }
        else if 60 <= q && q <= 69 { 4000 }
        else if 50 <= q && q <= 59 { 3500 }
        else if 40 <= q && q <= 49 { 3000 }
        else if 30 <= q && q <= 39 { 2500 }
        else { 2000 }
    }
}


/// Law: GIF accepts exactly the frame rates 1, 2, 4, 5, 10, 20, 25 and 50.
pub proof fn lemma_gif_frame_rates(fps: u32)
    ensures
        spec_gif_supports_fps(fps) <==> (fps == 1 || fps == 2 || fps == 4 || fps == 5 || fps == 10 || fps == 20
            || fps == 25 || fps == 50),
{
    assert((fps <= 50 && fps > 0 && 100u32 % fps == 0) <==> (fps == 1 || fps == 2 || fps == 4 || fps == 5 || fps
        == 10 || fps == 20 || fps == 25 || fps == 50)) by (bit_vector);
    assert(fps > 0 ==> (100u32 % fps) as int == 100int % (fps as int));
}

/// Law: the default frame rate of every format passes the frame-rate rules,
/// and GIF's default is the highest rate GIF accepts.
pub proof fn lemma_default_fps_is_valid(format: OutputFormat)
    ensures
        0 < format.spec_default_fps() <= 240,
        format == OutputFormat::Gif ==> spec_gif_supports_fps(format.spec_default_fps()),
        format == OutputFormat::Gif ==> forall|fps: u32| spec_gif_supports_fps(fps) ==> fps <= format.spec_default_fps(),
{
}

/// Law: within the accepted range, a higher quality never gives a higher
/// VP9 CRF, a higher `cpu-used`, or a lower ProRes bit ceiling.
pub proof fn lemma_quality_mappings_monotonic(low: u8, high: u8)
    requires
        low <= high <= 100,
    ensures
        spec_vp9_crf(high) <= spec_vp9_crf(low),
        spec_vp9_cpu_used(high) <= spec_vp9_cpu_used(low),
        spec_prores_bits_per_mb(low) <= spec_prores_bits_per_mb(high),
{
}


/// Law: for a format other than GIF, options that meet every other rule are
/// accepted exactly when the frame rate lies in 1..=240.
pub proof fn lemma_frame_rate_rule(o: ConvertOptions, host: HostChecks)
    requires
        o.output_format != OutputFormat::Gif,
        o.quality <= 100,
        o.threads > 0,
        o.width != Some(0usize),
        o.height != Some(0usize),
        host.play_speed_in_range,
        host.rotation_finite,
        !host.output_is_input,
        host.input_is_file,
    ensures
        spec_validate(o, host) is Ok <==> 1 <= o.fps <= 240,
        !(1 <= o.fps <= 240) ==> spec_validate(o, host) == Err::<(), OptionsError>(OptionsError::FpsOutOfRange),
{
}


/// Law: options are accepted exactly when every rule holds: a frame rate in
/// 1..=240 (for GIF one of 1, 2, 4, 5, 10, 20, 25, 50), a quality of at most
/// 100, a playback speed in range, a finite rotation, no zero width or
/// height, an output that is not the input, at least one thread, and an
/// input that is a file.
pub proof fn lemma_validate_accepts_exactly(o: ConvertOptions, host: HostChecks)
    ensures
        spec_validate(o, host) is Ok <==> {
            &&& 1 <= o.fps <= 240
            &&& o.output_format == OutputFormat::Gif ==> (o.fps == 1 || o.fps == 2 || o.fps == 4 || o.fps == 5
                || o.fps == 10 || o.fps == 20 || o.fps == 25 || o.fps == 50)
            &&& o.quality <= 100
            &&& host.play_speed_in_range
            &&& host.rotation_finite
            &&& o.width != Some(0usize)
            &&& o.height != Some(0usize)
            &&& !host.output_is_input
            &&& o.threads > 0
            &&& host.input_is_file
        },
        !(1 <= o.fps <= 240) ==> spec_validate(o, host) == Err::<(), OptionsError>(OptionsError::FpsOutOfRange),
        1 <= o.fps <= 240 && o.quality > 100 && o.output_format != OutputFormat::Gif
            ==> spec_validate(o, host) == Err::<(), OptionsError>(OptionsError::QualityOutOfRange),
        spec_validate(o, host) == Err::<(), OptionsError>(OptionsError::InputNotAFile) ==> !host.input_is_file,
{
    lemma_gif_frame_rates(o.fps);
}

} // verus!
