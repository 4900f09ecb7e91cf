use vstd::prelude::*;
use crate::options::{
    ConvertOptions, HostChecks, OutputFormat, spec_gif_supports_fps, spec_prores_bits_per_mb, spec_validate,
    spec_vp9_cpu_used, spec_vp9_crf,
};
use crate::schedule::{lemma_webp_duration_bounds, spec_webp_frame_duration_ms, webp_frame_duration_ms};
use crate::text::{
    decimal_string, frame_file_name, lemma_decimal_digits, lemma_frame_file_name_pattern, spec_all_digits,
    spec_decimal, spec_digits_value, spec_frame_file_name,
};

verus! {

/// The external program that turns the PNG frame sequence into the output.
#[derive(Clone, Copy, Debug, PartialEq, Eq, Structural)]
pub enum EncoderProgram {
    /// FFmpeg, at the location given in the options (WebM and MOV).
    Ffmpeg,
    /// `img2webp` from the WebP tools (animated WebP).
    Img2webp,
    /// `gifski` (GIF).
    Gifski,
}

/// The command line for encoding a frame directory: the program, the
/// arguments before the output path, and the arguments after it. The
/// program runs in the frame directory.
pub struct EncodePlan {
    pub program: EncoderProgram,
    pub arguments: Vec<String>,
    pub arguments_after_output: Vec<String>,
}

/// The characters of each argument.
pub open spec fn arg_views(args: Seq<String>) -> Seq<Seq<char>> {
    args.map_values(|s: String| s@)
}

fn push_arg(args: &mut Vec<String>, arg: String)
    ensures
        arg_views(final(args)@) == arg_views(old(args)@).push(arg@),
{
    let ghost a = arg@;
    args.push(arg);
    assert(arg_views(args@) =~= arg_views(old(args)@).push(a));
}

fn push_str(args: &mut Vec<String>, arg: &str)
    ensures
        arg_views(final(args)@) == arg_views(old(args)@).push(arg@),
{
    push_arg(args, String::from_str(arg));
}

/// Which program encodes each output format.
pub open spec fn spec_encoder_program(format: OutputFormat) -> EncoderProgram {
    match format {
        OutputFormat::Gif => EncoderProgram::Gifski,
        OutputFormat::Webp => EncoderProgram::Img2webp,
        _ => EncoderProgram::Ffmpeg,
    }
}

/// The quality handed to the WebP and GIF encoders: the setting, at least 1.
pub open spec fn spec_min_one_quality(quality: u8) -> nat {
    if quality < 1 { 1 } else { quality as nat }
}

/// FFmpeg arguments (before the output path) for a WebM or MOV output.
pub open spec fn spec_ffmpeg_arguments(options: ConvertOptions, frame_count: nat) -> Seq<Seq<char>> {
    let threads = spec_decimal(options.threads as nat);
    seq![
        "-hide_banner"@, "-y"@, "-framerate"@, spec_decimal(options.fps as nat), "-i"@, "%05d.png"@,
        "-frames:v"@, spec_decimal(frame_count),
    ] + (if options.output_format == OutputFormat::WebmVp9 {
        seq![
            "-c:v"@, "libvpx-vp9"@, "-crf"@, spec_decimal(spec_vp9_crf(options.quality) as nat), "-b:v"@, "0"@,
            "-cpu-used"@, spec_decimal(spec_vp9_cpu_used(options.quality) as nat), "-threads"@, threads,
            "-row-mt"@, "1"@, "-tile-columns"@, "2"@, "-tile-rows"@, "1"@, "-frame-parallel"@, "1"@,
            "-auto-alt-ref"@, "1"@, "-lag-in-frames"@, "25"@, "-pix_fmt"@, "yuva420p"@,
        ]
    } else {
        seq![
            "-c:v"@, "prores_ks"@, "-profile:v"@, "4"@, "-bits_per_mb"@,
            spec_decimal(spec_prores_bits_per_mb(options.quality) as nat), "-alpha_bits"@, "16"@,
            "-threads"@, threads, "-pix_fmt"@, "yuva444p10le"@, "-movflags"@, "+faststart"@,
        ]
    }) + seq!["-progress"@, "pipe:1"@, "-nostats"@]
}

/// `img2webp` arguments for one frame: its duration, lossless compression
/// that keeps the exact colours under transparent pixels, and its file.
pub open spec fn spec_webp_frame_arguments(frame: nat, fps: u32) -> Seq<Seq<char>> {
    seq![
        "-d"@, spec_decimal(spec_webp_frame_duration_ms(frame as int, fps as int) as nat), "-lossless"@, "-exact"@,
        "-m"@, "6"@, spec_frame_file_name(frame),
    ]
}

/// `img2webp` arguments for the first `count` frames.
pub open spec fn spec_webp_frames_arguments(count: nat, fps: u32) -> Seq<Seq<char>>
    decreases count,
{
    if count == 0 {
        Seq::empty()
    } else {
        spec_webp_frames_arguments((count - 1) as nat, fps) + spec_webp_frame_arguments((count - 1) as nat, fps)
    }
}

/// `img2webp` arguments (before the output path): a looping, lossless
/// animation of every frame with its own duration, at every quality setting.
pub open spec fn spec_img2webp_arguments(options: ConvertOptions, frame_count: nat) -> Seq<Seq<char>> {
    seq!["-loop"@, "0"@, "-min_size"@] + spec_webp_frames_arguments(frame_count, options.fps)
        + seq!["-o"@]
}

/// `gifski` arguments before the output path.
pub open spec fn spec_gifski_arguments(options: ConvertOptions, width: nat, height: nat) -> Seq<Seq<char>> {
    seq![
        "--fps"@, spec_decimal(options.fps as nat), "--quality"@, spec_decimal(spec_min_one_quality(options.quality)),
        "--repeat"@, "0"@, "--width"@, spec_decimal(width), "--height"@, spec_decimal(height), "--no-sort"@,
        "--output"@,
    ]
}

/// The frame files, in frame order.
pub open spec fn spec_frame_file_names(count: nat) -> Seq<Seq<char>> {
    Seq::new(count, |i: int| spec_frame_file_name(i as nat))
}

/// Arguments before and after the output path, for each program.
pub open spec fn spec_plan_arguments(options: ConvertOptions, frame_count: nat, width: nat, height: nat) -> (
    Seq<Seq<char>>,
    Seq<Seq<char>>,
) {
    match spec_encoder_program(options.output_format) {
        EncoderProgram::Gifski => (spec_gifski_arguments(options, width, height), spec_frame_file_names(frame_count)),
        EncoderProgram::Img2webp => (spec_img2webp_arguments(options, frame_count), Seq::empty()),
        EncoderProgram::Ffmpeg => (spec_ffmpeg_arguments(options, frame_count), Seq::empty()),
    }
}

fn ffmpeg_arguments(options: &ConvertOptions, frame_count: usize) -> (r: Vec<String>)
    requires
        options.output_format == OutputFormat::WebmVp9 || options.output_format == OutputFormat::MovProres4444,
    ensures
        arg_views(r@) == spec_ffmpeg_arguments(*options, frame_count as nat),
{
    let mut args: Vec<String> = Vec::new();
    push_str(&mut args, "-hide_banner");
    push_str(&mut args, "-y");
    push_str(&mut args, "-framerate");
    push_arg(&mut args, decimal_string(options.fps as u64));
    push_str(&mut args, "-i");
    push_str(&mut args, "%05d.png");
    push_str(&mut args, "-frames:v");
    push_arg(&mut args, decimal_string(frame_count as u64));
    if options.output_format == OutputFormat::WebmVp9 {
        push_str(&mut args, "-c:v");
        push_str(&mut args, "libvpx-vp9");
        push_str(&mut args, "-crf");
        push_arg(&mut args, decimal_string(options.vp9_crf() as u64));
        push_str(&mut args, "-b:v");
        push_str(&mut args, "0");
        push_str(&mut args, "-cpu-used");
        push_arg(&mut args, decimal_string(options.vp9_cpu_used() as u64));
        push_str(&mut args, "-threads");
        push_arg(&mut args, decimal_string(options.threads as u64));
        push_str(&mut args, "-row-mt");
        push_str(&mut args, "1");
        push_str(&mut args, "-tile-columns");
        push_str(&mut args, "2");
        push_str(&mut args, "-tile-rows");
        push_str(&mut args, "1");
        push_str(&mut args, "-frame-parallel");
        push_str(&mut args, "1");
        push_str(&mut args, "-auto-alt-ref");
        push_str(&mut args, "1");
        push_str(&mut args, "-lag-in-frames");
        push_str(&mut args, "25");
        push_str(&mut args, "-pix_fmt");
        push_str(&mut args, "yuva420p");
    } else {
        push_str(&mut args, "-c:v");
        push_str(&mut args, "prores_ks");
        push_str(&mut args, "-profile:v");
        push_str(&mut args, "4");
        push_str(&mut args, "-bits_per_mb");
        push_arg(&mut args, decimal_string(options.prores_bits_per_mb() as u64));
        push_str(&mut args, "-alpha_bits");
        push_str(&mut args, "16");
        push_str(&mut args, "-threads");
        push_arg(&mut args, decimal_string(options.threads as u64));
        push_str(&mut args, "-pix_fmt");
        push_str(&mut args, "yuva444p10le");
        push_str(&mut args, "-movflags");
        push_str(&mut args, "+faststart");
    }
    push_str(&mut args, "-progress");
    push_str(&mut args, "pipe:1");
    push_str(&mut args, "-nostats");
    assert(arg_views(args@) =~= spec_ffmpeg_arguments(*options, frame_count as nat));
    args
}

fn min_one_quality(quality: u8) -> (r: u8)
    ensures
        r == spec_min_one_quality(quality),
{
    if quality < 1 { 1 } else { quality }
}

fn img2webp_arguments(options: &ConvertOptions, frame_count: usize) -> (r: Vec<String>)
    requires
        options.fps > 0,
        frame_count * 1000 <= u64::MAX,
    ensures
        arg_views(r@) == spec_img2webp_arguments(*options, frame_count as nat),
{
    let mut args: Vec<String> = Vec::new();
    push_str(&mut args, "-loop");
    push_str(&mut args, "0");
    push_str(&mut args, "-min_size");
    let ghost prefix = arg_views(args@);
    assert(prefix =~= seq!["-loop"@, "0"@, "-min_size"@]);
    let mut frame: usize = 0;
    while frame < frame_count
        invariant
            options.fps > 0,
            frame_count * 1000 <= u64::MAX,
            frame <= frame_count,
            arg_views(args@) == prefix + spec_webp_frames_arguments(frame as nat, options.fps),
        decreases frame_count - frame,
    {
        let ghost before = arg_views(args@);
        push_str(&mut args, "-d");
        push_arg(&mut args, decimal_string(webp_frame_duration_ms(frame, options.fps) as u64));
        push_str(&mut args, "-lossless");
        push_str(&mut args, "-exact");
        push_str(&mut args, "-m");
        push_str(&mut args, "6");
        push_arg(&mut args, frame_file_name(frame));
        assert(arg_views(args@) =~= before + spec_webp_frame_arguments(frame as nat, options.fps));
        assert(arg_views(args@) =~= prefix + spec_webp_frames_arguments((frame + 1) as nat, options.fps));
        frame = frame + 1;
    }
    push_str(&mut args, "-o");
    assert(arg_views(args@) =~= spec_img2webp_arguments(*options, frame_count as nat));
    args
}

fn gifski_arguments(options: &ConvertOptions, width: usize, height: usize) -> (r: Vec<String>)
    ensures
        arg_views(r@) == spec_gifski_arguments(*options, width as nat, height as nat),
{
    let mut args: Vec<String> = Vec::new();
    push_str(&mut args, "--fps");
    push_arg(&mut args, decimal_string(options.fps as u64));
    push_str(&mut args, "--quality");
    push_arg(&mut args, decimal_string(min_one_quality(options.quality) as u64));
    push_str(&mut args, "--repeat");
    push_str(&mut args, "0");
    push_str(&mut args, "--width");
    push_arg(&mut args, decimal_string(width as u64));
    push_str(&mut args, "--height");
    push_arg(&mut args, decimal_string(height as u64));
    push_str(&mut args, "--no-sort");
    push_str(&mut args, "--output");
    assert(arg_views(args@) =~= spec_gifski_arguments(*options, width as nat, height as nat));
    args
}

/// The names of the first `frame_count` frame files, in order.
pub fn frame_file_names(frame_count: usize) -> (r: Vec<String>)
    ensures
        arg_views(r@) == spec_frame_file_names(frame_count as nat),
{
    let mut names: Vec<String> = Vec::new();
    let mut frame: usize = 0;
    while frame < frame_count
        invariant
            frame <= frame_count,
            arg_views(names@) == spec_frame_file_names(frame as nat),
        decreases frame_count - frame,
    {
        push_arg(&mut names, frame_file_name(frame));
        assert(arg_views(names@) =~= spec_frame_file_names((frame + 1) as nat));
        frame = frame + 1;
    }
    names
}

/// The encoder command line for `frame_count` frames of `width` x `height`
/// pixels: FFmpeg for WebM (VP9 with alpha) and MOV (ProRes 4444),
/// `img2webp` for WebP and `gifski` for GIF.
pub fn encode_plan(options: &ConvertOptions, frame_count: usize, width: usize, height: usize) -> (r: EncodePlan)
    requires
        options.output_format == OutputFormat::Webp ==> options.fps > 0 && frame_count * 1000 <= u64::MAX,
    ensures
        r.program == spec_encoder_program(options.output_format),
        (arg_views(r.arguments@), arg_views(r.arguments_after_output@)) == spec_plan_arguments(
            *options,
            frame_count as nat,
            width as nat,
            height as nat,
        ),
{
    if options.output_format == OutputFormat::Gif {
        EncodePlan {
            program: EncoderProgram::Gifski,
            arguments: gifski_arguments(options, width, height),
            arguments_after_output: frame_file_names(frame_count),
        }
    } else if options.output_format == OutputFormat::Webp {
        let arguments = img2webp_arguments(options, frame_count);
        let after: Vec<String> = Vec::new();
        assert(arg_views(after@) =~= Seq::empty());
        EncodePlan { program: EncoderProgram::Img2webp, arguments, arguments_after_output: after }
    } else {
        let arguments = ffmpeg_arguments(options, frame_count);
        let after: Vec<String> = Vec::new();
        assert(arg_views(after@) =~= Seq::empty());
        EncodePlan { program: EncoderProgram::Ffmpeg, arguments, arguments_after_output: after }
    }
}


/// Law: options that pass validation can be encoded: their frame rate is
/// positive (as WebP frame timing needs), at most 240, and for GIF one whose
/// frame delay is a whole number of 10 ms ticks.
pub proof fn lemma_validated_options_can_be_encoded(options: ConvertOptions, host: HostChecks)
    requires
        spec_validate(options, host) is Ok,
    ensures
        0 < options.fps <= 240,
        options.quality <= 100,
        options.threads > 0,
        options.output_format == OutputFormat::Gif ==> spec_gif_supports_fps(options.fps),
{
}

/// Law: FFmpeg reads the frame directory at the requested frame rate and
/// stops after the rendered frame count: in every WebM or MOV plan the
/// arguments start `-hide_banner -y -framerate <fps> -i %05d.png -frames:v
/// <frame_count>`, where the two numbers are decimal digits whose values are
/// `options.fps` and `frame_count`.
pub proof fn lemma_ffmpeg_reads_frames_at_requested_rate(
    options: ConvertOptions,
    frame_count: nat,
    width: nat,
    height: nat,
)
    requires
        options.output_format == OutputFormat::WebmVp9 || options.output_format == OutputFormat::MovProres4444,
    ensures
        ({
            let args = spec_plan_arguments(options, frame_count, width, height).0;
            &&& args.len() >= 8
            &&& args[0] == "-hide_banner"@
            &&& args[1] == "-y"@
            &&& args[2] == "-framerate"@
            &&& spec_all_digits(args[3])
            &&& spec_digits_value(args[3]) == options.fps
            &&& args[4] == "-i"@
            &&& args[5] == "%05d.png"@
            &&& args[6] == "-frames:v"@
            &&& spec_all_digits(args[7])
            &&& spec_digits_value(args[7]) == frame_count
        }),
{
    lemma_decimal_digits(options.fps as nat);
    lemma_decimal_digits(frame_count);
}

/// The seven `img2webp` arguments of frame `k` in an argument list.
pub open spec fn webp_frame_block(args: Seq<Seq<char>>, k: int) -> Seq<Seq<char>> {
    args.subrange(3 + 7 * k, 10 + 7 * k)
}

proof fn lemma_webp_frames_layout(count: nat, fps: u32)
    ensures
        spec_webp_frames_arguments(count, fps).len() == 7 * count,
        forall|k: int|
            0 <= k < count ==> spec_webp_frames_arguments(count, fps).subrange(7 * k, 7 * k + 7)
                == #[trigger] spec_webp_frame_arguments(k as nat, fps),
    decreases count,
{
    if count > 0 {
        let prev = (count - 1) as nat;
        lemma_webp_frames_layout(prev, fps);
        let all = spec_webp_frames_arguments(count, fps);
        let before = spec_webp_frames_arguments(prev, fps);
        assert forall|k: int| 0 <= k < count implies all.subrange(7 * k, 7 * k + 7)
            == #[trigger] spec_webp_frame_arguments(k as nat, fps) by {
            if k < prev {
                assert(all.subrange(7 * k, 7 * k + 7) =~= before.subrange(7 * k, 7 * k + 7));
            } else {
                assert(all.subrange(7 * k, 7 * k + 7) =~= spec_webp_frame_arguments(prev, fps));
            }
        }
    }
}

/// Law: an animated-WebP plan lists every frame in order: after
/// `-loop 0 -min_size`, frame `k` gets `-d <ms> -lossless -exact -m 6
/// <file>`, where `<ms>` is decimal for `(k + 1) * 1000 / fps - k * 1000 / fps`
/// and `<file>` is five digits with value `k` and `.png` (for `k < 100000`);
/// the list ends with `-o`, and nothing follows the output path.
#[verifier::rlimit(60)]
pub proof fn lemma_img2webp_plan_lists_every_frame(options: ConvertOptions, frame_count: nat, width: nat, height: nat)
    requires
        options.output_format == OutputFormat::Webp,
        options.fps > 0,
    ensures
        ({
            let (args, after) = spec_plan_arguments(options, frame_count, width, height);
            &&& args.len() == 7 * frame_count + 4
            &&& args[0] == "-loop"@
            &&& args[1] == "0"@
            &&& args[2] == "-min_size"@
            &&& args[args.len() - 1] == "-o"@
            &&& after.len() == 0
            &&& forall|k: int|
                0 <= k < frame_count ==> {
                    let b = #[trigger] webp_frame_block(args, k);
                    &&& b[0] == "-d"@
                    &&& spec_all_digits(b[1])
                    &&& spec_digits_value(b[1]) == (k + 1) * 1000 / (options.fps as int) - k * 1000 / (
                    options.fps as int)
                    &&& b[2] == "-lossless"@
                    &&& b[3] == "-exact"@
                    &&& b[4] == "-m"@
                    &&& b[5] == "6"@
                    &&& (k < 100000 ==> {
                        &&& b[6].len() == 9
                        &&& spec_all_digits(b[6].subrange(0, 5))
                        &&& spec_digits_value(b[6].subrange(0, 5)) == k
                        &&& b[6].subrange(5, 9) == seq!['.', 'p', 'n', 'g']
                    })
                }
        }),
{
    let fps = options.fps;
    let frames = spec_webp_frames_arguments(frame_count, fps);
    let args = spec_plan_arguments(options, frame_count, width, height).0;
    lemma_webp_frames_layout(frame_count, fps);
    assert(args == seq!["-loop"@, "0"@, "-min_size"@] + frames + seq!["-o"@]);
    assert forall|k: int| 0 <= k < frame_count implies {
        let b = #[trigger] webp_frame_block(args, k);
        &&& b[0] == "-d"@
        &&& spec_all_digits(b[1])
        &&& spec_digits_value(b[1]) == (k + 1) * 1000 / (fps as int) - k * 1000 / (fps as int)
        &&& b[2] == "-lossless"@
        &&& b[3] == "-exact"@
        &&& b[4] == "-m"@
        &&& b[5] == "6"@
        &&& (k < 100000 ==> {
            &&& b[6].len() == 9
            &&& spec_all_digits(b[6].subrange(0, 5))
            &&& spec_digits_value(b[6].subrange(0, 5)) == k
            &&& b[6].subrange(5, 9) == seq!['.', 'p', 'n', 'g']
        })
    } by {
        assert(webp_frame_block(args, k) =~= frames.subrange(7 * k, 7 * k + 7));
        assert(frames.subrange(7 * k, 7 * k + 7) == spec_webp_frame_arguments(k as nat, fps));
        lemma_webp_duration_bounds(k as nat, fps as int);
        lemma_decimal_digits(spec_webp_frame_duration_ms(k, fps as int) as nat);
        if k < 100000 {
            lemma_frame_file_name_pattern(k as nat);
        }
    }
}

/// Law: a GIF plan hands gifski the requested frame rate, the quality
/// (raised to at least 1), the frame size and an endless loop before the
/// output path, and every frame file in order after it.
pub proof fn lemma_gifski_plan(options: ConvertOptions, frame_count: nat, width: nat, height: nat)
    requires
        options.output_format == OutputFormat::Gif,
    ensures
        ({
            let (args, after) = spec_plan_arguments(options, frame_count, width, height);
            &&& args.len() == 12
            &&& args[0] == "--fps"@ && spec_all_digits(args[1]) && spec_digits_value(args[1]) == options.fps
            &&& args[2] == "--quality"@ && spec_all_digits(args[3]) && spec_digits_value(args[3]) == (if options.quality
                == 0 {
                1
            } else {
                options.quality as int
            })
            &&& args[4] == "--repeat"@ && args[5] == "0"@
            &&& args[6] == "--width"@ && spec_all_digits(args[7]) && spec_digits_value(args[7]) == width
            &&& args[8] == "--height"@ && spec_all_digits(args[9]) && spec_digits_value(args[9]) == height
            &&& args[10] == "--no-sort"@ && args[11] == "--output"@
            &&& after.len() == frame_count
            &&& forall|k: int|
                0 <= k < frame_count && k < 100000 ==> {
                    &&& (#[trigger] after[k]).len() == 9
                    &&& spec_all_digits(after[k].subrange(0, 5))
                    &&& spec_digits_value(after[k].subrange(0, 5)) == k
                    &&& after[k].subrange(5, 9) == seq!['.', 'p', 'n', 'g']
                }
        }),
{
    lemma_decimal_digits(options.fps as nat);
    lemma_decimal_digits(spec_min_one_quality(options.quality));
    lemma_decimal_digits(width);
    lemma_decimal_digits(height);
    let after = spec_plan_arguments(options, frame_count, width, height).1;
    assert forall|k: int| 0 <= k < frame_count && k < 100000 implies {
        &&& (#[trigger] after[k]).len() == 9
        &&& spec_all_digits(after[k].subrange(0, 5))
        &&& spec_digits_value(after[k].subrange(0, 5)) == k
        &&& after[k].subrange(5, 9) == seq!['.', 'p', 'n', 'g']
    } by {
        lemma_frame_file_name_pattern(k as nat);
    }
}

/// Law: the codec settings follow the options: a WebM plan passes
/// `-c:v libvpx-vp9 -crf <crf> -b:v 0 -cpu-used <cpu> -threads <threads>`
/// with the quality's CRF and speed and the thread count, and a MOV plan
/// passes `-c:v prores_ks -profile:v 4 -bits_per_mb <bits> -alpha_bits 16
/// -threads <threads>`; both end with `-progress pipe:1 -nostats`.
pub proof fn lemma_ffmpeg_codec_settings(options: ConvertOptions, frame_count: nat, width: nat, height: nat)
    requires
        options.output_format == OutputFormat::WebmVp9 || options.output_format == OutputFormat::MovProres4444,
    ensures
        ({
            let args = spec_plan_arguments(options, frame_count, width, height).0;
            &&& args.len() >= 11
            &&& args[8] == "-c:v"@
            &&& args[args.len() - 3] == "-progress"@
            &&& args[args.len() - 2] == "pipe:1"@
            &&& args[args.len() - 1] == "-nostats"@
            &&& options.output_format == OutputFormat::WebmVp9 ==> {
                &&& args[9] == "libvpx-vp9"@
                &&& args[10] == "-crf"@ && spec_digits_value(args[11]) == spec_vp9_crf(options.quality)
                &&& args[12] == "-b:v"@ && args[13] == "0"@
                &&& args[14] == "-cpu-used"@ && spec_digits_value(args[15]) == spec_vp9_cpu_used(options.quality)
                &&& args[16] == "-threads"@ && spec_digits_value(args[17]) == options.threads
                &&& args[31] == "yuva420p"@
            }
            &&& options.output_format == OutputFormat::MovProres4444 ==> {
                &&& args[9] == "prores_ks"@
                &&& args[10] == "-profile:v"@ && args[11] == "4"@
                &&& args[12] == "-bits_per_mb"@ && spec_digits_value(args[13]) == spec_prores_bits_per_mb(
                    options.quality,
                )
                &&& args[14] == "-alpha_bits"@ && args[15] == "16"@
                &&& args[16] == "-threads"@ && spec_digits_value(args[17]) == options.threads
                &&& args[19] == "yuva444p10le"@
            }
        }),
{
    lemma_decimal_digits(spec_vp9_crf(options.quality) as nat);
    lemma_decimal_digits(spec_vp9_cpu_used(options.quality) as nat);
    lemma_decimal_digits(spec_prores_bits_per_mb(options.quality) as nat);
    lemma_decimal_digits(options.threads as nat);
}

/// What to do next while an encoder runs.
#[derive(Clone, Copy, Debug, PartialEq, Eq, Structural)]
pub enum WaitAction {
    /// Cancellation was requested: stop the encoder and fail.
    Stop,
    /// The encoder has exited: check its status.
    Finish,
    /// Sleep briefly and poll again.
    Poll,
}

/// The next step of the wait for an encoder: cancellation wins over a
/// finished process, which wins over polling again.
pub fn next_wait_action(cancelled: bool, exited: bool) -> (r: WaitAction)
    ensures
        r == (if cancelled {
            WaitAction::Stop
        } else if exited {
            WaitAction::Finish
        } else {
            WaitAction::Poll
        }),
{
    if cancelled {
        WaitAction::Stop
    } else if exited {
        WaitAction::Finish
    } else {
        WaitAction::Poll
    }
}

/// Whether an encoding percentage is worth printing: it grew since the last
/// one printed, or encoding is complete.
pub fn should_report_percent(percent: u8, last_percent: u8) -> (r: bool)
    ensures
        r == (percent > last_percent || percent == 100),
{
    percent > last_percent || percent == 100
}

} // verus!
