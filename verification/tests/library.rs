use std::io::Write;

use tgs_convert::codec::{check_no_nul_byte, check_viewport, decode_lottie_bytes, encode_png, AnimationError};
use tgs_convert::encoder::{encode_plan, next_wait_action, should_report_percent, EncoderProgram, WaitAction};
use tgs_convert::options::{ConvertOptions, HostChecks, OptionsError, OutputFormat};
use tgs_convert::pixels::{flip_rgba, sample_pixel, unpremultiply_rgba};
use tgs_convert::schedule::{report_interval, should_report_progress, webp_frame_duration_ms, worker_count, worker_frame_range};
use tgs_convert::size::{independent_output_size, resolve_output_size, scale_dimension, SizeError};
use tgs_convert::telegram::{
    api_outcome, check_download_request, download_extension, download_items, download_worker_count,
    extension_from_path, fallback_extension, filename, parse_sticker_set_name, resolve_bot_token, ApiFailure,
    DownloadItem, Sticker,
    TelegramDownloadOptions, TelegramError,
};
use tgs_convert::text::{decimal_string, frame_file_name};
use tgs_convert::gif_supports_fps;

fn base_options(format: OutputFormat) -> ConvertOptions {
    ConvertOptions {
        fps: 60,
        width: None,
        height: None,
        quality: 100,
        flip_horizontal: false,
        flip_vertical: false,
        threads: 4,
        output_format: format,
    }
}

fn good_host() -> HostChecks {
    HostChecks { play_speed_in_range: true, rotation_finite: true, output_is_input: false, input_is_file: true }
}

fn strings(items: &[&str]) -> Vec<String> {
    items.iter().map(|s| s.to_string()).collect()
}

#[test]
fn validate_accepts_good_options() {
    assert_eq!(base_options(OutputFormat::WebmVp9).validate(&good_host()), Ok(()));
}

#[test]
fn validate_reports_each_rule_in_order() {
    let mut o = base_options(OutputFormat::WebmVp9);
    o.fps = 0;
    assert_eq!(o.validate(&good_host()), Err(OptionsError::FpsOutOfRange));
    o.fps = 241;
    assert_eq!(o.validate(&good_host()), Err(OptionsError::FpsOutOfRange));
    let mut o = base_options(OutputFormat::Gif);
    o.fps = 30;
    assert_eq!(o.validate(&good_host()), Err(OptionsError::GifFpsUnsupported));
    let mut o = base_options(OutputFormat::WebmVp9);
    o.quality = 101;
    assert_eq!(o.validate(&good_host()), Err(OptionsError::QualityOutOfRange));
    let o = base_options(OutputFormat::WebmVp9);
    let mut h = good_host();
    h.play_speed_in_range = false;
    h.rotation_finite = false;
    assert_eq!(o.validate(&h), Err(OptionsError::PlaySpeedOutOfRange));
    let mut h = good_host();
    h.rotation_finite = false;
    assert_eq!(o.validate(&h), Err(OptionsError::RotationNotFinite));
    let mut o2 = o;
    o2.height = Some(0);
    assert_eq!(o2.validate(&good_host()), Err(OptionsError::ZeroDimension));
    let mut h = good_host();
    h.output_is_input = true;
    assert_eq!(o.validate(&h), Err(OptionsError::OutputOverwritesInput));
    let mut o3 = o;
    o3.threads = 0;
    assert_eq!(o3.validate(&good_host()), Err(OptionsError::NoThreads));
    let mut h = good_host();
    h.input_is_file = false;
    assert_eq!(o.validate(&h), Err(OptionsError::InputNotAFile));
    assert_eq!(OptionsError::NoThreads.message(), "--threads must be at least 1");
}

#[test]
fn gif_accepts_exactly_the_ten_millisecond_rates() {
    let accepted: Vec<u32> = (0..=300).filter(|fps| gif_supports_fps(*fps)).collect();
    assert_eq!(accepted, vec![1, 2, 4, 5, 10, 20, 25, 50]);
}

#[test]
fn default_fps_and_names_per_format() {
    assert_eq!(OutputFormat::Gif.default_fps(), 50);
    assert_eq!(OutputFormat::WebmVp9.default_fps(), 60);
    assert_eq!(OutputFormat::Webp.default_fps(), 60);
    assert_eq!(OutputFormat::MovProres4444.file_extension(), "mov");
    assert_eq!(OutputFormat::Webp.description(), "animated WebP");
    assert!(gif_supports_fps(OutputFormat::Gif.default_fps()));
}

#[test]
fn quality_mappings_never_get_worse_with_quality() {
    let mut o = base_options(OutputFormat::WebmVp9);
    let mut previous = (u8::MAX, u8::MAX, 0u16);
    for q in 0..=100u8 {
        o.quality = q;
        let now = (o.vp9_crf(), o.vp9_cpu_used(), o.prores_bits_per_mb());
        assert!(now.0 <= previous.0 && now.1 <= previous.1 && now.2 >= previous.2);
        previous = now;
    }
    o.quality = 150;
    assert_eq!(o.vp9_crf(), 55);
}

#[test]
fn scale_dimension_rounds_and_reports_errors() {
    assert_eq!(scale_dimension(384, 256, 512), Ok(192));
    assert_eq!(scale_dimension(1, 1, 3), Ok(1));
    assert_eq!(scale_dimension(2, 1, 3), Ok(1));
    assert_eq!(scale_dimension(5, 1, 2), Ok(3));
    assert_eq!(scale_dimension(1, 1, 1000), Ok(1));
    assert_eq!(scale_dimension(10, 10, 0), Err(SizeError::ZeroIntrinsicDimension));
    assert_eq!(scale_dimension(usize::MAX, usize::MAX, 1), Err(SizeError::OutOfRange));
    assert_eq!(resolve_output_size(Some(10), None, 0, 10), Err(SizeError::ZeroIntrinsicDimension));
    assert_eq!(resolve_output_size(None, Some(100), 1000, 1), Ok((100000, 100)));
    assert_eq!(independent_output_size(Some(256), None, 512, 384), (256, 384));
    assert_eq!(independent_output_size(None, None, 512, 384), (512, 384));
}

#[test]
fn webp_durations_add_up_for_other_rates() {
    for fps in [1u32, 7, 24, 25, 30, 240] {
        let total: u64 = (0..1000).map(|f| webp_frame_duration_ms(f, fps) as u64).sum();
        assert_eq!(total, 1000 * 1000 / fps as u64);
        assert!((0..1000).all(|f| {
            let d = webp_frame_duration_ms(f, fps);
            d == 1000 / fps || d == 1000 / fps + 1
        }));
    }
}

#[test]
fn worker_ranges_partition_the_frames() {
    assert_eq!(worker_count(8, 3), 3);
    assert_eq!(worker_count(2, 100), 2);
    assert_eq!(worker_count(0, 0), 1);
    let frames = 10;
    let workers = worker_count(4, frames);
    let ranges: Vec<(usize, usize)> = (0..workers).map(|w| worker_frame_range(w, workers, frames)).collect();
    assert_eq!(ranges, vec![(0, 2), (2, 5), (5, 7), (7, 10)]);
    assert!(ranges.iter().all(|(s, e)| s < e));
}

#[test]
fn progress_reporting_cadence() {
    assert_eq!(report_interval(50), 1);
    assert_eq!(report_interval(1000), 10);
    assert!(should_report_progress(1000, 995, 1000, 10));
    assert!(!should_report_progress(999, 995, 1000, 10));
    assert!(should_report_progress(1005, 995, 2000, 10));
    assert!(!should_report_progress(3, 5, 100, 1));
}

#[test]
fn flips_restore_the_frame_and_zero_the_tail() {
    let input: Vec<u8> = (0..24).collect();
    let flipped = flip_rgba(&input, 3, 2, true, true);
    assert_eq!(&flipped[0..4], &input[20..24]);
    assert_ne!(flipped, input);
    assert_eq!(flip_rgba(&flipped, 3, 2, true, true), input);
    let vertical = flip_rgba(&input, 3, 2, false, true);
    assert_eq!(&vertical[0..12], &input[12..24]);
    let longer: Vec<u8> = (1..=10).collect();
    let out = flip_rgba(&longer, 1, 2, false, true);
    assert_eq!(out, vec![5, 6, 7, 8, 1, 2, 3, 4, 0, 0]);
}

#[test]
fn sample_pixel_reads_inside_and_blanks_outside() {
    let input: Vec<u8> = (0..16).collect();
    assert_eq!(sample_pixel(&input, 2, 2, 1, 1), [12, 13, 14, 15]);
    assert_eq!(sample_pixel(&input, 2, 2, 1, 0), [4, 5, 6, 7]);
    assert_eq!(sample_pixel(&input, 2, 2, -1, 0), [0, 0, 0, 0]);
    assert_eq!(sample_pixel(&input, 2, 2, 2, 0), [0, 0, 0, 0]);
    assert_eq!(sample_pixel(&input, 2, 2, 0, 2), [0, 0, 0, 0]);
    assert_eq!(sample_pixel(&[], usize::MAX, 0, 3, 0), [0, 0, 0, 0]);
}

#[test]
fn unpremultiply_restores_straight_alpha() {
    let mut rgba = vec![0, 0, 0, 0, 10, 20, 30, 0, 64, 128, 32, 128, 200, 100, 50, 255, 200, 0, 0, 100, 7, 8];
    unpremultiply_rgba(&mut rgba);
    assert_eq!(rgba, vec![0, 0, 0, 0, 0, 0, 0, 0, 128, 255, 64, 128, 200, 100, 50, 255, 255, 0, 0, 100, 7, 8]);
}

#[test]
fn transparent_frames_stay_transparent_after_flip_and_unpremultiply() {
    let mut frame = flip_rgba(&vec![0; 16], 2, 2, true, true);
    unpremultiply_rgba(&mut frame);
    assert!(frame.chunks_exact(4).all(|pixel| pixel[3] == 0));
}

#[test]
fn lottie_bytes_are_decompressed_when_gzipped() {
    let json = br#"{"fr":60,"ip":0,"op":60}"#.to_vec();
    let mut encoder = flate2::write::GzEncoder::new(Vec::new(), flate2::Compression::default());
    encoder.write_all(&json).unwrap();
    let gz = encoder.finish().unwrap();
    assert_ne!(gz, json);
    assert_eq!(decode_lottie_bytes(gz).unwrap(), json);
    assert_eq!(decode_lottie_bytes(json.clone()).unwrap(), json);
    assert_eq!(decode_lottie_bytes(vec![0x1f, 0x8b, 1, 2, 3]), Err(AnimationError::Decompression));
}

#[test]
fn nul_bytes_and_empty_viewports_are_refused() {
    assert_eq!(check_no_nul_byte(b"{}"), Ok(()));
    assert_eq!(check_no_nul_byte(b"{\0}"), Err(AnimationError::NulByte));
    assert_eq!(check_viewport(512, 512), Ok(()));
    assert_eq!(check_viewport(0, 512), Err(AnimationError::EmptyViewport));
}

#[test]
fn png_frames_are_encoded_in_memory() {
    let rgba = vec![255u8, 0, 0, 255, 0, 255, 0, 128];
    let png = encode_png(2, 1, &rgba).unwrap();
    assert_eq!(&png[0..8], &[0x89, b'P', b'N', b'G', 0x0d, 0x0a, 0x1a, 0x0a]);
    let decoder = png::Decoder::new(std::io::Cursor::new(png));
    let mut reader = decoder.read_info().unwrap();
    let mut buffer = vec![0; reader.output_buffer_size().unwrap()];
    let info = reader.next_frame(&mut buffer).unwrap();
    assert_eq!((info.width, info.height), (2, 1));
    assert_eq!(&buffer[..info.buffer_size()], &rgba[..]);
    assert_eq!(encode_png(0, 1, &[]), Err(AnimationError::PngEncoding));
    assert_eq!(encode_png(2, 2, &rgba), Err(AnimationError::PngEncoding));
}

#[test]
fn decimal_and_frame_names() {
    assert_eq!(decimal_string(0), "0");
    assert_eq!(decimal_string(1234567890), "1234567890");
    assert_eq!(decimal_string(u64::MAX), u64::MAX.to_string());
    assert_eq!(frame_file_name(7), "00007.png");
    assert_eq!(frame_file_name(99999), "99999.png");
    assert_eq!(frame_file_name(123456), "123456.png");
}

#[test]
fn ffmpeg_plans_for_webm_and_mov() {
    let mut o = base_options(OutputFormat::WebmVp9);
    o.quality = 85;
    let plan = encode_plan(&o, 120, 512, 512);
    assert_eq!(plan.program, EncoderProgram::Ffmpeg);
    assert_eq!(plan.arguments, strings(&[
        "-hide_banner", "-y", "-framerate", "60", "-i", "%05d.png", "-frames:v", "120", "-c:v", "libvpx-vp9",
        "-crf", "25", "-b:v", "0", "-cpu-used", "1", "-threads", "4", "-row-mt", "1", "-tile-columns", "2",
        "-tile-rows", "1", "-frame-parallel", "1", "-auto-alt-ref", "1", "-lag-in-frames", "25", "-pix_fmt",
        "yuva420p", "-progress", "pipe:1", "-nostats",
    ]));
    assert!(plan.arguments_after_output.is_empty());
    let o = base_options(OutputFormat::MovProres4444);
    let plan = encode_plan(&o, 3, 512, 512);
    assert_eq!(plan.arguments, strings(&[
        "-hide_banner", "-y", "-framerate", "60", "-i", "%05d.png", "-frames:v", "3", "-c:v", "prores_ks",
        "-profile:v", "4", "-bits_per_mb", "8000", "-alpha_bits", "16", "-threads", "4", "-pix_fmt",
        "yuva444p10le", "-movflags", "+faststart", "-progress", "pipe:1", "-nostats",
    ]));
}

#[test]
fn img2webp_plan_lists_every_frame() {
    let plan = encode_plan(&base_options(OutputFormat::Webp), 3, 512, 512);
    assert_eq!(plan.program, EncoderProgram::Img2webp);
    assert_eq!(plan.arguments, strings(&[
        "-loop", "0", "-min_size",
        "-d", "16", "-lossless", "-exact", "-m", "6", "00000.png",
        "-d", "17", "-lossless", "-exact", "-m", "6", "00001.png",
        "-d", "17", "-lossless", "-exact", "-m", "6", "00002.png",
        "-o",
    ]));
    for quality in [0u8, 50, 99] {
        let mut o = base_options(OutputFormat::Webp);
        o.quality = quality;
        let plan = encode_plan(&o, 1, 512, 512);
        assert_eq!(plan.arguments, strings(&[
            "-loop", "0", "-min_size", "-d", "16", "-lossless", "-exact", "-m", "6", "00000.png", "-o",
        ]));
    }
}

#[test]
fn gifski_plan_puts_frames_after_the_output() {
    let mut o = base_options(OutputFormat::Gif);
    o.fps = 50;
    o.quality = 70;
    let plan = encode_plan(&o, 2, 320, 240);
    assert_eq!(plan.program, EncoderProgram::Gifski);
    assert_eq!(plan.arguments, strings(&[
        "--fps", "50", "--quality", "70", "--repeat", "0", "--width", "320", "--height", "240", "--no-sort",
        "--output",
    ]));
    assert_eq!(plan.arguments_after_output, strings(&["00000.png", "00001.png"]));
}

#[test]
fn encoder_wait_and_progress_decisions() {
    assert_eq!(next_wait_action(true, true), WaitAction::Stop);
    assert_eq!(next_wait_action(false, true), WaitAction::Finish);
    assert_eq!(next_wait_action(false, false), WaitAction::Poll);
    assert!(should_report_percent(5, 4));
    assert!(should_report_percent(100, 100));
    assert!(!should_report_percent(4, 4));
}

#[test]
fn sticker_set_names_and_links() {
    assert_eq!(parse_sticker_set_name("  HotCherry\n").unwrap(), "HotCherry");
    assert_eq!(parse_sticker_set_name("HTTPS://WWW.T.ME/AddStickers/Abc_1#frag").unwrap(), "Abc_1");
    assert_eq!(parse_sticker_set_name("tg://t.me/addemoji/x").unwrap(), "x");
    assert_eq!(parse_sticker_set_name("https://t.me/example"), Err(TelegramError::NotAPackLink));
    assert_eq!(parse_sticker_set_name("https://telegram.me/addstickers/x"), Err(TelegramError::NotAPackLink));
    assert_eq!(parse_sticker_set_name("https://t.me/addstickers/"), Err(TelegramError::NotOneSetName));
    assert_eq!(parse_sticker_set_name("https://t.me/addstickers/a/b"), Err(TelegramError::NotOneSetName));
    assert_eq!(parse_sticker_set_name("../not-a-pack"), Err(TelegramError::InvalidSetName));
    assert_eq!(parse_sticker_set_name(""), Err(TelegramError::InvalidSetName));
    assert_eq!(parse_sticker_set_name(&"a".repeat(64)).unwrap(), "a".repeat(64));
    assert_eq!(parse_sticker_set_name(&"a".repeat(65)), Err(TelegramError::InvalidSetName));
    assert_eq!(parse_sticker_set_name("https://t.me/addstickers/bad-name"), Err(TelegramError::InvalidSetName));
}

fn item(emoji: Option<&str>, animated: bool, video: bool) -> DownloadItem {
    DownloadItem {
        file_id: "id".to_owned(),
        unique_id: "uid".to_owned(),
        emoji: emoji.map(|e| e.to_owned()),
        is_animated: animated,
        is_video: video,
    }
}

#[test]
fn file_names_and_extensions() {
    assert_eq!(filename(&item(None, true, false), "tgs"), "uid.tgs");
    assert_eq!(filename(&item(Some("\u{fe0f}/"), true, false), "tgs"), "uid.tgs");
    assert_eq!(filename(&item(Some("a:b"), true, false), "webp"), "ab_uid.webp");
    assert_eq!(extension_from_path("stickers/file_12.tgs").as_deref(), Some("tgs"));
    assert_eq!(extension_from_path("stickers/file_12"), None);
    assert_eq!(extension_from_path("stickers/file.abcdefghijk"), None);
    assert_eq!(extension_from_path("stickers/file.we-bp"), None);
    assert_eq!(fallback_extension(&item(None, true, true)), "tgs");
    assert_eq!(fallback_extension(&item(None, false, true)), "webm");
    assert_eq!(fallback_extension(&item(None, false, false)), "webp");
    assert_eq!(download_extension("stickers/file.WEBM", &item(None, true, false)), "WEBM");
    assert_eq!(download_extension("stickers/file", &item(None, false, true)), "webm");
}

fn sticker(n: u8) -> Sticker {
    Sticker {
        file_id: format!("f{n}"),
        file_unique_id: format!("u{n}"),
        emoji: Some("😀".to_owned()),
        is_animated: n % 2 == 0,
        is_video: false,
    }
}

#[test]
fn download_items_follow_the_set_type() {
    let items = download_items(vec![sticker(0), sticker(1)], "custom_emoji").unwrap();
    assert_eq!(items.len(), 2);
    assert_eq!(items[1].unique_id, "u1");
    assert_eq!(items[0].emoji.as_deref(), Some("😀"));
    assert!(items[0].is_animated && !items[1].is_animated);
    let items = download_items(vec![sticker(0)], "regular").unwrap();
    assert_eq!(items[0].emoji, None);
    assert!(matches!(download_items(vec![], "regular"), Err(TelegramError::EmptyStickerSet)));
    assert_eq!(download_worker_count(8, 3), 3);
    assert_eq!(download_worker_count(2, 3), 2);
}

#[test]
fn download_requests_are_checked_first() {
    let mut options = TelegramDownloadOptions {
        link_or_name: "https://t.me/addstickers/Pack".to_owned(),
        output_directory: std::path::PathBuf::from("out"),
        threads: 0,
    };
    assert_eq!(check_download_request(&options), Err(TelegramError::NoThreads));
    options.threads = 2;
    assert_eq!(check_download_request(&options).unwrap(), "Pack");
}

#[test]
fn api_answers_are_interpreted() {
    assert_eq!(api_outcome(true, Some(5), None).ok(), Some(5));
    assert!(matches!(api_outcome::<u8>(true, None, None), Err(ApiFailure::NoResult)));
    match api_outcome(false, Some(5), Some("bad".to_owned())) {
        Err(ApiFailure::Rejected(text)) => assert_eq!(text, "bad"),
        _ => panic!("expected a rejection"),
    }
    match api_outcome::<u8>(false, None, None) {
        Err(ApiFailure::Rejected(text)) => assert_eq!(text, "no description"),
        _ => panic!("expected a rejection"),
    }
}

#[test]
fn bot_token_prefers_the_command_line() {
    assert_eq!(resolve_bot_token(Some("a".to_owned()), Some("b".to_owned())), Ok("a".to_owned()));
    assert_eq!(resolve_bot_token(None, Some("b".to_owned())), Ok("b".to_owned()));
    assert_eq!(resolve_bot_token(None, None), Err(TelegramError::NoBotToken));
}

#[test]
fn png_frames_of_any_valid_size_are_encoded() {
    for (w, h) in [(1usize, 1usize), (3, 5), (17, 2)] {
        let rgba = vec![7u8; w * h * 4];
        assert!(encode_png(w, h, &rgba).is_ok());
    }
}
