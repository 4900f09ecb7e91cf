use tgs_convert::options::ConvertOptions;
use tgs_convert::telegram::{clean_emoji, filename, DownloadItem};
use tgs_convert::{
    flip_rgba, gif_supports_fps, parse_sticker_set_name, resolve_output_size, webp_frame_duration_ms, OutputFormat,
};

fn options(quality: u8) -> ConvertOptions {
    ConvertOptions {
        fps: 60,
        width: None,
        height: None,
        quality,
        flip_horizontal: false,
        flip_vertical: false,
        threads: 1,
        output_format: OutputFormat::WebmVp9,
    }
}

#[test]
fn webp_sixty_fps_has_exact_total_duration() {
    let durations = (0..180)
        .map(|frame| webp_frame_duration_ms(frame, 60))
        .collect::<Vec<_>>();
    assert!(durations.iter().all(|duration| matches!(duration, 16 | 17)));
    assert_eq!(durations.iter().sum::<u32>(), 3_000);
}

#[test]
fn single_width_preserves_aspect_ratio() {
    assert_eq!(
        resolve_output_size(Some(256), None, 512, 384).unwrap(),
        (256, 192)
    );
}

#[test]
fn single_height_preserves_aspect_ratio() {
    assert_eq!(
        resolve_output_size(None, Some(192), 512, 384).unwrap(),
        (256, 192)
    );
}

#[test]
fn explicit_both_dimensions_win() {
    assert_eq!(
        resolve_output_size(Some(100), Some(200), 512, 384).unwrap(),
        (100, 200)
    );
    assert_eq!(
        resolve_output_size(None, None, 512, 384).unwrap(),
        (512, 384)
    );
}

#[test]
fn quality_mapping_matches_the_desktop_converter() {
    assert_eq!(options(100).vp9_crf(), 15);
    assert_eq!(options(94).vp9_crf(), 20);
    assert_eq!(options(89).vp9_crf(), 25);
    assert_eq!(options(29).vp9_crf(), 55);
    assert_eq!(options(100).vp9_cpu_used(), 0);
    assert_eq!(options(30).vp9_cpu_used(), 6);
    assert_eq!(options(0).vp9_cpu_used(), 8);
}

#[test]
fn prores_quality_mapping_keeps_high_quality_default() {
    assert_eq!(options(100).prores_bits_per_mb(), 8_000);
    assert_eq!(options(90).prores_bits_per_mb(), 7_000);
    assert_eq!(options(0).prores_bits_per_mb(), 2_000);
}

#[test]
fn gif_fps_matches_ten_millisecond_delays() {
    assert!(gif_supports_fps(50));
    assert!(gif_supports_fps(25));
    assert!(gif_supports_fps(20));
    assert!(!gif_supports_fps(30));
    assert!(!gif_supports_fps(51));
}

#[test]
fn horizontal_flip_reorders_pixels() {
    let input = vec![1, 0, 0, 255, 2, 0, 0, 255, 3, 0, 0, 255, 4, 0, 0, 255];
    let output = flip_rgba(&input, 2, 2, true, false);
    assert_eq!(output[0], 2);
    assert_eq!(output[4], 1);
    assert_eq!(output[8], 4);
    assert_eq!(output[12], 3);
}

#[test]
fn parses_sticker_and_emoji_links() {
    assert_eq!(
        parse_sticker_set_name("https://t.me/addstickers/HotCherry?startapp=x").unwrap(),
        "HotCherry"
    );
    assert_eq!(
        parse_sticker_set_name("https://t.me/addemoji/Custom_Emoji/").unwrap(),
        "Custom_Emoji"
    );
}

#[test]
fn rejects_non_pack_links_and_unsafe_names() {
    assert!(parse_sticker_set_name("https://t.me/example").is_err());
    assert!(parse_sticker_set_name("../not-a-pack").is_err());
}

#[test]
fn custom_emoji_filename_matches_desktop_pattern() {
    let item = DownloadItem {
        file_id: "unused".to_owned(),
        unique_id: "unique".to_owned(),
        emoji: Some("😀\u{fe0f}".to_owned()),
        is_animated: false,
        is_video: false,
    };
    assert_eq!(filename(&item, "tgs"), "😀_unique.tgs");
    assert_eq!(clean_emoji("a/b"), "ab");
}
