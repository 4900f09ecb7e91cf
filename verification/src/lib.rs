//! Verified core of a Telegram sticker (TGS / Lottie) converter: option
//! rules, output sizing, pixel transforms, frame scheduling, encoder command
//! lines and Telegram sticker-pack naming.

pub mod codec;
pub mod encoder;
pub mod options;
pub mod pixels;
pub mod schedule;
pub mod size;
pub mod telegram;
pub mod text;

pub use codec::{check_no_nul_byte, check_viewport, decode_lottie_bytes, encode_png, AnimationError};
pub use encoder::{encode_plan, next_wait_action, should_report_percent, EncodePlan, EncoderProgram, WaitAction};
pub use options::{gif_supports_fps, ConvertOptions, HostChecks, OptionsError, OutputFormat};
pub use pixels::{flip_rgba, sample_pixel, unpremultiply_rgba};
pub use schedule::{
    report_interval, should_report_progress, webp_frame_duration_ms, worker_count, worker_frame_range,
};
pub use size::{independent_output_size, resolve_output_size, scale_dimension, SizeError};
pub use telegram::{
    parse_sticker_set_name, TelegramDownloadOptions, TelegramDownloadReport, TelegramError,
};
pub use text::{decimal_string, frame_file_name};
