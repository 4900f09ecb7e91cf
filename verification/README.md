# tgs_convert

Core of a converter from Telegram TGS stickers (Lottie JSON, possibly
gzip-compressed) to transparent WebM, MOV, animated WebP and GIF, with a
downloader for Telegram sticker packs. The rules and transforms are written
in Verus and carry machine-checked contracts.

- `src/options.rs`: output formats, option validation, quality mappings.
- `src/size.rs`: output size from requested and intrinsic dimensions.
- `src/pixels.rs`: RGBA flips, pixel sampling, alpha unpremultiplication.
- `src/schedule.rs`: WebP frame durations, worker frame ranges, progress cadence.
- `src/codec.rs`: TGS decompression, JSON and viewport checks, PNG encoding.
- `src/encoder.rs`: command lines for FFmpeg, img2webp and gifski.
- `src/text.rs`: decimal notation and frame file names.
- `src/telegram.rs`: sticker-set names and links, download file names.
- `app/`: the command-line program: argument parsing, rendering with
  rlottie, floating-point geometry, processes, files and network.
