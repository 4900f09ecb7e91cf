use vstd::prelude::*;
use std::io::Read;

verus! {

/// Why an animation or a frame cannot be read or written.
#[derive(Clone, Copy, Debug, PartialEq, Eq, Structural)]
pub enum AnimationError {
    /// The input starts with the gzip signature but does not decompress.
    Decompression,
    /// The Lottie JSON holds a NUL byte, which the renderer cannot take.
    NulByte,
    /// The renderer reports a zero-sized viewport.
    EmptyViewport,
    /// The PNG encoder refused the frame.
    PngEncoding,
}

impl AnimationError {
    pub fn message(self) -> (r: String)
        ensures
            r@ == match self {
                AnimationError::Decompression => "failed to decompress the animation"@,
                AnimationError::NulByte => "the animation JSON contains a NUL byte"@,
                AnimationError::EmptyViewport => "rlottie reported an empty animation viewport"@,
                AnimationError::PngEncoding => "failed to encode the PNG frame"@,
            },
    {
        match self {
            AnimationError::Decompression => String::from_str("failed to decompress the animation"),
            AnimationError::NulByte => String::from_str("the animation JSON contains a NUL byte"),
            AnimationError::EmptyViewport => String::from_str("rlottie reported an empty animation viewport"),
            AnimationError::PngEncoding => String::from_str("failed to encode the PNG frame"),
        }
    }
}

#[verifier::external_type_specification]
#[verifier::external_body]
pub struct ExIoError(std::io::Error);

#[verifier::external_type_specification]
#[verifier::external_body]
pub struct ExPngEncodingError(png::EncodingError);

/// What a single-member gzip decoder makes of `data`: the decompressed
/// bytes, or `None` when decoding fails.
pub uninterp spec fn gzip_decoded(data: Seq<u8>) -> Option<Seq<u8>>;

/// The bytes of the PNG file that the `png` crate writes for an 8-bit RGBA
/// image of `width` x `height` pixels with the default encoder settings.
pub uninterp spec fn png_rgba8_file(width: u32, height: u32, rgba: Seq<u8>) -> Seq<u8>;

/// Reads `data` to the end through `flate2::read::GzDecoder`. Claimed: the
/// call succeeds exactly when the named decoding exists, and then yields it.
#[verifier::external_body]
fn gunzip(data: Vec<u8>) -> (r: Result<Vec<u8>, std::io::Error>)
    ensures
        r is Ok <==> gzip_decoded(data@) is Some,
        r matches Ok(v) ==> gzip_decoded(data@) == Some(v@),
{
    let mut decoded = Vec::new();
    flate2::read::GzDecoder::new(std::io::Cursor::new(data)).read_to_end(&mut decoded)?;
    Ok(decoded)
}

/// Encodes an 8-bit RGBA image with `png::Encoder` (colour type RGBA, bit
/// depth eight) into memory. Claimed: a success yields the named file; a
/// zero width or height, or a buffer whose length is not `width * height * 4`,
/// is refused (the encoder's `Writer::init` and `write_image_data` checks),
/// and any other image is encoded: RGBA at eight bits is a valid colour
/// combination, a single image never ends a sequence, and writing to a
/// `Vec` cannot fail.
#[verifier::external_body]
fn png_encode_rgba8(width: u32, height: u32, rgba: &[u8]) -> (r: Result<Vec<u8>, png::EncodingError>)
    requires
        (width as int) * (height as int) * 4 <= usize::MAX,
    ensures
        r matches Ok(bytes) ==> bytes@ == png_rgba8_file(width, height, rgba@),
        width == 0 || height == 0 || rgba@.len() != (width as int) * (height as int) * 4 ==> r is Err,
        width > 0 && height > 0 && rgba@.len() == (width as int) * (height as int) * 4 ==> r is Ok,
{
    let mut bytes: Vec<u8> = Vec::new();
    let mut encoder = png::Encoder::new(&mut bytes, width, height);
    encoder.set_color(png::ColorType::Rgba);
    encoder.set_depth(png::BitDepth::Eight);
    let mut writer = encoder.write_header()?;
    writer.write_image_data(rgba)?;
    drop(writer);
    Ok(bytes)
}

/// Whether the input starts with the gzip signature `1f 8b`.
pub open spec fn spec_is_gzip(bytes: Seq<u8>) -> bool {
    bytes.len() >= 2 && bytes[0] == 0x1f && bytes[1] == 0x8b
}

/// The Lottie JSON held by a `.tgs` / `.json` file: decompressed when the
/// file is gzip data, the bytes themselves otherwise.
pub open spec fn spec_decode_lottie_bytes(bytes: Seq<u8>) -> Result<Seq<u8>, AnimationError> {
    if spec_is_gzip(bytes) {
        match gzip_decoded(bytes) {
            Some(json) => Ok(json),
            None => Err(AnimationError::Decompression),
        }
    } else {
        Ok(bytes)
    }
}

/// Turns the contents of an animation file into Lottie JSON bytes.
pub fn decode_lottie_bytes(bytes: Vec<u8>) -> (r: Result<Vec<u8>, AnimationError>)
    ensures
        r matches Ok(json) ==> spec_decode_lottie_bytes(bytes@) == Ok::<Seq<u8>, AnimationError>(json@),
        r matches Err(e) ==> spec_decode_lottie_bytes(bytes@) == Err::<Seq<u8>, AnimationError>(e),
{
    if bytes.len() >= 2 && bytes[0] == 0x1f && bytes[1] == 0x8b {
        match gunzip(bytes) {
            Ok(json) => Ok(json),
            Err(_) => Err(AnimationError::Decompression),
        }
    } else {
        Ok(bytes)
    }
}

/// Refuses JSON that holds a NUL byte.
pub fn check_no_nul_byte(json: &[u8]) -> (r: Result<(), AnimationError>)
    ensures
        r is Ok <==> !json@.contains(0u8),
        r is Err ==> r == Err::<(), AnimationError>(AnimationError::NulByte),
{
    let mut i: usize = 0;
    while i < json.len()
        invariant
            i <= json.len(),
            forall|k: int| 0 <= k < i ==> json@[k] != 0u8,
        decreases json.len() - i,
    {
        if json[i] == 0 {
            assert(json@[i as int] == 0u8);
            return Err(AnimationError::NulByte);
        }
        i = i + 1;
    }
    Ok(())
}

/// Refuses an animation whose viewport has no area.
pub fn check_viewport(width: usize, height: usize) -> (r: Result<(), AnimationError>)
    ensures
        r == (if width == 0 || height == 0 {
            Err::<(), AnimationError>(AnimationError::EmptyViewport)
        } else {
            Ok(())
        }),
{
    if width == 0 || height == 0 {
        Err(AnimationError::EmptyViewport)
    } else {
        Ok(())
    }
}

/// The PNG file for one rendered frame; `width` and `height` are narrowed
/// to `u32` as the PNG header stores them.
pub open spec fn spec_encode_png(width: usize, height: usize, rgba: Seq<u8>) -> Seq<u8> {
    png_rgba8_file(width as u32, height as u32, rgba)
}

/// Encodes a straight-alpha RGBA frame as a PNG file in memory.
pub fn encode_png(width: usize, height: usize, rgba: &[u8]) -> (r: Result<Vec<u8>, AnimationError>)
    requires
        (width as u32 as int) * (height as u32 as int) * 4 <= usize::MAX,
    ensures
        r matches Ok(bytes) ==> bytes@ == spec_encode_png(width, height, rgba@),
        r matches Err(e) ==> e == AnimationError::PngEncoding,
        width as u32 == 0 || height as u32 == 0 || rgba@.len() != (width as u32 as int) * (height as u32 as int) * 4
            ==> r is Err,
        width as u32 > 0 && height as u32 > 0 && rgba@.len() == (width as u32 as int) * (height as u32 as int) * 4
            ==> r is Ok,
{
    match png_encode_rgba8(width as u32, height as u32, rgba) {
        Ok(bytes) => Ok(bytes),
        Err(_) => Err(AnimationError::PngEncoding),
    }
}


/// Law: a gzip file and the Lottie JSON it holds load alike. When `gzipped`
/// carries the gzip signature and decodes to `json` (which itself does not
/// start with the signature), decoding either gives `json`, and the NUL-byte
/// check then treats both the same.
pub proof fn lemma_gzip_and_plain_json_load_alike(gzipped: Seq<u8>, json: Seq<u8>)
    requires
        spec_is_gzip(gzipped),
        gzip_decoded(gzipped) == Some(json),
        !spec_is_gzip(json),
    ensures
        spec_decode_lottie_bytes(gzipped) == Ok::<Seq<u8>, AnimationError>(json),
        spec_decode_lottie_bytes(json) == Ok::<Seq<u8>, AnimationError>(json),
{
}


/// Law: a file that does not start with the bytes `1f 8b` is taken as the
/// JSON itself; one that does is decompressed, and refused when it does not
/// decompress.
pub proof fn lemma_decode_rule(bytes: Seq<u8>)
    ensures
        !(bytes.len() >= 2 && bytes[0] == 0x1f && bytes[1] == 0x8b) ==> spec_decode_lottie_bytes(bytes) == Ok::<
            Seq<u8>,
            AnimationError,
        >(bytes),
        bytes.len() >= 2 && bytes[0] == 0x1f && bytes[1] == 0x8b ==> spec_decode_lottie_bytes(bytes) == match gzip_decoded(
            bytes,
        ) {
            Some(json) => Ok::<Seq<u8>, AnimationError>(json),
            None => Err(AnimationError::Decompression),
        },
{
}

} // verus!
