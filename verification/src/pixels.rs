use vstd::prelude::*;
use vstd::arithmetic::div_mod::{lemma_fundamental_div_mod, lemma_div_is_ordered};
use vstd::arithmetic::mul::lemma_mul_inequality;

verus! {

/// Offset in an RGBA buffer of channel `c` of pixel `(x, y)` in a frame
/// `width` pixels wide.
pub open spec fn pixel_offset(x: int, y: int, c: int, width: int) -> int {
    (y * width + x) * 4 + c
}

/// Column of the pixel that byte `i` belongs to.
pub open spec fn byte_x(i: int, width: int) -> int {
    (i / 4) % width
}

/// Row of the pixel that byte `i` belongs to.
pub open spec fn byte_y(i: int, width: int) -> int {
    (i / 4) / width
}

/// Mirrored column (when `flip`) of column `x`.
pub open spec fn flipped(x: int, size: int, flip: bool) -> int {
    if flip { size - 1 - x } else { x }
}

/// Offset of the source byte that a flip copies to byte `i`.
pub open spec fn flip_source_offset(i: int, width: int, height: int, horizontal: bool, vertical: bool) -> int {
    pixel_offset(
        flipped(byte_x(i, width), width, horizontal),
        flipped(byte_y(i, width), height, vertical),
        i % 4,
        width,
    )
}

/// The mirrored frame: each pixel of the `width` x `height` frame comes
/// from the mirrored position; bytes past the frame are zero.
pub open spec fn spec_flip_rgba(source: Seq<u8>, width: int, height: int, horizontal: bool, vertical: bool) -> Seq<u8> {
    Seq::new(
        source.len(),
        |i: int|
            if i < width * height * 4 {
                source[flip_source_offset(i, width, height, horizontal, vertical)]
            } else {
                0u8
            },
    )
}

/// Decomposes a pixel offset into column, row and channel.
pub proof fn lemma_pixel_offset_parts(x: int, y: int, c: int, width: int, height: int)
    requires
        0 <= x < width,
        0 <= y < height,
        0 <= c < 4,
    ensures
        0 <= pixel_offset(x, y, c, width) < width * height * 4,
        pixel_offset(x, y, c, width) / 4 == y * width + x,
        pixel_offset(x, y, c, width) % 4 == c,
        byte_x(pixel_offset(x, y, c, width), width) == x,
        byte_y(pixel_offset(x, y, c, width), width) == y,
{
    let p = y * width + x;
    let i = p * 4 + c;
    assert(0 <= p < width * height) by (nonlinear_arith)
        requires
            0 <= x < width,
            0 <= y < height,
            p == y * width + x,
    ;
    assert(0 <= i < width * height * 4) by (nonlinear_arith)
        requires
            0 <= p < width * height,
            0 <= c < 4,
            i == p * 4 + c,
    ;
    lemma_fundamental_div_mod(i, 4);
    assert(i / 4 == p && i % 4 == c) by (nonlinear_arith)
        requires
            i == p * 4 + c,
            0 <= c < 4,
            i == 4 * (i / 4) + i % 4,
            0 <= i % 4 < 4,
    ;
    lemma_fundamental_div_mod(p, width);
    assert(p / width == y && p % width == x) by (nonlinear_arith)
        requires
            p == y * width + x,
            0 <= x < width,
            p == width * (p / width) + p % width,
            0 <= p % width < width,
    ;
}

/// Every byte of the frame is channel `i % 4` of pixel
/// `(byte_x(i), byte_y(i))`.
pub proof fn lemma_byte_parts(i: int, width: int, height: int)
    requires
        0 <= i < width * height * 4,
        width > 0,
    ensures
        0 <= byte_x(i, width) < width,
        0 <= byte_y(i, width) < height,
        0 <= i % 4 < 4,
        i == pixel_offset(byte_x(i, width), byte_y(i, width), i % 4, width),
{
    let p = i / 4;
    lemma_fundamental_div_mod(i, 4);
    lemma_fundamental_div_mod(p, width);
    let x = p % width;
    let y = p / width;
    assert(0 <= p < width * height) by (nonlinear_arith)
        requires
            0 <= i < width * height * 4,
            i == 4 * p + i % 4,
            0 <= i % 4 < 4,
    ;
    assert(0 <= y < height) by (nonlinear_arith)
        requires
            0 <= p < width * height,
            p == width * y + x,
            0 <= x < width,
    ;
    assert(i == (y * width + x) * 4 + i % 4) by (nonlinear_arith)
        requires
            i == 4 * p + i % 4,
            p == width * y + x,
    ;
}

/// Mirrors an RGBA frame of `width` x `height` pixels horizontally and/or
/// vertically.
pub fn flip_rgba(source: &[u8], width: usize, height: usize, horizontal: bool, vertical: bool) -> (r: Vec<u8>)
    requires
        width * height * 4 <= source.len(),
    ensures
        r@ == spec_flip_rgba(source@, width as int, height as int, horizontal, vertical),
{
    let ghost w = width as int;
    let ghost h = height as int;
    let mut output: Vec<u8> = vec![0; source.len()];
    let mut y: usize = 0;
    while y < height
        invariant
            width * height * 4 <= source.len(),
            w == width,
            h == height,
            output@.len() == source@.len(),
            y <= height,
            forall|i: int|
                0 <= i < output@.len() ==> #[trigger] output@[i] == (if i < y * w * 4 {
                    spec_flip_rgba(source@, w, h, horizontal, vertical)[i]
                } else {
                    0u8
                }),
        decreases height - y,
    {
        let mut x: usize = 0;
        proof {
            lemma_mul_inequality(y as int, h - 1, w);
            assert((h - 1) * w + w == w * h) by (nonlinear_arith);
        }
        while x < width
            invariant
                width * height * 4 <= source.len(),
                w == width,
                h == height,
                output@.len() == source@.len(),
                y < height,
                x <= width,
                y * w + w <= w * h,
                forall|i: int|
                    0 <= i < output@.len() ==> #[trigger] output@[i] == (if i < (y * w + x) * 4 {
                        spec_flip_rgba(source@, w, h, horizontal, vertical)[i]
                    } else {
                        0u8
                    }),
            decreases width - x,
        {
            let source_x = if horizontal { width - 1 - x } else { x };
            let source_y = if vertical { height - 1 - y } else { y };
            proof {
                lemma_mul_inequality(source_y as int, h - 1, w);
                assert((h - 1) * w + w == w * h) by (nonlinear_arith);
                assert(w * h * 4 == (w * h) * 4) by (nonlinear_arith);
            }
            let source_offset = (source_y * width + source_x) * 4;
            let destination_offset = (y * width + x) * 4;
            let ghost before = output@;
            let mut c: usize = 0;
            while c < 4
                invariant
                    width * height * 4 <= source.len(),
                    w == width,
                    h == height,
                    output@.len() == source@.len(),
                    x < width,
                    y < height,
                    c <= 4,
                    source_offset == pixel_offset(source_x as int, source_y as int, 0, w),
                    destination_offset == pixel_offset(x as int, y as int, 0, w),
                    source_x == flipped(x as int, w, horizontal),
                    source_y == flipped(y as int, h, vertical),
                    y * w + w <= w * h,
                    forall|i: int|
                        0 <= i < output@.len() ==> #[trigger] output@[i] == (if i < destination_offset + c {
                            spec_flip_rgba(source@, w, h, horizontal, vertical)[i]
                        } else {
                            0u8
                        }),
                decreases 4 - c,
            {
                proof {
                    lemma_pixel_offset_parts(x as int, y as int, c as int, w, h);
                    lemma_pixel_offset_parts(source_x as int, source_y as int, c as int, w, h);
                }
                output[destination_offset + c] = source[source_offset + c];
                c = c + 1;
            }
            x = x + 1;
        }
        assert((y * w + w) * 4 == (y + 1) * w * 4) by (nonlinear_arith);
        y = y + 1;
    }
    proof {
        assert(height * w * 4 == w * h * 4) by (nonlinear_arith)
            requires
                h == height,
        ;
    }
    assert(output@ =~= spec_flip_rgba(source@, w, h, horizontal, vertical));
    output
}

/// Law: a flip mirrors: output pixel `(x, y)` holds input pixel
/// `(width - 1 - x, y)` under a horizontal flip, `(x, height - 1 - y)` under a
/// vertical one, `(width - 1 - x, height - 1 - y)` under both, and
/// `(x, y)` under neither, channel by channel.
pub proof fn lemma_flip_mirrors(
    source: Seq<u8>,
    width: int,
    height: int,
    horizontal: bool,
    vertical: bool,
    x: int,
    y: int,
    c: int,
)
    requires
        source.len() >= width * height * 4,
        0 <= x < width,
        0 <= y < height,
        0 <= c < 4,
    ensures
        ({
            let sx = if horizontal { width - 1 - x } else { x };
            let sy = if vertical { height - 1 - y } else { y };
            spec_flip_rgba(source, width, height, horizontal, vertical)[(y * width + x) * 4 + c]
                == source[(sy * width + sx) * 4 + c]
        }),
{
    lemma_pixel_offset_parts(x, y, c, width, height);
}

/// Law: flipping twice in the same directions gives back the frame.
pub proof fn lemma_flip_twice_is_identity(source: Seq<u8>, width: int, height: int, horizontal: bool, vertical: bool)
    requires
        width >= 0,
        height >= 0,
        source.len() == width * height * 4,
    ensures
        spec_flip_rgba(spec_flip_rgba(source, width, height, horizontal, vertical), width, height, horizontal, vertical)
            == source,
{
    let once = spec_flip_rgba(source, width, height, horizontal, vertical);
    let twice = spec_flip_rgba(once, width, height, horizontal, vertical);
    assert forall|i: int| 0 <= i < source.len() implies #[trigger] twice[i] == source[i] by {
        if width == 0 {
            assert(width * height * 4 == 0) by (nonlinear_arith)
                requires
                    width == 0,
            ;
        }
        lemma_byte_parts(i, width, height);
        let x = byte_x(i, width);
        let y = byte_y(i, width);
        let c = i % 4;
        let j = flip_source_offset(i, width, height, horizontal, vertical);
        let fx = flipped(x, width, horizontal);
        let fy = flipped(y, height, vertical);
        lemma_pixel_offset_parts(fx, fy, c, width, height);
        assert(flip_source_offset(j, width, height, horizontal, vertical) == i);
    }
    assert(twice =~= source);
}


/// Law: mirroring moves whole pixels, so a frame whose pixels are all fully
/// transparent stays fully transparent.
pub proof fn lemma_flip_keeps_transparency(source: Seq<u8>, width: int, height: int, horizontal: bool, vertical: bool)
    requires
        width >= 0,
        height >= 0,
        source.len() == width * height * 4,
        forall|i: int| 0 <= i < source.len() && i % 4 == 3 ==> #[trigger] source[i] == 0,
    ensures
        forall|i: int|
            0 <= i < source.len() && i % 4 == 3 ==> #[trigger] spec_flip_rgba(source, width, height, horizontal, vertical)[i]
                == 0,
{
    assert forall|i: int| 0 <= i < source.len() && i % 4 == 3 implies #[trigger] spec_flip_rgba(
        source,
        width,
        height,
        horizontal,
        vertical,
    )[i] == 0 by {
        if width == 0 {
            assert(width * height * 4 == 0) by (nonlinear_arith)
                requires
                    width == 0,
            ;
        }
        lemma_byte_parts(i, width, height);
        let fx = flipped(byte_x(i, width), width, horizontal);
        let fy = flipped(byte_y(i, width), height, vertical);
        lemma_pixel_offset_parts(fx, fy, 3, width, height);
    }
}

/// The four channels of pixel `(x, y)`, or transparent black outside the
/// frame.
pub open spec fn spec_sample_pixel(source: Seq<u8>, width: int, height: int, x: int, y: int) -> Seq<u8> {
    if x < 0 || y < 0 || x >= width || y >= height {
        seq![0u8, 0u8, 0u8, 0u8]
    } else {
        source.subrange(pixel_offset(x, y, 0, width), pixel_offset(x, y, 0, width) + 4)
    }
}

/// Reads pixel `(x, y)` of an RGBA frame; positions outside the frame read
/// as transparent black.
pub fn sample_pixel(source: &[u8], width: usize, height: usize, x: isize, y: isize) -> (r: [u8; 4])
    requires
        width * height * 4 <= source.len(),
    ensures
        r@ == spec_sample_pixel(source@, width as int, height as int, x as int, y as int),
{
    if x < 0 || y < 0 || x as usize >= width || y as usize >= height {
        let r = [0u8, 0u8, 0u8, 0u8];
        assert(r@ =~= seq![0u8, 0u8, 0u8, 0u8]);
        return r;
    }
    proof {
        lemma_pixel_offset_parts(x as int, y as int, 3, width as int, height as int);
        lemma_pixel_offset_parts(x as int, y as int, 0, width as int, height as int);
    }
    let offset = (y as usize * width + x as usize) * 4;
    let r = [source[offset], source[offset + 1], source[offset + 2], source[offset + 3]];
    assert(r@ =~= source@.subrange(offset as int, offset + 4));
    r
}

/// A colour channel with premultiplied alpha `alpha` restored to straight
/// alpha, rounded to nearest and capped at 255; zero when fully transparent.
pub open spec fn spec_unpremultiply_channel(channel: u8, alpha: u8) -> u8 {
    if alpha == 0 {
        0
    } else {
        let expanded = (channel * 255 + alpha / 2) / (alpha as int);
        if expanded > 255 { 255 } else { expanded as u8 }
    }
}

/// Straight-alpha RGBA: in every complete 4-byte pixel, the three colour
/// channels are unpremultiplied by the pixel's alpha; alpha and any trailing
/// partial pixel stay as they are.
pub open spec fn spec_unpremultiply_rgba(rgba: Seq<u8>) -> Seq<u8> {
    Seq::new(
        rgba.len(),
        |i: int|
            if i < rgba.len() / 4 * 4 && i % 4 != 3 {
                spec_unpremultiply_channel(rgba[i], rgba[i - i % 4 + 3])
            } else {
                rgba[i]
            },
    )
}

proof fn lemma_channel_offset(p: int, k: int)
    requires
        p >= 0,
        0 <= k < 4,
    ensures
        (p * 4 + k) % 4 == k,
        (p * 4 + k) / 4 == p,
{
    lemma_fundamental_div_mod(p * 4 + k, 4);
    let i = p * 4 + k;
    assert(i / 4 == p && i % 4 == k) by (nonlinear_arith)
        requires
            i == p * 4 + k,
            0 <= k < 4,
            i == 4 * (i / 4) + i % 4,
            0 <= i % 4 < 4,
    ;
}

/// Converts premultiplied-alpha RGBA pixels to straight alpha in place.
pub fn unpremultiply_rgba(rgba: &mut Vec<u8>)
    ensures
        final(rgba)@ == spec_unpremultiply_rgba(old(rgba)@),
{
    let ghost initial = rgba@;
    let pixels = rgba.len() / 4;
    proof {
        lemma_fundamental_div_mod(initial.len() as int, 4);
    }
    let mut p: usize = 0;
    while p < pixels
        invariant
            pixels == initial.len() / 4,
            pixels * 4 <= initial.len(),
            rgba@.len() == initial.len(),
            p <= pixels,
            forall|i: int|
                0 <= i < rgba@.len() ==> #[trigger] rgba@[i] == (if i < p * 4 {
                    spec_unpremultiply_rgba(initial)[i]
                } else {
                    initial[i]
                }),
        decreases pixels - p,
    {
        let total = rgba.len();
        proof {
            lemma_mul_inequality(p as int, pixels as int, 4);
            assert(p * 4 <= total);
        }
        let base = p * 4;
        let alpha = rgba[base + 3];
        proof {
            lemma_channel_offset(p as int, 3);
            lemma_mul_inequality(p as int + 1, pixels as int, 4);
        }
        let mut k: usize = 0;
        while k < 3
            invariant
                pixels == initial.len() / 4,
                rgba@.len() == initial.len(),
                p < pixels,
                base == p * 4,
                base + 4 <= pixels * 4,
                pixels * 4 <= initial.len(),
                alpha == initial[base + 3],
                k <= 3,
                forall|i: int|
                    0 <= i < rgba@.len() ==> #[trigger] rgba@[i] == (if i < base + k {
                        spec_unpremultiply_rgba(initial)[i]
                    } else {
                        initial[i]
                    }),
            decreases 3 - k,
        {
            proof {
                lemma_channel_offset(p as int, k as int);
                lemma_div_is_ordered(base + k + 1, pixels as int * 4, 4);
                lemma_channel_offset(pixels as int, 0);
            }
            let channel = rgba[base + k];
            let value: u8 = if alpha == 0 {
                0
            } else {
                let expanded: u16 = (channel as u16 * 255 + alpha as u16 / 2) / alpha as u16;
                if expanded > 255 { 255 } else { expanded as u8 }
            };
            rgba[base + k] = value;
            k = k + 1;
        }
        proof {
            lemma_channel_offset(p as int, 3);
            lemma_div_is_ordered(base + 4, pixels as int * 4, 4);
            lemma_channel_offset(pixels as int, 0);
        }
        p = p + 1;
    }
    proof {
        lemma_fundamental_div_mod(initial.len() as int, 4);
    }
    assert(rgba@ =~= spec_unpremultiply_rgba(initial));
}

/// Law: every colour channel `c` of a complete pixel with alpha `a > 0`
/// becomes the straight-alpha value `r` with `r * a` within half of `a`
/// below `c * 255` (rounded to nearest, halves up), capped at 255: either
/// `r < 255` and `r * a <= c * 255 + a / 2 < (r + 1) * a`, or `r == 255` and
/// `255 * a <= c * 255 + a / 2`.
pub proof fn lemma_unpremultiply_rounds_to_nearest(rgba: Seq<u8>, i: int)
    requires
        0 <= i < rgba.len() / 4 * 4,
        i % 4 != 3,
        rgba[i - i % 4 + 3] > 0,
    ensures
        ({
            let a = rgba[i - i % 4 + 3] as int;
            let c = rgba[i] as int;
            let r = spec_unpremultiply_rgba(rgba)[i] as int;
            ||| r < 255 && r * a <= c * 255 + a / 2 && c * 255 + a / 2 < (r + 1) * a
            ||| r == 255 && 255 * a <= c * 255 + a / 2
        }),
{
    let a = rgba[i - i % 4 + 3] as int;
    let c = rgba[i] as int;
    let n = c * 255 + a / 2;
    lemma_fundamental_div_mod(n, a);
    let q = n / a;
    assert(q * a <= n < (q + 1) * a) by (nonlinear_arith)
        requires
            a > 0,
            n == a * q + n % a,
            0 <= n % a < a,
    ;
    if q > 255 {
        assert(255 * a <= q * a) by (nonlinear_arith)
            requires
                q > 255,
                a > 0,
        ;
    }
}

/// Law: sampling reads the four bytes of pixel `(x, y)` at offset
/// `(y * width + x) * 4` inside the frame, and transparent black outside.
pub proof fn lemma_sample_pixel_reads_the_pixel(source: Seq<u8>, width: int, height: int, x: int, y: int)
    requires
        source.len() >= width * height * 4,
    ensures
        0 <= x < width && 0 <= y < height ==> {
            let o = (y * width + x) * 4;
            &&& spec_sample_pixel(source, width, height, x, y).len() == 4
            &&& forall|k: int| 0 <= k < 4 ==> spec_sample_pixel(source, width, height, x, y)[k] == source[o + k]
        },
        !(0 <= x < width && 0 <= y < height) ==> spec_sample_pixel(source, width, height, x, y) == seq![0u8, 0u8, 0u8, 0u8],
{
    if 0 <= x < width && 0 <= y < height {
        lemma_pixel_offset_parts(x, y, 3, width, height);
    }
}

/// Law: unpremultiplying keeps the length, leaves the bytes of a trailing
/// partial pixel alone, and never changes an alpha byte.
pub proof fn lemma_unpremultiply_keeps_shape(rgba: Seq<u8>)
    ensures
        spec_unpremultiply_rgba(rgba).len() == rgba.len(),
        forall|i: int| rgba.len() / 4 * 4 <= i < rgba.len() ==> #[trigger] spec_unpremultiply_rgba(rgba)[i] == rgba[i],
        forall|i: int| 0 <= i < rgba.len() && i % 4 == 3 ==> #[trigger] spec_unpremultiply_rgba(rgba)[i] == rgba[i],
{
}

/// Law: unpremultiplying keeps every alpha byte, turns fully transparent
/// pixels into transparent black, and leaves fully opaque pixels unchanged.
pub proof fn lemma_unpremultiply_keeps_alpha_and_opaque(rgba: Seq<u8>, i: int)
    requires
        0 <= i < rgba.len() / 4 * 4,
    ensures
        i % 4 == 3 ==> spec_unpremultiply_rgba(rgba)[i] == rgba[i],
        i % 4 != 3 && rgba[i - i % 4 + 3] == 0 ==> spec_unpremultiply_rgba(rgba)[i] == 0,
        i % 4 != 3 && rgba[i - i % 4 + 3] == 255 ==> spec_unpremultiply_rgba(rgba)[i] == rgba[i],
{
    let c = rgba[i] as int;
    assert((c * 255 + 127) / 255 == c) by (nonlinear_arith)
        requires
            0 <= c <= 255,
    ;
}

} // verus!
