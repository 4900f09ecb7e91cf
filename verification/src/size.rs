use vstd::prelude::*;

verus! {

/// Why an output size cannot be derived.
#[derive(Clone, Copy, Debug, PartialEq, Eq, Structural)]
pub enum SizeError {
    /// The animation reports a zero width or height, so no ratio exists.
    ZeroIntrinsicDimension,
    /// The scaled dimension does not fit in a `usize`.
    OutOfRange,
}

impl SizeError {
    pub fn message(self) -> (r: String)
        ensures
            r@ == match self {
                SizeError::ZeroIntrinsicDimension => "cannot scale output size from a zero intrinsic dimension"@,
                SizeError::OutOfRange => "requested output size is out of range"@,
            },
    {
        match self {
            SizeError::ZeroIntrinsicDimension => String::from_str(
                "cannot scale output size from a zero intrinsic dimension",
            ),
            SizeError::OutOfRange => String::from_str("requested output size is out of range"),
        }
    }
}

/// `source * target_other / source_other`, rounded half up.
pub open spec fn spec_scaled(source: int, target_other: int, source_other: int) -> int {
    (source * target_other + source_other / 2) / source_other
}

/// Result of scaling `source` by `target_other / source_other`: the rounded
/// value, at least 1, or the reason it cannot be given.
pub open spec fn spec_scale_dimension(source: usize, target_other: usize, source_other: usize) -> Result<usize, SizeError> {
    if source_other == 0 {
        Err(SizeError::ZeroIntrinsicDimension)
    } else if spec_scaled(source as int, target_other as int, source_other as int) > usize::MAX {
        Err(SizeError::OutOfRange)
    } else if spec_scaled(source as int, target_other as int, source_other as int) == 0 {
        Ok(1usize)
    } else {
        Ok(spec_scaled(source as int, target_other as int, source_other as int) as usize)
    }
}

/// Scales the dimension `source` so that the ratio `source : source_other`
/// is kept when the other dimension becomes `target_other`.
pub fn scale_dimension(source: usize, target_other: usize, source_other: usize) -> (r: Result<usize, SizeError>)
    ensures
        r == spec_scale_dimension(source, target_other, source_other),
{
    if source_other == 0 {
        return Err(SizeError::ZeroIntrinsicDimension);
    }
    let s = source as u128;
    let t = target_other as u128;
    let o = source_other as u128;
    assert(s * t <= 0xffff_ffff_ffff_ffffu128 * 0xffff_ffff_ffff_ffffu128) by (nonlinear_arith)
        requires
            s <= 0xffff_ffff_ffff_ffffu128,
            t <= 0xffff_ffff_ffff_ffffu128,
    ;
    let scaled = (s * t + o / 2) / o;
    if scaled > usize::MAX as u128 {
        return Err(SizeError::OutOfRange);
    }
    let scaled = scaled as usize;
    if scaled < 1 {
        Ok(1)
    } else {
        Ok(scaled)
    }
}

/// The output size: both requested dimensions when both are given, the
/// intrinsic size when none is, and otherwise the requested dimension with
/// the other one scaled to keep the intrinsic aspect ratio.
pub open spec fn spec_resolve_output_size(
    requested_width: Option<usize>,
    requested_height: Option<usize>,
    intrinsic_width: usize,
    intrinsic_height: usize,
) -> Result<(usize, usize), SizeError> {
    match (requested_width, requested_height) {
        (Some(width), Some(height)) => Ok((width, height)),
        (Some(width), None) => match spec_scale_dimension(intrinsic_height, width, intrinsic_width) {
            Ok(height) => Ok((width, height)),
            Err(e) => Err(e),
        },
        (None, Some(height)) => match spec_scale_dimension(intrinsic_width, height, intrinsic_height) {
            Ok(width) => Ok((width, height)),
            Err(e) => Err(e),
        },
        (None, None) => Ok((intrinsic_width, intrinsic_height)),
    }
}

/// Chooses the rendered frame size from the requested and intrinsic sizes.
pub fn resolve_output_size(
    requested_width: Option<usize>,
    requested_height: Option<usize>,
    intrinsic_width: usize,
    intrinsic_height: usize,
) -> (r: Result<(usize, usize), SizeError>)
    ensures
        r == spec_resolve_output_size(requested_width, requested_height, intrinsic_width, intrinsic_height),
{
    match (requested_width, requested_height) {
        (Some(width), Some(height)) => Ok((width, height)),
        (Some(width), None) => {
            let height = scale_dimension(intrinsic_height, width, intrinsic_width)?;
            Ok((width, height))
        },
        (None, Some(height)) => {
            let width = scale_dimension(intrinsic_width, height, intrinsic_height)?;
            Ok((width, height))
        },
        (None, None) => Ok((intrinsic_width, intrinsic_height)),
    }
}

/// Output size where each requested dimension replaces the intrinsic one on
/// its own, without keeping the aspect ratio (the sizing of the WebM-only
/// converter).
pub fn independent_output_size(
    requested_width: Option<usize>,
    requested_height: Option<usize>,
    intrinsic_width: usize,
    intrinsic_height: usize,
) -> (r: (usize, usize))
    ensures
        r.0 == match requested_width {
            Some(w) => w,
            None => intrinsic_width,
        },
        r.1 == match requested_height {
            Some(h) => h,
            None => intrinsic_height,
        },
{
    let width = match requested_width {
        Some(w) => w,
        None => intrinsic_width,
    };
    let height = match requested_height {
        Some(h) => h,
        None => intrinsic_height,
    };
    (width, height)
}

/// Law: a single requested dimension keeps the intrinsic aspect ratio up to
/// rounding: the derived height differs from `width * ih / iw` by at most
/// one half, unless it had to be raised to the minimum of one pixel.
pub proof fn lemma_single_width_keeps_aspect_ratio(width: usize, intrinsic_width: usize, intrinsic_height: usize)
    requires
        intrinsic_width > 0,
        spec_resolve_output_size(Some(width), None, intrinsic_width, intrinsic_height) is Ok,
    ensures
        ({
            let (w, h) = spec_resolve_output_size(Some(width), None, intrinsic_width, intrinsic_height)->Ok_0;
            &&& w == width
            &&& h >= 1
            &&& (h > 1 ==> 2 * (h as int) * (intrinsic_width as int) <= 2 * (intrinsic_height as int) * (width as int) + intrinsic_width
                && 2 * (intrinsic_height as int) * (width as int) < 2 * (h as int) * (intrinsic_width as int) + intrinsic_width)
        }),
{
    let s = intrinsic_height as int;
    let t = width as int;
    let o = intrinsic_width as int;
    let q = spec_scaled(s, t, o);
    assert(2 * q * o <= 2 * s * t + o && 2 * s * t < 2 * q * o + o) by (nonlinear_arith)
        requires
            o > 0,
            q == (s * t + o / 2) / o,
    ;
}


/// Law: the same holds when only the height is requested: the derived width
/// is `height * iw / ih` rounded to nearest, unless raised to one pixel.
pub proof fn lemma_single_height_keeps_aspect_ratio(height: usize, intrinsic_width: usize, intrinsic_height: usize)
    requires
        intrinsic_height > 0,
        spec_resolve_output_size(None, Some(height), intrinsic_width, intrinsic_height) is Ok,
    ensures
        ({
            let (w, h) = spec_resolve_output_size(None, Some(height), intrinsic_width, intrinsic_height)->Ok_0;
            &&& h == height
            &&& w >= 1
            &&& (w > 1 ==> 2 * (w as int) * (intrinsic_height as int) <= 2 * (intrinsic_width as int) * (height as int) + intrinsic_height
                && 2 * (intrinsic_width as int) * (height as int) < 2 * (w as int) * (intrinsic_height as int) + intrinsic_height)
        }),
{
    let s = intrinsic_width as int;
    let t = height as int;
    let o = intrinsic_height as int;
    let q = spec_scaled(s, t, o);
    assert(2 * q * o <= 2 * s * t + o && 2 * s * t < 2 * q * o + o) by (nonlinear_arith)
        requires
            o > 0,
            q == (s * t + o / 2) / o,
    ;
}


/// Law: requested dimensions are used as given, and with none requested the
/// animation keeps its size; a derived dimension is never zero, and a zero
/// intrinsic dimension on the side that scales is refused.
pub proof fn lemma_resolve_output_size_cases(
    requested_width: Option<usize>,
    requested_height: Option<usize>,
    intrinsic_width: usize,
    intrinsic_height: usize,
)
    ensures
        requested_width is Some && requested_height is Some ==> spec_resolve_output_size(
            requested_width,
            requested_height,
            intrinsic_width,
            intrinsic_height,
        ) == Ok::<(usize, usize), SizeError>((requested_width->0, requested_height->0)),
        requested_width is None && requested_height is None ==> spec_resolve_output_size(
            requested_width,
            requested_height,
            intrinsic_width,
            intrinsic_height,
        ) == Ok::<(usize, usize), SizeError>((intrinsic_width, intrinsic_height)),
        spec_resolve_output_size(requested_width, requested_height, intrinsic_width, intrinsic_height) matches Ok(
            (w, h),
        ) ==> w >= 1 || requested_width == Some(w) || (requested_width is None && requested_height is None),
        requested_width is Some && requested_height is None && intrinsic_width == 0 ==> spec_resolve_output_size(
            requested_width,
            requested_height,
            intrinsic_width,
            intrinsic_height,
        ) == Err::<(usize, usize), SizeError>(SizeError::ZeroIntrinsicDimension),
        requested_width is None && requested_height is Some && intrinsic_height == 0 ==> spec_resolve_output_size(
            requested_width,
            requested_height,
            intrinsic_width,
            intrinsic_height,
        ) == Err::<(usize, usize), SizeError>(SizeError::ZeroIntrinsicDimension),
{
}


/// Law: scaling succeeds whenever the ratio exists and the rounded result
/// fits in a `usize`; the result is then that rounded value, raised to 1
/// when it would be 0, and it fails as out of range only when the rounded
/// result does not fit.
pub proof fn lemma_scale_dimension_outcome(source: usize, target_other: usize, source_other: usize)
    ensures
        source_other == 0 <==> spec_scale_dimension(source, target_other, source_other) == Err::<usize, SizeError>(
            SizeError::ZeroIntrinsicDimension,
        ),
        source_other > 0 && (source * target_other + source_other / 2) / (source_other as int) <= usize::MAX
            ==> spec_scale_dimension(source, target_other, source_other) == Ok::<usize, SizeError>(
            if (source * target_other + source_other / 2) / (source_other as int) == 0 {
                1usize
            } else {
                ((source * target_other + source_other / 2) / (source_other as int)) as usize
            },
        ),
        spec_scale_dimension(source, target_other, source_other) == Err::<usize, SizeError>(SizeError::OutOfRange)
            ==> source_other > 0 && (source * target_other + source_other / 2) / (source_other as int) > usize::MAX,
{
}

} // verus!
