//! Aspect-preserving downsampling and the geometric record of the transform.
use vstd::prelude::*;

use fast_image_resize::images::Image;
use fast_image_resize::{FilterType, PixelType, ResizeAlg, ResizeOptions, Resizer};

use crate::autoscale::{scale_u16_to_u8, stretched_to_bytes};
use crate::error::Error;
use crate::padding::{add_padding_to_square, center_offset, padded, square_side};
use crate::types::BitDepth;

verus! {

/// What the Lanczos-3 convolution resampler makes of a `src_cols × src_rows` 8-bit grid
/// when asked for `dst_cols × dst_rows` samples.
pub uninterp spec fn lanczos3_resampled(
    src: Seq<u8>,
    src_cols: nat,
    src_rows: nat,
    dst_cols: nat,
    dst_rows: nat,
) -> Seq<u8>;

/// Relies on fast_image_resize's `Image::from_vec_u8`, `Image::new` and `Resizer::resize`
/// with a Lanczos-3 convolution: the destination buffer holds one byte per pixel and
/// depends on the source grid and the two sizes alone. The library refuses (`None`) only a
/// source buffer shorter than `src_cols × src_rows` bytes.
#[verifier::external_body]
fn resample_lanczos3(data: &[u8], src_cols: u32, src_rows: u32, dst_cols: u32, dst_rows: u32) -> (r:
    Option<Vec<u8>>)
    ensures
        r is Some ==> r->0@ == lanczos3_resampled(
            data@,
            src_cols as nat,
            src_rows as nat,
            dst_cols as nat,
            dst_rows as nat,
        ) && r->0@.len() == dst_cols * dst_rows,
        data@.len() >= src_cols * src_rows ==> r is Some,
{
    let options = ResizeOptions::new().resize_alg(ResizeAlg::Convolution(FilterType::Lanczos3));
    let src = Image::from_vec_u8(src_cols, src_rows, data.to_vec(), PixelType::U8).ok()?;
    let mut dst = Image::new(dst_cols, dst_rows, PixelType::U8);
    Resizer::new().resize(&src, &mut dst, &options).ok()?;
    Some(dst.into_vec())
}

/// Longer of the two sides.
pub open spec fn long_side(cols: nat, rows: nat) -> nat {
    square_side(cols, rows)
}

/// `a · b / c` rounded to the nearest integer, halves up.
pub open spec fn rounded_ratio(a: nat, b: nat, c: nat) -> nat {
    if c == 0 {
        0
    } else {
        ((2 * a * b + c) / (2 * c)) as nat
    }
}

/// Output size of an aspect-preserving resize to long side `target`; the original size
/// when `target` exceeds the long side (the engine never upsamples).
pub open spec fn resize_dimensions(cols: nat, rows: nat, target: nat) -> (nat, nat) {
    let long = long_side(cols, rows);
    let short = if cols >= rows {
        rows
    } else {
        cols
    };
    if target > long {
        (cols, rows)
    } else {
        let new_short = rounded_ratio(short, target, long);
        if cols > rows {
            (target, new_short)
        } else {
            (new_short, target)
        }
    }
}

/// Dimensions after an aspect-preserving resize of the long side to `target_size`: the
/// short side scales by `target_size / long side`, rounded to nearest. A target above
/// the long side keeps the original dimensions.
pub fn calculate_resize_dimensions(original_cols: usize, original_rows: usize, target_size: usize) -> (r:
    (usize, usize))
    ensures
        (r.0 as nat, r.1 as nat) == resize_dimensions(
            original_cols as nat,
            original_rows as nat,
            target_size as nat,
        ),
{
    let long: usize = if original_cols >= original_rows {
        original_cols
    } else {
        original_rows
    };
    let short: usize = if original_cols >= original_rows {
        original_rows
    } else {
        original_cols
    };
    if target_size > long {
        return (original_cols, original_rows);
    }
    if long == 0 {
        return (0, 0);
    }
    assert(short as int * target_size as int <= u128::MAX) by (nonlinear_arith)
        requires
            short <= usize::MAX,
            target_size <= usize::MAX,
            usize::MAX < 0x1_0000_0000_0000_0000,
    ;
    let product: u128 = short as u128 * target_size as u128;
    let q: u128 = product / long as u128;
    let rem: u128 = product % long as u128;
    proof {
        let a = short as int;
        let b = target_size as int;
        let c = long as int;
        assert(product == q * c + rem && 0 <= rem < c) by (nonlinear_arith)
            requires
                q as int == product as int / c,
                rem as int == product as int % c,
                c > 0,
                product >= 0,
        ;
        assert(q <= a && (q == a ==> rem == 0)) by (nonlinear_arith)
            requires
                a * b == q * c + rem,
                0 <= rem < c,
                0 <= b <= c,
                0 <= q,
                0 <= a,
        ;
    }
    let new_short: u128 = if 2 * rem >= long as u128 {
        q + 1
    } else {
        q
    };
    proof {
        let a = short as int;
        let b = target_size as int;
        let c = long as int;
        if 2 * rem >= c {
            assert((2 * a * b + c) == (q + 1) * (2 * c) + (2 * rem - c)) by (nonlinear_arith)
                requires
                    a * b == q * c + rem,
            ;
            assert(0 <= 2 * rem - c < 2 * c);
            assert((2 * a * b + c) / (2 * c) == q + 1) by (nonlinear_arith)
                requires
                    (2 * a * b + c) == (q + 1) * (2 * c) + (2 * rem - c),
                    0 <= 2 * rem - c < 2 * c,
            ;
        } else {
            assert((2 * a * b + c) == q * (2 * c) + (2 * rem + c)) by (nonlinear_arith)
                requires
                    a * b == q * c + rem,
            ;
            assert((2 * a * b + c) / (2 * c) == q) by (nonlinear_arith)
                requires
                    (2 * a * b + c) == q * (2 * c) + (2 * rem + c),
                    0 <= 2 * rem + c < 2 * c,
            ;
        }
    }
    let new_short: usize = new_short as usize;
    if original_cols > original_rows {
        (target_size, new_short)
    } else {
        (new_short, target_size)
    }
}

/// Lanczos-3 resample of an 8-bit grid.
pub fn resize_u8_image(
    data: &[u8],
    original_cols: usize,
    original_rows: usize,
    target_cols: usize,
    target_rows: usize,
) -> (r: Result<Vec<u8>, Error>)
    ensures
        r is Ok ==> r->Ok_0@ == lanczos3_resampled(
            data@,
            original_cols as nat,
            original_rows as nat,
            target_cols as nat,
            target_rows as nat,
        ) && r->Ok_0@.len() == target_cols * target_rows,
        r is Err ==> r->Err_0 == Error::ResampleFailed,
        original_cols > u32::MAX || original_rows > u32::MAX || target_cols > u32::MAX
            || target_rows > u32::MAX ==> r is Err,
        original_cols <= u32::MAX && original_rows <= u32::MAX && target_cols <= u32::MAX
            && target_rows <= u32::MAX && data@.len() >= original_cols * original_rows ==> r is Ok,
{
    if original_cols > u32::MAX as usize || original_rows > u32::MAX as usize || target_cols
        > u32::MAX as usize || target_rows > u32::MAX as usize {
        return Err(Error::ResampleFailed);
    }
    match resample_lanczos3(
        data,
        original_cols as u32,
        original_rows as u32,
        target_cols as u32,
        target_rows as u32,
    ) {
        Some(v) => Ok(v),
        None => Err(Error::ResampleFailed),
    }
}

/// An 8-bit grid promoted to 16 bits by shifting each sample left by 8 bits.
pub open spec fn promoted_to_u16(s: Seq<u8>) -> Seq<u16> {
    Seq::new(s.len(), |i: int| (s[i] as int * 256) as u16)
}

/// Shifts every 8-bit sample into the high byte of a 16-bit sample.
pub fn promote_u8_to_u16(data: &[u8]) -> (out: Vec<u16>)
    ensures
        out@ == promoted_to_u16(data@),
{
    let n: usize = data.len();
    let mut out: Vec<u16> = Vec::with_capacity(n);
    let mut i: usize = 0;
    while i < n
        invariant
            n == data@.len(),
            i <= n,
            out@.len() == i,
            forall|k: int| 0 <= k < i ==> out@[k] == (data@[k] as int * 256) as u16,
        decreases n - i,
    {
        out.push(data[i] as u16 * 256);
        i = i + 1;
    }
    assert(out@ =~= promoted_to_u16(data@));
    out
}

/// The 16-bit resample: stretched to 8 bits, resampled, promoted back.
pub open spec fn u16_resampled(
    src: Seq<u16>,
    src_cols: nat,
    src_rows: nat,
    dst_cols: nat,
    dst_rows: nat,
) -> Seq<u16> {
    promoted_to_u16(
        lanczos3_resampled(stretched_to_bytes(src), src_cols, src_rows, dst_cols, dst_rows),
    )
}

/// Resamples a 16-bit grid through the 8-bit resampler: the samples are stretched onto
/// 8 bits, resampled, then shifted back into the high byte.
pub fn resize_u16_image(
    data: &[u16],
    original_cols: usize,
    original_rows: usize,
    target_cols: usize,
    target_rows: usize,
) -> (r: Result<Vec<u16>, Error>)
    ensures
        r is Ok ==> r->Ok_0@ == u16_resampled(
            data@,
            original_cols as nat,
            original_rows as nat,
            target_cols as nat,
            target_rows as nat,
        ) && r->Ok_0@.len() == target_cols * target_rows,
        r is Err ==> r->Err_0 == Error::ResampleFailed,
        original_cols <= u32::MAX && original_rows <= u32::MAX && target_cols <= u32::MAX
            && target_rows <= u32::MAX && data@.len() == original_cols * original_rows ==> r is Ok,
{
    let bytes = scale_u16_to_u8(data);
    let resized = resize_u8_image(&bytes, original_cols, original_rows, target_cols, target_rows)?;
    Ok(promote_u8_to_u16(&resized))
}

/// How a quantized grid's coordinate space relates to the original grid's. The scale
/// along each axis is `scaled_cols / source cols` and `scaled_rows / source rows`; the
/// grid then sits `pad_left` columns and `pad_top` rows into the final canvas.
#[derive(Copy, Clone, Debug, PartialEq, Eq, Structural)]
pub struct GeometricRecord {
    pub final_cols: usize,
    pub final_rows: usize,
    pub scaled_cols: usize,
    pub scaled_rows: usize,
    pub pad_left: usize,
    pub pad_top: usize,
    /// False when no resampling took place (no target, or a target at or above the long side).
    pub resampled: bool,
}

/// An owned copy of a grid.
fn copy_plane<T: Copy>(src: &[T]) -> (out: Vec<T>)
    ensures
        out@ == src@,
{
    let n: usize = src.len();
    let mut out: Vec<T> = Vec::with_capacity(n);
    let mut i: usize = 0;
    while i < n
        invariant
            n == src@.len(),
            i <= n,
            out@ == src@.take(i as int),
        decreases n - i,
    {
        out.push(src[i]);
        i = i + 1;
        assert(out@ =~= src@.take(i as int));
    }
    assert(src@.take(n as int) =~= src@);
    out
}

/// A resample takes place only for a target strictly below the long side.
pub open spec fn resamples(cols: nat, rows: nat, target: Option<usize>) -> bool {
    target is Some && (target->0 as nat) < long_side(cols, rows)
}

/// Size of the grid after the resampling step.
pub open spec fn scaled_dims(cols: nat, rows: nat, target: Option<usize>) -> (nat, nat) {
    if resamples(cols, rows, target) {
        resize_dimensions(cols, rows, target->0 as nat)
    } else {
        (cols, rows)
    }
}

/// The geometric record of a transform of a `cols × rows` grid.
pub open spec fn geometry_of(cols: nat, rows: nat, target: Option<usize>, pad: bool) -> (
    nat,
    nat,
    nat,
    nat,
    nat,
    nat,
    bool,
) {
    let (sc, sr) = scaled_dims(cols, rows, target);
    let side = square_side(sc, sr);
    if pad {
        (side, side, sc, sr, center_offset(side, sc), center_offset(side, sr), resamples(cols, rows, target))
    } else {
        (sc, sr, sc, sr, 0, 0, resamples(cols, rows, target))
    }
}

/// The 8-bit output grid of the transform.
pub open spec fn transformed_u8(
    src: Seq<u8>,
    cols: nat,
    rows: nat,
    target: Option<usize>,
    pad: bool,
) -> Seq<u8> {
    let (sc, sr) = scaled_dims(cols, rows, target);
    let base = if resamples(cols, rows, target) {
        lanczos3_resampled(src, cols, rows, sc, sr)
    } else {
        src
    };
    if pad {
        padded(base, sc, sr, 0u8)
    } else {
        base
    }
}

/// The 16-bit output grid of the transform.
pub open spec fn transformed_u16(
    src: Seq<u16>,
    cols: nat,
    rows: nat,
    target: Option<usize>,
    pad: bool,
) -> Seq<u16> {
    let (sc, sr) = scaled_dims(cols, rows, target);
    let base = if resamples(cols, rows, target) {
        u16_resampled(src, cols, rows, sc, sr)
    } else {
        src
    };
    if pad {
        padded(base, sc, sr, 0u16)
    } else {
        base
    }
}

proof fn lemma_scaled_dims_bounded(cols: nat, rows: nat, target: Option<usize>)
    ensures
        scaled_dims(cols, rows, target).0 <= cols,
        scaled_dims(cols, rows, target).1 <= rows,
{
    if resamples(cols, rows, target) {
        let t = target->0 as nat;
        let long = long_side(cols, rows);
        let short = if cols >= rows {
            rows
        } else {
            cols
        };
        assert(rounded_ratio(short, t, long) <= short) by (nonlinear_arith)
            requires
                rounded_ratio(short, t, long) == (2 * short * t + long) / (2 * long),
                t < long,
                long > 0,
        ;
    }
}

/// A target at or above the long side leaves the grid untouched: the original dimensions,
/// the same samples at either depth, unit scale, no padding offsets, no resampling.
pub proof fn lemma_oversized_target_is_identity(
    src8: Seq<u8>,
    src16: Seq<u16>,
    cols: nat,
    rows: nat,
    target: usize,
)
    requires
        target as nat >= long_side(cols, rows),
    ensures
        resize_dimensions(cols, rows, target as nat) == (cols, rows),
        transformed_u8(src8, cols, rows, Some(target), false) == src8,
        transformed_u16(src16, cols, rows, Some(target), false) == src16,
        geometry_of(cols, rows, Some(target), false) == (cols, rows, cols, rows, 0nat, 0nat, false),
{
    if target as nat == long_side(cols, rows) {
        let short = if cols >= rows {
            rows
        } else {
            cols
        };
        let long = long_side(cols, rows);
        if long > 0 {
            assert((2 * short * long + long) / (2 * long) == short) by (nonlinear_arith)
                requires
                    long > 0,
                    short <= long,
            ;
        }
    }
}

/// Resamples a quantized band to an optional target long side and optionally centers it on a
/// square zero-filled canvas, returning the band and the geometric record of the transform.
/// 8-bit bands come in `u8_data`, 16-bit bands in `u16_data`, which must then be present.
pub fn resize_image_data_with_meta(
    u8_data: &[u8],
    u16_data: Option<&[u16]>,
    original_cols: usize,
    original_rows: usize,
    target_size: Option<usize>,
    bit_depth: BitDepth,
    pad: bool,
) -> (r: Result<(Vec<u8>, Option<Vec<u16>>, GeometricRecord), Error>)
    requires
        bit_depth == BitDepth::U8 ==> u8_data@.len() == original_cols * original_rows,
        bit_depth == BitDepth::U16 && u16_data is Some ==> u16_data->0@.len() == original_cols
            * original_rows,
        pad ==> ({
            let (sc, sr) = scaled_dims(original_cols as nat, original_rows as nat, target_size);
            square_side(sc, sr) * square_side(sc, sr) <= usize::MAX
        }),
    ensures
        bit_depth == BitDepth::U16 && u16_data is None ==> r == Err::<
            (Vec<u8>, Option<Vec<u16>>, GeometricRecord),
            Error,
        >(Error::MissingBand),
        r is Err ==> r->Err_0 == Error::MissingBand || (r->Err_0 == Error::ResampleFailed
            && resamples(original_cols as nat, original_rows as nat, target_size)),
        !resamples(original_cols as nat, original_rows as nat, target_size) && (bit_depth
            == BitDepth::U8 || u16_data is Some) ==> r is Ok,
        original_cols <= u32::MAX && original_rows <= u32::MAX && (bit_depth == BitDepth::U8
            || u16_data is Some) ==> r is Ok,
        r is Ok ==> ({
            let (out8, out16, g) = r->Ok_0;
            let cols = original_cols as nat;
            let rows = original_rows as nat;
            &&& (g.final_cols as nat, g.final_rows as nat, g.scaled_cols as nat, g.scaled_rows as nat,
                g.pad_left as nat, g.pad_top as nat, g.resampled) == geometry_of(cols, rows, target_size, pad)
            &&& bit_depth == BitDepth::U8 ==> out8@ == transformed_u8(u8_data@, cols, rows, target_size, pad)
                && out16 is None && out8@.len() == g.final_cols * g.final_rows
            &&& bit_depth == BitDepth::U16 ==> out8@.len() == 0 && out16 is Some && out16->0@
                == transformed_u16(u16_data->0@, cols, rows, target_size, pad)
                && out16->0@.len() == g.final_cols * g.final_rows
        }),
{
    let long: usize = if original_cols >= original_rows {
        original_cols
    } else {
        original_rows
    };
    let resampled: bool = match target_size {
        Some(t) => t < long,
        None => false,
    };
    let (sc, sr) = if resampled {
        calculate_resize_dimensions(original_cols, original_rows, target_size.unwrap())
    } else {
        (original_cols, original_rows)
    };
    proof {
        lemma_scaled_dims_bounded(original_cols as nat, original_rows as nat, target_size);
    }
    let (base8, base16): (Vec<u8>, Option<Vec<u16>>) = match bit_depth {
        BitDepth::U8 => {
            if resampled {
                (resize_u8_image(u8_data, original_cols, original_rows, sc, sr)?, None)
            } else {
                (copy_plane(u8_data), None)
            }
        },
        BitDepth::U16 => {
            let data = match u16_data {
                Some(d) => d,
                None => {
                    return Err(Error::MissingBand);
                },
            };
            if resampled {
                (Vec::new(), Some(resize_u16_image(data, original_cols, original_rows, sc, sr)?))
            } else {
                (Vec::new(), Some(copy_plane(data)))
            }
        },
    };
    if pad {
        let side: usize = if sc >= sr {
            sc
        } else {
            sr
        };
        let (padded8, padded16) = match add_padding_to_square(
            base8.as_slice(),
            match &base16 {
                Some(v) => Some(v.as_slice()),
                None => None,
            },
            sc,
            sr,
            bit_depth,
        ) {
            Ok(pair) => pair,
            Err(e) => {
                return Err(e);
            },
        };
        let g = GeometricRecord {
            final_cols: side,
            final_rows: side,
            scaled_cols: sc,
            scaled_rows: sr,
            pad_left: (side - sc) / 2,
            pad_top: (side - sr) / 2,
            resampled,
        };
        Ok((padded8, padded16, g))
    } else {
        let g = GeometricRecord {
            final_cols: sc,
            final_rows: sr,
            scaled_cols: sc,
            scaled_rows: sr,
            pad_left: 0,
            pad_top: 0,
            resampled,
        };
        Ok((base8, base16, g))
    }
}

/// [`resize_image_data_with_meta`] without the geometric record: final columns, final rows
/// and the band.
pub fn resize_image_data(
    u8_data: &[u8],
    u16_data: Option<&[u16]>,
    original_cols: usize,
    original_rows: usize,
    target_size: Option<usize>,
    bit_depth: BitDepth,
    pad: bool,
) -> (r: Result<(usize, usize, Vec<u8>, Option<Vec<u16>>), Error>)
    requires
        bit_depth == BitDepth::U8 ==> u8_data@.len() == original_cols * original_rows,
        bit_depth == BitDepth::U16 && u16_data is Some ==> u16_data->0@.len() == original_cols
            * original_rows,
        pad ==> ({
            let (sc, sr) = scaled_dims(original_cols as nat, original_rows as nat, target_size);
            square_side(sc, sr) * square_side(sc, sr) <= usize::MAX
        }),
    ensures
        bit_depth == BitDepth::U16 && u16_data is None ==> r == Err::<
            (usize, usize, Vec<u8>, Option<Vec<u16>>),
            Error,
        >(Error::MissingBand),
        r is Err ==> r->Err_0 == Error::MissingBand || (r->Err_0 == Error::ResampleFailed
            && resamples(original_cols as nat, original_rows as nat, target_size)),
        !resamples(original_cols as nat, original_rows as nat, target_size) && (bit_depth
            == BitDepth::U8 || u16_data is Some) ==> r is Ok,
        original_cols <= u32::MAX && original_rows <= u32::MAX && (bit_depth == BitDepth::U8
            || u16_data is Some) ==> r is Ok,
        r is Ok ==> ({
            let (c, w, out8, out16) = r->Ok_0;
            let cols = original_cols as nat;
            let rows = original_rows as nat;
            let g = geometry_of(cols, rows, target_size, pad);
            &&& c as nat == g.0 && w as nat == g.1
            &&& bit_depth == BitDepth::U8 ==> out8@ == transformed_u8(u8_data@, cols, rows, target_size, pad)
                && out16 is None && out8@.len() == c * w
            &&& bit_depth == BitDepth::U16 ==> out8@.len() == 0 && out16 is Some && out16->0@
                == transformed_u16(u16_data->0@, cols, rows, target_size, pad)
                && out16->0@.len() == c * w
        }),
{
    let (out8, out16, g) = resize_image_data_with_meta(
        u8_data,
        u16_data,
        original_cols,
        original_rows,
        target_size,
        bit_depth,
        pad,
    )?;
    Ok((g.final_cols, g.final_rows, out8, out16))
}

} // verus!
