//! The numeric model of the fit-and-center transform.
//!
//! Intrinsic SVG dimensions arrive from the parser as IEEE 754
//! single-precision bit patterns.  They are decoded here into integer
//! "milli-units" (thousandths of a pixel unit, rounded down but never to
//! zero for a nonzero value, capped at [`MAX_MILLI`]), and the placement
//! transform is computed over exact rationals on those integers, so that
//! its invariants can be stated and proved without floating point.

use vstd::prelude::*;
use vstd::arithmetic::power2::{pow2, lemma2_to64, lemma_pow2_adds, lemma_pow2_pos};
use vstd::bits::{lemma_u64_shl_is_mul, lemma_u64_shr_is_div};

verus! {

/// Upper cap of a decoded dimension, in milli-units (2^40, about 1.1e9
/// pixel units): dimensions beyond it saturate.
pub const MAX_MILLI: u64 = 0x100_0000_0000;

/// Largest accepted side length of the square raster target, in pixels: a
/// machine limit, not a policy — it keeps the pixel buffer at or under
/// 1 GiB and every product in the transform arithmetic inside `u64`.
pub const MAX_TARGET_SIZE: u32 = 16384;

/// The dimension, in milli-units, that a single-precision bit pattern
/// stands for: `mantissa * 2^(exponent - 150)` units scaled by 1000 and
/// rounded down, capped at [`MAX_MILLI`] — but never below one milli-unit
/// for a nonzero value, so that exactly the zero-sized documents decode
/// to zero.  Negative values, infinities and NaN are read as zero (the
/// parser never produces them for a size).
pub open spec fn milli_of(bits: u32) -> u64 {
    let sign = bits >> 31u32;
    let biased = (bits >> 23u32) & 0xffu32;
    let frac = (bits & 0x7f_ffffu32) as nat;
    if sign == 1u32 || biased == 0xffu32 {
        0u64
    } else {
        let m: nat = if biased == 0u32 { frac } else { (frac + 0x80_0000) as nat };
        let e: nat = if biased == 0u32 { 1nat } else { biased as nat };
        let scaled: nat = if e >= 150 {
            (m * 1000) * pow2((e - 150) as nat)
        } else {
            (m * 1000) / pow2((150 - e) as nat)
        };
        if scaled > MAX_MILLI {
            MAX_MILLI
        } else if scaled == 0 && m > 0 {
            1u64
        } else {
            scaled as u64
        }
    }
}

/// Decodes the bit pattern of a single-precision dimension into
/// milli-units, exactly as [`milli_of`] states.
pub fn milli_from_bits(bits: u32) -> (m: u64)
    ensures
        m == milli_of(bits),
{
    let sign = bits >> 31;
    let biased = (bits >> 23) & 0xff;
    let frac = (bits & 0x7f_ffff) as u64;
    proof {
        assert((bits & 0x7f_ffff) < 0x80_0000) by (bit_vector);
    }
    if sign == 1 || biased == 0xff {
        0
    } else {
        let m: u64 = if biased == 0 { frac } else { frac + 0x80_0000 };
        let e: u32 = if biased == 0 { 1 } else { biased };
        proof {
            assert(((bits >> 23) & 0xff) < 0x100) by (bit_vector);
        }
        if e >= 150 {
            let sh = e - 150;
            if sh >= 24 {
                proof {
                    lemma2_to64();
                    lemma_pow2_adds(24, (sh - 24) as nat);
                    lemma_pow2_pos((sh - 24) as nat);
                    assert((m * 1000) * pow2(sh as nat) > MAX_MILLI) by (nonlinear_arith)
                        requires
                            m >= 0x80_0000,
                            pow2(sh as nat) == 0x100_0000 * pow2((sh - 24) as nat),
                            pow2((sh - 24) as nat) >= 1,
                    ;
                }
                MAX_MILLI
            } else {
                proof {
                    lemma2_to64();
                    assert(pow2(sh as nat) <= pow2(23)) by {
                        if sh < 23 {
                            vstd::arithmetic::power2::lemma_pow2_strictly_increases(
                                sh as nat, 23);
                        }
                    }
                    assert((m * 1000) * pow2(sh as nat) <= 0xffffff000u64 * 0x800000) by (nonlinear_arith)
                        requires
                            m * 1000 <= 0xffffff000u64,
                            pow2(sh as nat) <= 0x800000,
                            pow2(sh as nat) >= 0,
                    ;
                    lemma_u64_shl_is_mul((m * 1000) as u64, sh as u64);
                    lemma_pow2_pos(sh as nat);
                    assert((m * 1000) * pow2(sh as nat) >= m * 1000) by (nonlinear_arith)
                        requires
                            pow2(sh as nat) >= 1,
                            m >= 0,
                    ;
                }
                let v = (m * 1000) << sh;
                if v > MAX_MILLI { MAX_MILLI } else { v }
            }
        } else {
            let sh = 150 - e;
            if sh >= 64 {
                proof {
                    lemma2_to64();
                    assert(pow2(64) > m * 1000) by {
                        assert(m * 1000 <= 0xffffff000u64);
                    }
                    if sh > 64 {
                        vstd::arithmetic::power2::lemma_pow2_strictly_increases(64, sh as nat);
                    }
                    lemma_pow2_pos(sh as nat);
                    assert((m * 1000) as nat / pow2(sh as nat) == 0) by (nonlinear_arith)
                        requires
                            pow2(sh as nat) > m * 1000,
                            pow2(sh as nat) > 0,
                    ;
                }
                if m > 0 { 1 } else { 0 }
            } else {
                proof {
                    lemma_u64_shr_is_div((m * 1000) as u64, sh as u64);
                    lemma_pow2_pos(sh as nat);
                    assert((m * 1000) as nat / pow2(sh as nat) <= (m * 1000) as nat) by (nonlinear_arith)
                        requires
                            pow2(sh as nat) >= 1,
                    ;
                }
                let v = (m * 1000) >> sh;
                if v == 0 && m > 0 { 1 } else { v }
            }
        }
    }
}

proof fn lemma_small_nat_cast(x: nat)
    requires
        x <= 0x100_0000_0000nat,
    ensures
        x as u64 == x,
{
}

/// A decoded dimension never exceeds the cap.
pub proof fn lemma_milli_of_bounded(bits: u32)
    ensures
        milli_of(bits) <= MAX_MILLI,
{
    let sign = bits >> 31u32;
    let biased = (bits >> 23u32) & 0xffu32;
    if !(sign == 1u32 || biased == 0xffu32) {
        let frac = (bits & 0x7f_ffffu32) as nat;
        let m: nat = if biased == 0u32 { frac } else { (frac + 0x80_0000) as nat };
        let e: nat = if biased == 0u32 { 1nat } else { biased as nat };
        let scaled: nat = if e >= 150 {
            (m * 1000) * pow2((e - 150) as nat)
        } else {
            (m * 1000) / pow2((150 - e) as nat)
        };
        if scaled <= MAX_MILLI {
            lemma_small_nat_cast(scaled);
        }
    }
}

/// The bit pattern of a strictly positive finite single-precision value:
/// sign bit clear, exponent not all-ones, not zero.
pub open spec fn positive_finite_bits(bits: u32) -> bool {
    bits >> 31u32 == 0 && (bits >> 23u32) & 0xffu32 != 0xff && bits != 0
}

/// A strictly positive finite bit pattern decodes to at least one
/// milli-unit: the decoder floors, but never to zero for a value that is
/// not exactly zero.
pub proof fn lemma_milli_of_positive(bits: u32)
    requires
        positive_finite_bits(bits),
    ensures
        milli_of(bits) >= 1,
{
    let biased = (bits >> 23u32) & 0xffu32;
    let frac = (bits & 0x7f_ffffu32) as nat;
    assert(!(bits >> 31u32 == 0 && (bits >> 23u32) & 0xffu32 == 0 && bits != 0)
        || (bits & 0x7f_ffffu32) != 0) by (bit_vector);
    let m: nat = if biased == 0u32 { frac } else { (frac + 0x80_0000) as nat };
    assert(m > 0);
    let e: nat = if biased == 0u32 { 1nat } else { biased as nat };
    let scaled: nat = if e >= 150 {
        (m * 1000) * pow2((e - 150) as nat)
    } else {
        (m * 1000) / pow2((150 - e) as nat)
    };
    if scaled > MAX_MILLI {
        assert(MAX_MILLI >= 1);
        assert(milli_of(bits) == MAX_MILLI);
    } else if scaled == 0 {
        assert(milli_of(bits) == 1u64);
    } else {
        lemma_small_nat_cast(scaled);
        assert(milli_of(bits) == scaled as u64);
    }
}

/// The larger of the two intrinsic dimensions.
pub open spec fn larger(a: u64, b: u64) -> u64 {
    if a >= b { a } else { b }
}

/// The fit-and-center transform, as exact rationals: a uniform scale
/// `scale_num / scale_den` (target pixels per milli-unit of the source,
/// times 1000) and per-axis offsets `off_*_num / off_*_den` in target
/// pixels.  No rounding happens here; the single lossy step is the
/// conversion to the renderer's floating-point transform, which the
/// unverified shell performs.
#[derive(Clone, Copy, Debug, PartialEq, Eq, Structural)]
pub struct FitTransform {
    pub scale_num: u64,
    pub scale_den: u64,
    pub off_x_num: u64,
    pub off_x_den: u64,
    pub off_y_num: u64,
    pub off_y_den: u64,
}

/// The transform chosen for a document of `w_milli` by `h_milli`
/// milli-units on a square target of side `size`:
/// `scale = size / max(w, h)` (in pixel units), and each axis is offset by
/// half the unused space.
pub open spec fn fit_spec(w_milli: u64, h_milli: u64, size: u32) -> FitTransform {
    let d = larger(w_milli, h_milli);
    FitTransform {
        scale_num: (1000 * size) as u64,
        scale_den: d,
        off_x_num: ((size as u64) * ((d - w_milli) as u64)) as u64,
        off_x_den: (2 * d) as u64,
        off_y_num: ((size as u64) * ((d - h_milli) as u64)) as u64,
        off_y_den: (2 * d) as u64,
    }
}

/// Computes the fit-and-center transform; exactly [`fit_spec`].
pub fn fit_transform(w_milli: u64, h_milli: u64, size: u32) -> (tf: FitTransform)
    requires
        1 <= w_milli <= MAX_MILLI,
        1 <= h_milli <= MAX_MILLI,
        1 <= size <= MAX_TARGET_SIZE,
    ensures
        tf == fit_spec(w_milli, h_milli, size),
{
    let d = if w_milli >= h_milli { w_milli } else { h_milli };
    proof {
        assert((size as u64) * ((d - w_milli) as u64) <= 0x4000u64 * 0x100_0000_0000u64)
            by (nonlinear_arith)
            requires
                size <= 0x4000,
                d - w_milli >= 0,
                d <= 0x100_0000_0000u64,
                d - w_milli <= d,
        ;
        assert((size as u64) * ((d - h_milli) as u64) <= 0x4000u64 * 0x100_0000_0000u64)
            by (nonlinear_arith)
            requires
                size <= 0x4000,
                d - h_milli >= 0,
                d <= 0x100_0000_0000u64,
                d - h_milli <= d,
        ;
    }
    FitTransform {
        scale_num: 1000 * (size as u64),
        scale_den: d,
        off_x_num: (size as u64) * (d - w_milli),
        off_x_den: 2 * d,
        off_y_num: (size as u64) * (d - h_milli),
        off_y_den: 2 * d,
    }
}

/// The scale is chosen so the larger intrinsic axis, after scaling,
/// exactly fills the target: as rationals,
/// `(max(w,h) / 1000) * (scale_num / scale_den) == size`, stated here
/// cross-multiplied over the integers.
pub proof fn lemma_fit_fills_target(w_milli: u64, h_milli: u64, size: u32)
    requires
        1 <= w_milli <= MAX_MILLI,
        1 <= h_milli <= MAX_MILLI,
        1 <= size <= MAX_TARGET_SIZE,
    ensures
        ({
            let tf = fit_spec(w_milli, h_milli, size);
            larger(w_milli, h_milli) * tf.scale_num
                == (size as u64) * (1000 * tf.scale_den)
        }),
{
    let d = larger(w_milli, h_milli);
    let s = size as u64;
    assert((1000 * size) as u64 == 1000 * s);
    assert(d * (1000 * s) == s * (1000 * d)) by (nonlinear_arith);
}

/// Aspect preservation: both axes are scaled by the same rational factor,
/// so the scaled width-to-height ratio equals the intrinsic one exactly:
/// `scaled_w / scaled_h == w / h`, stated cross-multiplied over the common
/// denominator.
pub proof fn lemma_fit_preserves_aspect(w_milli: u64, h_milli: u64, size: u32)
    requires
        1 <= w_milli <= MAX_MILLI,
        1 <= h_milli <= MAX_MILLI,
        1 <= size <= MAX_TARGET_SIZE,
    ensures
        ({
            let tf = fit_spec(w_milli, h_milli, size);
            (w_milli * tf.scale_num) * h_milli == (h_milli * tf.scale_num) * w_milli
        }),
{
    let tf = fit_spec(w_milli, h_milli, size);
    assert((w_milli * tf.scale_num) * h_milli == (h_milli * tf.scale_num) * w_milli)
        by (nonlinear_arith);
}

/// Centering: on each axis, the two margins beside the scaled content are
/// exactly equal, and margins plus content fill the target exactly.  Over
/// the common denominator `2 * max(w,h)` the scaled width has numerator
/// `2 * w * size` and each horizontal margin has numerator `off_x_num`, so
/// the statement is `off_x_num + 2*w*size + off_x_num == size * 2*max(w,h)`
/// (and symmetrically for the vertical axis).
pub proof fn lemma_fit_centers(w_milli: u64, h_milli: u64, size: u32)
    requires
        1 <= w_milli <= MAX_MILLI,
        1 <= h_milli <= MAX_MILLI,
        1 <= size <= MAX_TARGET_SIZE,
    ensures
        ({
            let tf = fit_spec(w_milli, h_milli, size);
            tf.off_x_num + 2 * (w_milli * (size as u64)) + tf.off_x_num
                == (size as u64) * tf.off_x_den
            && tf.off_y_num + 2 * (h_milli * (size as u64)) + tf.off_y_num
                == (size as u64) * tf.off_y_den
        }),
{
    let d = larger(w_milli, h_milli);
    let s = size as u64;
    let mw = (d - w_milli) as u64;
    let mh = (d - h_milli) as u64;
    assert(s * mw <= 0x4000u64 * 0x100_0000_0000u64) by (nonlinear_arith)
        requires
            s <= 0x4000,
            0 <= mw <= 0x100_0000_0000u64,
    ;
    assert(s * mh <= 0x4000u64 * 0x100_0000_0000u64) by (nonlinear_arith)
        requires
            s <= 0x4000,
            0 <= mh <= 0x100_0000_0000u64,
    ;
    assert((s * mw) as u64 == s * mw);
    assert((s * mh) as u64 == s * mh);
    assert((2 * d) as u64 == 2 * d);
    assert(s * mw + 2 * (w_milli * s) + s * mw == s * (2 * d)) by (nonlinear_arith)
        requires
            mw == d - w_milli,
            w_milli <= d,
    ;
    assert(s * mh + 2 * (h_milli * s) + s * mh == s * (2 * d)) by (nonlinear_arith)
        requires
            mh == d - h_milli,
            h_milli <= d,
    ;
}

/// No clipping: each scaled axis fits inside the target.  As rationals,
/// `(w / 1000) * (scale_num / scale_den) <= size` (and likewise for the
/// height), stated cross-multiplied; so the centering offsets are never
/// negative — they are differences of these two sides, halved.
pub proof fn lemma_fit_no_clipping(w_milli: u64, h_milli: u64, size: u32)
    requires
        1 <= w_milli <= MAX_MILLI,
        1 <= h_milli <= MAX_MILLI,
        1 <= size <= MAX_TARGET_SIZE,
    ensures
        ({
            let tf = fit_spec(w_milli, h_milli, size);
            w_milli * tf.scale_num <= (size as u64) * (1000 * tf.scale_den)
            && h_milli * tf.scale_num <= (size as u64) * (1000 * tf.scale_den)
        }),
{
    let d = larger(w_milli, h_milli);
    let s = size as u64;
    assert((1000 * size) as u64 == 1000 * s);
    assert(w_milli * (1000 * s) <= s * (1000 * d)) by (nonlinear_arith)
        requires
            w_milli <= d,
            s >= 1,
    ;
    assert(h_milli * (1000 * s) <= s * (1000 * d)) by (nonlinear_arith)
        requires
            h_milli <= d,
            s >= 1,
    ;
}

} // verus!
