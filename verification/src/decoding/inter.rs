//! Inter prediction: motion vectors, merge candidates, fractional sample
//! interpolation and weighted sample prediction (§8.5.3).
use vstd::prelude::*;
use vstd::arithmetic::power2::pow2;
use super::{clip_sample, clip_to_depth, rounded_shift};
use super::picture::{DecodedPicture, SamplePlane};
use crate::format::ChromaFormat;
use crate::geometry::Block;

verus! {

/// Motion vector in quarter-luma-sample units.
#[derive(Clone, Copy, Debug, Default, Eq, PartialEq, Structural)]
pub struct MotionVector {
    /// Horizontal component.
    pub x: i32,
    /// Vertical component.
    pub y: i32,
}

/// A motion-vector predictor and its associated reference index.
#[derive(Clone, Copy, Debug, Eq, PartialEq, Structural)]
pub struct MotionVectorPrediction {
    /// Reference index.
    pub reference_index: usize,
    /// Motion vector.
    pub motion_vector: MotionVector,
}

/// Reference-list usage for one prediction block.
#[derive(Clone, Copy, Debug, Eq, PartialEq, Structural)]
pub struct PredictionLists {
    /// L0 reference, when present.
    pub list0: Option<MotionVectorPrediction>,
    /// L1 reference, when present.
    pub list1: Option<MotionVectorPrediction>,
}

/// Explicit weighted-prediction parameters.
#[derive(Clone, Copy, Debug, Eq, PartialEq, Structural)]
pub struct WeightParameters {
    /// Weight denominator.
    pub log2_denom: u8,
    /// Luma/chroma weight.
    pub weight: i32,
    /// Prediction offset.
    pub offset: i32,
}

/// `value` reduced modulo 2^16 into `-2^15 .. 2^15` (8-201 to 8-204).
pub open spec fn wrap16(value: int) -> int {
    let u = value % 65536;
    if u >= 32768 {
        u - 65536
    } else {
        u
    }
}

/// One component of the motion vector of §8.5.3.2.1: the predictor,
/// rounded down to full samples when integer motion applies, plus the difference.
pub open spec fn motion_component(predictor: i32, difference: i32, integer: bool) -> int {
    if integer {
        wrap16(((predictor >> 2i32) + difference) * 4)
    } else {
        wrap16(predictor + difference)
    }
}

fn wrap_motion(value: i64) -> (r: i32)
    ensures
        r == wrap16(value as int),
{
    let remainder = value % 65536;
    let unsigned = if remainder < 0 { remainder + 65536 } else { remainder };
    assert(unsigned == value as int % 65536);
    if unsigned >= 32768 {
        (unsigned - 65536) as i32
    } else {
        unsigned as i32
    }
}

/// Derives a luma motion vector from an MVP and MVD (§8.5.3.2.1).
pub fn derive_motion_vector(predictor: MotionVector, difference: MotionVector, reference_is_current: bool, use_integer_mv: bool) -> (r: MotionVector)
    ensures
        r.x == motion_component(predictor.x, difference.x, reference_is_current || use_integer_mv),
        r.y == motion_component(predictor.y, difference.y, reference_is_current || use_integer_mv),
{
    if reference_is_current || use_integer_mv {
        MotionVector {
            x: wrap_motion(((predictor.x >> 2) as i64 + difference.x as i64) * 4),
            y: wrap_motion(((predictor.y >> 2) as i64 + difference.y as i64) * 4),
        }
    } else {
        MotionVector {
            x: wrap_motion(predictor.x as i64 + difference.x as i64),
            y: wrap_motion(predictor.y as i64 + difference.y as i64),
        }
    }
}

/// `value * 2 / divisor` is defined for `i32` (8-228, 8-229).
pub open spec fn chroma_component_defined(value: i32, divisor: u32) -> bool {
    &&& -0x4000_0000 <= value < 0x4000_0000
    &&& (divisor as i32) != 0
    &&& !(value == -0x4000_0000 && (divisor as i32) == -1)
}

/// Converts a quarter-luma motion vector to eighth-chroma units (§8.5.3.2.10).
pub fn derive_chroma_motion_vector(motion: MotionVector, subsampling: (u32, u32)) -> (r: MotionVector)
    requires
        chroma_component_defined(motion.x, subsampling.0),
        chroma_component_defined(motion.y, subsampling.1),
    ensures
        r.x == quotient_toward_zero(motion.x * 2, (subsampling.0 as i32) as int),
        r.y == quotient_toward_zero(motion.y * 2, (subsampling.1 as i32) as int),
{
    MotionVector { x: chroma_component(motion.x, subsampling.0), y: chroma_component(motion.y, subsampling.1) }
}

/// Rust's signed division `a / b`, which rounds toward zero.
pub open spec fn quotient_toward_zero(a: int, b: int) -> int {
    let q = abs_value(a) / abs_value(b);
    if (a < 0) == (b < 0) {
        q
    } else {
        -q
    }
}

/// `|v|`.
pub open spec fn abs_value(v: int) -> int {
    if v < 0 {
        -v
    } else {
        v
    }
}

fn chroma_component(value: i32, subsampling: u32) -> (r: i32)
    requires
        chroma_component_defined(value, subsampling),
    ensures
        r == quotient_toward_zero(value * 2, (subsampling as i32) as int),
{
    let numerator = (value * 2) as i64;
    let divisor = (subsampling as i32) as i64;
    let a: u64 = if numerator < 0 { (-numerator) as u64 } else { numerator as u64 };
    let b: u64 = if divisor < 0 { (-divisor) as u64 } else { divisor as u64 };
    let q = a / b;
    assert(q <= a) by (nonlinear_arith)
        requires q == a / b, b >= 1;
    assert(q == 0x8000_0000 ==> b == 1) by (nonlinear_arith)
        requires q == a / b, b >= 1, a <= 0x8000_0000;
    if (numerator < 0) == (divisor < 0) {
        q as i32
    } else {
        -(q as i64) as i32
    }
}

/// `shift1` of §8.5.3.3.4.2: `Max(2, 14 - bitDepth)`.
pub open spec fn weight_shift1(bit_depth: u8) -> u32 {
    if bit_depth <= 12 {
        (14 - bit_depth) as u32
    } else {
        2
    }
}

/// `shift2` of §8.5.3.3.4.2: `Max(3, 15 - bitDepth)`.
pub open spec fn weight_shift2(bit_depth: u8) -> u32 {
    if bit_depth <= 12 {
        (15 - bit_depth) as u32
    } else {
        3
    }
}

/// `(value + 2^(shift - 1)) >> shift` for a value and result in `i64`.
pub open spec fn round_shift(value: int, shift: u32) -> int {
    (((value + pow2((shift - 1) as nat)) as i64) >> (shift as i64)) as int
}

/// The default weighted sample prediction of one position (8-259 to 8-261).
pub open spec fn default_weighted_sample(a: i32, b: i32, has0: bool, has1: bool, bit_depth: u8) -> i32 {
    let value = if has0 && !has1 {
        round_shift(a as int, weight_shift1(bit_depth))
    } else if !has0 && has1 {
        round_shift(b as int, weight_shift1(bit_depth))
    } else if has0 && has1 {
        round_shift(a + b, weight_shift2(bit_depth))
    } else {
        0
    };
    clip_to_depth(value, bit_depth as nat) as i32
}

/// Applies §8.5.3.3.4.2 default weighted prediction.
pub fn default_weighted_prediction(l0: &[i32], l1: &[i32], has0: bool, has1: bool, bit_depth: u8) -> (r: Vec<i32>)
    requires
        l0@.len() == l1@.len(),
        bit_depth < 63,
    ensures
        r@.len() == l0@.len(),
        forall|i: int| 0 <= i < r@.len() ==> r@[i] == default_weighted_sample(l0@[i], l1@[i], has0, has1, bit_depth),
{
    let shift1: u32 = if bit_depth <= 12 { 14 - bit_depth as u32 } else { 2 };
    let shift2: u32 = if bit_depth <= 12 { 15 - bit_depth as u32 } else { 3 };
    proof {
        vstd::arithmetic::power2::lemma2_to64();
        if shift1 - 1 < 14 {
            vstd::arithmetic::power2::lemma_pow2_strictly_increases((shift1 - 1) as nat, 14);
        }
        if shift2 - 1 < 14 {
            vstd::arithmetic::power2::lemma_pow2_strictly_increases((shift2 - 1) as nat, 14);
        }
    }
    let mut output: Vec<i32> = Vec::new();
    let mut i: usize = 0;
    while i < l0.len()
        invariant
            l0@.len() == l1@.len(),
            bit_depth < 63,
            shift1 == weight_shift1(bit_depth),
            shift2 == weight_shift2(bit_depth),
            pow2((shift1 - 1) as nat) <= 0x4000,
            pow2((shift2 - 1) as nat) <= 0x4000,
            i <= l0@.len(),
            output@.len() == i,
            forall|k: int| 0 <= k < i ==> output@[k] == default_weighted_sample(l0@[k], l1@[k], has0, has1, bit_depth),
        decreases l0@.len() - i,
    {
        let a = l0[i] as i64;
        let b = l1[i] as i64;
        let value: i64 = if has0 && !has1 {
            rounded_shift(a, shift1)
        } else if !has0 && has1 {
            rounded_shift(b, shift1)
        } else if has0 && has1 {
            rounded_shift(a + b, shift2)
        } else {
            0
        };
        let sample = clip_sample(value, bit_depth);
        output.push(sample);
        i += 1;
    }
    output
}

/// `round` of the explicit weighted prediction (8-265): `1 << (shift - 1)`, or 0.
pub open spec fn weight_round(shift: int) -> int {
    if shift == 0 {
        0
    } else {
        (pow2((shift - 1) as nat) as i64) as int
    }
}

/// `log2WD` of the explicit weighted prediction: the larger denominator.
pub open spec fn weight_shift(w0: WeightParameters, w1: WeightParameters) -> int {
    if w0.log2_denom >= w1.log2_denom {
        w0.log2_denom as int
    } else {
        w1.log2_denom as int
    }
}

/// `value` lies in the range of `i64`.
pub open spec fn fits_i64(value: int) -> bool {
    i64::MIN <= value <= i64::MAX
}

/// The explicit weighted prediction of one position is computable in `i64`
/// for the selected lists.
pub open spec fn weighted_sample_defined(a: i32, b: i32, flags: (bool, bool), w0: WeightParameters, w1: WeightParameters) -> bool {
    let shift = weight_shift(w0, w1);
    let round = weight_round(shift);
    if flags.0 && !flags.1 {
        shift < 64 && fits_i64(a * w0.weight + round)
    } else if !flags.0 && flags.1 {
        shift < 64 && fits_i64(b * w1.weight + round)
    } else if flags.0 && flags.1 {
        shift < 63 && fits_i64(a * w0.weight + b * w1.weight) && fits_i64(a * w0.weight + b * w1.weight + round)
    } else {
        true
    }
}

/// The explicit weighted sample prediction of one position (8-264 to 8-266).
pub open spec fn weighted_sample(a: i32, b: i32, flags: (bool, bool), w0: WeightParameters, w1: WeightParameters, bit_depth: u8) -> i32 {
    let shift = weight_shift(w0, w1);
    let round = weight_round(shift);
    let value = if flags.0 && !flags.1 {
        ((a * w0.weight + round) as i64 >> (shift as i64)) + w0.offset
    } else if !flags.0 && flags.1 {
        ((b * w1.weight + round) as i64 >> (shift as i64)) + w1.offset
    } else if flags.0 && flags.1 {
        ((a * w0.weight + b * w1.weight + round) as i64 >> ((shift + 1) as i64)) + ((w0.offset + w1.offset + 1) as i64
            >> 1i64)
    } else {
        0
    };
    clip_to_depth(value, bit_depth as nat) as i32
}

fn wide_product(a: i32, b: i32) -> (r: i64)
    ensures
        r == a * b,
        -0x4000_0000_0000_0000 <= r <= 0x4000_0000_0000_0000,
{
    assert(-0x4000_0000_0000_0000 <= a * b <= 0x4000_0000_0000_0000) by (nonlinear_arith)
        requires -0x8000_0000 <= a <= 0x7fff_ffff, -0x8000_0000 <= b <= 0x7fff_ffff;
    a as i64 * b as i64
}

fn shifted_weighted(product: i64, round: i64, shift: u32) -> (r: i64)
    requires
        shift < 64,
        fits_i64(product + round),
        -0x4000_0000_0000_0000 <= product <= 0x4000_0000_0000_0000,
        shift == 0 ==> round == 0,
    ensures
        r == ((product + round) as i64 >> (shift as i64)),
        -0x4000_0000_0000_0000 <= r <= 0x4000_0000_0000_0000,
{
    let total = product + round;
    let r = total >> (shift as i64);
    if shift == 0 {
        assert(total >> 0i64 == total) by (bit_vector);
    } else {
        assert(shift >= 1 ==> -0x4000_0000_0000_0000 <= total >> (shift as i64) <= 0x4000_0000_0000_0000) by (bit_vector);
    }
    r
}

/// Applies explicit weighted prediction for one pair of blocks.
pub fn weighted_prediction(l0: &[i32], l1: &[i32], flags: (bool, bool), weights: (WeightParameters, WeightParameters), bit_depth: u8) -> (r: Vec<i32>)
    requires
        l0@.len() == l1@.len(),
        bit_depth < 63,
        weight_shift(weights.0, weights.1) <= 64,
        forall|i: int| 0 <= i < l0@.len() ==> weighted_sample_defined(l0@[i], l1@[i], flags, weights.0, weights.1),
    ensures
        r@.len() == l0@.len(),
        forall|i: int| 0 <= i < r@.len() ==> r@[i] == weighted_sample(l0@[i], l1@[i], flags, weights.0, weights.1, bit_depth),
{
    let (w0, w1) = weights;
    let shift: u32 = if w0.log2_denom >= w1.log2_denom { w0.log2_denom as u32 } else { w1.log2_denom as u32 };
    let round: i64 = if shift == 0 {
        0
    } else {
        proof {
            vstd::bits::lemma_u64_pow2_no_overflow((shift - 1) as nat);
            vstd::bits::lemma_u64_shl_is_mul(1, (shift - 1) as u64);
        }
        (1u64 << (shift - 1) as u64) as i64
    };
    let mut output: Vec<i32> = Vec::new();
    let mut i: usize = 0;
    while i < l0.len()
        invariant
            l0@.len() == l1@.len(),
            bit_depth < 63,
            w0 == weights.0,
            w1 == weights.1,
            shift == weight_shift(w0, w1),
            round == weight_round(shift as int),
            forall|k: int| 0 <= k < l0@.len() ==> weighted_sample_defined(l0@[k], l1@[k], flags, w0, w1),
            i <= l0@.len(),
            output@.len() == i,
            forall|k: int| 0 <= k < i ==> output@[k] == weighted_sample(l0@[k], l1@[k], flags, w0, w1, bit_depth),
        decreases l0@.len() - i,
    {
        let a = l0[i];
        let b = l1[i];
        assert(weighted_sample_defined(l0@[i as int], l1@[i as int], flags, w0, w1));
        let value: i64 = if flags.0 && !flags.1 {
            let p = wide_product(a, w0.weight);
            shifted_weighted(p, round, shift) + w0.offset as i64
        } else if !flags.0 && flags.1 {
            let p = wide_product(b, w1.weight);
            shifted_weighted(p, round, shift) + w1.offset as i64
        } else if flags.0 && flags.1 {
            let p = wide_product(a, w0.weight);
            let q = wide_product(b, w1.weight);
            let total = p + q + round;
            let s: u32 = shift + 1;
            let scaled = total >> (s as i64);
            assert(s >= 1 ==> -0x4000_0000_0000_0000 <= total >> (s as i64) <= 0x4000_0000_0000_0000) by (bit_vector);
            let offsets = w0.offset as i64 + w1.offset as i64 + 1;
            assert(-0x1_0000_0000 <= offsets >> 1i64 <= 0x1_0000_0000) by (bit_vector)
                requires -0x1_0000_0000 <= offsets <= 0x1_0000_0000;
            scaled + (offsets >> 1i64)
        } else {
            0
        };
        let sample = clip_sample(value, bit_depth);
        output.push(sample);
        i += 1;
    }
    output
}

} // verus!

verus! {

/// The luma interpolation filters of Table 8-8, indexed by quarter-sample fraction.
pub const LUMA_FILTERS: [[i32; 8]; 4] = [
    [0, 0, 0, 64, 0, 0, 0, 0],
    [-1, 4, -10, 58, 17, -5, 1, 0],
    [-1, 4, -11, 40, 40, -11, 4, -1],
    [0, 1, -5, 17, 58, -10, 4, -1],
];

/// The chroma interpolation filters of Table 8-9, indexed by eighth-sample fraction.
pub const CHROMA_FILTERS: [[i32; 4]; 8] = [
    [0, 64, 0, 0],
    [-2, 58, 10, -2],
    [-4, 54, 16, -2],
    [-6, 46, 28, -4],
    [-4, 36, 36, -4],
    [-4, 28, 46, -6],
    [-2, 16, 54, -4],
    [-2, 10, 58, -2],
];

/// Every coefficient of `taps` has magnitude at most 64.
pub open spec fn taps_bounded(taps: Seq<i32>) -> bool {
    forall|k: int| 0 <= k < taps.len() ==> -64 <= #[trigger] taps[k] <= 64
}

/// `Σ taps[k] * sample(k - origin)` over the first `n` taps, reading along the
/// row through `(x, y)` or down its column, with clipped coordinates.
pub open spec fn tap_sum(plane: SamplePlane, x: int, y: int, horizontal: bool, taps: Seq<i32>, origin: int, n: int) -> int
    decreases n,
{
    if n <= 0 {
        0
    } else {
        let k = n - 1;
        let sample = if horizontal {
            plane.clipped_at(x + k - origin, y)
        } else {
            plane.clipped_at(x, y + k - origin)
        };
        tap_sum(plane, x, y, horizontal, taps, origin, n - 1) + taps[k] * sample
    }
}

/// The one-dimensional filtered value `(Σ taps[k] * sample) >> 6`.
pub open spec fn filtered(plane: SamplePlane, x: int, y: int, horizontal: bool, taps: Seq<i32>, origin: int) -> int {
    (tap_sum(plane, x, y, horizontal, taps, origin, taps.len() as int) as i64 >> 6i64) as int
}

/// `Σ taps_y[k] * filtered(row y + k - origin)` over the first `n` vertical taps:
/// the separable two-dimensional sum of §8.5.3.3.3.
pub open spec fn separable_sum(plane: SamplePlane, x: int, y: int, taps_x: Seq<i32>, taps_y: Seq<i32>, origin: int, n: int) -> int
    decreases n,
{
    if n <= 0 {
        0
    } else {
        separable_sum(plane, x, y, taps_x, taps_y, origin, n - 1) + taps_y[n - 1] * filtered(
            plane,
            x,
            y + n - 1 - origin,
            true,
            taps_x,
            origin,
        )
    }
}

/// The interpolated luma sample of §8.5.3.3.3.2 before clipping.
pub open spec fn luma_interpolated(plane: SamplePlane, x: int, y: int, frac_x: u8, frac_y: u8) -> int {
    if frac_x == 0 && frac_y == 0 {
        plane.clipped_at(x, y) as int
    } else if frac_y == 0 {
        filtered(plane, x, y, true, LUMA_FILTERS@[frac_x as int]@, 3)
    } else if frac_x == 0 {
        filtered(plane, x, y, false, LUMA_FILTERS@[frac_y as int]@, 3)
    } else {
        ((separable_sum(plane, x, y, LUMA_FILTERS@[frac_x as int]@, LUMA_FILTERS@[frac_y as int]@, 3, 8) + 2048) as i64
            >> 12i64) as int
    }
}

/// The interpolated chroma sample of §8.5.3.3.3.3 before clipping.
pub open spec fn chroma_interpolated(plane: SamplePlane, x: int, y: int, frac_x: u8, frac_y: u8) -> int {
    if frac_x == 0 && frac_y == 0 {
        plane.clipped_at(x, y) as int
    } else if frac_y == 0 {
        filtered(plane, x, y, true, CHROMA_FILTERS@[frac_x as int]@, 1)
    } else if frac_x == 0 {
        filtered(plane, x, y, false, CHROMA_FILTERS@[frac_y as int]@, 1)
    } else {
        (separable_sum(plane, x, y, CHROMA_FILTERS@[frac_x as int]@, CHROMA_FILTERS@[frac_y as int]@, 1, 4) as i64
            >> 6i64) as int
    }
}

/// A coordinate `v` whose filter neighbourhood `v - origin ..= v + reach` fits `i32`.
pub open spec fn neighbourhood_fits(v: i32, origin: int, reach: int) -> bool {
    i32::MIN + origin <= v && v + reach <= i32::MAX
}

proof fn lemma_filter_tables_bounded()
    ensures
        forall|f: int| 0 <= f < 4 ==> taps_bounded(#[trigger] LUMA_FILTERS@[f]@) && LUMA_FILTERS@[f]@.len() == 8,
        forall|f: int| 0 <= f < 8 ==> taps_bounded(#[trigger] CHROMA_FILTERS@[f]@) && CHROMA_FILTERS@[f]@.len() == 4,
{
    assert forall|f: int| 0 <= f < 4 implies taps_bounded(#[trigger] LUMA_FILTERS@[f]@) && LUMA_FILTERS@[f]@.len() == 8 by {
        assert(taps_bounded(LUMA_FILTERS@[f]@));
    }
    assert forall|f: int| 0 <= f < 8 implies taps_bounded(#[trigger] CHROMA_FILTERS@[f]@) && CHROMA_FILTERS@[f]@.len() == 4 by {
        assert(taps_bounded(CHROMA_FILTERS@[f]@));
    }
}

/// Raw tap sum along a row or column.
fn tap_sum_exec(plane: &SamplePlane, x: i32, y: i32, horizontal: bool, taps: &[i32], origin: i32) -> (r: i64)
    requires
        plane.clippable(),
        taps@.len() <= 8,
        taps_bounded(taps@),
        0 <= origin <= 3,
        horizontal ==> neighbourhood_fits(x, origin as int, taps@.len() - origin - 1),
        !horizontal ==> neighbourhood_fits(y, origin as int, taps@.len() - origin - 1),
    ensures
        r == tap_sum(*plane, x as int, y as int, horizontal, taps@, origin as int, taps@.len() as int),
        -0x100_0000_0000 <= r <= 0x100_0000_0000,
{
    let mut sum: i64 = 0;
    let mut k: usize = 0;
    while k < taps.len()
        invariant
            plane.clippable(),
            taps@.len() <= 8,
            taps_bounded(taps@),
            0 <= origin <= 3,
            horizontal ==> neighbourhood_fits(x, origin as int, taps@.len() - origin - 1),
            !horizontal ==> neighbourhood_fits(y, origin as int, taps@.len() - origin - 1),
            k <= taps@.len(),
            sum == tap_sum(*plane, x as int, y as int, horizontal, taps@, origin as int, k as int),
            -0x20_0000_0000 * k <= sum <= 0x20_0000_0000 * k,
        decreases taps@.len() - k,
    {
        let offset = k as i32 - origin;
        let sample = if horizontal {
            plane.get_clipped(x + offset, y)
        } else {
            plane.get_clipped(x, y + offset)
        };
        let coefficient = taps[k];
        assert(-64 <= coefficient <= 64);
        assert(-0x20_0000_0000 <= coefficient * sample <= 0x20_0000_0000) by (nonlinear_arith)
            requires -64 <= coefficient <= 64, -0x8000_0000 <= sample <= 0x7fff_ffff;
        sum = sum + coefficient as i64 * sample as i64;
        k += 1;
    }
    sum
}

/// The one-dimensional filtered value along a row or column.
fn filtered_exec(plane: &SamplePlane, x: i32, y: i32, horizontal: bool, taps: &[i32], origin: i32) -> (r: i64)
    requires
        plane.clippable(),
        taps@.len() <= 8,
        taps_bounded(taps@),
        0 <= origin <= 3,
        horizontal ==> neighbourhood_fits(x, origin as int, taps@.len() - origin - 1),
        !horizontal ==> neighbourhood_fits(y, origin as int, taps@.len() - origin - 1),
    ensures
        r == filtered(*plane, x as int, y as int, horizontal, taps@, origin as int),
        -0x4_0000_0000 <= r <= 0x4_0000_0000,
{
    let sum = tap_sum_exec(plane, x, y, horizontal, taps, origin);
    assert(-0x4_0000_0000 <= sum >> 6i64 <= 0x4_0000_0000) by (bit_vector)
        requires -0x100_0000_0000 <= sum <= 0x100_0000_0000;
    sum >> 6i64
}

/// The separable two-dimensional sum over the rows `y - origin ..`.
fn separable_exec(plane: &SamplePlane, x: i32, y: i32, taps_x: &[i32], taps_y: &[i32], origin: i32) -> (r: i64)
    requires
        plane.clippable(),
        taps_x@.len() <= 8,
        taps_y@.len() <= 8,
        taps_bounded(taps_x@),
        taps_bounded(taps_y@),
        0 <= origin <= 3,
        neighbourhood_fits(x, origin as int, taps_x@.len() - origin - 1),
        neighbourhood_fits(y, origin as int, taps_y@.len() - origin - 1),
    ensures
        r == separable_sum(*plane, x as int, y as int, taps_x@, taps_y@, origin as int, taps_y@.len() as int),
        -0x1000_0000_0000 <= r <= 0x1000_0000_0000,
{
    let mut sum: i64 = 0;
    let mut k: usize = 0;
    while k < taps_y.len()
        invariant
            plane.clippable(),
            taps_x@.len() <= 8,
            taps_y@.len() <= 8,
            taps_bounded(taps_x@),
            taps_bounded(taps_y@),
            0 <= origin <= 3,
            neighbourhood_fits(x, origin as int, taps_x@.len() - origin - 1),
            neighbourhood_fits(y, origin as int, taps_y@.len() - origin - 1),
            k <= taps_y@.len(),
            sum == separable_sum(*plane, x as int, y as int, taps_x@, taps_y@, origin as int, k as int),
            -0x200_0000_0000 * k <= sum <= 0x200_0000_0000 * k,
        decreases taps_y@.len() - k,
    {
        let row = y + (k as i32 - origin);
        let value = filtered_exec(plane, x, row, true, taps_x, origin);
        let coefficient = taps_y[k];
        assert(-64 <= coefficient <= 64);
        assert(-0x200_0000_0000 <= coefficient * value <= 0x200_0000_0000) by (nonlinear_arith)
            requires -64 <= coefficient <= 64, -0x4_0000_0000 <= value <= 0x4_0000_0000;
        sum = sum + coefficient as i64 * value;
        k += 1;
    }
    sum
}

/// Fractional luma interpolation from Table 8-8 and the 8-tap filters in §8.5.3.3.3.2.
pub fn fractional_luma_sample(plane: &SamplePlane, x: i32, y: i32, frac_x: u8, frac_y: u8, bit_depth: u8) -> (r: i32)
    requires
        plane.clippable(),
        frac_x < 4,
        frac_y < 4,
        bit_depth < 63,
        frac_x != 0 ==> neighbourhood_fits(x, 3, 4),
        frac_y != 0 ==> neighbourhood_fits(y, 3, 4),
    ensures
        r == clip_to_depth(luma_interpolated(*plane, x as int, y as int, frac_x, frac_y), bit_depth as nat) as i32,
{
    proof {
        lemma_filter_tables_bounded();
    }
    if frac_x == 0 && frac_y == 0 {
        return clip_sample(plane.get_clipped(x, y) as i64, bit_depth);
    }
    let sample = if frac_y == 0 {
        filtered_exec(plane, x, y, true, &LUMA_FILTERS[frac_x as usize], 3)
    } else if frac_x == 0 {
        filtered_exec(plane, x, y, false, &LUMA_FILTERS[frac_y as usize], 3)
    } else {
        let sum = separable_exec(plane, x, y, &LUMA_FILTERS[frac_x as usize], &LUMA_FILTERS[frac_y as usize], 3);
        (sum + 2048) >> 12i64
    };
    clip_sample(sample, bit_depth)
}

/// Fractional chroma interpolation using the seven 4-tap filters in §8.5.3.3.3.3.
pub fn fractional_chroma_sample(plane: &SamplePlane, x: i32, y: i32, frac_x: u8, frac_y: u8, bit_depth: u8) -> (r: i32)
    requires
        plane.clippable(),
        frac_x < 8,
        frac_y < 8,
        bit_depth < 63,
        frac_x != 0 ==> neighbourhood_fits(x, 1, 2),
        frac_y != 0 ==> neighbourhood_fits(y, 1, 2),
    ensures
        r == clip_to_depth(chroma_interpolated(*plane, x as int, y as int, frac_x, frac_y), bit_depth as nat) as i32,
{
    proof {
        lemma_filter_tables_bounded();
    }
    if frac_x == 0 && frac_y == 0 {
        return clip_sample(plane.get_clipped(x, y) as i64, bit_depth);
    }
    let value = if frac_y == 0 {
        filtered_exec(plane, x, y, true, &CHROMA_FILTERS[frac_x as usize], 1)
    } else if frac_x == 0 {
        filtered_exec(plane, x, y, false, &CHROMA_FILTERS[frac_y as usize], 1)
    } else {
        let sum = separable_exec(plane, x, y, &CHROMA_FILTERS[frac_x as usize], &CHROMA_FILTERS[frac_y as usize], 1);
        sum >> 6i64
    };
    clip_sample(value, bit_depth)
}

} // verus!

verus! {

/// `acc` with `c` appended, unless the list is full or already holds `c`.
pub open spec fn push_new(acc: Seq<PredictionLists>, c: PredictionLists, max: int) -> Seq<PredictionLists> {
    if acc.len() >= max || acc.contains(c) {
        acc
    } else {
        acc.push(c)
    }
}

/// The distinct spatial candidates among the first `n`, at most `max` of them.
pub open spec fn spatial_candidates(spatial: Seq<PredictionLists>, max: int, n: int) -> Seq<PredictionLists>
    decreases n,
{
    if n <= 0 {
        Seq::empty()
    } else {
        push_new(spatial_candidates(spatial, max, n - 1), spatial[n - 1], max)
    }
}

/// The combined bi-predictive candidate of `left`'s L0 and `right`'s L1 motion.
pub open spec fn combined_candidate(left: PredictionLists, right: PredictionLists) -> Option<PredictionLists> {
    match (left.list0, right.list1) {
        (Some(a), Some(b)) => Some(PredictionLists { list0: Some(a), list1: Some(b) }),
        _ => None,
    }
}

/// `acc` after offering the combined candidates of `spatial[left]` with
/// `spatial[1..=m]`.
pub open spec fn combined_row(acc: Seq<PredictionLists>, spatial: Seq<PredictionLists>, left: int, max: int, m: int) -> Seq<PredictionLists>
    decreases m,
{
    if m <= 0 {
        acc
    } else {
        let prior = combined_row(acc, spatial, left, max, m - 1);
        match combined_candidate(spatial[left], spatial[m]) {
            Some(c) => push_new(prior, c, max),
            None => prior,
        }
    }
}

/// `acc` after offering the combined candidates of the first `n` left entries
/// with the right entries `1..count`.
pub open spec fn combined_rows(acc: Seq<PredictionLists>, spatial: Seq<PredictionLists>, count: int, max: int, n: int) -> Seq<PredictionLists>
    decreases n,
{
    if n <= 0 {
        acc
    } else {
        combined_row(combined_rows(acc, spatial, count, max, n - 1), spatial, n - 1, max, count - 1)
    }
}

/// The zero-motion candidate with reference index `index`.
pub open spec fn zero_candidate(index: int, list1_enabled: bool) -> PredictionLists {
    let prediction = MotionVectorPrediction { reference_index: index as usize, motion_vector: MotionVector { x: 0, y: 0 } };
    PredictionLists { list0: Some(prediction), list1: if list1_enabled { Some(prediction) } else { None } }
}

/// `acc` after offering the zero candidates with reference indices `0..n`.
pub open spec fn zero_candidates(acc: Seq<PredictionLists>, max: int, list1_enabled: bool, n: int) -> Seq<PredictionLists>
    decreases n,
{
    if n <= 0 {
        acc
    } else {
        push_new(zero_candidates(acc, max, list1_enabled, n - 1), zero_candidate(n - 1, list1_enabled), max)
    }
}

/// The merge candidate list: distinct spatial candidates, then combined
/// bi-predictive candidates when L1 is enabled, then zero candidates.
pub open spec fn merge_candidates(spatial: Seq<PredictionLists>, max: int, list1_enabled: bool) -> Seq<PredictionLists> {
    let first = spatial_candidates(spatial, max, spatial.len() as int);
    let second = if list1_enabled {
        combined_rows(first, spatial, first.len() as int, max, first.len() as int)
    } else {
        first
    };
    zero_candidates(second, max, list1_enabled, if max >= 1 { max } else { 1 })
}

proof fn lemma_push_new(acc: Seq<PredictionLists>, c: PredictionLists, max: int)
    requires
        acc.len() <= max,
        acc.no_duplicates(),
    ensures
        push_new(acc, c, max).len() <= max,
        push_new(acc, c, max).no_duplicates(),
        acc.len() <= push_new(acc, c, max).len() <= acc.len() + 1,
        forall|x: PredictionLists| acc.contains(x) ==> push_new(acc, c, max).contains(x),
        push_new(acc, c, max).len() < max ==> push_new(acc, c, max).contains(c),
{
    if !(acc.len() >= max || acc.contains(c)) {
        let r = acc.push(c);
        assert(r.last() == c);
        assert forall|x: PredictionLists| acc.contains(x) implies r.contains(x) by {
            let i = choose|i: int| 0 <= i < acc.len() && acc[i] == x;
            assert(r[i] == x);
        }
        assert forall|i: int, j: int| 0 <= i < r.len() && 0 <= j < r.len() && i != j implies r[i] != r[j] by {
            if i < acc.len() && j < acc.len() {
            } else if i == acc.len() {
                assert(r[j] == acc[j]);
            } else {
                assert(r[i] == acc[i]);
            }
        }
    }
}

proof fn lemma_zero_fill(acc: Seq<PredictionLists>, max: int, list1_enabled: bool, n: int)
    requires
        acc.len() <= max,
        acc.no_duplicates(),
        n >= 0,
    ensures
        zero_candidates(acc, max, list1_enabled, n).len() <= max,
        zero_candidates(acc, max, list1_enabled, n).no_duplicates(),
        zero_candidates(acc, max, list1_enabled, n).len() < max ==> forall|j: int|
            0 <= j < n ==> zero_candidates(acc, max, list1_enabled, n).contains(#[trigger] zero_candidate(j, list1_enabled)),
    decreases n,
{
    if n > 0 {
        let prior = zero_candidates(acc, max, list1_enabled, n - 1);
        lemma_zero_fill(acc, max, list1_enabled, n - 1);
        lemma_push_new(prior, zero_candidate(n - 1, list1_enabled), max);
    }
}

proof fn lemma_zero_fill_full(acc: Seq<PredictionLists>, max: int, list1_enabled: bool, n: int)
    requires
        acc.len() <= max,
        acc.no_duplicates(),
        max <= n <= usize::MAX + 1,
    ensures
        zero_candidates(acc, max, list1_enabled, n).len() == max,
{
    broadcast use vstd::seq_lib::seq_to_set_is_finite;
    let r = zero_candidates(acc, max, list1_enabled, n);
    lemma_zero_fill(acc, max, list1_enabled, n);
    if r.len() < max {
        let zeros = Seq::new(n as nat, |j: int| zero_candidate(j, list1_enabled));
        assert(zeros.no_duplicates()) by {
            assert forall|i: int, j: int| 0 <= i < zeros.len() && 0 <= j < zeros.len() && i != j implies zeros[i] != zeros[j] by {
                assert(zeros[i].list0.unwrap().reference_index == i as usize);
                assert(zeros[j].list0.unwrap().reference_index == j as usize);
            }
        }
        zeros.unique_seq_to_set();
        assert(zeros.to_set().subset_of(r.to_set())) by {
            assert forall|x: PredictionLists| zeros.to_set().contains(x) implies r.to_set().contains(x) by {
                let i = choose|i: int| 0 <= i < zeros.len() && zeros[i] == x;
                assert(r.contains(zero_candidate(i, list1_enabled)));
            }
        }
        vstd::set_lib::lemma_len_subset(zeros.to_set(), r.to_set());
        r.lemma_cardinality_of_set();
    }
}

proof fn lemma_spatial_candidates(spatial: Seq<PredictionLists>, max: int, n: int)
    requires
        max >= 0,
        0 <= n <= spatial.len(),
    ensures
        spatial_candidates(spatial, max, n).len() <= max,
        spatial_candidates(spatial, max, n).len() <= n,
        spatial_candidates(spatial, max, n).no_duplicates(),
    decreases n,
{
    if n > 0 {
        lemma_spatial_candidates(spatial, max, n - 1);
        lemma_push_new(spatial_candidates(spatial, max, n - 1), spatial[n - 1], max);
    }
}

proof fn lemma_combined_row(acc: Seq<PredictionLists>, spatial: Seq<PredictionLists>, left: int, max: int, m: int)
    requires
        acc.len() <= max,
        acc.no_duplicates(),
    ensures
        combined_row(acc, spatial, left, max, m).len() <= max,
        combined_row(acc, spatial, left, max, m).no_duplicates(),
    decreases m,
{
    if m > 0 {
        lemma_combined_row(acc, spatial, left, max, m - 1);
        let prior = combined_row(acc, spatial, left, max, m - 1);
        if let Some(c) = combined_candidate(spatial[left], spatial[m]) {
            lemma_push_new(prior, c, max);
        }
    }
}

fn contains_candidate(list: &Vec<PredictionLists>, candidate: PredictionLists) -> (r: bool)
    ensures
        r == list@.contains(candidate),
{
    let mut i: usize = 0;
    while i < list.len()
        invariant
            i <= list@.len(),
            forall|k: int| 0 <= k < i ==> list@[k] != candidate,
        decreases list@.len() - i,
    {
        if list[i] == candidate {
            return true;
        }
        i += 1;
    }
    false
}

fn push_new_exec(list: &mut Vec<PredictionLists>, candidate: PredictionLists, max: usize)
    ensures
        final(list)@ == push_new(old(list)@, candidate, max as int),
{
    if list.len() < max && !contains_candidate(list, candidate) {
        list.push(candidate);
    }
}

/// Derives a merge candidate list from spatial candidates and fills it with
/// the combined/zero candidates required by §§8.5.3.2.3–8.5.3.2.5.
pub fn derive_merge_candidates(spatial: &[PredictionLists], max_candidates: usize, list1_enabled: bool) -> (r: Vec<PredictionLists>)
    ensures
        r@ == merge_candidates(spatial@, max_candidates as int, list1_enabled),
        r@.len() == max_candidates,
        r@.no_duplicates(),
{
    let max = max_candidates;
    let mut result: Vec<PredictionLists> = Vec::new();
    let mut i: usize = 0;
    while i < spatial.len()
        invariant
            i <= spatial@.len(),
            result@ == spatial_candidates(spatial@, max as int, i as int),
        decreases spatial@.len() - i,
    {
        push_new_exec(&mut result, spatial[i], max);
        i += 1;
    }
    let ghost first = result@;
    proof {
        lemma_spatial_candidates(spatial@, max as int, spatial@.len() as int);
    }
    let original_count = result.len();
    if list1_enabled {
        let mut left: usize = 0;
        while left < original_count
            invariant
                original_count == first.len(),
                original_count <= spatial@.len(),
                first.len() <= max,
                first.no_duplicates(),
                left <= original_count,
                result@ == combined_rows(first, spatial@, original_count as int, max as int, left as int),
                result@.len() <= max,
                result@.no_duplicates(),
            decreases original_count - left,
        {
            let ghost row_start = result@;
            let mut right: usize = 1;
            while right < original_count
                invariant
                    original_count <= spatial@.len(),
                    left < original_count,
                    1 <= right,
                    right <= original_count || original_count == 0,
                    row_start.len() <= max,
                    row_start.no_duplicates(),
                    result@ == combined_row(row_start, spatial@, left as int, max as int, right - 1),
                decreases original_count - right,
            {
                if let Some(list0) = spatial[left].list0 {
                    if let Some(list1) = spatial[right].list1 {
                        let candidate = PredictionLists { list0: Some(list0), list1: Some(list1) };
                        push_new_exec(&mut result, candidate, max);
                    }
                }
                right += 1;
            }
            proof {
                lemma_combined_row(row_start, spatial@, left as int, max as int, original_count - 1);
                if original_count == 1 {
                    assert(result@ == combined_row(row_start, spatial@, left as int, max as int, 0));
                }
            }
            left += 1;
        }
    }
    let ghost second = result@;
    proof {
        if !list1_enabled {
            assert(second == first);
        }
    }
    let reference_count = if max >= 1 { max } else { 1 };
    let mut zero_index: usize = 0;
    while zero_index < reference_count
        invariant
            second.len() <= max,
            second.no_duplicates(),
            zero_index <= reference_count,
            result@ == zero_candidates(second, max as int, list1_enabled, zero_index as int),
        decreases reference_count - zero_index,
    {
        let prediction = MotionVectorPrediction { reference_index: zero_index, motion_vector: MotionVector { x: 0, y: 0 } };
        let candidate = if list1_enabled {
            PredictionLists { list0: Some(prediction), list1: Some(prediction) }
        } else {
            PredictionLists { list0: Some(prediction), list1: None }
        };
        push_new_exec(&mut result, candidate, max);
        zero_index += 1;
    }
    proof {
        lemma_zero_fill(second, max as int, list1_enabled, reference_count as int);
        lemma_zero_fill_full(second, max as int, list1_enabled, reference_count as int);
    }
    result
}

} // verus!

verus! {

/// The reference component plane that `prediction` reads, when it names a
/// picture of `references` that has the component.
pub open spec fn source_plane(references: Seq<&DecodedPicture>, prediction: Option<MotionVectorPrediction>, component: usize) -> Option<SamplePlane> {
    match prediction {
        Some(p) => if p.reference_index < references.len() && component < 3 {
            references[p.reference_index as int].planes_spec()[component as int]
        } else {
            None
        },
        None => None,
    }
}

/// The motion-compensated sample `(x, y)` of the block read from `plane`
/// (§8.5.3.3.3): quarter-sample luma filtering when the component is not
/// subsampled horizontally, eighth-sample chroma filtering otherwise.
pub open spec fn predicted_at(plane: SamplePlane, block: Block, mv: MotionVector, scale_x: u32, scale_y: u32, bit_depth: u8, x: int, y: int) -> i32 {
    let x_base = block.x / scale_x + x;
    let y_base = block.y / scale_y + y;
    if scale_x == 1 {
        clip_to_depth(
            luma_interpolated(plane, x_base + (mv.x >> 2i32), y_base + (mv.y >> 2i32), (mv.x & 3i32) as u8, (mv.y & 3i32) as u8),
            bit_depth as nat,
        ) as i32
    } else {
        let mx = quotient_toward_zero(mv.x * 2, scale_x as int) as i32;
        let my = quotient_toward_zero(mv.y * 2, scale_y as int) as i32;
        clip_to_depth(
            chroma_interpolated(plane, x_base + (mx >> 3i32), y_base + (my >> 3i32), (mx & 7i32) as u8, (my & 7i32) as u8),
            bit_depth as nat,
        ) as i32
    }
}

/// The prediction of one reference list at block sample `(x, y)`, or 0 when
/// the list supplies no plane.
pub open spec fn list_sample(references: Seq<&DecodedPicture>, prediction: Option<MotionVectorPrediction>, component: usize, block: Block, scale_x: u32, scale_y: u32, bit_depth: u8, x: int, y: int) -> i32 {
    match source_plane(references, prediction, component) {
        Some(plane) => predicted_at(plane, block, prediction.unwrap().motion_vector, scale_x, scale_y, bit_depth, x, y),
        None => 0,
    }
}

/// The horizontal and vertical scale of `component` in `format`.
pub open spec fn component_scale(format: ChromaFormat, component: usize) -> (u32, u32) {
    if component == 0 {
        (1, 1)
    } else {
        crate::format::sub_factors(format)
    }
}

/// A prediction that reads a plane can do so: the plane is non-empty and
/// chroma motion scaling stays within `i32`.
pub open spec fn prediction_readable(references: Seq<&DecodedPicture>, prediction: Option<MotionVectorPrediction>, component: usize, scale_x: u32) -> bool {
    source_plane(references, prediction, component) matches Some(plane) ==> {
        &&& plane.clippable()
        &&& scale_x != 1 ==> -0x4000_0000 <= prediction.unwrap().motion_vector.x < 0x4000_0000
        &&& scale_x != 1 ==> -0x4000_0000 <= prediction.unwrap().motion_vector.y < 0x4000_0000
    }
}

fn fill_prediction(plane: &SamplePlane, block: Block, mv: MotionVector, scale_x: u32, scale_y: u32, bit_depth: u8) -> (r: Vec<i32>)
    requires
        plane.clippable(),
        1 <= scale_x <= 2,
        1 <= scale_y <= 2,
        bit_depth < 63,
        block.x + block.width <= 0x3fff_ffff,
        block.y + block.height <= 0x3fff_ffff,
        (block.width / scale_x) * (block.height / scale_y) <= usize::MAX,
        scale_x != 1 ==> -0x4000_0000 <= mv.x < 0x4000_0000 && -0x4000_0000 <= mv.y < 0x4000_0000,
    ensures
        r@.len() == (block.width / scale_x) * (block.height / scale_y),
        forall|i: int| 0 <= i < r@.len() ==> r@[i] == predicted_at(*plane, block, mv, scale_x, scale_y, bit_depth,
            i % (block.width / scale_x) as int, i / (block.width / scale_x) as int),
{
    let width = block.width / scale_x;
    let height = block.height / scale_y;
    let mut output: Vec<i32> = Vec::new();
    let mut y: u32 = 0;
    while y < height
        invariant
            plane.clippable(),
            1 <= scale_x <= 2,
            1 <= scale_y <= 2,
            bit_depth < 63,
            block.x + block.width <= 0x3fff_ffff,
            block.y + block.height <= 0x3fff_ffff,
            width == block.width / scale_x,
            height == block.height / scale_y,
            width * height <= usize::MAX,
            scale_x != 1 ==> -0x4000_0000 <= mv.x < 0x4000_0000 && -0x4000_0000 <= mv.y < 0x4000_0000,
            y <= height,
            output@.len() == y * width,
            forall|i: int| 0 <= i < output@.len() ==> output@[i] == predicted_at(*plane, block, mv, scale_x, scale_y, bit_depth,
                i % width as int, i / width as int),
        decreases height - y,
    {
        let mut x: u32 = 0;
        while x < width
            invariant
                plane.clippable(),
                1 <= scale_x <= 2,
                1 <= scale_y <= 2,
                bit_depth < 63,
                block.x + block.width <= 0x3fff_ffff,
                block.y + block.height <= 0x3fff_ffff,
                width == block.width / scale_x,
                height == block.height / scale_y,
                width * height <= usize::MAX,
                scale_x != 1 ==> -0x4000_0000 <= mv.x < 0x4000_0000 && -0x4000_0000 <= mv.y < 0x4000_0000,
                y < height,
                x <= width,
                output@.len() == y * width + x,
                forall|i: int| 0 <= i < output@.len() ==> output@[i] == predicted_at(*plane, block, mv, scale_x, scale_y, bit_depth,
                    i % width as int, i / width as int),
            decreases width - x,
        {
            assert(block.x / scale_x + x <= block.x + block.width) by (nonlinear_arith)
                requires x < width, width == block.width / scale_x, scale_x >= 1;
            assert(block.y / scale_y + y <= block.y + block.height) by (nonlinear_arith)
                requires y < height, height == block.height / scale_y, scale_y >= 1;
            let x_base = block.x / scale_x + x;
            let y_base = block.y / scale_y + y;
            let value = if scale_x == 1 {
                let mx = mv.x;
                let my = mv.y;
                assert(-0x2000_0000 <= mx >> 2i32 <= 0x2000_0000 && 0 <= mx & 3i32 <= 3) by (bit_vector);
                assert(-0x2000_0000 <= my >> 2i32 <= 0x2000_0000 && 0 <= my & 3i32 <= 3) by (bit_vector);
                let x_int = x_base as i32 + (mx >> 2i32);
                let y_int = y_base as i32 + (my >> 2i32);
                fractional_luma_sample(plane, x_int, y_int, (mx & 3i32) as u8, (my & 3i32) as u8, bit_depth)
            } else {
                let mx = chroma_component(mv.x, scale_x);
                let my = chroma_component(mv.y, scale_y);
                assert(-0x1000_0000 <= mx >> 3i32 <= 0x1000_0000 && 0 <= mx & 7i32 <= 7) by (bit_vector);
                assert(-0x1000_0000 <= my >> 3i32 <= 0x1000_0000 && 0 <= my & 7i32 <= 7) by (bit_vector);
                let x_int = x_base as i32 + (mx >> 3i32);
                let y_int = y_base as i32 + (my >> 3i32);
                fractional_chroma_sample(plane, x_int, y_int, (mx & 7i32) as u8, (my & 7i32) as u8, bit_depth)
            };
            proof {
                vstd::arithmetic::div_mod::lemma_fundamental_div_mod_converse(output@.len() as int, width as int, y as int, x as int);
            }
            output.push(value);
            x += 1;
        }
        assert(y * width + width == (y + 1) * width) by (nonlinear_arith);
        y += 1;
    }
    assert(height * width == width * height) by (nonlinear_arith);
    output
}

/// Generates an inter-predicted block from one or two reference pictures.
pub fn inter_predict(references: &[&DecodedPicture], block: Block, lists: PredictionLists, format: ChromaFormat, component: usize, bit_depth: u8) -> (r: Vec<i32>)
    requires
        forall|i: int| 0 <= i < references@.len() ==> (#[trigger] references@[i]).wf(),
        bit_depth < 63,
        block.x + block.width <= 0x3fff_ffff,
        block.y + block.height <= 0x3fff_ffff,
        (block.width / component_scale(format, component).0) * (block.height / component_scale(format, component).1)
            <= usize::MAX,
        prediction_readable(references@, lists.list0, component, component_scale(format, component).0),
        prediction_readable(references@, lists.list1, component, component_scale(format, component).0),
    ensures
        ({
            let (scale_x, scale_y) = component_scale(format, component);
            let width = block.width / scale_x;
            let has0 = source_plane(references@, lists.list0, component) is Some;
            let has1 = source_plane(references@, lists.list1, component) is Some;
            &&& r@.len() == width * (block.height / scale_y)
            &&& forall|i: int| 0 <= i < r@.len() ==> #[trigger] r@[i] == default_weighted_sample(
                list_sample(references@, lists.list0, component, block, scale_x, scale_y, bit_depth, i % width as int, i / width as int),
                list_sample(references@, lists.list1, component, block, scale_x, scale_y, bit_depth, i % width as int, i / width as int),
                has0,
                has1,
                bit_depth,
            )
        }),
{
    let (sub_width, sub_height) = format.subsampling();
    let scale_x = if component == 0 { 1 } else { sub_width };
    let scale_y = if component == 0 { 1 } else { sub_height };
    let width = block.width / scale_x;
    let height = block.height / scale_y;
    let count = width as usize * height as usize;
    let mut l0: Vec<i32> = vec![0; count];
    let mut l1: Vec<i32> = vec![0; count];
    let mut has0 = false;
    let mut has1 = false;
    if let Some(prediction) = lists.list0 {
        if prediction.reference_index < references.len() {
            let reference = references[prediction.reference_index];
            if let Some(plane) = reference.plane(component) {
                has0 = true;
                l0 = fill_prediction(plane, block, prediction.motion_vector, scale_x, scale_y, bit_depth);
            }
        }
    }
    if let Some(prediction) = lists.list1 {
        if prediction.reference_index < references.len() {
            let reference = references[prediction.reference_index];
            if let Some(plane) = reference.plane(component) {
                has1 = true;
                l1 = fill_prediction(plane, block, prediction.motion_vector, scale_x, scale_y, bit_depth);
            }
        }
    }
    let r = default_weighted_prediction(&l0, &l1, has0, has1, bit_depth);
    proof {
        assert forall|i: int| 0 <= i < r@.len() implies #[trigger] r@[i] == default_weighted_sample(
            list_sample(references@, lists.list0, component, block, scale_x, scale_y, bit_depth, i % width as int, i / width as int),
            list_sample(references@, lists.list1, component, block, scale_x, scale_y, bit_depth, i % width as int, i / width as int),
            has0,
            has1,
            bit_depth,
        ) by {
            if !has0 {
                assert(l0@[i] == 0);
            }
            if !has1 {
                assert(l1@[i] == 0);
            }
        }
    }
    r
}

} // verus!
