//! Intra prediction (§8.4.4.2).
use vstd::prelude::*;
use super::{clip_sample, clip_to_depth};
use super::picture::SamplePlane;
use crate::geometry::Block;

verus! {

/// Intra prediction modes from Table 8-1.
#[derive(Clone, Copy, Debug, Eq, PartialEq, Structural)]
pub enum IntraPredictionMode {
    /// `INTRA_PLANAR` (mode 0).
    Planar,
    /// `INTRA_DC` (mode 1).
    Dc,
    /// Angular mode 2..34.
    Angular(u8),
}

/// The typed mode of syntax mode number `mode`.
pub open spec fn mode_of_number(mode: u8) -> Option<IntraPredictionMode> {
    if mode == 0 {
        Some(IntraPredictionMode::Planar)
    } else if mode == 1 {
        Some(IntraPredictionMode::Dc)
    } else if mode <= 34 {
        Some(IntraPredictionMode::Angular(mode))
    } else {
        None
    }
}

/// The syntax mode number of `mode`.
pub open spec fn number_of_mode(mode: IntraPredictionMode) -> u8 {
    match mode {
        IntraPredictionMode::Planar => 0,
        IntraPredictionMode::Dc => 1,
        IntraPredictionMode::Angular(m) => m,
    }
}

impl IntraPredictionMode {
    /// Converts the syntax mode number to the typed representation.
    pub fn from_number(mode: u8) -> (r: Option<Self>)
        ensures
            r == mode_of_number(mode),
    {
        match mode {
            0 => Some(Self::Planar),
            1 => Some(Self::Dc),
            2..=34 => Some(Self::Angular(mode)),
            _ => None,
        }
    }

    /// Returns the syntax mode number.
    pub fn number(self) -> (r: u8)
        ensures
            r == number_of_mode(self),
    {
        match self {
            Self::Planar => 0,
            Self::Dc => 1,
            Self::Angular(mode) => mode,
        }
    }
}

/// Every mode number of Table 8-1 converts to a typed mode and back to itself.
pub proof fn lemma_mode_number_round_trip(mode: u8)
    requires
        mode <= 34,
    ensures
        mode_of_number(mode) matches Some(m) && number_of_mode(m) == mode,
{
}

/// Reference samples surrounding one intra transform block.
#[derive(Clone, Debug, Eq, PartialEq)]
pub struct IntraReferences {
    /// The top-left neighbouring sample.
    pub top_left: i32,
    /// Top reference samples, left-to-right, with length at least `2 * size + 1`.
    pub top: Vec<i32>,
    /// Left reference samples, top-to-bottom, with length at least `2 * size + 1`.
    pub left: Vec<i32>,
}

impl IntraReferences {
    /// Derives substituted reference samples using the nearest available
    /// sample, as specified by §8.4.4.2.2.
    pub fn from_plane(plane: &SamplePlane, block: Block) -> (r: Self)
        requires
            plane.clippable(),
            block.x + 2 * block.width + 1 <= i32::MAX,
            block.x + 2 * block.height + 1 <= i32::MAX,
            block.y + 2 * block.width + 1 <= i32::MAX,
            block.y + 2 * block.height + 1 <= i32::MAX,
        ensures
            ({
                let size = if block.width >= block.height { block.width as int } else { block.height as int };
                &&& r.top_left == plane.clipped_at(block.x - 1, block.y - 1)
                &&& r.top@.len() == 2 * size + 1
                &&& r.left@.len() == 2 * size + 1
                &&& forall|i: int| 0 <= i <= 2 * size ==> #[trigger] r.top@[i] == plane.clipped_at(block.x + i, block.y - 1)
                &&& forall|i: int| 0 <= i <= 2 * size ==> #[trigger] r.left@[i] == plane.clipped_at(block.x - 1, block.y + i)
            }),
    {
        let size = if block.width >= block.height { block.width } else { block.height };
        let top_left = plane.get_clipped(block.x as i32 - 1, block.y as i32 - 1);
        let mut top: Vec<i32> = Vec::new();
        let mut left: Vec<i32> = Vec::new();
        let mut index: u32 = 0;
        while index <= size * 2
            invariant
                plane.clippable(),
                block.x + 2 * size + 1 <= i32::MAX,
                block.y + 2 * size + 1 <= i32::MAX,
                index <= 2 * size + 1,
                top@.len() == index,
                left@.len() == index,
                forall|i: int| 0 <= i < index ==> #[trigger] top@[i] == plane.clipped_at(block.x + i, block.y - 1),
                forall|i: int| 0 <= i < index ==> #[trigger] left@[i] == plane.clipped_at(block.x - 1, block.y + i),
            decreases 2 * size + 1 - index,
        {
            top.push(plane.get_clipped(block.x as i32 + index as i32, block.y as i32 - 1));
            left.push(plane.get_clipped(block.x as i32 - 1, block.y as i32 + index as i32));
            index += 1;
        }
        Self { top_left, top, left }
    }

    /// Creates references from explicit top and left arrays.
    pub fn new(top_left: i32, top: Vec<i32>, left: Vec<i32>) -> (r: Self)
        ensures
            r.top_left == top_left,
            r.top@ == top@,
            r.left@ == left@,
    {
        Self { top_left, top, left }
    }
}

/// The three most probable modes of §8.4.2 for neighbouring modes `a` and `b`.
pub open spec fn mpm_candidates(neighbour_a: u8, neighbour_b: u8) -> (u8, u8, u8) {
    let a = if neighbour_a <= 34 { neighbour_a } else { 1 };
    let b = if neighbour_b <= 34 { neighbour_b } else { 1 };
    if a == b {
        if a < 2 {
            (0, 1, 26)
        } else {
            (a, (2 + (a + 29) % 32) as u8, (2 + (a - 2 + 1) % 32) as u8)
        }
    } else {
        let third: u8 = if a != 0 && b != 0 {
            0
        } else if a != 1 && b != 1 {
            1
        } else {
            26
        };
        (a, b, third)
    }
}

/// A triple in ascending order.
pub open spec fn ascending(t: (u8, u8, u8)) -> (u8, u8, u8) {
    let (x, y, z) = t;
    if x <= y && y <= z {
        (x, y, z)
    } else if x <= z && z <= y {
        (x, z, y)
    } else if y <= x && x <= z {
        (y, x, z)
    } else if y <= z && z <= x {
        (y, z, x)
    } else if z <= x && x <= y {
        (z, x, y)
    } else {
        (z, y, x)
    }
}

/// `mode` stepped past candidate `c` when it is not smaller (8-21 to 8-23).
pub open spec fn skip_candidate(mode: int, c: u8) -> int {
    if mode >= c {
        mode + 1
    } else {
        mode
    }
}

/// `IntraPredModeY` derived as in §8.4.2.
pub open spec fn luma_mode_spec(a: u8, b: u8, prev_flag: bool, mpm_idx: u8, rem: u8) -> u8 {
    let c = mpm_candidates(a, b);
    if prev_flag {
        if mpm_idx == 0 {
            c.0
        } else if mpm_idx == 1 {
            c.1
        } else {
            c.2
        }
    } else {
        let s = ascending(c);
        let m0: int = if rem <= 31 { rem as int } else { 31 };
        let m = skip_candidate(skip_candidate(skip_candidate(m0, s.0), s.1), s.2);
        (if m <= 34 { m } else { 34 }) as u8
    }
}

/// Derives `IntraPredModeY` from the two neighbouring modes and MPM syntax.
pub fn derive_luma_intra_mode(neighbour_a: u8, neighbour_b: u8, prev_flag: bool, mpm_idx: u8, rem: u8) -> (r: u8)
    ensures
        r == luma_mode_spec(neighbour_a, neighbour_b, prev_flag, mpm_idx, rem),
{
    let a = if neighbour_a <= 34 { neighbour_a } else { 1 };
    let b = if neighbour_b <= 34 { neighbour_b } else { 1 };
    let (c0, c1, c2) = if a == b {
        if a < 2 {
            (0u8, 1u8, 26u8)
        } else {
            (a, 2 + (a + 29) % 32, 2 + (a - 2 + 1) % 32)
        }
    } else {
        let third = if a != 0 && b != 0 {
            0
        } else if a != 1 && b != 1 {
            1
        } else {
            26
        };
        (a, b, third)
    };
    if prev_flag {
        let index = if mpm_idx < 2 { mpm_idx } else { 2 };
        return if index == 0 {
            c0
        } else if index == 1 {
            c1
        } else {
            c2
        };
    }
    let (mut x, mut y, mut z) = (c0, c1, c2);
    if x > y {
        let t = x;
        x = y;
        y = t;
    }
    if y > z {
        let t = y;
        y = z;
        z = t;
    }
    if x > y {
        let t = x;
        x = y;
        y = t;
    }
    assert((x, y, z) == ascending((c0, c1, c2)));
    let mut mode = if rem < 31 { rem } else { 31 };
    if mode >= x {
        mode = mode + 1;
    }
    if mode >= y {
        mode = mode + 1;
    }
    if mode >= z {
        mode = mode + 1;
    }
    if mode < 34 {
        mode
    } else {
        34
    }
}

/// Table 8-3: the 4:2:2 chroma mode of each derived mode.
pub const CHROMA_422_MAP: [u8; 35] = [
    0, 1, 2, 2, 2, 2, 3, 5, 7, 8, 10, 12, 13, 15, 17, 18, 19, 20, 21, 22, 23, 23, 24, 24, 25, 25, 26, 27, 27, 28, 28,
    29, 29, 30, 31,
];

/// `modeIdc` of Table 8-2 for `intra_chroma_pred_mode` and the luma mode.
pub open spec fn chroma_mode_index(intra_chroma_pred_mode: u8, luma_mode: u8) -> u8 {
    if intra_chroma_pred_mode == 0 {
        if luma_mode == 0 { 34 } else { 0 }
    } else if intra_chroma_pred_mode == 1 {
        if luma_mode == 26 { 34 } else { 26 }
    } else if intra_chroma_pred_mode == 2 {
        if luma_mode == 10 { 34 } else { 10 }
    } else if intra_chroma_pred_mode == 3 {
        if luma_mode == 1 { 34 } else { 1 }
    } else {
        luma_mode
    }
}

/// `IntraPredModeC` of §8.4.3, mapped through Table 8-3 for 4:2:2.
pub open spec fn chroma_mode_spec(intra_chroma_pred_mode: u8, luma_mode: u8, yuv422: bool) -> u8 {
    let idx = chroma_mode_index(intra_chroma_pred_mode, luma_mode);
    if !yuv422 {
        idx
    } else if idx <= 34 {
        CHROMA_422_MAP@[idx as int]
    } else {
        1
    }
}

/// Derives `IntraPredModeC` from the chroma syntax mode and luma mode.
pub fn derive_chroma_intra_mode(intra_chroma_pred_mode: u8, luma_mode: u8, yuv422: bool) -> (r: u8)
    ensures
        r == chroma_mode_spec(intra_chroma_pred_mode, luma_mode, yuv422),
        !yuv422 ==> r == chroma_mode_index(intra_chroma_pred_mode, luma_mode),
{
    let mode_idx = match intra_chroma_pred_mode {
        0 => if luma_mode == 0 { 34 } else { 0 },
        1 => if luma_mode == 26 { 34 } else { 26 },
        2 => if luma_mode == 10 { 34 } else { 10 },
        3 => if luma_mode == 1 { 34 } else { 1 },
        _ => luma_mode,
    };
    if !yuv422 {
        return mode_idx;
    }
    if mode_idx <= 34 {
        CHROMA_422_MAP[mode_idx as usize]
    } else {
        1
    }
}


/// Rust's signed division, which truncates toward zero.
pub open spec fn trunc_div(a: int, b: int) -> int {
    if a >= 0 {
        a / b
    } else {
        -((-a) / b)
    }
}

/// Sum of the first `k` samples of `s`.
pub open spec fn sample_sum(s: Seq<i32>, k: int) -> int
    decreases k,
{
    if k <= 0 || k > s.len() {
        0
    } else {
        sample_sum(s, k - 1) + s[k - 1]
    }
}

/// Every sample of `s` has magnitude at most `2^20`.
pub open spec fn samples_bounded(s: Seq<i32>) -> bool {
    forall|i: int| 0 <= i < s.len() ==> -0x10_0000 <= #[trigger] s[i] <= 0x10_0000
}

/// Every sample lies strictly within `±2^30`, so that two samples differ by
/// less than `2^31`.
pub open spec fn wide_samples_bounded(s: Seq<i32>) -> bool {
    forall|i: int| 0 <= i < s.len() ==> -0x3fff_ffff <= #[trigger] s[i] <= 0x3fff_ffff
}

/// The planar prediction of sample `(x, y)` (8-50 to 8-52).
pub open spec fn planar_value(refs: IntraReferences, w: int, h: int, x: int, y: int) -> int {
    let n = if w >= h { w } else { h };
    trunc_div(
        (w - 1 - x) * refs.left@[y] + (x + 1) * refs.top@[w] + (h - 1 - y) * refs.top@[x] + (y + 1) * refs.left@[h] + n,
        n * 2,
    )
}

/// The DC prediction value (8-53).
pub open spec fn dc_value(refs: IntraReferences, w: int, h: int) -> int {
    let tw = if w <= refs.top@.len() { w } else { refs.top@.len() as int };
    let lh = if h <= refs.left@.len() { h } else { refs.left@.len() as int };
    trunc_div(sample_sum(refs.top@, tw) + sample_sum(refs.left@, lh) + (w + h) / 2, w + h)
}

/// `intraPredAngle` of Table 8-4, indexed by mode.
pub const INTRA_ANGLES: [i32; 35] = [
    0, 0, 32, 26, 21, 17, 13, 9, 5, 2, 0, -2, -5, -9, -13, -17, -21, -26, -32, -26, -21, -17, -13, -9, -5, -2, 0, 2,
    5, 9, 13, 17, 21, 26, 32,
];

/// `intraPredAngle` for a mode clamped to 2..=34.
pub open spec fn angle_of(mode: u8) -> i32 {
    INTRA_ANGLES@[if mode < 2 { 2 } else if mode > 34 { 34 } else { mode as int }]
}

/// Reference sample `index`, with `fallback` before the start and the last
/// sample past the end.
pub open spec fn ref_at_spec(reference: Seq<i32>, index: int, fallback: i32) -> i32 {
    if index < 0 {
        fallback
    } else if index < reference.len() {
        reference[index]
    } else if reference.len() > 0 {
        reference.last()
    } else {
        fallback
    }
}

/// The angular prediction of sample `(x, y)` before clipping (8-54 to 8-61).
pub open spec fn angular_raw(refs: IntraReferences, mode: u8, x: int, y: int) -> int {
    let vertical = mode >= 18;
    let distance = if vertical { y + 1 } else { x + 1 };
    let delta = (distance * angle_of(mode)) as i32;
    let index = (delta >> 5i32) - 1;
    let frac = delta & 31i32;
    let source = if vertical { refs.top@ } else { refs.left@ };
    let perpendicular = if vertical { y } else { x };
    let first = ref_at_spec(source, index + perpendicular + 1, refs.top_left);
    if frac == 0 {
        first as int
    } else {
        let second = ref_at_spec(source, index + perpendicular + 2, refs.top_left);
        (((32 - frac) * first + frac * second + 16) as i32 >> 5i32) as int
    }
}

/// `(32 - f) * a + f * b + 16` divided by 32 lies between `a` and `b`, at
/// least as close to `a` when `f < 16` and to `b` when `f > 16`.
proof fn lemma_interpolation_between(a: int, b: int, f: int)
    requires
        1 <= f <= 31,
    ensures
        ({
            let q = ((32 - f) * a + f * b + 16) / 32;
            &&& (if a <= b { a <= q <= b } else { b <= q <= a })
            &&& (f < 16 ==> abs_diff(q, a) <= abs_diff(q, b))
            &&& (f > 16 ==> abs_diff(q, b) <= abs_diff(q, a))
        }),
{
    let d = b - a;
    let s = f * d;
    assert((32 - f) * a + f * b + 16 == 32 * a + s + 16) by (nonlinear_arith)
        requires s == f * (b - a);
    let t = (s + 16) / 32;
    assert(32 * t <= s + 16 < 32 * t + 32);
    assert(((32 - f) * a + f * b + 16) / 32 == a + t) by {
        vstd::arithmetic::div_mod::lemma_fundamental_div_mod_converse(32 * a + s + 16, 32, a + t, s + 16 - 32 * t);
    }
    if d >= 0 {
        assert(d <= s <= 31 * d) by (nonlinear_arith)
            requires s == f * d, 1 <= f <= 31, d >= 0;
        if f < 16 {
            assert(s <= 15 * d) by (nonlinear_arith)
                requires s == f * d, 1 <= f <= 15, d >= 0;
        }
        if f > 16 {
            assert(s >= 17 * d) by (nonlinear_arith)
                requires s == f * d, 17 <= f <= 31, d >= 0;
        }
    } else {
        assert(31 * d <= s <= d) by (nonlinear_arith)
            requires s == f * d, 1 <= f <= 31, d < 0;
        if f < 16 {
            assert(s >= 15 * d) by (nonlinear_arith)
                requires s == f * d, 1 <= f <= 15, d < 0;
        }
        if f > 16 {
            assert(s <= 17 * d) by (nonlinear_arith)
                requires s == f * d, 17 <= f <= 31, d < 0;
        }
    }
}

/// `|x - y|`.
pub open spec fn abs_diff(x: int, y: int) -> int {
    if x >= y {
        x - y
    } else {
        y - x
    }
}

/// `32 * (d >> 5) + (d & 31) == d`, so the shift and mask split `d` into
/// `d / 32` and `d % 32`.
proof fn lemma_split_fraction(d: i32)
    requires
        -0x4000_0000 <= d <= 0x4000_0000,
    ensures
        (d >> 5i32) as int == d as int / 32,
        (d & 31i32) as int == d as int % 32,
{
    assert((d >> 5i32) * 32 + (d & 31i32) == d && 0 <= (d & 31i32) <= 31) by (bit_vector)
        requires -0x4000_0000 <= d <= 0x4000_0000;
    vstd::arithmetic::div_mod::lemma_fundamental_div_mod_converse(d as int, 32, (d >> 5i32) as int, (d & 31i32) as int);
}

/// An angular sample is read at the position `P`, in 1/32 sample units along
/// its reference array, reached by stepping `intraPredAngle` per row (or
/// column) from the sample's own offset. At a whole position it is the
/// reference sample there; otherwise it lies between the two reference
/// samples around `P`, at least as close to the nearer one.
pub proof fn lemma_angular_interpolates_nearest(refs: IntraReferences, mode: u8, x: int, y: int)
    requires
        2 <= mode <= 34,
        0 <= x < 4096,
        0 <= y < 4096,
        samples_bounded(refs.top@),
        samples_bounded(refs.left@),
        -0x10_0000 <= refs.top_left <= 0x10_0000,
    ensures
        ({
            let vertical = mode >= 18;
            let source = if vertical { refs.top@ } else { refs.left@ };
            let step = if vertical { y } else { x };
            let position = (step + 1) * angle_of(mode) + 32 * step;
            let a = ref_at_spec(source, position / 32, refs.top_left) as int;
            let b = ref_at_spec(source, position / 32 + 1, refs.top_left) as int;
            let raw = angular_raw(refs, mode, x, y);
            let f = position % 32;
            &&& (f == 0 ==> raw == a)
            &&& (f != 0 ==> (if a <= b { a <= raw <= b } else { b <= raw <= a }))
            &&& (0 < f < 16 ==> abs_diff(raw, a) <= abs_diff(raw, b))
            &&& (f > 16 ==> abs_diff(raw, b) <= abs_diff(raw, a))
        }),
{
    let vertical = mode >= 18;
    let source = if vertical { refs.top@ } else { refs.left@ };
    let step = if vertical { y } else { x };
    let angle = angle_of(mode) as int;
    assert(-32 <= angle <= 32) by {
        assert(forall|i: int| 0 <= i < 35 ==> -32 <= #[trigger] INTRA_ANGLES@[i] <= 32);
    }
    let delta = (step + 1) * angle;
    assert(-0x4_0000 <= delta <= 0x4_0000) by (nonlinear_arith)
        requires delta == (step + 1) * angle, 0 <= step < 4096, -32 <= angle <= 32;
    let d = delta as i32;
    lemma_split_fraction(d);
    let position = delta + 32 * step;
    vstd::arithmetic::div_mod::lemma_fundamental_div_mod_converse(position, 32, delta / 32 + step, delta % 32);
    let a = ref_at_spec(source, position / 32, refs.top_left) as int;
    let b = ref_at_spec(source, position / 32 + 1, refs.top_left) as int;
    assert(-0x10_0000 <= a <= 0x10_0000);
    assert(-0x10_0000 <= b <= 0x10_0000);
    let f = position % 32;
    if f != 0 {
        assert(-0x200_0000 <= (32 - f) * a <= 0x200_0000) by (nonlinear_arith)
            requires 1 <= f <= 31, -0x10_0000 <= a <= 0x10_0000;
        assert(-0x200_0000 <= f * b <= 0x200_0000) by (nonlinear_arith)
            requires 1 <= f <= 31, -0x10_0000 <= b <= 0x10_0000;
        let w = ((32 - f) * a + f * b + 16) as i32;
        lemma_split_fraction(w);
        lemma_interpolation_between(a, b, f);
    }
}

/// The angle table of Table 8-5 is symmetric: mode `36 - m` has the angle of
/// mode `m`, mode `20 - m` the opposite angle, and from mode 2 to mode 18 the
/// angle falls strictly from 32 to -32.
pub proof fn lemma_angle_table_symmetry()
    ensures
        forall|m: u8| 2 <= m <= 34 ==> #[trigger] angle_of(m) == angle_of((36 - m) as u8),
        forall|m: u8| 2 <= m <= 18 ==> #[trigger] angle_of(m) == -angle_of((20 - m) as u8),
        forall|m: u8| 2 <= m < 18 ==> #[trigger] angle_of((m + 1) as u8) < angle_of(m),
        angle_of(2) == 32,
        angle_of(10) == 0,
{
    assert forall|m: u8| 2 <= m <= 34 implies #[trigger] angle_of(m) == angle_of((36 - m) as u8) by {
        assert(INTRA_ANGLES@[m as int] == INTRA_ANGLES@[36 - m]);
    }
    assert forall|m: u8| 2 <= m <= 18 implies #[trigger] angle_of(m) == -angle_of((20 - m) as u8) by {
        assert(INTRA_ANGLES@[m as int] == -INTRA_ANGLES@[20 - m]);
    }
    assert forall|m: u8| 2 <= m < 18 implies #[trigger] angle_of((m + 1) as u8) < angle_of(m) by {
        assert(INTRA_ANGLES@[m + 1] < INTRA_ANGLES@[m as int]);
    }
}

/// The sum of the first `k` samples of a run of equal samples `v` is `k * v`.
proof fn lemma_sample_sum_const(s: Seq<i32>, k: int, v: int)
    requires
        0 <= k <= s.len(),
        forall|i: int| 0 <= i < k ==> s[i] == v,
    ensures
        sample_sum(s, k) == k * v,
    decreases k,
{
    if k > 0 {
        lemma_sample_sum_const(s, k - 1, v);
        assert(s[k - 1] == v);
        assert(k * v == (k - 1) * v + v) by (nonlinear_arith);
    } else {
        assert(k * v == 0) by (nonlinear_arith)
            requires k == 0;
    }
}

/// DC prediction of a block whose references all hold the same value `v`
/// predicts `v`.
pub proof fn lemma_dc_of_flat_references(refs: IntraReferences, w: int, h: int, v: int)
    requires
        w >= 0,
        h >= 0,
        w + h > 0,
        v >= 0,
        refs.top@.len() >= w,
        refs.left@.len() >= h,
        forall|i: int| 0 <= i < w ==> refs.top@[i] == v,
        forall|i: int| 0 <= i < h ==> refs.left@[i] == v,
    ensures
        dc_value(refs, w, h) == v,
{
    lemma_sample_sum_const(refs.top@, w, v);
    lemma_sample_sum_const(refs.left@, h, v);
    assert(w * v + h * v == (w + h) * v) by (nonlinear_arith);
    vstd::arithmetic::div_mod::lemma_fundamental_div_mod_converse((w + h) * v + (w + h) / 2, w + h, v, (w + h) / 2);
}

/// Planar prediction of an `n`x`n` block whose left references all hold `l`
/// and whose top references all hold `t` is constant along each diagonal
/// `x - y`, and on the main diagonal it is the rounded mean `(l + t + 1) / 2`.
pub proof fn lemma_planar_diagonals(refs: IntraReferences, n: int, l: int, t: int, x: int, y: int)
    requires
        n > 0,
        0 <= x < n,
        0 <= y < n,
        l >= 0,
        t >= 0,
        refs.top@.len() > n,
        refs.left@.len() > n,
        forall|i: int| 0 <= i <= n ==> refs.top@[i] == t,
        forall|i: int| 0 <= i <= n ==> refs.left@[i] == l,
    ensures
        x == y ==> planar_value(refs, n, n, x, y) == (l + t + 1) / 2,
        x + 1 < n && y + 1 < n ==> planar_value(refs, n, n, x + 1, y + 1) == planar_value(refs, n, n, x, y),
{
    let num = (n - 1 - x) * l + (x + 1) * t + (n - 1 - y) * t + (y + 1) * l + n;
    assert(num == (n - x + y) * l + (n + x - y) * t + n) by (nonlinear_arith)
        requires num == (n - 1 - x) * l + (x + 1) * t + (n - 1 - y) * t + (y + 1) * l + n;
    assert(num >= 0) by (nonlinear_arith)
        requires num == (n - 1 - x) * l + (x + 1) * t + (n - 1 - y) * t + (y + 1) * l + n, 0 <= x < n, 0 <= y < n, l >= 0, t >= 0;
    if x + 1 < n && y + 1 < n {
        let num1 = (n - 1 - (x + 1)) * l + (x + 1 + 1) * t + (n - 1 - (y + 1)) * t + (y + 1 + 1) * l + n;
        assert(num1 == (n - x + y) * l + (n + x - y) * t + n) by (nonlinear_arith)
            requires num1 == (n - 1 - (x + 1)) * l + (x + 1 + 1) * t + (n - 1 - (y + 1)) * t + (y + 1 + 1) * l + n;
    }
    if x == y {
        let q = (l + t + 1) / 2;
        let r = (l + t + 1) % 2;
        assert(num == n * (l + t + 1)) by (nonlinear_arith)
            requires num == (n - x + y) * l + (n + x - y) * t + n, x == y;
        assert(n * (l + t + 1) == q * (2 * n) + r * n && 0 <= r * n < 2 * n) by (nonlinear_arith)
            requires l + t + 1 == 2 * q + r, 0 <= r < 2, n > 0;
        vstd::arithmetic::div_mod::lemma_fundamental_div_mod_converse(num, 2 * n, q, r * n);
    }
}

/// The angular prediction of `(x, y)`, with the boundary filter of the pure
/// vertical and horizontal modes (8-62, 8-63).
pub open spec fn angular_value(refs: IntraReferences, w: int, h: int, mode: u8, bit_depth: u8, x: int, y: int) -> int {
    if w == h && w < 32 && mode == 26 && x == 0 {
        clip_to_depth(refs.top@[0] + trunc_div(refs.left@[y] - refs.top_left, 2), bit_depth as nat)
    } else if w == h && w < 32 && mode == 10 && y == 0 {
        clip_to_depth(refs.left@[0] + trunc_div(refs.top@[x] - refs.top_left, 2), bit_depth as nat)
    } else {
        clip_to_depth(angular_raw(refs, mode, x, y), bit_depth as nat)
    }
}

/// The predicted sample `(x, y)` of a `w`x`h` block.
pub open spec fn predicted_sample(refs: IntraReferences, w: int, h: int, mode: IntraPredictionMode, bit_depth: u8, x: int, y: int) -> int {
    match mode {
        IntraPredictionMode::Planar => planar_value(refs, w, h, x, y),
        IntraPredictionMode::Dc => dc_value(refs, w, h),
        IntraPredictionMode::Angular(m) => angular_value(refs, w, h, m, bit_depth, x, y),
    }
}

/// The reference arrays are long enough for `mode` on a `w`x`h` block.
pub open spec fn references_suffice(refs: IntraReferences, w: int, h: int, mode: IntraPredictionMode) -> bool {
    match mode {
        IntraPredictionMode::Planar => w > 0 && h > 0 ==> refs.top@.len() > w && refs.left@.len() > h,
        IntraPredictionMode::Dc => w + h > 0,
        IntraPredictionMode::Angular(m) => w == h && w < 32 && (m == 10 || m == 26) ==> refs.top@.len() >= w
            && refs.left@.len() >= h && refs.top@.len() >= 1 && refs.left@.len() >= 1,
    }
}

/// Generates an intra prediction block according to §§8.4.4.2.4–8.4.4.2.6.
pub fn intra_predict(references: &IntraReferences, width: usize, height: usize, mode: IntraPredictionMode, bit_depth: u8) -> (r: Vec<i32>)
    requires
        width <= 32768,
        height <= 32768,
        bit_depth < 31,
        wide_samples_bounded(references.top@),
        wide_samples_bounded(references.left@),
        mode is Angular ==> width <= 4096 && height <= 4096 && -0x10_0000 <= references.top_left <= 0x10_0000
            && samples_bounded(references.top@) && samples_bounded(references.left@),
        references_suffice(*references, width as int, height as int, mode),
    ensures
        r@.len() == width * height,
        forall|i: int| 0 <= i < r@.len() ==> #[trigger] r@[i] == predicted_sample(
            *references,
            width as int,
            height as int,
            mode,
            bit_depth,
            i % width as int,
            i / width as int,
        ),
{
    match mode {
        IntraPredictionMode::Planar => planar_predict(references, width, height),
        IntraPredictionMode::Dc => dc_predict(references, width, height),
        IntraPredictionMode::Angular(m) => angular_predict(references, width, height, m, bit_depth),
    }
}

proof fn lemma_row_major(i: int, w: int, x: int, y: int)
    requires
        i == y * w + x,
        0 <= x < w,
        0 <= y,
    ensures
        i % w == x,
        i / w == y,
{
    vstd::arithmetic::div_mod::lemma_fundamental_div_mod_converse(i, w, y, x);
}

fn planar_predict(refs: &IntraReferences, width: usize, height: usize) -> (r: Vec<i32>)
    requires
        width <= 32768,
        height <= 32768,
        wide_samples_bounded(refs.top@),
        wide_samples_bounded(refs.left@),
        width > 0 && height > 0 ==> refs.top@.len() > width && refs.left@.len() > height,
    ensures
        r@.len() == width * height,
        forall|i: int| 0 <= i < r@.len() ==> #[trigger] r@[i] == planar_value(
            *refs,
            width as int,
            height as int,
            i % width as int,
            i / width as int,
        ),
{
    let mut output: Vec<i32> = Vec::new();
    let n: i64 = if width >= height { width as i64 } else { height as i64 };
    let mut y: usize = 0;
    while y < height
        invariant
            width <= 32768,
            height <= 32768,
            wide_samples_bounded(refs.top@),
            wide_samples_bounded(refs.left@),
            width > 0 && height > 0 ==> refs.top@.len() > width && refs.left@.len() > height,
            n == if width >= height { width as int } else { height as int },
            y <= height,
            output@.len() == y * width,
            forall|i: int| 0 <= i < output@.len() ==> #[trigger] output@[i] == planar_value(
                *refs,
                width as int,
                height as int,
                i % width as int,
                i / width as int,
            ),
        decreases height - y,
    {
        let mut x: usize = 0;
        while x < width
            invariant
                width <= 32768,
                height <= 32768,
                wide_samples_bounded(refs.top@),
                wide_samples_bounded(refs.left@),
                width > 0 ==> refs.top@.len() > width && refs.left@.len() > height,
                n == if width >= height { width as int } else { height as int },
                y < height,
                x <= width,
                output@.len() == y * width + x,
                forall|i: int| 0 <= i < output@.len() ==> #[trigger] output@[i] == planar_value(
                    *refs,
                    width as int,
                    height as int,
                    i % width as int,
                    i / width as int,
                ),
            decreases width - x,
        {
            let l = refs.left[y] as i64;
            let t = refs.top[width] as i64;
            let tx = refs.top[x] as i64;
            let lh = refs.left[height] as i64;
            assert(-0x4000_0000 <= l <= 0x4000_0000 && -0x4000_0000 <= t <= 0x4000_0000);
            assert(-0x4000_0000 <= tx <= 0x4000_0000 && -0x4000_0000 <= lh <= 0x4000_0000);
            let a = (width - 1 - x) as i64;
            let b = (x + 1) as i64;
            let c = (height - 1 - y) as i64;
            let d = (y + 1) as i64;
            assert(-0x2000_0000_0000 <= a * l <= 0x2000_0000_0000) by (nonlinear_arith)
                requires 0 <= a <= 32768, -0x4000_0000 <= l <= 0x4000_0000;
            assert(-0x2000_0000_0000 <= b * t <= 0x2000_0000_0000) by (nonlinear_arith)
                requires 0 <= b <= 32768, -0x4000_0000 <= t <= 0x4000_0000;
            assert(-0x2000_0000_0000 <= c * tx <= 0x2000_0000_0000) by (nonlinear_arith)
                requires 0 <= c <= 32768, -0x4000_0000 <= tx <= 0x4000_0000;
            assert(-0x2000_0000_0000 <= d * lh <= 0x2000_0000_0000) by (nonlinear_arith)
                requires 0 <= d <= 32768, -0x4000_0000 <= lh <= 0x4000_0000;
            assert(-0x4000_0000 * (a + b) <= a * l + b * t <= 0x4000_0000 * (a + b)) by (nonlinear_arith)
                requires 0 <= a, 0 <= b, -0x4000_0000 <= l <= 0x4000_0000, -0x4000_0000 <= t <= 0x4000_0000;
            assert(-0x4000_0000 * (c + d) <= c * tx + d * lh <= 0x4000_0000 * (c + d)) by (nonlinear_arith)
                requires 0 <= c, 0 <= d, -0x4000_0000 <= tx <= 0x4000_0000, -0x4000_0000 <= lh <= 0x4000_0000;
            let hor = a * l + b * t;
            let ver = c * tx + d * lh;
            let total = hor + ver + n;
            let value = total / (n * 2);
            proof {
                lemma_average_bound(total as int, n as int);
                lemma_row_major(output@.len() as int, width as int, x as int, y as int);
            }
            output.push(value as i32);
            x += 1;
        }
        assert(y * width + width == (y + 1) * width) by (nonlinear_arith);
        y += 1;
    }
    assert(height * width == width * height) by (nonlinear_arith);
    output
}

proof fn lemma_average_bound(total: int, n: int)
    requires
        n >= 1,
        -0x8000_0000 * n - n <= total <= 0x8000_0000 * n + n,
    ensures
        -0x4000_0001 <= trunc_div(total, n * 2) <= 0x4000_0001,
{
    assert(n * 2 > 0);
    assert(0x8000_0000 * n + n < (n * 2) * 0x4000_0001) by (nonlinear_arith)
        requires n >= 1;
    if total >= 0 {
        vstd::arithmetic::div_mod::lemma_multiply_divide_lt(total, n * 2, 0x4000_0001);
        vstd::arithmetic::div_mod::lemma_div_pos_is_pos(total, n * 2);
    } else {
        vstd::arithmetic::div_mod::lemma_multiply_divide_lt(-total, n * 2, 0x4000_0001);
        vstd::arithmetic::div_mod::lemma_div_pos_is_pos(-total, n * 2);
    }
}


fn dc_predict(refs: &IntraReferences, width: usize, height: usize) -> (r: Vec<i32>)
    requires
        width <= 32768,
        height <= 32768,
        width + height > 0,
        wide_samples_bounded(refs.top@),
        wide_samples_bounded(refs.left@),
    ensures
        r@.len() == width * height,
        forall|i: int| 0 <= i < r@.len() ==> #[trigger] r@[i] == dc_value(*refs, width as int, height as int),
{
    let count = width + height;
    let top_count = if width <= refs.top.len() { width } else { refs.top.len() };
    let left_count = if height <= refs.left.len() { height } else { refs.left.len() };
    let mut sum: i64 = 0;
    let mut i: usize = 0;
    while i < top_count
        invariant
            top_count <= refs.top@.len(),
            top_count <= 32768,
            wide_samples_bounded(refs.top@),
            i <= top_count,
            sum == sample_sum(refs.top@, i as int),
            -0x4000_0000 * i <= sum <= 0x4000_0000 * i,
        decreases top_count - i,
    {
        sum = sum + refs.top[i] as i64;
        i += 1;
    }
    let top_sum = sum;
    let mut sum: i64 = 0;
    let mut i: usize = 0;
    while i < left_count
        invariant
            left_count <= refs.left@.len(),
            left_count <= 32768,
            wide_samples_bounded(refs.left@),
            i <= left_count,
            sum == sample_sum(refs.left@, i as int),
            -0x4000_0000 * i <= sum <= 0x4000_0000 * i,
        decreases left_count - i,
    {
        sum = sum + refs.left[i] as i64;
        i += 1;
    }
    let total = top_sum + sum + (count / 2) as i64;
    let quotient = total / count as i64;
    proof {
        let c = count as int;
        assert(c * 0x4000_0001 > 0x4000_0000 * c + c / 2) by (nonlinear_arith)
            requires c >= 1;
        if total >= 0 {
            vstd::arithmetic::div_mod::lemma_multiply_divide_lt(total as int, c, 0x4000_0001);
            vstd::arithmetic::div_mod::lemma_div_pos_is_pos(total as int, c);
        } else {
            vstd::arithmetic::div_mod::lemma_multiply_divide_lt(-total as int, c, 0x4000_0001);
            vstd::arithmetic::div_mod::lemma_div_pos_is_pos(-total as int, c);
        }
    }
    assert(width * height <= 32768 * 32768) by (nonlinear_arith)
        requires width <= 32768, height <= 32768;
    let dc = quotient as i32;
    vec![dc; width * height]
}

proof fn lemma_angles_bounded()
    ensures
        forall|i: int| 0 <= i < 35 ==> -32 <= #[trigger] INTRA_ANGLES@[i] <= 32,
{
}

fn ref_at(reference: &Vec<i32>, index: i32, fallback: i32) -> (r: i32)
    ensures
        r == ref_at_spec(reference@, index as int, fallback),
{
    if index < 0 {
        fallback
    } else if (index as usize) < reference.len() {
        reference[index as usize]
    } else if reference.len() > 0 {
        reference[reference.len() - 1]
    } else {
        fallback
    }
}

fn angular_predict(refs: &IntraReferences, width: usize, height: usize, mode: u8, bit_depth: u8) -> (r: Vec<i32>)
    requires
        width <= 4096,
        height <= 4096,
        bit_depth < 31,
        -0x10_0000 <= refs.top_left <= 0x10_0000,
        samples_bounded(refs.top@),
        samples_bounded(refs.left@),
        width == height && width < 32 && (mode == 10 || mode == 26) ==> refs.top@.len() >= width
            && refs.left@.len() >= height && refs.top@.len() >= 1 && refs.left@.len() >= 1,
    ensures
        r@.len() == width * height,
        forall|i: int| 0 <= i < r@.len() ==> #[trigger] r@[i] == angular_value(
            *refs,
            width as int,
            height as int,
            mode,
            bit_depth,
            i % width as int,
            i / width as int,
        ),
{
    let clamped = if mode < 2 { 2 } else if mode > 34 { 34 } else { mode };
    proof {
        lemma_angles_bounded();
    }
    let angle = INTRA_ANGLES[clamped as usize];
    assert(angle == angle_of(mode));
    let vertical = mode >= 18;
    let mut output: Vec<i32> = Vec::new();
    let mut y: usize = 0;
    while y < height
        invariant
            width <= 4096,
            height <= 4096,
            bit_depth < 31,
            -0x10_0000 <= refs.top_left <= 0x10_0000,
            samples_bounded(refs.top@),
            samples_bounded(refs.left@),
            angle == angle_of(mode),
            -32 <= angle <= 32,
            vertical == (mode >= 18),
            y <= height,
            output@.len() == y * width,
            forall|i: int| 0 <= i < output@.len() ==> #[trigger] output@[i] == clip_to_depth(
                angular_raw(*refs, mode, i % width as int, i / width as int),
                bit_depth as nat,
            ),
        decreases height - y,
    {
        let mut x: usize = 0;
        while x < width
            invariant
                width <= 4096,
                height <= 4096,
                bit_depth < 31,
                -0x10_0000 <= refs.top_left <= 0x10_0000,
                samples_bounded(refs.top@),
                samples_bounded(refs.left@),
                angle == angle_of(mode),
                -32 <= angle <= 32,
                vertical == (mode >= 18),
                y < height,
                x <= width,
                output@.len() == y * width + x,
                forall|i: int| 0 <= i < output@.len() ==> #[trigger] output@[i] == clip_to_depth(
                    angular_raw(*refs, mode, i % width as int, i / width as int),
                    bit_depth as nat,
                ),
            decreases width - x,
        {
            let distance: i32 = if vertical { y as i32 + 1 } else { x as i32 + 1 };
            assert(-0x4_0000 <= distance * angle <= 0x4_0000) by (nonlinear_arith)
                requires 1 <= distance <= 4097, -32 <= angle <= 32;
            let delta = distance * angle;
            assert(-0x2000 <= (delta >> 5i32) <= 0x2000 && 0 <= (delta & 31i32) <= 31) by (bit_vector)
                requires -0x4_0000 <= delta <= 0x4_0000;
            let index = (delta >> 5i32) - 1;
            let frac = delta & 31i32;
            let source = if vertical { &refs.top } else { &refs.left };
            let perpendicular = if vertical { y as i32 } else { x as i32 };
            let first = ref_at(source, index + perpendicular + 1, refs.top_left);
            let sample = if frac == 0 {
                first
            } else {
                let second = ref_at(source, index + perpendicular + 2, refs.top_left);
                assert(-0x10_0000 <= first <= 0x10_0000);
                assert(-0x10_0000 <= second <= 0x10_0000);
                assert(-0x200_0000 <= (32 - frac) * first <= 0x200_0000) by (nonlinear_arith)
                    requires 1 <= frac <= 31, -0x10_0000 <= first <= 0x10_0000;
                assert(-0x200_0000 <= frac * second <= 0x200_0000) by (nonlinear_arith)
                    requires 1 <= frac <= 31, -0x10_0000 <= second <= 0x10_0000;
                ((32 - frac) * first + frac * second + 16) >> 5i32
            };
            proof {
                lemma_row_major(output@.len() as int, width as int, x as int, y as int);
            }
            output.push(clip_sample(sample as i64, bit_depth));
            x += 1;
        }
        assert(y * width + width == (y + 1) * width) by (nonlinear_arith);
        y += 1;
    }
    assert(height * width == width * height) by (nonlinear_arith);
    if width == height && width < 32 && (mode == 10 || mode == 26) {
        if mode == 26 {
            let mut y: usize = 0;
            while y < height
                invariant
                    width == height,
                    width < 32,
                    mode == 26,
                    bit_depth < 31,
                    -0x10_0000 <= refs.top_left <= 0x10_0000,
                    samples_bounded(refs.top@),
                    samples_bounded(refs.left@),
                    refs.top@.len() >= 1,
                    refs.left@.len() >= height,
                    y <= height,
                    output@.len() == width * height,
                    forall|i: int| 0 <= i < output@.len() ==> #[trigger] output@[i] == if i % (width as int) == 0
                        && i / (width as int) < y {
                        angular_value(*refs, width as int, height as int, mode, bit_depth, i % width as int, i / width as int)
                    } else {
                        clip_to_depth(angular_raw(*refs, mode, i % width as int, i / width as int), bit_depth as nat)
                    },
                decreases height - y,
            {
                proof {
                    lemma_row_major((y * width) as int, width as int, 0, y as int);
                    assert(y * width < width * height <= 1024) by (nonlinear_arith)
                        requires y < height, width == height, width < 32;
                }
                let t0 = refs.top[0];
                let ly = refs.left[y];
                let value = clip_sample(t0 as i64 + (ly - refs.top_left) as i64 / 2, bit_depth);
                let ghost before = output@;
                output.set(y * width, value);
                proof {
                    assert forall|i: int| 0 <= i < output@.len() implies #[trigger] output@[i] == if i % (width as int)
                        == 0 && i / (width as int) < y + 1 {
                        angular_value(*refs, width as int, height as int, mode, bit_depth, i % width as int, i / width as int)
                    } else {
                        clip_to_depth(angular_raw(*refs, mode, i % width as int, i / width as int), bit_depth as nat)
                    } by {
                        if i != y * width {
                            assert(output@[i] == before[i]);
                            if i % (width as int) == 0 && i / (width as int) == y {
                                vstd::arithmetic::div_mod::lemma_fundamental_div_mod(i, width as int);
                                assert(i == y * width) by (nonlinear_arith)
                                    requires i == (width as int) * (i / (width as int)) + i % (width as int),
                                        i / (width as int) == y, i % (width as int) == 0;
                            }
                        }
                    }
                }
                y += 1;
            }
        } else {
            proof {
                assert forall|i: int| 0 <= i < output@.len() implies #[trigger] output@[i] == if i / (width as int)
                    == 0 && i % (width as int) < 0 {
                    angular_value(*refs, width as int, height as int, mode, bit_depth, i % width as int, i / width as int)
                } else {
                    clip_to_depth(angular_raw(*refs, mode, i % width as int, i / width as int), bit_depth as nat)
                } by {
                    if width == 0 {
                        assert(width * height == 0) by (nonlinear_arith)
                            requires width == 0;
                    } else {
                        vstd::arithmetic::div_mod::lemma_mod_bound(i, width as int);
                    }
                    assert(output@[i] == clip_to_depth(angular_raw(*refs, mode, i % width as int, i / width as int), bit_depth as nat));
                }
            }
            let mut x: usize = 0;
            while x < width
                invariant
                    width == height,
                    width < 32,
                    mode == 10,
                    bit_depth < 31,
                    -0x10_0000 <= refs.top_left <= 0x10_0000,
                    samples_bounded(refs.top@),
                    samples_bounded(refs.left@),
                    refs.left@.len() >= 1,
                    refs.top@.len() >= width,
                    x <= width,
                    output@.len() == width * height,
                    forall|i: int| 0 <= i < output@.len() ==> #[trigger] output@[i] == if i / (width as int) == 0
                        && i % (width as int) < x {
                        angular_value(*refs, width as int, height as int, mode, bit_depth, i % width as int, i / width as int)
                    } else {
                        clip_to_depth(angular_raw(*refs, mode, i % width as int, i / width as int), bit_depth as nat)
                    },
                decreases width - x,
            {
                proof {
                    lemma_row_major(x as int, width as int, x as int, 0);
                    assert(x < width * height) by (nonlinear_arith)
                        requires x < width, width == height;
                }
                let l0 = refs.left[0];
                let tx = refs.top[x];
                let value = clip_sample(l0 as i64 + (tx - refs.top_left) as i64 / 2, bit_depth);
                let ghost before = output@;
                output.set(x, value);
                proof {
                    assert forall|i: int| 0 <= i < output@.len() implies #[trigger] output@[i] == if i / (width as int)
                        == 0 && i % (width as int) < x + 1 {
                        angular_value(*refs, width as int, height as int, mode, bit_depth, i % width as int, i / width as int)
                    } else {
                        clip_to_depth(angular_raw(*refs, mode, i % width as int, i / width as int), bit_depth as nat)
                    } by {
                        if i != x {
                            assert(output@[i] == before[i]);
                            if i / (width as int) == 0 && i % (width as int) == x {
                                vstd::arithmetic::div_mod::lemma_fundamental_div_mod(i, width as int);
                                assert(i == x) by (nonlinear_arith)
                                    requires i == (width as int) * (i / (width as int)) + i % (width as int),
                                        i / (width as int) == 0, i % (width as int) == x;
                            }
                        }
                    }
                }
                x += 1;
            }
        }
    }
    proof {
        assert forall|i: int| 0 <= i < output@.len() implies #[trigger] output@[i] == angular_value(
            *refs,
            width as int,
            height as int,
            mode,
            bit_depth,
            i % width as int,
            i / width as int,
        ) by {
            if width > 0 {
                vstd::arithmetic::div_mod::lemma_mod_bound(i, width as int);
                vstd::arithmetic::div_mod::lemma_div_pos_is_pos(i, width as int);
                vstd::arithmetic::div_mod::lemma_multiply_divide_lt(i, width as int, height as int);
            }
        }
    }
    output
}

} // verus!

verus! {

/// Number of the three candidates below `m`.
pub open spec fn candidates_below(c: (u8, u8, u8), m: int) -> int {
    (if c.0 < m { 1int } else { 0 }) + (if c.1 < m { 1int } else { 0 }) + (if c.2 < m { 1int } else { 0 })
}

proof fn lemma_candidates_distinct(a: u8, b: u8)
    ensures
        ({
            let c = mpm_candidates(a, b);
            &&& c.0 != c.1 && c.0 != c.2 && c.1 != c.2
            &&& c.0 <= 34 && c.1 <= 34 && c.2 <= 34
        }),
{
}

/// Law: without an MPM flag, the luma mode derived from
/// `rem_intra_luma_pred_mode = rem` is the `rem`-th (from zero) of the modes
/// `0..=34` that are none of the three most probable modes: it is no
/// candidate, and exactly `rem` non-candidate modes lie below it.
pub proof fn lemma_rem_mode_is_rem_th_non_candidate(a: u8, b: u8, rem: u8)
    requires
        rem <= 31,
    ensures
        ({
            let c = mpm_candidates(a, b);
            let m = luma_mode_spec(a, b, false, 0, rem) as int;
            &&& m != c.0 && m != c.1 && m != c.2
            &&& 0 <= m <= 34
            &&& m - candidates_below(c, m) == rem
        }),
{
    lemma_candidates_distinct(a, b);
    let c = mpm_candidates(a, b);
    let s = ascending(c);
    assert(s.0 < s.1 < s.2);
    assert(candidates_below(c, luma_mode_spec(a, b, false, 0, rem) as int) == candidates_below(s, luma_mode_spec(a, b, false, 0, rem) as int));
}

} // verus!
