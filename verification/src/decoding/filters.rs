//! In-loop filters: deblocking (§8.7.2) and sample adaptive offset (§8.7.3).
use vstd::prelude::*;
use super::{clip_sample, clip_to_depth};
use super::intra::{samples_bounded, trunc_div, wide_samples_bounded};
use super::picture::{clamp_coord, lemma_index_in_plane, lemma_index_injective, SamplePlane};

verus! {

/// Orientation of an edge processed by the deblocking filter.
#[derive(Clone, Copy, Debug, Eq, PartialEq, Structural)]
pub enum EdgeDirection {
    /// Vertical edge, processed left-to-right.
    Vertical,
    /// Horizontal edge, processed top-to-bottom.
    Horizontal,
}

/// Inputs to the luma/chroma edge filtering processes in §8.7.2.5.
#[derive(Clone, Copy, Debug, Eq, PartialEq)]
pub struct DeblockingParameters {
    /// Boundary strength (0, 1 or 2).
    pub boundary_strength: u8,
    /// Bit depth of the plane.
    pub bit_depth: u8,
    /// Slice beta offset in half-QP units.
    pub beta_offset_div2: i32,
    /// Slice tc offset in half-QP units.
    pub tc_offset_div2: i32,
    /// Whether strong filtering is permitted for the edge.
    pub strong_filtering: bool,
}

/// The sample at `(x, y)` of a `w`x`h` plane with the coordinates clipped to it.
pub open spec fn read_clipped(data: Seq<i32>, w: int, h: int, x: int, y: int) -> i32 {
    data[clamp_coord(y, h - 1) * w + clamp_coord(x, w - 1)]
}

/// `data` with `(x, y)` set to `v` when it lies inside the `w`x`h` plane.
pub open spec fn write_inside(data: Seq<i32>, w: int, h: int, x: int, y: int, v: i32) -> Seq<i32> {
    if 0 <= x < w && 0 <= y < h {
        data.update(y * w + x, v)
    } else {
        data
    }
}

/// `|v|`.
pub open spec fn abs_int(v: int) -> int {
    if v < 0 {
        -v
    } else {
        v
    }
}

/// `Clip3(lo, hi, v)`.
pub open spec fn clip3(lo: int, hi: int, v: int) -> int {
    if v < lo {
        lo
    } else if v > hi {
        hi
    } else {
        v
    }
}

/// `1 << (bitDepth - 8)`, the scale of `beta` and `tC`.
pub open spec fn depth_scale(bit_depth: u8) -> int {
    if bit_depth <= 8 {
        1
    } else {
        vstd::arithmetic::power2::pow2((bit_depth - 8) as nat) as int
    }
}

/// `beta` of the edge.
pub open spec fn beta_of(p: DeblockingParameters) -> int {
    let b = 13 + 2 * p.beta_offset_div2;
    (if b < 0 { 0 } else { b }) * depth_scale(p.bit_depth)
}

/// `tC` of the edge.
pub open spec fn tc_of(p: DeblockingParameters) -> int {
    let t = p.boundary_strength + 1 + p.tc_offset_div2;
    (if t < 1 { 1 } else { t }) * depth_scale(p.bit_depth)
}

/// `beta` and `tC` of an edge at bit depth `BitDepth >= 8` are their 8-bit
/// values times `2^(BitDepth - 8)` (8-295, 8-296); at 8 bits they are
/// `max(0, 13 + 2 * beta_offset_div2)` and `max(1, bS + 1 + tc_offset_div2)`.
pub proof fn lemma_thresholds_scale_with_bit_depth(p: DeblockingParameters)
    requires
        p.bit_depth >= 8,
    ensures
        ({
            let p8 = DeblockingParameters { bit_depth: 8, ..p };
            let b = 13 + 2 * p.beta_offset_div2;
            let t = p.boundary_strength + 1 + p.tc_offset_div2;
            &&& beta_of(p8) == (if b < 0 { 0 } else { b })
            &&& tc_of(p8) == (if t < 1 { 1 } else { t })
            &&& beta_of(p) == beta_of(p8) * vstd::arithmetic::power2::pow2((p.bit_depth - 8) as nat)
            &&& tc_of(p) == tc_of(p8) * vstd::arithmetic::power2::pow2((p.bit_depth - 8) as nat)
        }),
{
    vstd::arithmetic::power2::lemma2_to64();
}

/// One line of the edge filter at `(px, py)`, across direction `(dx, dy)`.
pub open spec fn filter_line(data: Seq<i32>, w: int, h: int, px: int, py: int, dx: int, dy: int, p: DeblockingParameters) -> Seq<i32> {
    let p0 = read_clipped(data, w, h, px - dx, py - dy) as int;
    let q0 = read_clipped(data, w, h, px, py) as int;
    let p1 = read_clipped(data, w, h, px - 2 * dx, py - 2 * dy) as int;
    let q1 = read_clipped(data, w, h, px + dx, py + dy) as int;
    let p2 = read_clipped(data, w, h, px - 3 * dx, py - 3 * dy) as int;
    let q2 = read_clipped(data, w, h, px + 2 * dx, py + 2 * dy) as int;
    let beta = beta_of(p);
    let tc = tc_of(p);
    let dpq = abs_int(p2 - 2 * p1 + p0) + abs_int(q2 - 2 * q1 + q0);
    let bd = p.bit_depth as nat;
    if p.strong_filtering && p.boundary_strength == 2 && dpq < beta / 4 && abs_int(p0 - q0) < (5 * tc + 1) / 2 {
        let p0n = clip_to_depth(clip3(p0 - 2 * tc, p0 + 2 * tc, trunc_div(p2 + 2 * p1 + 2 * p0 + 2 * q0 + q1 + 4, 8)), bd);
        let q0n = clip_to_depth(clip3(q0 - 2 * tc, q0 + 2 * tc, trunc_div(p1 + 2 * p0 + 2 * q0 + 2 * q1 + q2 + 4, 8)), bd);
        write_inside(write_inside(data, w, h, px - dx, py - dy, p0n as i32), w, h, px, py, q0n as i32)
    } else if dpq < beta {
        let delta = clip3(-tc, tc, ((9 * (q0 - p0) - 3 * (q1 - p1) + 8) as i32 >> 4i32) as int);
        write_inside(
            write_inside(data, w, h, px - dx, py - dy, clip_to_depth(p0 + delta, bd) as i32),
            w,
            h,
            px,
            py,
            clip_to_depth(q0 - delta, bd) as i32,
        )
    } else {
        data
    }
}

/// `(v >> 4)` of a non-negative `i32` below `2^30` is `v / 16`.
proof fn lemma_shr4(v: i32)
    requires
        0 <= v <= 0x4000_0000,
    ensures
        (v >> 4i32) as int == v as int / 16,
{
    assert((v >> 4i32) * 16 + (v & 15i32) == v && 0 <= (v & 15i32) <= 15) by (bit_vector)
        requires 0 <= v <= 0x4000_0000;
    vstd::arithmetic::div_mod::lemma_fundamental_div_mod_converse(v as int, 16, (v >> 4i32) as int, (v & 15i32) as int);
}

/// Deblocking never reverses a step edge: on a line whose three samples on
/// each side of the edge are flat, `pv` before the edge and `qv` after it with
/// `0 <= pv <= qv`, the two filtered edge samples stay ordered,
/// `pv <= p0' <= q0' <= qv`, and the normal (not strong) filter moves them
/// toward each other by the same amount.
pub proof fn lemma_step_edge_is_smoothed(
    data: Seq<i32>,
    w: int,
    h: int,
    px: int,
    py: int,
    dx: int,
    dy: int,
    p: DeblockingParameters,
    pv: int,
    qv: int,
)
    requires
        data.len() == w * h,
        (dx == 1 && dy == 0) || (dx == 0 && dy == 1),
        0 <= px - 3 * dx,
        0 <= py - 3 * dy,
        px + 2 * dx < w,
        py + 2 * dy < h,
        0 <= px < w,
        0 <= py < h,
        data[(py - dy) * w + px - dx] == pv,
        data[(py - 2 * dy) * w + px - 2 * dx] == pv,
        data[(py - 3 * dy) * w + px - 3 * dx] == pv,
        data[py * w + px] == qv,
        data[(py + dy) * w + px + dx] == qv,
        data[(py + 2 * dy) * w + px + 2 * dx] == qv,
        0 <= pv <= qv <= 0x10_0000,
        qv < vstd::arithmetic::power2::pow2(p.bit_depth as nat),
    ensures
        ({
            let out = filter_line(data, w, h, px, py, dx, dy, p);
            let a = out[(py - dy) * w + px - dx] as int;
            let b = out[py * w + px] as int;
            &&& out.len() == data.len()
            &&& pv <= a <= b <= qv
            &&& (!(p.strong_filtering && p.boundary_strength == 2) ==> a - pv == qv - b)
        }),
{
    assert(read_clipped(data, w, h, px - dx, py - dy) == pv);
    assert(read_clipped(data, w, h, px - 2 * dx, py - 2 * dy) == pv);
    assert(read_clipped(data, w, h, px - 3 * dx, py - 3 * dy) == pv);
    assert(read_clipped(data, w, h, px, py) == qv);
    assert(read_clipped(data, w, h, px + dx, py + dy) == qv);
    assert(read_clipped(data, w, h, px + 2 * dx, py + 2 * dy) == qv);
    let tc = tc_of(p);
    assert(depth_scale(p.bit_depth) >= 1) by {
        if p.bit_depth > 8 {
            vstd::arithmetic::power2::lemma_pow2_pos((p.bit_depth - 8) as nat);
        }
    }
    assert(tc >= 1) by (nonlinear_arith)
        requires tc == (if p.boundary_strength + 1 + p.tc_offset_div2 < 1 { 1 } else { p.boundary_strength + 1 + p.tc_offset_div2 }) * depth_scale(p.bit_depth),
            depth_scale(p.bit_depth) >= 1;
    let d = qv - pv;
    assert(0 <= 9 * (qv - pv) - 3 * (qv - pv) + 8 <= 0x4000_0000);
    let v = (9 * (qv - pv) - 3 * (qv - pv) + 8) as i32;
    lemma_shr4(v);
    let t = (6 * d + 8) / 16;
    assert(0 <= t && 2 * t <= d) by {
        assert(16 * t <= 6 * d + 8 < 16 * t + 16);
    }
    let dpq = abs_int(pv - 2 * pv + pv) + abs_int(qv - 2 * qv + qv);
    assert(dpq == 0);
    let a1 = trunc_div(pv + 2 * pv + 2 * pv + 2 * qv + qv + 4, 8);
    let b1 = trunc_div(pv + 2 * pv + 2 * qv + 2 * qv + qv + 4, 8);
    assert(pv <= a1 <= b1 <= qv) by {
        assert(8 * a1 <= 5 * pv + 3 * qv + 4 < 8 * a1 + 8);
        assert(8 * b1 <= 3 * pv + 5 * qv + 4 < 8 * b1 + 8);
    }
    lemma_write_inside_reads(data, w, h, px, py, dx, dy);
}

/// Writing the two edge samples of a line leaves the length, and reads
/// them back.
proof fn lemma_write_inside_reads(data: Seq<i32>, w: int, h: int, px: int, py: int, dx: int, dy: int)
    requires
        data.len() == w * h,
        (dx == 1 && dy == 0) || (dx == 0 && dy == 1),
        0 <= px - dx,
        0 <= py - dy,
        0 <= px < w,
        0 <= py < h,
    ensures
        (py - dy) * w + px - dx != py * w + px,
        0 <= (py - dy) * w + px - dx < data.len(),
        0 <= py * w + px < data.len(),
{
    assert(0 <= (py - dy) * w + px - dx < w * h) by (nonlinear_arith)
        requires 0 <= px - dx < w, 0 <= py - dy < h;
    assert(0 <= py * w + px < w * h) by (nonlinear_arith)
        requires 0 <= px < w, 0 <= py < h;
    if dy == 1 {
        assert((py - 1) * w + px == py * w + px - w) by (nonlinear_arith);
    }
}

/// The first `k` lines of an edge section filtered in order.
pub open spec fn filter_lines(data: Seq<i32>, w: int, h: int, x: int, y: int, direction: EdgeDirection, p: DeblockingParameters, k: int) -> Seq<i32>
    decreases k,
{
    if k <= 0 {
        data
    } else {
        let prev = filter_lines(data, w, h, x, y, direction, p, k - 1);
        let s = k - 1;
        match direction {
            EdgeDirection::Vertical => filter_line(prev, w, h, x, y + s, 1, 0, p),
            EdgeDirection::Horizontal => filter_line(prev, w, h, x + s, y, 0, 1, p),
        }
    }
}


/// A value in `0..2^bitDepth` for a bit depth of at most 16 is a bounded sample.
proof fn lemma_clipped_bounded(v: int, bit_depth: nat)
    requires
        bit_depth <= 16,
    ensures
        0 <= clip_to_depth(v, bit_depth) <= 0xffff,
{
    vstd::arithmetic::power2::lemma2_to64();
    if bit_depth < 16 {
        vstd::arithmetic::power2::lemma_pow2_strictly_increases(bit_depth, 16);
    }
    vstd::arithmetic::power2::lemma_pow2_pos(bit_depth);
}

fn abs_i32(v: i32) -> (r: i32)
    requires
        v > i32::MIN,
    ensures
        r == abs_int(v as int),
{
    if v < 0 {
        -v
    } else {
        v
    }
}

/// Applies one 4-sample edge section of the H.265 deblocking filter.
///
/// The caller invokes this in the normative vertical-then-horizontal order
/// and supplies the boundary strength derived from coding-unit metadata.
pub fn apply_deblocking_edge(plane: &mut SamplePlane, x: i32, y: i32, direction: EdgeDirection, parameters: DeblockingParameters)
    requires
        parameters.boundary_strength != 0 ==> {
            &&& old(plane).clippable()
            &&& samples_bounded(old(plane).data())
            &&& parameters.bit_depth <= 16
            &&& -1024 <= parameters.beta_offset_div2 <= 1024
            &&& -1024 <= parameters.tc_offset_div2 <= 1024
            &&& -0x4000_0000 <= x <= 0x4000_0000
            &&& -0x4000_0000 <= y <= 0x4000_0000
        },
    ensures
        final(plane).w() == old(plane).w(),
        final(plane).h() == old(plane).h(),
        final(plane).data() == if parameters.boundary_strength == 0 {
            old(plane).data()
        } else {
            filter_lines(old(plane).data(), old(plane).w() as int, old(plane).h() as int, x as int, y as int, direction, parameters, 4)
        },
        samples_bounded(old(plane).data()) ==> samples_bounded(final(plane).data()),
        old(plane).wf() ==> final(plane).wf(),
{
    if parameters.boundary_strength == 0 {
        return;
    }
    let shift: u32 = if parameters.bit_depth > 8 { (parameters.bit_depth - 8) as u32 } else { 0 };
    proof {
        vstd::bits::lemma_u32_pow2_no_overflow(shift as nat);
        vstd::bits::lemma_u32_shl_is_mul(1, shift);
        vstd::arithmetic::power2::lemma2_to64();
        if shift < 8 {
            vstd::arithmetic::power2::lemma_pow2_strictly_increases(shift as nat, 8);
        }
    }
    let scale = (1u32 << shift) as i32;
    assert(scale as int == depth_scale(parameters.bit_depth));
    let b = 13 + 2 * parameters.beta_offset_div2;
    let t = parameters.boundary_strength as i32 + 1 + parameters.tc_offset_div2;
    assert(scale <= 256);
    assert(0 <= (if b < 0 { 0 } else { b }) * scale <= 0x20_0000) by (nonlinear_arith)
        requires 0 <= (if b < 0 { 0 } else { b }) <= 2061, 1 <= scale <= 256;
    assert(1 <= (if t < 1 { 1 } else { t }) * scale <= 0x20_0000) by (nonlinear_arith)
        requires 1 <= (if t < 1 { 1 } else { t }) <= 1280, 1 <= scale <= 256;
    let beta = (if b < 0 { 0 } else { b }) * scale;
    let tc = (if t < 1 { 1 } else { t }) * scale;
    let w = plane.width();
    let h = plane.height();
    let ghost original = plane.data();
    let mut section: i32 = 0;
    while section < 4
        invariant
            0 <= section <= 4,
            plane.clippable(),
            plane.w() == w,
            plane.h() == h,
            w == old(plane).w(),
            h == old(plane).h(),
            original == old(plane).data(),
            samples_bounded(plane.data()),
            parameters.bit_depth <= 16,
            parameters.boundary_strength != 0,
            -0x4000_0000 <= x <= 0x4000_0000,
            -0x4000_0000 <= y <= 0x4000_0000,
            beta == beta_of(parameters),
            tc == tc_of(parameters),
            0 <= beta <= 0x20_0000,
            1 <= tc <= 0x20_0000,
            plane.data() == filter_lines(original, w as int, h as int, x as int, y as int, direction, parameters, section as int),
        decreases 4 - section,
    {
        match direction {
            EdgeDirection::Vertical => filter_section(plane, x, y + section, 1, 0, parameters, beta, tc),
            EdgeDirection::Horizontal => filter_section(plane, x + section, y, 0, 1, parameters, beta, tc),
        }
        section += 1;
    }
}

#[verifier::rlimit(100)]
#[verifier::spinoff_prover]
fn filter_section(plane: &mut SamplePlane, px: i32, py: i32, dx: i32, dy: i32, parameters: DeblockingParameters, beta: i32, tc: i32)
    requires
        old(plane).clippable(),
        samples_bounded(old(plane).data()),
        parameters.bit_depth <= 16,
        -0x4000_0010 <= px <= 0x4000_0010,
        -0x4000_0010 <= py <= 0x4000_0010,
        0 <= dx <= 1,
        0 <= dy <= 1,
        beta == beta_of(parameters),
        tc == tc_of(parameters),
        0 <= beta <= 0x20_0000,
        1 <= tc <= 0x20_0000,
    ensures
        final(plane).clippable(),
        final(plane).w() == old(plane).w(),
        final(plane).h() == old(plane).h(),
        samples_bounded(final(plane).data()),
        final(plane).data() == filter_line(old(plane).data(), old(plane).w() as int, old(plane).h() as int, px as int,
            py as int, dx as int, dy as int, parameters),
{
    let p0 = plane.get_clipped(px - dx, py - dy);
    let q0 = plane.get_clipped(px, py);
    let p1 = plane.get_clipped(px - 2 * dx, py - 2 * dy);
    let q1 = plane.get_clipped(px + dx, py + dy);
    let p2 = plane.get_clipped(px - 3 * dx, py - 3 * dy);
    let q2 = plane.get_clipped(px + 2 * dx, py + 2 * dy);
    proof {
        lemma_clipped_in_plane(*plane, px - dx, py - dy);
        lemma_clipped_in_plane(*plane, px as int, py as int);
        lemma_clipped_in_plane(*plane, px - 2 * dx, py - 2 * dy);
        lemma_clipped_in_plane(*plane, px + dx, py + dy);
        lemma_clipped_in_plane(*plane, px - 3 * dx, py - 3 * dy);
        lemma_clipped_in_plane(*plane, px + 2 * dx, py + 2 * dy);
    }
    let dpq = abs_i32(p2 - 2 * p1 + p0) + abs_i32(q2 - 2 * q1 + q0);
    if parameters.strong_filtering && parameters.boundary_strength == 2 && dpq < beta / 4 && abs_i32(p0 - q0) < (5 * tc
        + 1) / 2 {
        let p_avg = (p2 + 2 * p1 + 2 * p0 + 2 * q0 + q1 + 4) as i64 / 8;
        let p_lo = (p0 - 2 * tc) as i64;
        let p_hi = (p0 + 2 * tc) as i64;
        let p_val = if p_avg > p_lo { p_avg } else { p_lo };
        let p_val = if p_val < p_hi { p_val } else { p_hi };
        let q_avg = (p1 + 2 * p0 + 2 * q0 + 2 * q1 + q2 + 4) as i64 / 8;
        let q_lo = (q0 - 2 * tc) as i64;
        let q_hi = (q0 + 2 * tc) as i64;
        let q_val = if q_avg > q_lo { q_avg } else { q_lo };
        let q_val = if q_val < q_hi { q_val } else { q_hi };
        let p0n = clip_sample(p_val, parameters.bit_depth);
        let q0n = clip_sample(q_val, parameters.bit_depth);
        proof {
            lemma_clipped_bounded(p_val as int, parameters.bit_depth as nat);
            lemma_clipped_bounded(q_val as int, parameters.bit_depth as nat);
        }
        set_bounded(plane, px - dx, py - dy, p0n);
        set_bounded(plane, px, py, q0n);
    } else if dpq < beta {
        let raw = (9 * (q0 - p0) - 3 * (q1 - p1) + 8) >> 4i32;
        let delta = (if raw < -tc { -tc } else if raw > tc { tc } else { raw }) as i64;
        let p_new = clip_sample(p0 as i64 + delta, parameters.bit_depth);
        let q_new = clip_sample(q0 as i64 - delta, parameters.bit_depth);
        proof {
            lemma_clipped_bounded(p0 + delta, parameters.bit_depth as nat);
            lemma_clipped_bounded(q0 - delta, parameters.bit_depth as nat);
        }
        set_bounded(plane, px - dx, py - dy, p_new);
        set_bounded(plane, px, py, q_new);
    }
}

/// `SamplePlane::set` of a value that keeps the plane's samples bounded.
fn set_bounded(plane: &mut SamplePlane, x: i32, y: i32, value: i32)
    requires
        old(plane).clippable(),
        samples_bounded(old(plane).data()),
        0 <= value <= 0xffff,
    ensures
        final(plane).clippable(),
        final(plane).w() == old(plane).w(),
        final(plane).h() == old(plane).h(),
        samples_bounded(final(plane).data()),
        final(plane).data() == write_inside(old(plane).data(), old(plane).w() as int, old(plane).h() as int, x as int,
            y as int, value),
{
    let ghost before = plane.data();
    proof {
        let pw = old(plane).w() as int;
        let ph = old(plane).h() as int;
        if old(plane).inside(x as int, y as int) {
            assert(0 <= y * pw + x < pw * ph) by (nonlinear_arith)
                requires 0 <= x < pw, 0 <= y < ph;
        }
    }
    plane.set(x, y, value);
    proof {
        assert forall|i: int| 0 <= i < plane.data().len() implies -0x10_0000 <= #[trigger] plane.data()[i] <= 0x10_0000 by {
            if plane.data()[i] != old(plane).data()[i] {
                assert(plane.data()[i] == value);
            }
        }
    }
}

proof fn lemma_clipped_in_plane(plane: SamplePlane, x: int, y: int)
    requires
        plane.clippable(),
    ensures
        samples_bounded(plane.data()) ==> -0x10_0000 <= plane.clipped_at(x, y) <= 0x10_0000,
        wide_samples_bounded(plane.data()) ==> -0x3fff_ffff <= plane.clipped_at(x, y) <= 0x3fff_ffff,
        plane.clipped_at(x, y) == read_clipped(plane.data(), plane.w() as int, plane.h() as int, x, y),
{
    let cx = clamp_coord(x, plane.w() - 1);
    let cy = clamp_coord(y, plane.h() - 1);
    assert(0 <= cy * plane.w() + cx < plane.w() * plane.h()) by (nonlinear_arith)
        requires 0 <= cx < plane.w(), 0 <= cy < plane.h();
}


/// SAO mode from §8.7.3.2.
#[derive(Clone, Copy, Debug, Eq, PartialEq, Structural)]
pub enum SaoType {
    /// No offset.
    Off,
    /// Band offset.
    Band,
    /// Edge offset.
    Edge,
}

/// SAO parameters for one CTB and component.
#[derive(Clone, Debug, Eq, PartialEq)]
pub struct SaoBlock {
    /// SAO type.
    pub kind: SaoType,
    /// Band position for band-offset mode.
    pub band_position: u8,
    /// Edge class 0..3 for edge-offset mode.
    pub edge_class: u8,
    /// Offset table. Band mode uses entries 1..4; edge mode uses 0..4.
    pub offsets: [i32; 5],
    /// Component bit depth.
    pub bit_depth: u8,
}

/// The neighbour offsets `(hPos[0], vPos[0], hPos[1], vPos[1])` of an edge class (Table 8-13).
pub open spec fn edge_neighbours(edge_class: u8) -> (int, int, int, int) {
    let c = edge_class % 4;
    if c == 0 {
        (-1, 0, 1, 0)
    } else if c == 1 {
        (0, -1, 0, 1)
    } else if c == 2 {
        (-1, -1, 1, 1)
    } else {
        (1, -1, -1, 1)
    }
}

/// `Sign(v)`.
pub open spec fn sign(v: int) -> int {
    if v > 0 {
        1
    } else if v < 0 {
        -1
    } else {
        0
    }
}

/// The offset-table entry SAO applies to sample `(px, py)` of `input` (8-204 to 8-212).
pub open spec fn sao_offset_index(input: SamplePlane, p: SaoBlock, px: int, py: int) -> int {
    let sample = input.clipped_at(px, py);
    match p.kind {
        SaoType::Off => 0,
        SaoType::Band => {
            let shift: u32 = if p.bit_depth > 5 { (p.bit_depth - 5) as u32 } else { 0 };
            let band = ((if sample < 0 { 0 } else { sample }) as u32 >> shift) & 31u32;
            let distance = ((band + 32 - p.band_position) as u32) & 31u32;
            if 1 <= distance <= 4 {
                distance as int
            } else {
                0
            }
        },
        SaoType::Edge => {
            let (h0, v0, h1, v1) = edge_neighbours(p.edge_class);
            if !input.inside(px + h0, py + v0) || !input.inside(px + h1, py + v1) {
                0
            } else {
                let edge = 2 + sign(sample - input.clipped_at(px + h0, py + v0)) + sign(
                    sample - input.clipped_at(px + h1, py + v1),
                );
                if edge == 0 {
                    1
                } else if edge == 1 {
                    2
                } else if edge == 2 {
                    0
                } else {
                    edge
                }
            }
        },
    }
}

/// The SAO output sample at `(px, py)` inside the block: with SAO off, and
/// for band samples outside the four signalled bands, the sample keeps its
/// value; otherwise the selected offset is added and the sum clipped.
pub open spec fn sao_sample(input: SamplePlane, p: SaoBlock, px: int, py: int) -> int {
    let index = sao_offset_index(input, p, px, py);
    if p.kind is Off || (p.kind is Band && index == 0) {
        input.clipped_at(px, py) as int
    } else {
        clip_to_depth(input.clipped_at(px, py) + p.offsets@[index], p.bit_depth as nat)
    }
}


/// With neighbours `(ax, ay)` and `(bx, by)` inside the plane, the edge
/// offset applied at `(px, py)` is chosen by comparing the sample with them:
/// a local minimum takes entry 1, a sample below one neighbour and equal to
/// the other entry 2, above one and equal to the other entry 3, a local
/// maximum entry 4, and any other sample entry 0; a neighbour outside the
/// plane also selects entry 0.
pub open spec fn edge_offset_applied(input: SamplePlane, p: SaoBlock, px: int, py: int, ax: int, ay: int, bx: int, by: int) -> bool {
    let s = input.clipped_at(px, py) as int;
    let n0 = input.clipped_at(ax, ay) as int;
    let n1 = input.clipped_at(bx, by) as int;
    let out = sao_sample(input, p, px, py);
    let bd = p.bit_depth as nat;
    &&& (!input.inside(ax, ay) || !input.inside(bx, by) ==> out == clip_to_depth(s + p.offsets@[0], bd))
    &&& (input.inside(ax, ay) && input.inside(bx, by) ==> {
        &&& ((s < n0 && s > n1) || (s > n0 && s < n1) || (s == n0 && s == n1) ==> out == clip_to_depth(s + p.offsets@[0], bd))
        &&& (s < n0 && s < n1 ==> out == clip_to_depth(s + p.offsets@[1], bd))
        &&& ((s < n0 && s == n1) || (s == n0 && s < n1) ==> out == clip_to_depth(s + p.offsets@[2], bd))
        &&& ((s > n0 && s == n1) || (s == n0 && s > n1) ==> out == clip_to_depth(s + p.offsets@[3], bd))
        &&& (s > n0 && s > n1 ==> out == clip_to_depth(s + p.offsets@[4], bd))
    })
}

/// Edge-offset SAO compares each sample with the two neighbours its class
/// names in Table 8-13: left and right for class 0, above and below for
/// class 1, `(-1, -1)` and `(1, 1)` for class 2 and `(1, -1)` and `(-1, 1)`
/// for class 3 (the class taken modulo 4).
pub proof fn lemma_sao_edge_neighbours(input: SamplePlane, p: SaoBlock, px: int, py: int)
    requires
        p.kind is Edge,
    ensures
        p.edge_class % 4 == 0 ==> edge_offset_applied(input, p, px, py, px - 1, py, px + 1, py),
        p.edge_class % 4 == 1 ==> edge_offset_applied(input, p, px, py, px, py - 1, px, py + 1),
        p.edge_class % 4 == 2 ==> edge_offset_applied(input, p, px, py, px - 1, py - 1, px + 1, py + 1),
        p.edge_class % 4 == 3 ==> edge_offset_applied(input, p, px, py, px + 1, py - 1, px - 1, py + 1),
{
}

/// Band offset splits the sample range into 32 equal bands, sample `s` lying
/// in band `s / 2^(BitDepth - 5)`; a sample in the `k`-th band after
/// `sao_band_position` (`k` in 1..=4, counted modulo 32) gets `offsets[k]`
/// added and clipped, and every other sample keeps its value.
pub proof fn lemma_sao_band_offsets(input: SamplePlane, p: SaoBlock, px: int, py: int)
    requires
        p.kind is Band,
        5 <= p.bit_depth <= 31,
        p.band_position <= 32,
        0 <= input.clipped_at(px, py) < vstd::arithmetic::power2::pow2(p.bit_depth as nat),
    ensures
        ({
            let s = input.clipped_at(px, py) as int;
            let band = s / vstd::arithmetic::power2::pow2((p.bit_depth - 5) as nat) as int;
            let k = (band - p.band_position) % 32;
            &&& 0 <= band < 32
            &&& sao_sample(input, p, px, py) == if 1 <= k <= 4 {
                clip_to_depth(s + p.offsets@[k], p.bit_depth as nat)
            } else {
                s
            }
        }),
{
    let s = input.clipped_at(px, py);
    let shift: u32 = (p.bit_depth - 5) as u32;
    let m = vstd::arithmetic::power2::pow2(shift as nat) as int;
    vstd::arithmetic::power2::lemma_pow2_pos(shift as nat);
    vstd::arithmetic::power2::lemma_pow2_adds(shift as nat, 5);
    vstd::arithmetic::power2::lemma2_to64();
    let su = s as u32;
    vstd::bits::lemma_u32_shr_is_div(su, shift);
    let band = s as int / m;
    assert(0 <= band < 32) by {
        vstd::arithmetic::div_mod::lemma_fundamental_div_mod(s as int, m);
        let r = s as int % m;
        assert(0 <= band && band < 32) by (nonlinear_arith)
            requires s == m * band + r, 0 <= r < m, m > 0, 0 <= s < m * 32;
    }
    let b = su >> shift;
    assert(b == band);
    assert(b & 31u32 == b) by (bit_vector)
        requires b < 32;
    let x = (b + 32 - p.band_position) as u32;
    assert(x & 31u32 == x % 32) by (bit_vector);
    assert(x as int % 32 == (band - p.band_position) % 32);
}

/// `(px, py)` lies in the block processed by SAO.
pub open spec fn in_sao_block(block_x: u32, block_y: u32, width: u32, height: u32, px: int, py: int) -> bool {
    block_x <= px < block_x + width && block_y <= py < block_y + height
}

fn sign_i32(v: i32) -> (r: i32)
    ensures
        r == sign(v as int),
{
    if v > 0 {
        1
    } else if v < 0 {
        -1
    } else {
        0
    }
}

fn sao_index(input: &SamplePlane, parameters: &SaoBlock, px: i32, py: i32, sample: i32) -> (r: usize)
    requires
        input.clippable(),
        parameters.kind is Edge ==> wide_samples_bounded(input.data()),
        sample == input.clipped_at(px as int, py as int),
        parameters.kind == SaoType::Band ==> parameters.band_position <= 32,
        parameters.bit_depth <= 31,
        0 <= px < i32::MAX,
        0 <= py < i32::MAX,
    ensures
        r == sao_offset_index(*input, *parameters, px as int, py as int),
        r < 5,
{
    match parameters.kind {
        SaoType::Off => 0,
        SaoType::Band => {
            let shift: u32 = if parameters.bit_depth > 5 { (parameters.bit_depth - 5) as u32 } else { 0 };
            let clamped = if sample < 0 { 0 } else { sample };
            let band = ((clamped as u32) >> shift) & 31u32;
            assert(band <= 31) by (bit_vector)
                requires band == ((clamped as u32) >> shift) & 31u32;
            let shifted_band = band + 32 - parameters.band_position as u32;
            let distance = shifted_band & 31u32;
            assert(distance <= 31) by (bit_vector)
                requires distance == shifted_band & 31u32;
            if 1 <= distance && distance <= 4 {
                distance as usize
            } else {
                0
            }
        },
        SaoType::Edge => {
            let edge_class = parameters.edge_class;
            let class = edge_class & 3;
            assert(edge_class & 3 == edge_class % 4) by (bit_vector);
            let (h0, v0, h1, v1): (i32, i32, i32, i32) = if class == 0 {
                (-1, 0, 1, 0)
            } else if class == 1 {
                (0, -1, 0, 1)
            } else if class == 2 {
                (-1, -1, 1, 1)
            } else {
                (1, -1, -1, 1)
            };
            if input.get(px + h0, py + v0).is_none() || input.get(px + h1, py + v1).is_none() {
                0
            } else {
                let a = input.get_clipped(px + h0, py + v0);
                let b = input.get_clipped(px + h1, py + v1);
                proof {
                    lemma_clipped_in_plane(*input, px + h0, py + v0);
                    lemma_clipped_in_plane(*input, px + h1, py + v1);
                    lemma_clipped_in_plane(*input, px as int, py as int);
                }
                let edge = 2 + sign_i32(sample - a) + sign_i32(sample - b);
                if edge == 0 {
                    1
                } else if edge == 1 {
                    2
                } else if edge == 2 {
                    0
                } else {
                    edge as usize
                }
            }
        },
    }
}

/// Applies SAO to a rectangular CTB, returning a separate output plane as in
/// the copy-before-modification rule of §8.7.3.1.
pub fn apply_sao_ctb(input: &SamplePlane, block_x: u32, block_y: u32, width: u32, height: u32, parameters: &SaoBlock) -> (r: SamplePlane)
    requires
        input.clippable(),
        parameters.kind is Edge ==> wide_samples_bounded(input.data()),
        parameters.bit_depth <= 31,
        parameters.kind == SaoType::Band ==> parameters.band_position <= 32,
        block_x + width < i32::MAX,
        block_y + height < i32::MAX,
    ensures
        r.w() == input.w(),
        r.h() == input.h(),
        r.wf(),
        forall|qx: int, qy: int| #![trigger r.index_of(qx, qy)] input.inside(qx, qy) ==> r.data()[r.index_of(qx, qy)]
            == if in_sao_block(block_x, block_y, width, height, qx, qy) {
            sao_sample(*input, *parameters, qx, qy) as i32
        } else {
            input.data()[input.index_of(qx, qy)]
        },
{
    let mut output = input.duplicate();
    let mut y: u32 = 0;
    while y < height
        invariant
            input.clippable(),
            parameters.kind is Edge ==> wide_samples_bounded(input.data()),
            parameters.bit_depth <= 31,
            parameters.kind == SaoType::Band ==> parameters.band_position <= 32,
            block_x + width < i32::MAX,
            block_y + height < i32::MAX,
            y <= height,
            output.w() == input.w(),
            output.h() == input.h(),
            output.wf(),
            forall|qx: int, qy: int| #![trigger output.index_of(qx, qy)] input.inside(qx, qy) ==> output.data()[output.index_of(qx, qy)]
                == if in_sao_block(block_x, block_y, width, height, qx, qy) && qy < block_y + y {
                sao_sample(*input, *parameters, qx, qy) as i32
            } else {
                input.data()[input.index_of(qx, qy)]
            },
        decreases height - y,
    {
        let mut x: u32 = 0;
        while x < width
            invariant
                input.clippable(),
                parameters.kind is Edge ==> wide_samples_bounded(input.data()),
                parameters.bit_depth <= 31,
                parameters.kind == SaoType::Band ==> parameters.band_position <= 32,
                block_x + width < i32::MAX,
                block_y + height < i32::MAX,
                y < height,
                x <= width,
                output.w() == input.w(),
                output.h() == input.h(),
                output.wf(),
                forall|qx: int, qy: int| #![trigger output.index_of(qx, qy)] input.inside(qx, qy) ==> output.data()[output.index_of(qx, qy)]
                    == if in_sao_block(block_x, block_y, width, height, qx, qy) && (qy < block_y + y || (qy == block_y + y
                    && qx < block_x + x)) {
                    sao_sample(*input, *parameters, qx, qy) as i32
                } else {
                    input.data()[input.index_of(qx, qy)]
                },
            decreases width - x,
        {
            let px = block_x as i32 + x as i32;
            let py = block_y as i32 + y as i32;
            let sample = input.get_clipped(px, py);
            proof {
                lemma_clipped_in_plane(*input, px as int, py as int);
            }
            let index = sao_index(input, parameters, px, py, sample);
            let unchanged = match parameters.kind {
                SaoType::Off => true,
                SaoType::Band => index == 0,
                SaoType::Edge => false,
            };
            let value = if unchanged {
                sample
            } else {
                clip_sample(sample as i64 + parameters.offsets[index] as i64, parameters.bit_depth)
            };
            let ghost pre = output;
            proof {
                if pre.inside(px as int, py as int) {
                    lemma_index_in_plane(pre.w() as int, pre.h() as int, px as int, py as int);
                }
            }
            output.set(px, py, value);
            proof {
                if !pre.inside(px as int, py as int) {
                    assert(output.data() == pre.data());
                }
            }
            proof {
                assert forall|qx: int, qy: int| #![trigger output.index_of(qx, qy)] input.inside(qx, qy) implies output.data()[output.index_of(qx, qy)]
                    == if in_sao_block(block_x, block_y, width, height, qx, qy) && (qy < block_y + y || (qy == block_y + y
                    && qx < block_x + x + 1)) {
                    sao_sample(*input, *parameters, qx, qy) as i32
                } else {
                    input.data()[input.index_of(qx, qy)]
                } by {
                    lemma_index_in_plane(pre.w() as int, pre.h() as int, qx, qy);
                    assert(pre.data()[pre.index_of(qx, qy)] == if in_sao_block(block_x, block_y, width, height, qx, qy) && (qy
                        < block_y + y || (qy == block_y + y && qx < block_x + x)) {
                        sao_sample(*input, *parameters, qx, qy) as i32
                    } else {
                        input.data()[input.index_of(qx, qy)]
                    });
                    if qx == px as int && qy == py as int {
                        assert(output.data()[output.index_of(qx, qy)] == value);
                    } else if pre.inside(px as int, py as int) {
                        lemma_index_injective(pre.w() as int, pre.h() as int, qx, qy, px as int, py as int);
                        assert(output.index_of(qx, qy) == pre.index_of(qx, qy));
                        assert(output.data()[output.index_of(qx, qy)] == pre.data()[pre.index_of(qx, qy)]);
                    }
                }
            }
            x += 1;
        }
        y += 1;
    }
    output
}

} // verus!
