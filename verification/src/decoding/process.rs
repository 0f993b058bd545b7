//! Decoder state carried between pictures and whole-plane processes (§§8.1–8.7).
use vstd::prelude::*;
use super::filters::{apply_deblocking_edge, apply_sao_ctb, filter_lines, in_sao_block, sao_sample, DeblockingParameters, EdgeDirection, SaoBlock, SaoType};
use super::intra::{intra_predict, predicted_sample, references_suffice, samples_bounded, wide_samples_bounded, IntraPredictionMode, IntraReferences};
use super::transform::{
    inverse_transform, residual_value, reconstruct_block, scale_transform_coefficients, scaled_coefficient,
    scaling_defined, scaling_shift, TransformParameters,
};
use super::transform_basis::supported_transform_size;
use super::inter::{component_scale, default_weighted_sample, inter_predict, list_sample, prediction_readable, source_plane, PredictionLists};
use super::clip_to_depth;
use crate::geometry::Block;
use super::picture::{block_source, lemma_index_in_plane, lemma_index_injective, DecodedPicture, SamplePlane};
use super::reference::{
    derive_picture_order_count, inserted, picture_order_count, picture_order_count_defined, DecodedPictureBuffer,
    PictureMarking, ReferenceSet,
};
use crate::format::PictureFormat;

verus! {

/// Mutable state carried between coded pictures by §§8.1–8.3.
#[derive(Clone, Debug)]
pub struct DecoderState {
    /// Decoded-picture buffer.
    pub dpb: DecodedPictureBuffer,
    /// Previous temporal-layer-zero POC LSB.
    pub previous_poc_lsb: u64,
    /// Previous temporal-layer-zero POC MSB.
    pub previous_poc_msb: i64,
    /// Whether a previous temporal-layer-zero picture exists.
    pub has_previous_poc: bool,
}

/// The previous `(lsb, msb)` pair the POC derivation of `state` starts from.
pub open spec fn previous_poc(state: DecoderState) -> (u64, i64) {
    if state.has_previous_poc {
        (state.previous_poc_lsb, state.previous_poc_msb)
    } else {
        (0, 0)
    }
}

impl DecoderState {
    /// Creates decoder state with a maximum DPB size.
    pub fn new(max_dec_pic_buffering: usize) -> (r: Self)
        ensures
            r.dpb.limit() == max_dec_pic_buffering,
            r.dpb.entries() == Seq::<ReferenceSet>::empty(),
            r.previous_poc_lsb == 0,
            r.previous_poc_msb == 0,
            !r.has_previous_poc,
    {
        Self { dpb: DecodedPictureBuffer::new(max_dec_pic_buffering), previous_poc_lsb: 0, previous_poc_msb: 0, has_previous_poc: false }
    }

    /// Derives and remembers the current picture's POC.
    pub fn derive_poc(&mut self, poc_lsb: u64, max_poc_lsb: u64, no_rasl_output: bool) -> (r: i64)
        requires
            picture_order_count_defined(poc_lsb, previous_poc(*old(self)).0, previous_poc(*old(self)).1, max_poc_lsb, no_rasl_output),
            no_rasl_output ==> poc_lsb != 0x8000_0000_0000_0000,
        ensures
            r == picture_order_count(poc_lsb, previous_poc(*old(self)).0, previous_poc(*old(self)).1, max_poc_lsb, no_rasl_output),
            final(self).dpb == old(self).dpb,
            final(self).previous_poc_lsb == poc_lsb,
            final(self).previous_poc_msb == r - (poc_lsb as i64),
            final(self).has_previous_poc,
    {
        let (previous_lsb, previous_msb) = if self.has_previous_poc {
            (self.previous_poc_lsb, self.previous_poc_msb)
        } else {
            (0, 0)
        };
        let poc = derive_picture_order_count(poc_lsb, previous_lsb, previous_msb, max_poc_lsb, no_rasl_output);
        proof {
            if no_rasl_output {
                assert(poc_lsb != 0x8000_0000_0000_0000u64 ==> poc_lsb as i64 != i64::MIN) by (bit_vector);
            }
        }
        self.previous_poc_lsb = poc_lsb;
        self.previous_poc_msb = poc - poc_lsb as i64;
        self.has_previous_poc = true;
        poc
    }

    /// Stores a filtered decoded picture as a short-term reference.
    pub fn store_picture(&mut self, picture: DecodedPicture, poc: i64, layer_id: u8, output_needed: bool)
        ensures
            final(self).dpb.limit() == old(self).dpb.limit(),
            final(self).dpb.entries() == inserted(
                old(self).dpb.entries(),
                old(self).dpb.limit() as int,
                ReferenceSet { picture, picture_order_count: poc, layer_id, marking: PictureMarking::ShortTerm, output_needed },
            ),
            final(self).previous_poc_lsb == old(self).previous_poc_lsb,
            final(self).previous_poc_msb == old(self).previous_poc_msb,
            final(self).has_previous_poc == old(self).has_previous_poc,
    {
        self.dpb.insert(ReferenceSet { picture, picture_order_count: poc, layer_id, marking: PictureMarking::ShortTerm, output_needed });
    }
}

} // verus!

verus! {

/// Inputs needed to reconstruct one coding block and run the in-loop filters.
#[derive(Clone, Debug)]
pub struct PictureDecodeContext {
    /// Picture format.
    pub format: PictureFormat,
    /// CTB size in luma samples.
    pub ctb_size: u32,
    /// Whether SAO is enabled for this operation.
    pub sao_enabled: bool,
}

/// `data` after one deblocking edge section at `(x, y)`.
pub open spec fn edge_step(data: Seq<i32>, w: int, h: int, x: int, y: int, direction: EdgeDirection, p: DeblockingParameters) -> Seq<i32> {
    if p.boundary_strength == 0 {
        data
    } else {
        filter_lines(data, w, h, x, y, direction, p, 4)
    }
}

/// `data` after the edges `(x, y), (x + 8, y), ...` left of `w` in one row.
pub open spec fn deblock_row(data: Seq<i32>, w: int, h: int, x: int, y: int, direction: EdgeDirection, p: DeblockingParameters) -> Seq<i32>
    decreases w + 8 - x,
{
    if x >= w || x < 0 {
        data
    } else {
        deblock_row(edge_step(data, w, h, x, y, direction, p), w, h, x + 8, y, direction, p)
    }
}

/// `data` after the rows `y, y + 8, ...` above `h`, each starting at column `x0`.
pub open spec fn deblock_rows(data: Seq<i32>, w: int, h: int, x0: int, y: int, direction: EdgeDirection, p: DeblockingParameters) -> Seq<i32>
    decreases h + 8 - y,
{
    if y >= h || y < 0 {
        data
    } else {
        deblock_rows(deblock_row(data, w, h, x0, y, direction, p), w, h, x0, y + 8, direction, p)
    }
}

/// The plane samples after deblocking every 8x8 grid edge: all vertical
/// edges first, then all horizontal edges.
pub open spec fn deblocked(data: Seq<i32>, w: int, h: int, p: DeblockingParameters) -> Seq<i32> {
    deblock_rows(deblock_rows(data, w, h, 8, 0, EdgeDirection::Vertical, p), w, h, 0, 8, EdgeDirection::Horizontal, p)
}

/// Parameters the deblocking filter accepts.
pub open spec fn deblocking_parameters_ok(p: DeblockingParameters) -> bool {
    &&& p.bit_depth <= 16
    &&& -1024 <= p.beta_offset_div2 <= 1024
    &&& -1024 <= p.tc_offset_div2 <= 1024
}

/// The SAO output of every sample of `input`: SAO applied to the CTB that
/// contains it, which reads the unfiltered input.
pub open spec fn sao_plane_sample(input: SamplePlane, p: SaoBlock, x: int, y: int) -> i32 {
    sao_sample(input, p, x, y) as i32
}

/// Parameters and samples SAO accepts.
pub open spec fn sao_input_ok(input: SamplePlane, p: SaoBlock) -> bool {
    &&& input.clippable()
    &&& (p.kind is Edge ==> wide_samples_bounded(input.data()))
    &&& p.bit_depth <= 31
    &&& p.kind == SaoType::Band ==> p.band_position <= 32
    &&& input.w() < 0x4000_0000
    &&& input.h() < 0x4000_0000
}

impl PictureDecodeContext {
    /// Creates a context for a picture.
    pub fn new(format: PictureFormat, ctb_size: u32) -> (r: Self)
        ensures
            r.format == format,
            r.ctb_size == ctb_size,
            r.sao_enabled,
    {
        Self { format, ctb_size, sao_enabled: true }
    }

    /// Applies the vertical-then-horizontal deblocking order to a plane.
    pub fn deblock_plane(&self, plane: &mut SamplePlane, parameters: DeblockingParameters)
        requires
            old(plane).clippable(),
            samples_bounded(old(plane).data()),
            old(plane).w() <= 0x4000_0000,
            old(plane).h() <= 0x4000_0000,
            deblocking_parameters_ok(parameters),
        ensures
            final(plane).w() == old(plane).w(),
            final(plane).h() == old(plane).h(),
            final(plane).data() == deblocked(old(plane).data(), old(plane).w() as int, old(plane).h() as int, parameters),
    {
        let width = plane.width();
        let height = plane.height();
        let ghost original = plane.data();
        let ghost w = width as int;
        let ghost h = height as int;
        self.deblock_pass(plane, 8, 0, EdgeDirection::Vertical, parameters);
        self.deblock_pass(plane, 0, 8, EdgeDirection::Horizontal, parameters);
    }

    fn deblock_pass(&self, plane: &mut SamplePlane, x0: u32, y0: u32, direction: EdgeDirection, parameters: DeblockingParameters)
        requires
            old(plane).clippable(),
            samples_bounded(old(plane).data()),
            old(plane).w() <= 0x4000_0000,
            old(plane).h() <= 0x4000_0000,
            x0 <= 8,
            y0 <= 8,
            deblocking_parameters_ok(parameters),
        ensures
            final(plane).w() == old(plane).w(),
            final(plane).h() == old(plane).h(),
            final(plane).clippable(),
            samples_bounded(final(plane).data()),
            final(plane).data() == deblock_rows(old(plane).data(), old(plane).w() as int, old(plane).h() as int, x0 as int, y0 as int, direction, parameters),
    {
        let width = plane.width();
        let height = plane.height();
        let mut y: u32 = y0;
        while y < height
            invariant
                plane.clippable(),
                samples_bounded(plane.data()),
                plane.w() == width,
                plane.h() == height,
                width == old(plane).w(),
                height == old(plane).h(),
                width <= 0x4000_0000,
                height <= 0x4000_0000,
                x0 <= 8,
                y <= height + 8,
                deblocking_parameters_ok(parameters),
                deblock_rows(old(plane).data(), width as int, height as int, x0 as int, y0 as int, direction, parameters)
                    == deblock_rows(plane.data(), width as int, height as int, x0 as int, y as int, direction, parameters),
            decreases height + 8 - y,
        {
            let ghost row_start = plane.data();
            let mut x: u32 = x0;
            while x < width
                invariant
                    plane.clippable(),
                    samples_bounded(plane.data()),
                    plane.w() == width,
                    plane.h() == height,
                    width <= 0x4000_0000,
                    height <= 0x4000_0000,
                    y < height,
                    x <= width + 8,
                    deblocking_parameters_ok(parameters),
                    deblock_row(row_start, width as int, height as int, x0 as int, y as int, direction, parameters)
                        == deblock_row(plane.data(), width as int, height as int, x as int, y as int, direction, parameters),
                decreases width + 8 - x,
            {
                apply_deblocking_edge(plane, x as i32, y as i32, direction, parameters);
                x += 8;
            }
            y += 8;
        }
    }
}

/// `dest` with the samples of the `bw`x`bh` block at `(x, y)` taken from `src`.
fn copy_block(dest: &mut SamplePlane, src: &SamplePlane, x: u32, y: u32, bw: u32, bh: u32)
    requires
        old(dest).wf(),
        src.wf(),
        src.w() == old(dest).w(),
        src.h() == old(dest).h(),
        x + bw <= src.w(),
        y + bh <= src.h(),
        src.w() < 0x4000_0000,
        src.h() < 0x4000_0000,
    ensures
        final(dest).wf(),
        final(dest).w() == old(dest).w(),
        final(dest).h() == old(dest).h(),
        forall|qx: int, qy: int| #![trigger final(dest).index_of(qx, qy)] src.inside(qx, qy) ==> final(dest).data()[final(dest).index_of(qx, qy)]
            == if in_sao_block(x, y, bw, bh, qx, qy) {
            src.data()[src.index_of(qx, qy)]
        } else {
            old(dest).data()[old(dest).index_of(qx, qy)]
        },
{
    let mut row: u32 = 0;
    while row < bh
        invariant
            dest.wf(),
            src.wf(),
            src.w() == dest.w(),
            src.h() == dest.h(),
            dest.w() == old(dest).w(),
            dest.h() == old(dest).h(),
            x + bw <= src.w(),
            y + bh <= src.h(),
            src.w() < 0x4000_0000,
            src.h() < 0x4000_0000,
            row <= bh,
            forall|qx: int, qy: int| #![trigger dest.index_of(qx, qy)] src.inside(qx, qy) ==> dest.data()[dest.index_of(qx, qy)] == if in_sao_block(
                x,
                y,
                bw,
                row,
                qx,
                qy,
            ) {
                src.data()[src.index_of(qx, qy)]
            } else {
                old(dest).data()[old(dest).index_of(qx, qy)]
            },
        decreases bh - row,
    {
        let mut column: u32 = 0;
        while column < bw
            invariant
                dest.wf(),
                src.wf(),
                src.w() == dest.w(),
                src.h() == dest.h(),
                dest.w() == old(dest).w(),
                dest.h() == old(dest).h(),
                x + bw <= src.w(),
                y + bh <= src.h(),
                src.w() < 0x4000_0000,
                src.h() < 0x4000_0000,
                row < bh,
                column <= bw,
                forall|qx: int, qy: int| #![trigger dest.index_of(qx, qy)] src.inside(qx, qy) ==> dest.data()[dest.index_of(qx, qy)]
                    == if in_sao_block(x, y, bw, row, qx, qy) || (qy == y + row && x <= qx < x + column) {
                    src.data()[src.index_of(qx, qy)]
                } else {
                    old(dest).data()[old(dest).index_of(qx, qy)]
                },
            decreases bw - column,
        {
            let px = (x + column) as i32;
            let py = (y + row) as i32;
            let value = match src.get(px, py) {
                Some(v) => v,
                None => 0,
            };
            let ghost prior = *dest;
            proof {
                lemma_index_in_plane(prior.w() as int, prior.h() as int, px as int, py as int);
            }
            dest.set(px, py, value);
            proof {
                assert forall|qx: int, qy: int| #![trigger dest.index_of(qx, qy)] src.inside(qx, qy) implies dest.data()[dest.index_of(qx, qy)]
                    == if in_sao_block(x, y, bw, row, qx, qy) || (qy == y + row && x <= qx < x + column + 1) {
                    src.data()[src.index_of(qx, qy)]
                } else {
                    old(dest).data()[old(dest).index_of(qx, qy)]
                } by {
                    lemma_index_in_plane(prior.w() as int, prior.h() as int, qx, qy);
                    lemma_index_injective(prior.w() as int, prior.h() as int, qx, qy, px as int, py as int);
                    assert(prior.data()[prior.index_of(qx, qy)] == if in_sao_block(x, y, bw, row, qx, qy) || (qy == y + row && x <= qx < x + column) {
                        src.data()[src.index_of(qx, qy)]
                    } else {
                        old(dest).data()[old(dest).index_of(qx, qy)]
                    });
                }
            }
            column += 1;
        }
        row += 1;
    }
}

impl PictureDecodeContext {
    /// Applies SAO independently to each CTB, preserving the copy semantics:
    /// every CTB reads the unfiltered input plane.
    pub fn sao_plane(&self, plane: &SamplePlane, parameters: &SaoBlock) -> (r: SamplePlane)
        requires
            self.ctb_size > 0,
            sao_input_ok(*plane, *parameters),
        ensures
            r.wf(),
            r.w() == plane.w(),
            r.h() == plane.h(),
            forall|qx: int, qy: int| #![trigger r.index_of(qx, qy)] plane.inside(qx, qy) ==> r.data()[r.index_of(qx, qy)]
                == sao_plane_sample(*plane, *parameters, qx, qy),
    {
        let mut output = plane.duplicate();
        let w = plane.width();
        let h = plane.height();
        let ctb = self.ctb_size;
        let width = if ctb < w { ctb } else { w };
        let height = if ctb < h { ctb } else { h };
        let mut y: u32 = 0;
        while y < h
            invariant
                sao_input_ok(*plane, *parameters),
                w == plane.w(),
                h == plane.h(),
                ctb > 0,
                width == if ctb < w { ctb } else { w },
                height == if ctb < h { ctb } else { h },
                output.wf(),
                output.w() == w,
                output.h() == h,
                forall|qx: int, qy: int| #![trigger output.index_of(qx, qy)] plane.inside(qx, qy) ==> output.data()[output.index_of(qx, qy)]
                    == if qy < y {
                    sao_plane_sample(*plane, *parameters, qx, qy)
                } else {
                    plane.data()[plane.index_of(qx, qy)]
                },
            decreases h - y,
        {
            let bh = if height < h - y { height } else { h - y };
            let mut x: u32 = 0;
            while x < w
                invariant
                    sao_input_ok(*plane, *parameters),
                    w == plane.w(),
                    h == plane.h(),
                    ctb > 0,
                    y < h,
                    width == if ctb < w { ctb } else { w },
                    bh == if height < h - y { height as int } else { h - y },
                    height == if ctb < h { ctb } else { h },
                    output.wf(),
                    output.w() == w,
                    output.h() == h,
                    forall|qx: int, qy: int| #![trigger output.index_of(qx, qy)] plane.inside(qx, qy) ==> output.data()[output.index_of(qx, qy)]
                        == if qy < y || (qy < y + bh && qx < x) {
                        sao_plane_sample(*plane, *parameters, qx, qy)
                    } else {
                        plane.data()[plane.index_of(qx, qy)]
                    },
                decreases w - x,
            {
                let bw = if width < w - x { width } else { w - x };
                let filtered = apply_sao_ctb(plane, x, y, bw, bh, parameters);
                let ghost before = output;
                copy_block(&mut output, &filtered, x, y, bw, bh);
                proof {
                    assert forall|qx: int, qy: int| #![trigger output.index_of(qx, qy)] plane.inside(qx, qy) implies output.data()[output.index_of(qx, qy)]
                        == if qy < y || (qy < y + bh && qx < x + bw) {
                        sao_plane_sample(*plane, *parameters, qx, qy)
                    } else {
                        plane.data()[plane.index_of(qx, qy)]
                    } by {
                        assert(filtered.index_of(qx, qy) == plane.index_of(qx, qy));
                        assert(before.index_of(qx, qy) == output.index_of(qx, qy));
                    }
                }
                if w - x <= ctb {
                    x = w;
                } else {
                    x = x + ctb;
                }
            }
            if h - y <= ctb {
                y = h;
            } else {
                y = y + ctb;
            }
        }
        output
    }
}

/// `refs` holds the neighbouring samples of `block` in `plane`, extended by
/// the nearest sample inside the plane, as `IntraReferences::from_plane` derives them.
pub open spec fn references_of(refs: IntraReferences, plane: SamplePlane, block: Block) -> bool {
    let size = if block.width >= block.height { block.width as int } else { block.height as int };
    &&& refs.top_left == plane.clipped_at(block.x - 1, block.y - 1)
    &&& refs.top@.len() == 2 * size + 1
    &&& refs.left@.len() == 2 * size + 1
    &&& forall|i: int| 0 <= i <= 2 * size ==> #[trigger] refs.top@[i] == plane.clipped_at(block.x + i, block.y - 1)
    &&& forall|i: int| 0 <= i <= 2 * size ==> #[trigger] refs.left@[i] == plane.clipped_at(block.x - 1, block.y + i)
}

/// The residual of a `size`x`size` block: the scaled levels, inverse
/// transformed unless the transform is bypassed.
pub open spec fn residual_spec(levels: Seq<i32>, size: int, t: TransformParameters) -> Seq<i32> {
    let scaled = Seq::new(levels.len(), |i: int| scaled_coefficient(levels[i], 16, t.qp, t.bit_depth, size as usize) as i32);
    if t.transform_bypass {
        scaled
    } else {
        Seq::new(
            (size * size) as nat,
            |i: int| residual_value(scaled, size, t.intra_4x4 && size == 4, t.bit_depth, i / size, i % size) as i32,
        )
    }
}

/// The reconstructed samples of a square intra block: the clipped sum of the
/// prediction from `refs` and the residual.
pub open spec fn intra_block_samples(refs: IntraReferences, size: int, mode: IntraPredictionMode, levels: Seq<i32>, t: TransformParameters) -> Seq<i32> {
    let residual = residual_spec(levels, size, t);
    Seq::new(
        (size * size) as nat,
        |i: int| clip_to_depth(predicted_sample(refs, size, size, mode, t.bit_depth, i % size, i / size) + residual[i], t.bit_depth as nat) as i32,
    )
}

/// `after` is `before` with `values` written into `block` (row-major), the
/// samples outside the block unchanged.
pub open spec fn block_written(after: SamplePlane, before: SamplePlane, block: Block, values: Seq<i32>) -> bool {
    &&& after.w() == before.w()
    &&& after.h() == before.h()
    &&& after.wf()
    &&& forall|px: int, py: int| #![trigger after.index_of(px, py)] before.inside(px, py) ==> after.data()[after.index_of(px, py)]
        == if block_source(block, values.len(), px, py) {
        values[(py - block.y) * block.width + (px - block.x)]
    } else {
        before.data()[before.index_of(px, py)]
    }
}

/// Every sample of `plane` lies within the range intra prediction accepts.
pub open spec fn plane_bounded(plane: SamplePlane) -> bool {
    forall|i: int| 0 <= i < plane.data().len() ==> -0x10_0000 <= #[trigger] plane.data()[i] <= 0x10_0000
}

/// The inputs of an intra reconstruction of `block` in `plane` are within the
/// ranges of prediction, scaling and the inverse transform.
pub open spec fn intra_inputs_ok(plane: SamplePlane, block: Block, levels: Seq<i32>, t: TransformParameters) -> bool {
    let w = block.width as usize;
    &&& plane.clippable()
    &&& plane_bounded(plane)
    &&& block.width == block.height
    &&& 0 < block.width <= 4096
    &&& block.x + 2 * block.width + 1 <= i32::MAX
    &&& block.y + 2 * block.width + 1 <= i32::MAX
    &&& t.bit_depth < 31
    &&& levels.len() == w * w
    &&& scaling_shift(t.bit_depth, w) <= 64
    &&& scaling_defined(levels, None::<&[i32]>, t.qp, t.bit_depth, w)
    &&& (!t.transform_bypass ==> supported_transform_size(w as int))
}

proof fn lemma_clipped_bounded(plane: SamplePlane, x: int, y: int)
    requires
        plane.clippable(),
        plane_bounded(plane),
    ensures
        -0x10_0000 <= plane.clipped_at(x, y) <= 0x10_0000,
{
    let cx = super::picture::clamp_coord(x, plane.w() - 1);
    let cy = super::picture::clamp_coord(y, plane.h() - 1);
    lemma_index_in_plane(plane.w() as int, plane.h() as int, cx, cy);
}

impl PictureDecodeContext {
    /// Reconstructs an intra block before loop filtering: prediction from the
    /// neighbouring samples, scaled and inverse-transformed residual, clipped
    /// sum written into the component plane.
    pub fn reconstruct_intra(
        &self,
        picture: &mut DecodedPicture,
        block: Block,
        mode: IntraPredictionMode,
        levels: &[i32],
        transform: TransformParameters,
    )
        requires
            old(picture).wf(),
            transform.component < 3 ==> (old(picture).planes_spec()[transform.component as int] matches Some(p)
                ==> intra_inputs_ok(p, block, levels@, transform)),
        ensures
            final(picture).wf(),
            final(picture).fmt() == old(picture).fmt(),
            (transform.component >= 3 || old(picture).planes_spec()[transform.component as int] is None) ==> *final(picture)
                == *old(picture),
            transform.component < 3 ==> (old(picture).planes_spec()[transform.component as int] matches Some(p) ==> exists|
                refs: IntraReferences,
                q: SamplePlane,
            |
                references_of(refs, p, block) && block_written(
                    q,
                    p,
                    block,
                    intra_block_samples(refs, block.width as int, mode, levels@, transform),
                ) && final(picture).planes_spec() == old(picture).planes_spec().update(transform.component as int, Some(q))),
    {
        let component = transform.component;
        let plane = match picture.plane(component) {
            Some(plane) => plane,
            None => return ,
        };
        let ghost p = *plane;
        let references = IntraReferences::from_plane(plane, block);
        proof {
            assert forall|i: int| 0 <= i < references.top@.len() implies -0x10_0000 <= #[trigger] references.top@[i]
                <= 0x10_0000 by {
                lemma_clipped_bounded(p, block.x + i, block.y - 1);
            }
            assert forall|i: int| 0 <= i < references.left@.len() implies -0x10_0000 <= #[trigger] references.left@[i]
                <= 0x10_0000 by {
                lemma_clipped_bounded(p, block.x - 1, block.y + i);
            }
            lemma_clipped_bounded(p, block.x - 1, block.y - 1);
        }
        let size = block.width as usize;
        let prediction = intra_predict(&references, size, block.height as usize, mode, transform.bit_depth);
        let scaled = scale_transform_coefficients(levels, size, transform.qp, transform.bit_depth, None);
        let ghost residual_expected = residual_spec(levels@, size as int, transform);
        let residual = if transform.transform_bypass {
            scaled
        } else {
            let r = inverse_transform(&scaled, size, transform.intra_4x4, transform.bit_depth);
            assert forall|i: int| 0 <= i < r@.len() implies r@[i] == residual_expected[i] by {
                let row = i / size as int;
                let column = i % size as int;
                vstd::arithmetic::div_mod::lemma_fundamental_div_mod(i, size as int);
                assert(row * size + column == i) by (nonlinear_arith)
                    requires i == size * (i / size as int) + (i % size as int), row == i / size as int, column == i % size as int;
                assert(0 <= row < size) by (nonlinear_arith)
                    requires 0 <= i < size * size, row == i / size as int, size > 0;
                assert(scaled@ == Seq::new(levels@.len(), |k: int| scaled_coefficient(levels@[k], 16, transform.qp, transform.bit_depth, size) as i32));
            }
            r
        };
        assert(residual@ == residual_expected);
        proof {
            assert(block.width * block.height <= usize::MAX) by (nonlinear_arith)
                requires block.width <= 4096, block.height <= 4096;
        }
        let reconstructed = reconstruct_block(&prediction, &residual, block, transform.bit_depth);
        assert(reconstructed@ == intra_block_samples(references, size as int, mode, levels@, transform));
        match picture.plane_mut(component) {
            Some(target) => {
                target.write_block(block, &reconstructed);
            },
            None => {},
        }
        proof {
            let q = picture.planes_spec()[component as int]->Some_0;
            assert(references_of(references, p, block));
            assert(block_written(q, p, block, intra_block_samples(references, size as int, mode, levels@, transform)));
        }
    }
}

/// The block of a component plane covered by the luma `block`, square with
/// the width of the scaled block.
pub open spec fn component_block(block: Block, scale: (u32, u32)) -> Block {
    let size = (block.width / scale.0) as u32;
    Block { x: (block.x / scale.0) as u32, y: (block.y / scale.1) as u32, width: size, height: size }
}

/// The reconstructed samples of an inter block: the clipped sum of the
/// default-weighted motion-compensated prediction and the residual.
pub open spec fn inter_block_samples(
    references: Seq<&DecodedPicture>,
    block: Block,
    lists: PredictionLists,
    scale: (u32, u32),
    levels: Seq<i32>,
    t: TransformParameters,
) -> Seq<i32> {
    let size = block.width / scale.0;
    let has0 = source_plane(references, lists.list0, t.component) is Some;
    let has1 = source_plane(references, lists.list1, t.component) is Some;
    let residual = residual_spec(levels, size as int, TransformParameters { intra_4x4: false, ..t });
    Seq::new(
        (size * size) as nat,
        |i: int| clip_to_depth(
            default_weighted_sample(
                list_sample(references, lists.list0, t.component, block, scale.0, scale.1, t.bit_depth, i % size as int, i / size as int),
                list_sample(references, lists.list1, t.component, block, scale.0, scale.1, t.bit_depth, i % size as int, i / size as int),
                has0,
                has1,
                t.bit_depth,
            ) + residual[i],
            t.bit_depth as nat,
        ) as i32,
    )
}

impl PictureDecodeContext {
    /// Reconstructs an inter block from DPB references before loop filtering:
    /// default-weighted motion-compensated prediction plus the scaled and
    /// inverse-transformed residual, written into the component plane.
    pub fn reconstruct_inter(
        &self,
        picture: &mut DecodedPicture,
        block: Block,
        references: &[&DecodedPicture],
        lists: PredictionLists,
        levels: &[i32],
        transform: TransformParameters,
    )
        requires
            old(picture).wf(),
            transform.component < 3 ==> (old(picture).planes_spec()[transform.component as int] matches Some(p) ==> p.wf()),
            forall|i: int| 0 <= i < references@.len() ==> (#[trigger] references@[i]).wf(),
            transform.bit_depth < 63,
            block.x + block.width <= 0x3fff_ffff,
            block.y + block.height <= 0x3fff_ffff,
            ({
                let (sx, sy) = component_scale(self.format.chroma_format, transform.component);
                let size = block.width / sx;
                &&& block.height / sy == size
                &&& size * size <= usize::MAX
                &&& prediction_readable(references@, lists.list0, transform.component, sx)
                &&& prediction_readable(references@, lists.list1, transform.component, sx)
                &&& levels@.len() == size * size
                &&& scaling_shift(transform.bit_depth, size as usize) <= 64
                &&& scaling_defined(levels@, None::<&[i32]>, transform.qp, transform.bit_depth, size as usize)
                &&& (!transform.transform_bypass ==> size == 0 || supported_transform_size(size as int))
            }),
        ensures
            final(picture).wf(),
            final(picture).fmt() == old(picture).fmt(),
            (transform.component >= 3 || old(picture).planes_spec()[transform.component as int] is None) ==> *final(picture)
                == *old(picture),
            transform.component < 3 ==> (old(picture).planes_spec()[transform.component as int] matches Some(p) ==> exists|
                q: SamplePlane,
            |
                block_written(
                    q,
                    p,
                    component_block(block, component_scale(self.format.chroma_format, transform.component)),
                    inter_block_samples(
                        references@,
                        block,
                        lists,
                        component_scale(self.format.chroma_format, transform.component),
                        levels@,
                        transform,
                    ),
                ) && final(picture).planes_spec() == old(picture).planes_spec().update(transform.component as int, Some(q))),
    {
        let component = transform.component;
        let (scale_x, scale_y) = if component == 0 {
            (1u32, 1u32)
        } else {
            self.format.chroma_format.subsampling()
        };
        assert((scale_x, scale_y) == component_scale(self.format.chroma_format, component));
        assert(1 <= scale_x <= 2 && 1 <= scale_y <= 2);
        let prediction = inter_predict(references, block, lists, self.format.chroma_format, component, transform.bit_depth);
        let size = (block.width / scale_x) as usize;
        let scaled = scale_transform_coefficients(levels, size, transform.qp, transform.bit_depth, None);
        let ghost inter_transform = TransformParameters { intra_4x4: false, ..transform };
        let ghost residual_expected = residual_spec(levels@, size as int, inter_transform);
        let residual = if transform.transform_bypass {
            scaled
        } else {
            let r = inverse_transform(&scaled, size, false, transform.bit_depth);
            assert forall|i: int| 0 <= i < r@.len() implies r@[i] == residual_expected[i] by {
                let row = i / size as int;
                let column = i % size as int;
                vstd::arithmetic::div_mod::lemma_fundamental_div_mod(i, size as int);
                assert(row * size + column == i) by (nonlinear_arith)
                    requires i == size * (i / size as int) + (i % size as int), row == i / size as int, column == i % size as int;
                assert(0 <= row < size) by (nonlinear_arith)
                    requires 0 <= i < size * size, row == i / size as int, size > 0;
                assert(scaled@ == Seq::new(levels@.len(), |k: int| scaled_coefficient(levels@[k], 16, transform.qp, transform.bit_depth, size) as i32));
            }
            r
        };
        assert(residual@ == residual_expected);
        let target = Block { x: block.x / scale_x, y: block.y / scale_y, width: size as u32, height: size as u32 };
        assert(target == component_block(block, (scale_x, scale_y)));
        let reconstructed = reconstruct_block(&prediction, &residual, target, transform.bit_depth);
        assert(reconstructed@ == inter_block_samples(references@, block, lists, (scale_x, scale_y), levels@, transform));
        match picture.plane_mut(component) {
            Some(plane) => {
                plane.write_block(target, &reconstructed);
            },
            None => {},
        }
        proof {
            if component < 3 && old(picture).planes_spec()[component as int] is Some {
                let p = old(picture).planes_spec()[component as int]->Some_0;
                let q = picture.planes_spec()[component as int]->Some_0;
                assert(block_written(q, p, target, reconstructed@));
            }
        }
    }
}

} // verus!

verus! {

/// Law: SAO applied CTB by CTB over a whole plane (`sao_plane`) gives the same
/// plane as SAO applied once to a single block that covers the plane
/// (`apply_sao_ctb` at `(0, 0)` with the plane's size), because every CTB
/// reads the unfiltered copy of the input.
pub proof fn lemma_sao_plane_is_whole_plane_sao(input: SamplePlane, p: SaoBlock, tiled: SamplePlane, whole: SamplePlane)
    requires
        sao_input_ok(input, p),
        tiled.wf(),
        tiled.w() == input.w(),
        tiled.h() == input.h(),
        forall|qx: int, qy: int| #![trigger tiled.index_of(qx, qy)] input.inside(qx, qy) ==> tiled.data()[tiled.index_of(qx, qy)]
            == sao_plane_sample(input, p, qx, qy),
        whole.wf(),
        whole.w() == input.w(),
        whole.h() == input.h(),
        forall|qx: int, qy: int| #![trigger whole.index_of(qx, qy)] input.inside(qx, qy) ==> whole.data()[whole.index_of(qx, qy)]
            == if in_sao_block(0, 0, input.w(), input.h(), qx, qy) {
            sao_sample(input, p, qx, qy) as i32
        } else {
            input.data()[input.index_of(qx, qy)]
        },
    ensures
        tiled.w() == whole.w(),
        tiled.h() == whole.h(),
        tiled.data() == whole.data(),
{
    let w = input.w() as int;
    let h = input.h() as int;
    assert forall|i: int| 0 <= i < tiled.data().len() implies tiled.data()[i] == whole.data()[i] by {
        let qx = i % w;
        let qy = i / w;
        assert(i == qy * w + qx && 0 <= qx < w && 0 <= qy < h) by (nonlinear_arith)
            requires 0 <= i < w * h, w > 0, qx == i % w, qy == i / w;
        assert(tiled.index_of(qx, qy) == i);
        assert(whole.index_of(qx, qy) == i);
        assert(input.inside(qx, qy));
        assert(in_sao_block(0, 0, input.w(), input.h(), qx, qy));
    }
    assert(tiled.data() =~= whole.data());
}

} // verus!
