//! H.265 Clause 8 decoding processes.
pub mod filters;
pub mod inter;
pub mod intra;
pub mod picture;
pub mod palette;
pub mod process;
pub mod reference;
pub mod transform;
pub mod transform_basis;

pub use filters::{
    apply_deblocking_edge, apply_sao_ctb, DeblockingParameters, EdgeDirection, SaoBlock, SaoType,
};
pub use inter::{
    default_weighted_prediction, derive_chroma_motion_vector, derive_merge_candidates, derive_motion_vector,
    fractional_chroma_sample, fractional_luma_sample, inter_predict, weighted_prediction, MotionVector,
    MotionVectorPrediction, PredictionLists, WeightParameters,
};
pub use intra::{lemma_mode_number_round_trip, lemma_rem_mode_is_rem_th_non_candidate, derive_chroma_intra_mode, derive_luma_intra_mode, intra_predict, IntraPredictionMode, IntraReferences};
pub use palette::{decode_palette_block, PaletteRunSyntax};
pub use picture::{DecodedPicture, SamplePlane};
pub use process::{lemma_sao_plane_is_whole_plane_sao, DecoderState, PictureDecodeContext};
pub use transform::{
    adaptive_colour_transform, cross_component_residual, inverse_transform, reconstruct_block, residual_bypass, scale_transform_coefficients,
    TransformParameters,
};
pub use reference::{
    lemma_first_evictable, lemma_insert_law,
    build_reference_picture_lists, derive_collocated_picture_and_no_backward_prediction_flag, derive_picture_order_count,
    derive_reference_set, derive_reference_set_from_sets, slice_short_term_reference_set,
    diff_picture_order_count, generate_unavailable_picture, DecodedPictureBuffer, PictureMarking, ReferencePictureLists,
    ReferenceSet,
};
use vstd::prelude::*;
use vstd::arithmetic::power2::pow2;

verus! {

/// `Clip3(0, 2^bitDepth - 1, value)` as a mathematical integer.
pub open spec fn clip_to_depth(value: int, bit_depth: nat) -> int {
    if value < 0 {
        0
    } else if value > pow2(bit_depth) - 1 {
        pow2(bit_depth) - 1
    } else {
        value
    }
}

/// Clips an intermediate sample to the legal range for a component.
pub fn clip_sample(value: i64, bit_depth: u8) -> (r: i32)
    requires
        bit_depth < 63,
    ensures
        r == clip_to_depth(value as int, bit_depth as nat) as i32,
        bit_depth <= 31 ==> r as int == clip_to_depth(value as int, bit_depth as nat),
{
    proof {
        vstd::bits::lemma_u64_pow2_no_overflow(bit_depth as nat);
        vstd::bits::lemma_u64_shl_is_mul(1, bit_depth as u64);
        vstd::arithmetic::power2::lemma_pow2_pos(bit_depth as nat);
        vstd::arithmetic::power2::lemma_pow2_strictly_increases(bit_depth as nat, 63);
        vstd::arithmetic::power2::lemma2_to64();
        vstd::arithmetic::power2::lemma2_to64_rest();
        if bit_depth < 31 {
            vstd::arithmetic::power2::lemma_pow2_strictly_increases(bit_depth as nat, 31);
        }
    }
    let max: i64 = ((1u64 << bit_depth as u64) - 1) as i64;
    if value < 0 {
        0
    } else if value > max {
        max as i32
    } else {
        value as i32
    }
}

/// H.265's rounded right shift `(value + (1 << (shift - 1))) >> shift`.
pub fn rounded_shift(value: i64, shift: u32) -> (r: i64)
    requires
        shift < 64,
        shift > 0 ==> value + pow2((shift - 1) as nat) <= i64::MAX,
    ensures
        shift == 0 ==> r == value,
        shift > 0 ==> r == ((value + pow2((shift - 1) as nat)) as i64) >> (shift as i64),
{
    if shift == 0 {
        value
    } else {
        proof {
            vstd::bits::lemma_u64_pow2_no_overflow((shift - 1) as nat);
            vstd::bits::lemma_u64_shl_is_mul(1, (shift - 1) as u64);
            vstd::arithmetic::power2::lemma_pow2_strictly_increases((shift - 1) as nat, 63);
            vstd::arithmetic::power2::lemma2_to64_rest();
        }
        let half: i64 = (1u64 << (shift - 1) as u64) as i64;
        (value + half) >> (shift as i64)
    }
}

} // verus!
