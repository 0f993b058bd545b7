//! Structural, syntax and decoding building blocks for an H.265 decoder,
//! with their behaviour stated as contracts and proved.
#![allow(unused_imports)]

pub mod availability;
pub mod conformance;
pub mod bitstream;
pub mod decoding;
pub mod error;
pub mod format;
pub mod geometry;
pub mod scan;
pub mod syntax;
pub mod tiles;

pub use availability::{AvailabilityContext, PredictionMode};
pub use bitstream::{lemma_byte_stream_round_trip, nal_units_from_byte_stream, nal_units_to_byte_stream};
pub use conformance::{HevcProfile, ProfileConstraintError, ProfileConstraintReport};
pub use decoding::{
    lemma_first_evictable, lemma_insert_law, lemma_mode_number_round_trip, lemma_rem_mode_is_rem_th_non_candidate, lemma_sao_plane_is_whole_plane_sao,
    adaptive_colour_transform, apply_deblocking_edge, decode_palette_block, PaletteRunSyntax, apply_sao_ctb, build_reference_picture_lists, clip_sample, cross_component_residual,
    default_weighted_prediction, derive_chroma_intra_mode, derive_chroma_motion_vector,
    derive_collocated_picture_and_no_backward_prediction_flag, derive_luma_intra_mode, derive_merge_candidates,
    derive_motion_vector, derive_picture_order_count, derive_reference_set, derive_reference_set_from_sets,
    diff_picture_order_count, slice_short_term_reference_set, fractional_chroma_sample,
    fractional_luma_sample, generate_unavailable_picture, inter_predict, intra_predict, inverse_transform,
    reconstruct_block, residual_bypass, rounded_shift, scale_transform_coefficients, weighted_prediction,
    DeblockingParameters, DecodedPicture, DecodedPictureBuffer, DecoderState, EdgeDirection, PictureDecodeContext, IntraPredictionMode, IntraReferences,
    MotionVector, MotionVectorPrediction, PictureMarking, PredictionLists, ReferencePictureLists, ReferenceSet,
    SamplePlane, SaoBlock, SaoType, TransformParameters, WeightParameters,
};
pub use error::GeometryError;
pub use geometry::{Block, PictureGeometry, QuadTree};
pub use scan::{
    lemma_diagonal_scan_is_ordered_permutation, lemma_z_scan_coordinate_of_rank, lemma_z_scan_rank_of_coordinate,
    horizontal_scan, min_tb_address_table, min_tb_address_z_scan, traverse_scan,
    up_right_diagonal_scan, vertical_scan, z_scan_order,
};
pub use tiles::{lemma_tile_scan_conversions_are_inverse, TileLayout};
pub use syntax::{
    lemma_binarization_round_trip, lemma_context_tables_are_contiguous, lemma_signed_mapping_inverse, lemma_wpp_round_trip,
    decode_bins, derive_cabac_init_type, parse_pcm_sample, PcmSampleSyntax, parse_hrd_parameters, parse_vui_parameters, BitstreamRestriction, CpbEntry,
    HrdParameters, HrdSubLayerParameters, SubLayerHrdParameters, VuiParameters, VuiTimingInfo, ebsp_to_rbsp, encode_bins, map_signed_code_num, map_signed_value,
    parse_access_unit_delimiter_rbsp, parse_end_of_bitstream_rbsp, parse_end_of_sequence_rbsp, parse_filler_data_rbsp,
    parse_profile_tier_level, parse_rbsp_slice_segment_trailing_bits, parse_short_term_reference_picture_set,
    ShortTermReferencePictureSet, SliceLongTermReferencePicture, SliceReferencePictureSet, AccessUnitDelimiterRbsp, Binarization, BitReader,
    CabacContext, CabacContextTable, CabacDecoder, FillerDataRbsp, NalUnitHeader, ParsedNalUnit, ProfileInfo,
    ProfileTierLevel, SeiMessage, SequenceParameterSetHeader, SubLayerOrderingInfo, VideoParameterSetHeader, SeiRbsp, SubLayerProfileLevel, SyntaxDescriptor, SyntaxError, SyntaxValue,
    CABAC_CONTEXT_COUNT, LongTermReferencePictureSetSyntax, PcmSyntax, ScalingListData, ScalingListMatrix,
    SequenceParameterSetSyntax, decode_last_coeff_coordinate, residual_scan_order, parse_cross_component_prediction,
    CabacReader, CrossComponentPredictionSyntax, parse_motion_vector_difference, parse_sao, parse_sao_component,
    MotionVectorDifferenceSyntax, SaoComponentSyntax, SaoSyntax, PictureParameterSetSyntax, PpsDeblockingFilterSyntax,
    PpsExtensionSyntax, PpsRangeExtensionSyntax, PpsTileSyntax,
};
pub use format::{ChromaFormat, PictureFormat, PlaneDimension};
