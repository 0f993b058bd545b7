pub mod binarization;
pub mod bit_reader;
pub mod cabac;
pub mod errors;
pub mod nal;
pub mod parameter_sets;
pub mod profile;
pub mod rbsp;
pub mod residual;
pub mod reference_sets;
pub mod scaling;
pub mod slice_data;
pub mod pps;
pub mod sps;
pub mod vui;

pub(crate) use bit_reader::lemma_bits_value_bound;
pub use binarization::{
    decode_bins, encode_bins, lemma_binarization_round_trip, lemma_signed_mapping_inverse, map_signed_code_num, map_signed_value,
    Binarization,
};
pub use bit_reader::{
    bit_at_spec, bits_value, map_signed_spec, zero_run, BitReader, SyntaxDescriptor, SyntaxValue,
};
pub use cabac::{lemma_context_tables_are_contiguous, lemma_wpp_round_trip, derive_cabac_init_type, parse_pcm_sample, PcmSampleSyntax, CabacContext, CabacContextTable, CabacDecoder, CABAC_CONTEXT_COUNT};
pub use errors::SyntaxError;
pub use nal::{ebsp_to_rbsp, NalUnitHeader, ParsedNalUnit};
pub use rbsp::{
    parse_access_unit_delimiter_rbsp, parse_end_of_bitstream_rbsp, parse_end_of_sequence_rbsp, parse_filler_data_rbsp,
    parse_rbsp_slice_segment_trailing_bits, AccessUnitDelimiterRbsp, FillerDataRbsp, SeiMessage, SeiRbsp,
};
pub use vui::{
    parse_hrd_parameters, parse_vui_parameters, BitstreamRestriction, CpbEntry, HrdParameters, HrdSubLayerParameters,
    SubLayerHrdParameters, VuiParameters, VuiTimingInfo,
};
pub use residual::{decode_last_coeff_coordinate, residual_scan_order};
pub use scaling::{ScalingListData, ScalingListMatrix};
pub use slice_data::{
    parse_cross_component_prediction, parse_motion_vector_difference, parse_sao, parse_sao_component, CabacReader,
    CrossComponentPredictionSyntax, MotionVectorDifferenceSyntax, SaoComponentSyntax, SaoSyntax,
};
pub use pps::{
    PictureParameterSetSyntax, PpsDeblockingFilterSyntax, PpsExtensionSyntax, PpsRangeExtensionSyntax, PpsTileSyntax,
};
pub use sps::{LongTermReferencePictureSetSyntax, PcmSyntax, SequenceParameterSetSyntax};
pub use parameter_sets::{SequenceParameterSetHeader, SubLayerOrderingInfo, VideoParameterSetHeader};
pub use profile::{parse_profile_tier_level, ProfileInfo, ProfileTierLevel, SubLayerProfileLevel};
pub use reference_sets::{
    parse_short_term_reference_picture_set, ShortTermReferencePictureSet, SliceLongTermReferencePicture,
    SliceReferencePictureSet,
};
