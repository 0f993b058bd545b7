//! HRD and VUI syntax of Annex E.2.
use vstd::prelude::*;
use super::bit_reader::{bits_value, BitReader};
use super::parameter_sets::{read_field, read_ue_field, ue_end, ue_run_end, ue_run_value, ue_value};
use super::profile::{flag_at, readable};
use super::SyntaxError;

verus! {

/// One coded-picture-buffer entry from `sub_layer_hrd_parameters`.
#[derive(Clone, Debug, Eq, PartialEq)]
pub struct CpbEntry {
    /// `bit_rate_value_minus1`.
    pub bit_rate_value_minus1: u64,
    /// `cpb_size_value_minus1`.
    pub cpb_size_value_minus1: u64,
    /// `cpb_size_du_value_minus1`, when sub-picture HRD is present.
    pub cpb_size_du_value_minus1: Option<u64>,
    /// `bit_rate_du_value_minus1`, when sub-picture HRD is present.
    pub bit_rate_du_value_minus1: Option<u64>,
    /// `cbr_flag`.
    pub cbr_flag: bool,
}

/// HRD entries for one temporal sub-layer and one HRD type.
#[derive(Clone, Debug, Eq, PartialEq)]
pub struct SubLayerHrdParameters {
    /// Entries signalled by `cpb_cnt_minus1`.
    pub cpb_entries: Vec<CpbEntry>,
}

/// Fixed-rate, delay, and CPB syntax for one HRD temporal sub-layer.
#[derive(Clone, Debug, Eq, PartialEq)]
pub struct HrdSubLayerParameters {
    /// `fixed_pic_rate_general_flag`.
    pub fixed_pic_rate_general_flag: bool,
    /// `fixed_pic_rate_within_cvs_flag`, or its inferred value.
    pub fixed_pic_rate_within_cvs_flag: bool,
    /// `elemental_duration_in_tc_minus1`, when present.
    pub elemental_duration_in_tc_minus1: Option<u64>,
    /// `low_delay_hrd_flag`, when present.
    pub low_delay_hrd_flag: Option<bool>,
    /// `cpb_cnt_minus1`, when present.
    pub cpb_cnt_minus1: Option<u64>,
    /// NAL HRD entries, when NAL HRD is present.
    pub nal_hrd_parameters: Option<SubLayerHrdParameters>,
    /// VCL HRD entries, when VCL HRD is present.
    pub vcl_hrd_parameters: Option<SubLayerHrdParameters>,
}

/// HRD syntax from Annex E.2.2.
#[derive(Clone, Debug, Eq, PartialEq)]
pub struct HrdParameters {
    /// `nal_hrd_parameters_present_flag`.
    pub nal_hrd_parameters_present_flag: bool,
    /// `vcl_hrd_parameters_present_flag`.
    pub vcl_hrd_parameters_present_flag: bool,
    /// `sub_pic_hrd_params_present_flag`.
    pub sub_pic_hrd_params_present_flag: bool,
    /// `tick_divisor_minus2`, when sub-picture HRD is present.
    pub tick_divisor_minus2: Option<u8>,
    /// `du_cpb_removal_delay_increment_length_minus1`, when present.
    pub du_cpb_removal_delay_increment_length_minus1: Option<u8>,
    /// `sub_pic_cpb_params_in_pic_timing_sei_flag`, when present.
    pub sub_pic_cpb_params_in_pic_timing_sei_flag: Option<bool>,
    /// `dpb_output_delay_du_length_minus1`, when present.
    pub dpb_output_delay_du_length_minus1: Option<u8>,
    /// `bit_rate_scale`, when NAL or VCL HRD is present.
    pub bit_rate_scale: Option<u8>,
    /// `cpb_size_scale`, when NAL or VCL HRD is present.
    pub cpb_size_scale: Option<u8>,
    /// `cpb_size_du_scale`, when sub-picture HRD is present.
    pub cpb_size_du_scale: Option<u8>,
    /// `initial_cpb_removal_delay_length_minus1`, when NAL or VCL HRD is present.
    pub initial_cpb_removal_delay_length_minus1: Option<u8>,
    /// `au_cpb_removal_delay_length_minus1`, when NAL or VCL HRD is present.
    pub au_cpb_removal_delay_length_minus1: Option<u8>,
    /// `dpb_output_delay_length_minus1`, when NAL or VCL HRD is present.
    pub dpb_output_delay_length_minus1: Option<u8>,
    /// HRD syntax for each temporal sub-layer.
    pub sub_layers: Vec<HrdSubLayerParameters>,
}

/// VUI timing and optional HRD syntax from Annex E.
#[derive(Clone, Debug, Eq, PartialEq)]
pub struct VuiTimingInfo {
    /// `vui_num_units_in_tick`.
    pub num_units_in_tick: u32,
    /// `vui_time_scale`.
    pub time_scale: u32,
    /// `vui_poc_proportional_to_timing_flag`.
    pub poc_proportional_to_timing_flag: bool,
    /// `vui_num_ticks_poc_diff_one_minus1`, when present.
    pub num_ticks_poc_diff_one_minus1: Option<u64>,
    /// `vui_hrd_parameters_present_flag`.
    pub hrd_parameters_present_flag: bool,
    /// HRD syntax, when present.
    pub hrd_parameters: Option<HrdParameters>,
}

/// Bitstream-restriction syntax from `vui_parameters`.
#[derive(Clone, Copy, Debug, Eq, PartialEq)]
pub struct BitstreamRestriction {
    /// `tiles_fixed_structure_flag`.
    pub tiles_fixed_structure_flag: bool,
    /// `motion_vectors_over_pic_boundaries_flag`.
    pub motion_vectors_over_pic_boundaries_flag: bool,
    /// `restricted_ref_pic_lists_flag`.
    pub restricted_ref_pic_lists_flag: bool,
    /// `min_spatial_segmentation_idc`.
    pub min_spatial_segmentation_idc: u64,
    /// `max_bytes_per_pic_denom`.
    pub max_bytes_per_pic_denom: u64,
    /// `max_bits_per_min_cu_denom`.
    pub max_bits_per_min_cu_denom: u64,
    /// `log2_max_mv_length_horizontal`.
    pub log2_max_mv_length_horizontal: u64,
    /// `log2_max_mv_length_vertical`.
    pub log2_max_mv_length_vertical: u64,
}

/// VUI syntax from Annex E.2.1.
#[derive(Clone, Debug, Eq, PartialEq)]
pub struct VuiParameters {
    /// `aspect_ratio_info_present_flag`.
    pub aspect_ratio_info_present_flag: bool,
    /// `aspect_ratio_idc`, when present.
    pub aspect_ratio_idc: Option<u8>,
    /// `sar_width`, when `aspect_ratio_idc` is `EXTENDED_SAR`.
    pub sar_width: Option<u16>,
    /// `sar_height`, when `aspect_ratio_idc` is `EXTENDED_SAR`.
    pub sar_height: Option<u16>,
    /// `overscan_info_present_flag`.
    pub overscan_info_present_flag: bool,
    /// `overscan_appropriate_flag`, when present.
    pub overscan_appropriate_flag: Option<bool>,
    /// `video_signal_type_present_flag`.
    pub video_signal_type_present_flag: bool,
    /// `video_format`, when video signal type is present.
    pub video_format: Option<u8>,
    /// `video_full_range_flag`, when video signal type is present.
    pub video_full_range_flag: Option<bool>,
    /// `colour_description_present_flag`.
    pub colour_description_present_flag: bool,
    /// `colour_primaries`, when colour description is present.
    pub colour_primaries: Option<u8>,
    /// `transfer_characteristics`, when colour description is present.
    pub transfer_characteristics: Option<u8>,
    /// `matrix_coeffs`, when colour description is present.
    pub matrix_coeffs: Option<u8>,
    /// `chroma_loc_info_present_flag`.
    pub chroma_loc_info_present_flag: bool,
    /// `chroma_sample_loc_type_top_field`, when present.
    pub chroma_sample_loc_type_top_field: Option<u64>,
    /// `chroma_sample_loc_type_bottom_field`, when present.
    pub chroma_sample_loc_type_bottom_field: Option<u64>,
    /// `neutral_chroma_indication_flag`.
    pub neutral_chroma_indication_flag: bool,
    /// `field_seq_flag`.
    pub field_seq_flag: bool,
    /// `frame_field_info_present_flag`.
    pub frame_field_info_present_flag: bool,
    /// `default_display_window_flag`.
    pub default_display_window_flag: bool,
    /// Default display offsets in left, right, top, bottom order.
    pub default_display_window: Option<[u64; 4]>,
    /// `vui_timing_info_present_flag`.
    pub vui_timing_info_present_flag: bool,
    /// Timing information, when present.
    pub timing_info: Option<VuiTimingInfo>,
    /// `bitstream_restriction_flag`.
    pub bitstream_restriction_flag: bool,
    /// Bitstream restrictions, when present.
    pub bitstream_restriction: Option<BitstreamRestriction>,
}

/// `aspect_ratio_idc` value that signals an explicit sample aspect ratio.
pub const EXTENDED_SAR: u8 = 255;

/// Bit offset of `overscan_info_present_flag`.
pub open spec fn vui_overscan_pos(v: VuiParameters, pos: int) -> int {
    if !v.aspect_ratio_info_present_flag {
        pos + 1
    } else if v.aspect_ratio_idc == Some(EXTENDED_SAR) {
        pos + 41
    } else {
        pos + 9
    }
}

/// Bit offset of `video_signal_type_present_flag`.
pub open spec fn vui_signal_pos(v: VuiParameters, pos: int) -> int {
    vui_overscan_pos(v, pos) + if v.overscan_info_present_flag { 2int } else { 1int }
}

/// Bit offset of `chroma_loc_info_present_flag`.
pub open spec fn vui_chroma_loc_pos(v: VuiParameters, pos: int) -> int {
    vui_signal_pos(v, pos) + if !v.video_signal_type_present_flag {
        1int
    } else if v.colour_description_present_flag {
        30int
    } else {
        6int
    }
}

/// Bit offset of `neutral_chroma_indication_flag`, for the chroma location flag at `p`.
pub open spec fn display_flags_pos(v: VuiParameters, data: Seq<u8>, p: int, limit: int) -> int {
    if v.chroma_loc_info_present_flag {
        ue_run_end(data, p + 1, limit, 2)
    } else {
        p + 1
    }
}

/// Bit offset of `vui_timing_info_present_flag`, for the chroma location flag at `p`.
pub open spec fn display_end(v: VuiParameters, data: Seq<u8>, p: int, limit: int) -> int {
    let f = display_flags_pos(v, data, p, limit) + 4;
    if v.default_display_window_flag {
        ue_run_end(data, f, limit, 4)
    } else {
        f
    }
}

/// Bit offset of `vui_hrd_parameters_present_flag` within timing information at `p`.
pub open spec fn timing_hrd_flag_pos(t: VuiTimingInfo, data: Seq<u8>, p: int, limit: int) -> int {
    if t.poc_proportional_to_timing_flag {
        ue_end(data, p + 65, limit)
    } else {
        p + 65
    }
}

/// The bit offset after the timing information coded at `p`.
pub open spec fn timing_end(t: VuiTimingInfo, data: Seq<u8>, p: int, limit: int, n: int) -> int {
    let q = timing_hrd_flag_pos(t, data, p, limit) + 1;
    if t.hrd_parameters_present_flag {
        hrd_end(data, q, limit, true, n)
    } else {
        q
    }
}

/// Bit offset of `bitstream_restriction_flag`, for the timing flag at `p`.
pub open spec fn timing_part_end(v: VuiParameters, data: Seq<u8>, p: int, limit: int, n: int) -> int {
    match v.timing_info {
        Some(t) => timing_end(t, data, p + 1, limit, n),
        None => p + 1,
    }
}

/// The bit offset after the bitstream restrictions, for their flag at `p`.
pub open spec fn restriction_end(v: VuiParameters, data: Seq<u8>, p: int, limit: int) -> int {
    if v.bitstream_restriction_flag {
        ue_run_end(data, p + 4, limit, 5)
    } else {
        p + 1
    }
}

/// Bit offset of `vui_timing_info_present_flag`.
pub open spec fn vui_timing_pos(v: VuiParameters, data: Seq<u8>, pos: int, limit: int) -> int {
    display_end(v, data, vui_chroma_loc_pos(v, pos), limit)
}

/// Bit offset of `bitstream_restriction_flag`.
pub open spec fn vui_restriction_pos(v: VuiParameters, data: Seq<u8>, pos: int, limit: int, n: int) -> int {
    timing_part_end(v, data, vui_timing_pos(v, data, pos, limit), limit, n)
}

/// The bit offset just after `vui_parameters()` coded at `pos`.
pub open spec fn vui_end(v: VuiParameters, data: Seq<u8>, pos: int, limit: int, n: int) -> int {
    restriction_end(v, data, vui_restriction_pos(v, data, pos, limit, n), limit)
}

/// `t` is the VUI timing information coded at `p`.
pub open spec fn vui_timing_at(t: VuiTimingInfo, data: Seq<u8>, p: int, limit: int, n: int) -> bool {
    let q = timing_hrd_flag_pos(t, data, p, limit);
    &&& readable(p, limit, 65)
    &&& t.num_units_in_tick == bits_value(data, p, 32)
    &&& t.time_scale == bits_value(data, p + 32, 32)
    &&& t.poc_proportional_to_timing_flag == flag_at(data, p + 64)
    &&& (t.num_ticks_poc_diff_one_minus1 is Some <==> t.poc_proportional_to_timing_flag)
    &&& (t.num_ticks_poc_diff_one_minus1 matches Some(x) ==> ue_value(data, p + 65, limit) == Ok::<u64, SyntaxError>(x))
    &&& readable(q, limit, 1)
    &&& t.hrd_parameters_present_flag == flag_at(data, q)
    &&& (t.hrd_parameters is Some <==> t.hrd_parameters_present_flag)
    &&& (t.hrd_parameters matches Some(h) ==> n <= 6 && hrd_at(h, data, q + 1, limit, true, n))
}

/// The aspect-ratio, overscan and video-signal fields of `v` are coded at `pos`.
pub open spec fn vui_picture_at(v: VuiParameters, data: Seq<u8>, pos: int, limit: int) -> bool {
    let over = vui_overscan_pos(v, pos);
    let signal = vui_signal_pos(v, pos);
    let loc = vui_chroma_loc_pos(v, pos);
    &&& readable(pos, limit, 1)
    &&& v.aspect_ratio_info_present_flag == flag_at(data, pos)
    &&& (v.aspect_ratio_idc is Some <==> v.aspect_ratio_info_present_flag)
    &&& (v.aspect_ratio_info_present_flag ==> readable(pos + 1, limit, over - pos - 1) && v.aspect_ratio_idc == Some(
        bits_value(data, pos + 1, 8) as u8,
    ))
    &&& v.sar_width == (if v.aspect_ratio_idc == Some(EXTENDED_SAR) { Some(bits_value(data, pos + 9, 16) as u16) } else { None::<u16> })
    &&& v.sar_height == (if v.aspect_ratio_idc == Some(EXTENDED_SAR) { Some(bits_value(data, pos + 25, 16) as u16) } else { None::<u16> })
    &&& readable(over, limit, signal - over)
    &&& v.overscan_info_present_flag == flag_at(data, over)
    &&& v.overscan_appropriate_flag == (if v.overscan_info_present_flag { Some(flag_at(data, over + 1)) } else { None::<bool> })
    &&& readable(signal, limit, loc - signal)
    &&& v.video_signal_type_present_flag == flag_at(data, signal)
    &&& v.video_format == (if v.video_signal_type_present_flag { Some(bits_value(data, signal + 1, 3) as u8) } else { None::<u8> })
    &&& v.video_full_range_flag == (if v.video_signal_type_present_flag { Some(flag_at(data, signal + 4)) } else { None::<bool> })
    &&& v.colour_description_present_flag == (v.video_signal_type_present_flag && flag_at(data, signal + 5))
    &&& v.colour_primaries == (if v.colour_description_present_flag { Some(bits_value(data, signal + 6, 8) as u8) } else { None::<u8> })
    &&& v.transfer_characteristics == (if v.colour_description_present_flag { Some(bits_value(data, signal + 14, 8) as u8) } else { None::<u8> })
    &&& v.matrix_coeffs == (if v.colour_description_present_flag { Some(bits_value(data, signal + 22, 8) as u8) } else { None::<u8> })
}

/// The chroma-location, field and display-window fields of `v` are coded from `p`.
pub open spec fn vui_display_at(v: VuiParameters, data: Seq<u8>, p: int, limit: int) -> bool {
    let flags = display_flags_pos(v, data, p, limit);
    &&& readable(p, limit, 1)
    &&& v.chroma_loc_info_present_flag == flag_at(data, p)
    &&& (v.chroma_sample_loc_type_top_field is Some <==> v.chroma_loc_info_present_flag)
    &&& (v.chroma_sample_loc_type_bottom_field is Some <==> v.chroma_loc_info_present_flag)
    &&& (v.chroma_sample_loc_type_top_field matches Some(x) ==> ue_run_value(data, p + 1, limit, 0) == Ok::<u64, SyntaxError>(x))
    &&& (v.chroma_sample_loc_type_bottom_field matches Some(x) ==> ue_run_value(data, p + 1, limit, 1) == Ok::<u64, SyntaxError>(x))
    &&& readable(flags, limit, 4)
    &&& v.neutral_chroma_indication_flag == flag_at(data, flags)
    &&& v.field_seq_flag == flag_at(data, flags + 1)
    &&& v.frame_field_info_present_flag == flag_at(data, flags + 2)
    &&& v.default_display_window_flag == flag_at(data, flags + 3)
    &&& (v.default_display_window is Some <==> v.default_display_window_flag)
    &&& (v.default_display_window matches Some(w) ==> {
        &&& ue_run_value(data, flags + 4, limit, 0) == Ok::<u64, SyntaxError>(w@[0])
        &&& ue_run_value(data, flags + 4, limit, 1) == Ok::<u64, SyntaxError>(w@[1])
        &&& ue_run_value(data, flags + 4, limit, 2) == Ok::<u64, SyntaxError>(w@[2])
        &&& ue_run_value(data, flags + 4, limit, 3) == Ok::<u64, SyntaxError>(w@[3])
    })
}

/// The timing flag and timing information of `v` are coded from `p`.
pub open spec fn vui_timing_part_at(v: VuiParameters, data: Seq<u8>, p: int, limit: int, n: int) -> bool {
    &&& readable(p, limit, 1)
    &&& v.vui_timing_info_present_flag == flag_at(data, p)
    &&& (v.timing_info is Some <==> v.vui_timing_info_present_flag)
    &&& (v.timing_info matches Some(t) ==> vui_timing_at(t, data, p + 1, limit, n))
}

/// The bitstream restrictions of `v` are coded from `p`.
pub open spec fn vui_restriction_at(v: VuiParameters, data: Seq<u8>, p: int, limit: int) -> bool {
    &&& readable(p, limit, 1)
    &&& v.bitstream_restriction_flag == flag_at(data, p)
    &&& (v.bitstream_restriction is Some <==> v.bitstream_restriction_flag)
    &&& (v.bitstream_restriction matches Some(b) ==> {
        &&& readable(p + 1, limit, 3)
        &&& b.tiles_fixed_structure_flag == flag_at(data, p + 1)
        &&& b.motion_vectors_over_pic_boundaries_flag == flag_at(data, p + 2)
        &&& b.restricted_ref_pic_lists_flag == flag_at(data, p + 3)
        &&& ue_run_value(data, p + 4, limit, 0) == Ok::<u64, SyntaxError>(b.min_spatial_segmentation_idc)
        &&& ue_run_value(data, p + 4, limit, 1) == Ok::<u64, SyntaxError>(b.max_bytes_per_pic_denom)
        &&& ue_run_value(data, p + 4, limit, 2) == Ok::<u64, SyntaxError>(b.max_bits_per_min_cu_denom)
        &&& ue_run_value(data, p + 4, limit, 3) == Ok::<u64, SyntaxError>(b.log2_max_mv_length_horizontal)
        &&& ue_run_value(data, p + 4, limit, 4) == Ok::<u64, SyntaxError>(b.log2_max_mv_length_vertical)
    })
}

/// `v` is the `vui_parameters()` syntax coded at `pos`, for `n` = `maxNumSubLayersMinus1`.
#[verifier::opaque]
pub open spec fn vui_at(v: VuiParameters, data: Seq<u8>, pos: int, limit: int, n: int) -> bool {
    &&& vui_picture_at(v, data, pos, limit)
    &&& vui_display_at(v, data, vui_chroma_loc_pos(v, pos), limit)
    &&& vui_timing_part_at(v, data, vui_timing_pos(v, data, pos, limit), limit, n)
    &&& vui_restriction_at(v, data, vui_restriction_pos(v, data, pos, limit, n), limit)
}

/// The bit offset after one CPB entry at `pos`.
pub open spec fn cpb_entry_end(data: Seq<u8>, pos: int, limit: int, sub_pic: bool) -> int {
    ue_run_end(data, pos, limit, if sub_pic { 4 } else { 2 }) + 1
}

/// The bit offset of CPB entry `i` of a run starting at `pos`.
pub open spec fn cpb_start(data: Seq<u8>, pos: int, limit: int, sub_pic: bool, i: int) -> int
    decreases i,
{
    if i <= 0 {
        pos
    } else {
        cpb_entry_end(data, cpb_start(data, pos, limit, sub_pic, i - 1), limit, sub_pic)
    }
}

/// `e` is the CPB entry coded at `pos`.
pub open spec fn cpb_entry_at(e: CpbEntry, data: Seq<u8>, pos: int, limit: int, sub_pic: bool) -> bool {
    let flag_pos = cpb_entry_end(data, pos, limit, sub_pic) - 1;
    &&& ue_run_value(data, pos, limit, 0) == Ok::<u64, SyntaxError>(e.bit_rate_value_minus1)
    &&& ue_run_value(data, pos, limit, 1) == Ok::<u64, SyntaxError>(e.cpb_size_value_minus1)
    &&& (e.cpb_size_du_value_minus1 is Some <==> sub_pic)
    &&& (e.bit_rate_du_value_minus1 is Some <==> sub_pic)
    &&& (e.cpb_size_du_value_minus1 matches Some(v) ==> ue_run_value(data, pos, limit, 2) == Ok::<u64, SyntaxError>(v))
    &&& (e.bit_rate_du_value_minus1 matches Some(v) ==> ue_run_value(data, pos, limit, 3) == Ok::<u64, SyntaxError>(v))
    &&& readable(flag_pos, limit, 1)
    &&& e.cbr_flag == flag_at(data, flag_pos)
}

/// `entries` are the CPB entries coded one after another from `pos`.
pub open spec fn cpb_run_at(entries: Seq<CpbEntry>, data: Seq<u8>, pos: int, limit: int, sub_pic: bool) -> bool {
    forall|i: int| 0 <= i < entries.len() ==> #[trigger] cpb_entry_at(
        entries[i],
        data,
        cpb_start(data, pos, limit, sub_pic, i),
        limit,
        sub_pic,
    )
}

/// The offset of `cpb_cnt_minus1` (or of the entries when it is absent) in the
/// sub-layer coded at `pos`, with whether the CPB count is coded.
pub open spec fn hrd_count_pos(data: Seq<u8>, pos: int, limit: int) -> (int, bool) {
    let general = flag_at(data, pos);
    let within = general || flag_at(data, pos + 1);
    let r1 = pos + if general { 1int } else { 2int };
    if within {
        (ue_end(data, r1, limit), true)
    } else {
        (r1 + 1, !flag_at(data, r1))
    }
}

/// Number of CPB entries of the sub-layer coded at `pos`.
pub open spec fn hrd_cpb_count(data: Seq<u8>, pos: int, limit: int) -> int {
    let (r2, counted) = hrd_count_pos(data, pos, limit);
    if counted {
        match ue_value(data, r2, limit) {
            Ok(c) => c + 1,
            Err(_) => 0,
        }
    } else {
        0
    }
}

/// Offset of the NAL CPB entries of the sub-layer coded at `pos`.
pub open spec fn hrd_entries_pos(data: Seq<u8>, pos: int, limit: int) -> int {
    let (r2, counted) = hrd_count_pos(data, pos, limit);
    if counted {
        ue_end(data, r2, limit)
    } else {
        r2
    }
}

/// Offset of the VCL CPB entries of the sub-layer coded at `pos`.
pub open spec fn hrd_vcl_pos(data: Seq<u8>, pos: int, limit: int, nal: bool, sub_pic: bool) -> int {
    let r3 = hrd_entries_pos(data, pos, limit);
    if nal {
        cpb_start(data, r3, limit, sub_pic, hrd_cpb_count(data, pos, limit))
    } else {
        r3
    }
}

/// The bit offset after the HRD sub-layer coded at `pos`.
pub open spec fn hrd_sub_layer_end(data: Seq<u8>, pos: int, limit: int, nal: bool, vcl: bool, sub_pic: bool) -> int {
    let r4 = hrd_vcl_pos(data, pos, limit, nal, sub_pic);
    if vcl {
        cpb_start(data, r4, limit, sub_pic, hrd_cpb_count(data, pos, limit))
    } else {
        r4
    }
}

/// `x` holds exactly the CPB entries of one HRD type at `p`.
pub open spec fn cpb_list_at(x: SubLayerHrdParameters, data: Seq<u8>, p: int, limit: int, sub_pic: bool, count: int) -> bool {
    x.cpb_entries@.len() == count && cpb_run_at(x.cpb_entries@, data, p, limit, sub_pic)
}

/// `s` is the HRD sub-layer coded at `pos`.
pub open spec fn hrd_sub_layer_at(
    s: HrdSubLayerParameters,
    data: Seq<u8>,
    pos: int,
    limit: int,
    nal: bool,
    vcl: bool,
    sub_pic: bool,
) -> bool {
    let general = flag_at(data, pos);
    let r1 = pos + if general { 1int } else { 2int };
    let (r2, counted) = hrd_count_pos(data, pos, limit);
    let count = hrd_cpb_count(data, pos, limit);
    &&& readable(pos, limit, if general { 1 } else { 2 })
    &&& s.fixed_pic_rate_general_flag == general
    &&& s.fixed_pic_rate_within_cvs_flag == (general || flag_at(data, pos + 1))
    &&& (s.elemental_duration_in_tc_minus1 is Some <==> s.fixed_pic_rate_within_cvs_flag)
    &&& (s.elemental_duration_in_tc_minus1 matches Some(v) ==> ue_value(data, r1, limit) == Ok::<u64, SyntaxError>(v))
    &&& (!s.fixed_pic_rate_within_cvs_flag ==> readable(r1, limit, 1))
    &&& s.low_delay_hrd_flag == Some(!counted)
    &&& (s.cpb_cnt_minus1 is Some <==> counted)
    &&& (s.cpb_cnt_minus1 matches Some(c) ==> ue_value(data, r2, limit) == Ok::<u64, SyntaxError>(c) && c + 1 <= usize::MAX)
    &&& (s.nal_hrd_parameters is Some <==> nal)
    &&& (s.nal_hrd_parameters matches Some(x) ==> cpb_list_at(x, data, hrd_entries_pos(data, pos, limit), limit, sub_pic, count))
    &&& (s.vcl_hrd_parameters is Some <==> vcl)
    &&& (s.vcl_hrd_parameters matches Some(x) ==> cpb_list_at(x, data, hrd_vcl_pos(data, pos, limit, nal, sub_pic), limit, sub_pic, count))
}

/// The bit offset of the first HRD sub-layer, after the common information.
pub open spec fn hrd_layers_pos(data: Seq<u8>, pos: int, common: bool) -> int {
    let p1 = if common { pos + 2 } else { pos };
    let present = common && (flag_at(data, pos) || flag_at(data, pos + 1));
    let sub_pic = flag_at(data, p1);
    if present {
        p1 + 1 + (if sub_pic { 19int } else { 0int }) + 8 + (if sub_pic { 4int } else { 0int }) + 15
    } else {
        p1
    }
}

/// `nal_hrd_parameters_present_flag` of the common information at `pos`.
pub open spec fn hrd_nal(data: Seq<u8>, pos: int, common: bool) -> bool {
    common && flag_at(data, pos)
}

/// `vcl_hrd_parameters_present_flag` of the common information at `pos`.
pub open spec fn hrd_vcl(data: Seq<u8>, pos: int, common: bool) -> bool {
    common && flag_at(data, pos + 1)
}

/// Whether sub-picture HRD parameters are present, read from the common information.
pub open spec fn hrd_sub_pic(data: Seq<u8>, pos: int, common: bool) -> bool {
    let present = common && (flag_at(data, pos) || flag_at(data, pos + 1));
    present && flag_at(data, if common { pos + 2 } else { pos })
}

/// The bit offset of HRD sub-layer `k`.
pub open spec fn hrd_layer_start(data: Seq<u8>, pos: int, limit: int, common: bool, k: int) -> int
    decreases k,
{
    if k <= 0 {
        hrd_layers_pos(data, pos, common)
    } else {
        hrd_sub_layer_end(
            data,
            hrd_layer_start(data, pos, limit, common, k - 1),
            limit,
            hrd_nal(data, pos, common),
            hrd_vcl(data, pos, common),
            hrd_sub_pic(data, pos, common),
        )
    }
}

/// The bit offset just after `hrd_parameters()` coded at `pos`.
pub open spec fn hrd_end(data: Seq<u8>, pos: int, limit: int, common: bool, n: int) -> int {
    hrd_layer_start(data, pos, limit, common, n + 1)
}

/// `h` is the `hrd_parameters(common, n)` syntax coded at `pos`.
pub open spec fn hrd_at(h: HrdParameters, data: Seq<u8>, pos: int, limit: int, common: bool, n: int) -> bool {
    let nal = hrd_nal(data, pos, common);
    let vcl = hrd_vcl(data, pos, common);
    let p1 = if common { pos + 2 } else { pos };
    let sub_pic = hrd_sub_pic(data, pos, common);
    let q = p1 + 1 + if sub_pic { 19int } else { 0int };
    let q2 = q + 8 + if sub_pic { 4int } else { 0int };
    &&& (common ==> readable(pos, limit, 2))
    &&& h.nal_hrd_parameters_present_flag == nal
    &&& h.vcl_hrd_parameters_present_flag == vcl
    &&& h.sub_pic_hrd_params_present_flag == sub_pic
    &&& ((nal || vcl) ==> readable(p1, limit, hrd_layers_pos(data, pos, common) - p1))
    &&& h.tick_divisor_minus2 == (if sub_pic { Some(bits_value(data, p1 + 1, 8) as u8) } else { None::<u8> })
    &&& h.du_cpb_removal_delay_increment_length_minus1 == (if sub_pic { Some(bits_value(data, p1 + 9, 5) as u8) } else { None::<u8> })
    &&& h.sub_pic_cpb_params_in_pic_timing_sei_flag == (if sub_pic { Some(flag_at(data, p1 + 14)) } else { None::<bool> })
    &&& h.dpb_output_delay_du_length_minus1 == (if sub_pic { Some(bits_value(data, p1 + 15, 5) as u8) } else { None::<u8> })
    &&& h.bit_rate_scale == (if nal || vcl { Some(bits_value(data, q, 4) as u8) } else { None::<u8> })
    &&& h.cpb_size_scale == (if nal || vcl { Some(bits_value(data, q + 4, 4) as u8) } else { None::<u8> })
    &&& h.cpb_size_du_scale == (if sub_pic { Some(bits_value(data, q + 8, 4) as u8) } else { None::<u8> })
    &&& h.initial_cpb_removal_delay_length_minus1 == (if nal || vcl { Some(bits_value(data, q2, 5) as u8) } else { None::<u8> })
    &&& h.au_cpb_removal_delay_length_minus1 == (if nal || vcl { Some(bits_value(data, q2 + 5, 5) as u8) } else { None::<u8> })
    &&& h.dpb_output_delay_length_minus1 == (if nal || vcl { Some(bits_value(data, q2 + 10, 5) as u8) } else { None::<u8> })
    &&& h.sub_layers@.len() == n + 1
    &&& forall|k: int| 0 <= k <= n ==> #[trigger] hrd_sub_layer_at(
        h.sub_layers@[k],
        data,
        hrd_layer_start(data, pos, limit, common, k),
        limit,
        nal,
        vcl,
        sub_pic,
    )
}

/// Reads one CPB entry.
fn parse_cpb_entry(reader: &mut BitReader<'_>, sub_pic: bool) -> (r: Result<CpbEntry, SyntaxError>)
    requires
        old(reader).wf(),
    ensures
        final(reader).wf(),
        final(reader).same_input(old(reader)),
        r is Ok <==> exists|e: CpbEntry| cpb_entry_at(e, old(reader).bytes(), old(reader).pos(), old(reader).limit(), sub_pic),
        r matches Ok(e) ==> cpb_entry_at(e, old(reader).bytes(), old(reader).pos(), old(reader).limit(), sub_pic)
            && final(reader).pos() == cpb_entry_end(old(reader).bytes(), old(reader).pos(), old(reader).limit(), sub_pic),
        r matches Err(e) ==> e is UnexpectedEnd || e is ExpGolombOverflow,
{
    let ghost data = reader.bytes();
    let ghost pos = reader.pos();
    let ghost limit = reader.limit();
    proof {
        reveal_with_fuel(ue_run_end, 5);
    }
    let bit_rate_value_minus1 = read_ue_field(reader)?;
    let cpb_size_value_minus1 = read_ue_field(reader)?;
    let cpb_size_du_value_minus1 = if sub_pic {
        Some(read_ue_field(reader)?)
    } else {
        None
    };
    let bit_rate_du_value_minus1 = if sub_pic {
        Some(read_ue_field(reader)?)
    } else {
        None
    };
    let cbr_flag = read_field(reader, 1)? != 0;
    let e = CpbEntry {
        bit_rate_value_minus1,
        cpb_size_value_minus1,
        cpb_size_du_value_minus1,
        bit_rate_du_value_minus1,
        cbr_flag,
    };
    assert(cpb_entry_at(e, data, pos, limit, sub_pic));
    Ok(e)
}

/// Reads the `cpb_count` entries of `sub_layer_hrd_parameters()`.
fn parse_sub_layer_hrd_parameters(reader: &mut BitReader<'_>, cpb_count: usize, sub_pic: bool) -> (r: Result<
    SubLayerHrdParameters,
    SyntaxError,
>)
    requires
        old(reader).wf(),
    ensures
        final(reader).wf(),
        final(reader).same_input(old(reader)),
        r is Ok <==> exists|x: SubLayerHrdParameters| cpb_list_at(
            x,
            old(reader).bytes(),
            old(reader).pos(),
            old(reader).limit(),
            sub_pic,
            cpb_count as int,
        ),
        r matches Ok(x) ==> cpb_list_at(x, old(reader).bytes(), old(reader).pos(), old(reader).limit(), sub_pic, cpb_count as int)
            && final(reader).pos() == cpb_start(old(reader).bytes(), old(reader).pos(), old(reader).limit(), sub_pic, cpb_count as int),
        r matches Err(e) ==> e is UnexpectedEnd || e is ExpGolombOverflow,
{
    let ghost data = reader.bytes();
    let ghost pos = reader.pos();
    let ghost limit = reader.limit();
    let mut cpb_entries: Vec<CpbEntry> = Vec::new();
    let mut i: usize = 0;
    while i < cpb_count
        invariant
            reader.wf(),
            reader.same_input(old(reader)),
            data == old(reader).bytes(),
            pos == old(reader).pos(),
            limit == old(reader).limit(),
            i <= cpb_count,
            cpb_entries@.len() == i,
            cpb_run_at(cpb_entries@, data, pos, limit, sub_pic),
            reader.pos() == cpb_start(data, pos, limit, sub_pic, i as int),
        decreases cpb_count - i,
    {
        let entry = match parse_cpb_entry(reader, sub_pic) {
            Ok(e) => e,
            Err(e) => {
                assert forall|x: SubLayerHrdParameters| !cpb_list_at(x, data, pos, limit, sub_pic, cpb_count as int) by {
                    if cpb_list_at(x, data, pos, limit, sub_pic, cpb_count as int) {
                        assert(cpb_entry_at(
                            x.cpb_entries@[i as int],
                            data,
                            cpb_start(data, pos, limit, sub_pic, i as int),
                            limit,
                            sub_pic,
                        ));
                    }
                }
                return Err(e);
            },
        };
        let ghost before = cpb_entries@;
        cpb_entries.push(entry);
        i += 1;
        assert forall|k: int| 0 <= k < cpb_entries@.len() implies #[trigger] cpb_entry_at(
            cpb_entries@[k],
            data,
            cpb_start(data, pos, limit, sub_pic, k),
            limit,
            sub_pic,
        ) by {
            if k < i - 1 {
                assert(cpb_entries@[k] == before[k]);
            }
        }
    }
    let x = SubLayerHrdParameters { cpb_entries };
    assert(cpb_list_at(x, data, pos, limit, sub_pic, cpb_count as int));
    Ok(x)
}

/// Reads the fixed-rate, delay and CPB syntax of one HRD sub-layer.
#[verifier::spinoff_prover]
fn parse_hrd_sub_layer(reader: &mut BitReader<'_>, nal: bool, vcl: bool, sub_pic: bool) -> (r: Result<
    HrdSubLayerParameters,
    SyntaxError,
>)
    requires
        old(reader).wf(),
    ensures
        final(reader).wf(),
        final(reader).same_input(old(reader)),
        r is Ok <==> exists|s: HrdSubLayerParameters| hrd_sub_layer_at(
            s,
            old(reader).bytes(),
            old(reader).pos(),
            old(reader).limit(),
            nal,
            vcl,
            sub_pic,
        ),
        r matches Ok(s) ==> hrd_sub_layer_at(s, old(reader).bytes(), old(reader).pos(), old(reader).limit(), nal, vcl, sub_pic)
            && final(reader).pos() == hrd_sub_layer_end(
            old(reader).bytes(),
            old(reader).pos(),
            old(reader).limit(),
            nal,
            vcl,
            sub_pic,
        ),
        r matches Err(e) ==> e is UnexpectedEnd || e is ExpGolombOverflow || e == SyntaxError::InvalidSyntaxValue(
            "too many CPB entries",
        ),
{
    let ghost data = reader.bytes();
    let ghost pos = reader.pos();
    let ghost limit = reader.limit();
    let fixed_pic_rate_general_flag = read_field(reader, 1)? != 0;
    let fixed_pic_rate_within_cvs_flag = if fixed_pic_rate_general_flag {
        true
    } else {
        read_field(reader, 1)? != 0
    };
    let elemental_duration_in_tc_minus1 = if fixed_pic_rate_within_cvs_flag {
        Some(read_ue_field(reader)?)
    } else {
        None
    };
    let low_delay = if fixed_pic_rate_within_cvs_flag {
        false
    } else {
        read_field(reader, 1)? != 0
    };
    let cpb_cnt_minus1 = if !low_delay {
        Some(read_ue_field(reader)?)
    } else {
        None
    };
    let cpb_count: usize = match cpb_cnt_minus1 {
        Some(value) => {
            if value >= usize::MAX as u64 {
                return Err(SyntaxError::InvalidSyntaxValue("too many CPB entries"));
            }
            value as usize + 1
        },
        None => 0,
    };
    let ghost entries_pos = reader.pos();
    assert(entries_pos == hrd_entries_pos(data, pos, limit));
    assert(cpb_count == hrd_cpb_count(data, pos, limit));
    let nal_hrd_parameters = if nal {
        match parse_sub_layer_hrd_parameters(reader, cpb_count, sub_pic) {
            Ok(x) => Some(x),
            Err(e) => {
                assert forall|s: HrdSubLayerParameters| !hrd_sub_layer_at(s, data, pos, limit, nal, vcl, sub_pic) by {
                    if hrd_sub_layer_at(s, data, pos, limit, nal, vcl, sub_pic) {
                        assert(cpb_list_at(s.nal_hrd_parameters->Some_0, data, entries_pos, limit, sub_pic, cpb_count as int));
                    }
                }
                return Err(e);
            },
        }
    } else {
        None
    };
    let ghost vcl_pos = reader.pos();
    assert(vcl_pos == hrd_vcl_pos(data, pos, limit, nal, sub_pic));
    let vcl_hrd_parameters = if vcl {
        match parse_sub_layer_hrd_parameters(reader, cpb_count, sub_pic) {
            Ok(x) => Some(x),
            Err(e) => {
                assert forall|s: HrdSubLayerParameters| !hrd_sub_layer_at(s, data, pos, limit, nal, vcl, sub_pic) by {
                    if hrd_sub_layer_at(s, data, pos, limit, nal, vcl, sub_pic) {
                        assert(cpb_list_at(s.vcl_hrd_parameters->Some_0, data, vcl_pos, limit, sub_pic, cpb_count as int));
                    }
                }
                return Err(e);
            },
        }
    } else {
        None
    };
    let s = HrdSubLayerParameters {
        fixed_pic_rate_general_flag,
        fixed_pic_rate_within_cvs_flag,
        elemental_duration_in_tc_minus1,
        low_delay_hrd_flag: Some(low_delay),
        cpb_cnt_minus1,
        nal_hrd_parameters,
        vcl_hrd_parameters,
    };
    assert(hrd_sub_layer_at(s, data, pos, limit, nal, vcl, sub_pic));
    Ok(s)
}

/// Parses `hrd_parameters(commonInfPresentFlag, maxNumSubLayersMinus1)`.
#[verifier::spinoff_prover]
#[verifier::rlimit(60)]
pub fn parse_hrd_parameters(reader: &mut BitReader<'_>, common_inf_present_flag: bool, max_num_sub_layers_minus1: u8) -> (r:
    Result<HrdParameters, SyntaxError>)
    requires
        old(reader).wf(),
    ensures
        final(reader).wf(),
        final(reader).same_input(old(reader)),
        max_num_sub_layers_minus1 > 6 ==> r == Err::<HrdParameters, SyntaxError>(
            SyntaxError::InvalidSyntaxValue("maxNumSubLayersMinus1 must be at most 6"),
        ),
        max_num_sub_layers_minus1 <= 6 ==> (r is Ok <==> exists|h: HrdParameters| hrd_at(
            h,
            old(reader).bytes(),
            old(reader).pos(),
            old(reader).limit(),
            common_inf_present_flag,
            max_num_sub_layers_minus1 as int,
        )),
        r matches Ok(h) ==> hrd_at(
            h,
            old(reader).bytes(),
            old(reader).pos(),
            old(reader).limit(),
            common_inf_present_flag,
            max_num_sub_layers_minus1 as int,
        ) && final(reader).pos() == hrd_end(
            old(reader).bytes(),
            old(reader).pos(),
            old(reader).limit(),
            common_inf_present_flag,
            max_num_sub_layers_minus1 as int,
        ),
        max_num_sub_layers_minus1 <= 6 ==> (r matches Err(e) ==> e is UnexpectedEnd || e is ExpGolombOverflow || e
            == SyntaxError::InvalidSyntaxValue("too many CPB entries")),
{
    if max_num_sub_layers_minus1 > 6 {
        return Err(SyntaxError::InvalidSyntaxValue("maxNumSubLayersMinus1 must be at most 6"));
    }
    let ghost data = reader.bytes();
    let ghost pos = reader.pos();
    let ghost limit = reader.limit();
    proof {
        vstd::arithmetic::power2::lemma2_to64();
    }
    let (nal_hrd_parameters_present_flag, vcl_hrd_parameters_present_flag) = if common_inf_present_flag {
        let nal = read_field(reader, 1)? != 0;
        let vcl = read_field(reader, 1)? != 0;
        (nal, vcl)
    } else {
        (false, false)
    };
    let hrd_present = nal_hrd_parameters_present_flag || vcl_hrd_parameters_present_flag;
    let mut sub_pic_hrd_params_present_flag = false;
    let mut tick_divisor_minus2 = None;
    let mut du_cpb_removal_delay_increment_length_minus1 = None;
    let mut sub_pic_cpb_params_in_pic_timing_sei_flag = None;
    let mut dpb_output_delay_du_length_minus1 = None;
    let mut bit_rate_scale = None;
    let mut cpb_size_scale = None;
    let mut cpb_size_du_scale = None;
    let mut initial_cpb_removal_delay_length_minus1 = None;
    let mut au_cpb_removal_delay_length_minus1 = None;
    let mut dpb_output_delay_length_minus1 = None;
    if hrd_present {
        sub_pic_hrd_params_present_flag = read_field(reader, 1)? != 0;
        if sub_pic_hrd_params_present_flag {
            tick_divisor_minus2 = Some(read_field(reader, 8)? as u8);
            du_cpb_removal_delay_increment_length_minus1 = Some(read_field(reader, 5)? as u8);
            sub_pic_cpb_params_in_pic_timing_sei_flag = Some(read_field(reader, 1)? != 0);
            dpb_output_delay_du_length_minus1 = Some(read_field(reader, 5)? as u8);
        }
        bit_rate_scale = Some(read_field(reader, 4)? as u8);
        cpb_size_scale = Some(read_field(reader, 4)? as u8);
        if sub_pic_hrd_params_present_flag {
            cpb_size_du_scale = Some(read_field(reader, 4)? as u8);
        }
        initial_cpb_removal_delay_length_minus1 = Some(read_field(reader, 5)? as u8);
        au_cpb_removal_delay_length_minus1 = Some(read_field(reader, 5)? as u8);
        dpb_output_delay_length_minus1 = Some(read_field(reader, 5)? as u8);
    }
    let ghost nal = nal_hrd_parameters_present_flag;
    let ghost vcl = vcl_hrd_parameters_present_flag;
    let ghost sub_pic = sub_pic_hrd_params_present_flag;
    assert(reader.pos() == hrd_layers_pos(data, pos, common_inf_present_flag));
    assert(sub_pic == hrd_sub_pic(data, pos, common_inf_present_flag));
    let n: usize = max_num_sub_layers_minus1 as usize;
    let mut sub_layers: Vec<HrdSubLayerParameters> = Vec::new();
    let mut k: usize = 0;
    while k <= n
        invariant
            reader.wf(),
            reader.same_input(old(reader)),
            data == old(reader).bytes(),
            pos == old(reader).pos(),
            limit == old(reader).limit(),
            n == max_num_sub_layers_minus1,
            n <= 6,
            k <= n + 1,
            nal == nal_hrd_parameters_present_flag,
            vcl == vcl_hrd_parameters_present_flag,
            sub_pic == sub_pic_hrd_params_present_flag,
            nal == hrd_nal(data, pos, common_inf_present_flag),
            vcl == hrd_vcl(data, pos, common_inf_present_flag),
            sub_pic == hrd_sub_pic(data, pos, common_inf_present_flag),
            reader.pos() == hrd_layer_start(data, pos, limit, common_inf_present_flag, k as int),
            sub_layers@.len() == k,
            forall|j: int| 0 <= j < k ==> #[trigger] hrd_sub_layer_at(
                sub_layers@[j],
                data,
                hrd_layer_start(data, pos, limit, common_inf_present_flag, j),
                limit,
                nal,
                vcl,
                sub_pic,
            ),
        decreases n + 1 - k,
    {
        let layer = match parse_hrd_sub_layer(
            reader,
            nal_hrd_parameters_present_flag,
            vcl_hrd_parameters_present_flag,
            sub_pic_hrd_params_present_flag,
        ) {
            Ok(layer) => layer,
            Err(e) => {
                assert forall|h: HrdParameters| !hrd_at(h, data, pos, limit, common_inf_present_flag, n as int) by {
                    if hrd_at(h, data, pos, limit, common_inf_present_flag, n as int) {
                        let kk: int = k as int;
                        assert(0 <= kk <= n as int);
                        assert(hrd_sub_layer_at(
                            h.sub_layers@[kk],
                            data,
                            hrd_layer_start(data, pos, limit, common_inf_present_flag, kk),
                            limit,
                            hrd_nal(data, pos, common_inf_present_flag),
                            hrd_vcl(data, pos, common_inf_present_flag),
                            hrd_sub_pic(data, pos, common_inf_present_flag),
                        ));
                    }
                }
                return Err(e);
            },
        };
        let ghost before = sub_layers@;
        sub_layers.push(layer);
        k += 1;
        assert forall|j: int| 0 <= j < k implies #[trigger] hrd_sub_layer_at(
            sub_layers@[j],
            data,
            hrd_layer_start(data, pos, limit, common_inf_present_flag, j),
            limit,
            nal,
            vcl,
            sub_pic,
        ) by {
            if j < k - 1 {
                assert(sub_layers@[j] == before[j]);
            }
        }
    }
    let h = HrdParameters {
        nal_hrd_parameters_present_flag,
        vcl_hrd_parameters_present_flag,
        sub_pic_hrd_params_present_flag,
        tick_divisor_minus2,
        du_cpb_removal_delay_increment_length_minus1,
        sub_pic_cpb_params_in_pic_timing_sei_flag,
        dpb_output_delay_du_length_minus1,
        bit_rate_scale,
        cpb_size_scale,
        cpb_size_du_scale,
        initial_cpb_removal_delay_length_minus1,
        au_cpb_removal_delay_length_minus1,
        dpb_output_delay_length_minus1,
        sub_layers,
    };
    assert(hrd_at(h, data, pos, limit, common_inf_present_flag, n as int));
    Ok(h)
}

/// Reads the VUI timing information and its optional HRD syntax.
#[verifier::spinoff_prover]
fn parse_vui_timing(reader: &mut BitReader<'_>, max_num_sub_layers_minus1: u8) -> (r: Result<VuiTimingInfo, SyntaxError>)
    requires
        old(reader).wf(),
    ensures
        final(reader).wf(),
        final(reader).same_input(old(reader)),
        r is Ok <==> exists|t: VuiTimingInfo| vui_timing_at(
            t,
            old(reader).bytes(),
            old(reader).pos(),
            old(reader).limit(),
            max_num_sub_layers_minus1 as int,
        ),
        r matches Ok(t) ==> vui_timing_at(t, old(reader).bytes(), old(reader).pos(), old(reader).limit(), max_num_sub_layers_minus1 as int)
            && final(reader).pos() == timing_end(t, old(reader).bytes(), old(reader).pos(), old(reader).limit(), max_num_sub_layers_minus1 as int),
        r matches Err(e) ==> e is UnexpectedEnd || e is ExpGolombOverflow || e == SyntaxError::InvalidSyntaxValue(
            "too many CPB entries",
        ) || e == SyntaxError::InvalidSyntaxValue("maxNumSubLayersMinus1 must be at most 6"),
{
    let ghost data = reader.bytes();
    let ghost pos = reader.pos();
    let ghost limit = reader.limit();
    proof {
        vstd::arithmetic::power2::lemma2_to64();
    }
    let num_units_in_tick = read_field(reader, 32)? as u32;
    let time_scale = read_field(reader, 32)? as u32;
    let poc_proportional_to_timing_flag = read_field(reader, 1)? != 0;
    let num_ticks_poc_diff_one_minus1 = if poc_proportional_to_timing_flag {
        Some(read_ue_field(reader)?)
    } else {
        None
    };
    let hrd_parameters_present_flag = read_field(reader, 1)? != 0;
    let ghost q = reader.pos();
    let hrd_parameters = if hrd_parameters_present_flag {
        match parse_hrd_parameters(reader, true, max_num_sub_layers_minus1) {
            Ok(h) => Some(h),
            Err(e) => {
                assert forall|t: VuiTimingInfo| !vui_timing_at(t, data, pos, limit, max_num_sub_layers_minus1 as int) by {
                    if vui_timing_at(t, data, pos, limit, max_num_sub_layers_minus1 as int) {
                        assert(hrd_at(t.hrd_parameters->Some_0, data, q, limit, true, max_num_sub_layers_minus1 as int));
                    }
                }
                return Err(e);
            },
        }
    } else {
        None
    };
    let t = VuiTimingInfo {
        num_units_in_tick,
        time_scale,
        poc_proportional_to_timing_flag,
        num_ticks_poc_diff_one_minus1,
        hrd_parameters_present_flag,
        hrd_parameters,
    };
    assert(vui_timing_at(t, data, pos, limit, max_num_sub_layers_minus1 as int));
    Ok(t)
}

/// Reads the aspect-ratio, overscan and video-signal fields; the other
/// fields of the result are left empty.
#[verifier::spinoff_prover]
#[verifier::rlimit(40)]
fn parse_vui_picture(reader: &mut BitReader<'_>) -> (r: Result<VuiParameters, SyntaxError>)
    requires
        old(reader).wf(),
    ensures
        final(reader).wf(),
        final(reader).same_input(old(reader)),
        r is Ok <==> exists|w: VuiParameters| vui_picture_at(w, old(reader).bytes(), old(reader).pos(), old(reader).limit()),
        r matches Ok(v) ==> vui_picture_at(v, old(reader).bytes(), old(reader).pos(), old(reader).limit())
            && final(reader).pos() == vui_chroma_loc_pos(v, old(reader).pos()),
        r matches Err(e) ==> e is UnexpectedEnd,
{
    let ghost data = reader.bytes();
    let ghost pos = reader.pos();
    let ghost limit = reader.limit();
    proof {
        vstd::arithmetic::power2::lemma2_to64();
    }
    let aspect_ratio_info_present_flag = read_field(reader, 1)? != 0;
    let (aspect_ratio_idc, sar_width, sar_height) = if aspect_ratio_info_present_flag {
        let aspect_ratio_idc = read_field(reader, 8)? as u8;
        if aspect_ratio_idc == EXTENDED_SAR {
            let width = read_field(reader, 16)? as u16;
            let height = read_field(reader, 16)? as u16;
            (Some(aspect_ratio_idc), Some(width), Some(height))
        } else {
            (Some(aspect_ratio_idc), None, None)
        }
    } else {
        (None, None, None)
    };
    let overscan_info_present_flag = read_field(reader, 1)? != 0;
    let overscan_appropriate_flag = if overscan_info_present_flag {
        Some(read_field(reader, 1)? != 0)
    } else {
        None
    };
    let video_signal_type_present_flag = read_field(reader, 1)? != 0;
    let (video_format, video_full_range_flag, colour_description_present_flag, colour_primaries, transfer_characteristics, matrix_coeffs) =
        if video_signal_type_present_flag {
        let video_format = read_field(reader, 3)? as u8;
        let video_full_range_flag = read_field(reader, 1)? != 0;
        let colour_description_present_flag = read_field(reader, 1)? != 0;
        let (colour_primaries, transfer_characteristics, matrix_coeffs) = if colour_description_present_flag {
            let primaries = read_field(reader, 8)? as u8;
            let transfer = read_field(reader, 8)? as u8;
            let matrix = read_field(reader, 8)? as u8;
            (Some(primaries), Some(transfer), Some(matrix))
        } else {
            (None, None, None)
        };
        (
            Some(video_format),
            Some(video_full_range_flag),
            colour_description_present_flag,
            colour_primaries,
            transfer_characteristics,
            matrix_coeffs,
        )
    } else {
        (None, None, false, None, None, None)
    };
    let v = VuiParameters {
        aspect_ratio_info_present_flag,
        aspect_ratio_idc,
        sar_width,
        sar_height,
        overscan_info_present_flag,
        overscan_appropriate_flag,
        video_signal_type_present_flag,
        video_format,
        video_full_range_flag,
        colour_description_present_flag,
        colour_primaries,
        transfer_characteristics,
        matrix_coeffs,
        chroma_loc_info_present_flag: false,
        chroma_sample_loc_type_top_field: None,
        chroma_sample_loc_type_bottom_field: None,
        neutral_chroma_indication_flag: false,
        field_seq_flag: false,
        frame_field_info_present_flag: false,
        default_display_window_flag: false,
        default_display_window: None,
        vui_timing_info_present_flag: false,
        timing_info: None,
        bitstream_restriction_flag: false,
        bitstream_restriction: None,
    };
    assert(vui_picture_at(v, data, pos, limit));
    Ok(v)
}

/// Reads the chroma-location, field and display-window fields into `v`.
#[verifier::spinoff_prover]
#[verifier::rlimit(40)]
fn parse_vui_display(reader: &mut BitReader<'_>, v: &mut VuiParameters) -> (r: Result<(), SyntaxError>)
    requires
        old(reader).wf(),
    ensures
        final(reader).wf(),
        final(reader).same_input(old(reader)),
        r is Ok <==> exists|w: VuiParameters| vui_display_at(w, old(reader).bytes(), old(reader).pos(), old(reader).limit()),
        r is Ok ==> vui_display_at(*final(v), old(reader).bytes(), old(reader).pos(), old(reader).limit())
            && final(reader).pos() == display_end(*final(v), old(reader).bytes(), old(reader).pos(), old(reader).limit())
            && *final(v) == (VuiParameters {
            chroma_loc_info_present_flag: final(v).chroma_loc_info_present_flag,
            chroma_sample_loc_type_top_field: final(v).chroma_sample_loc_type_top_field,
            chroma_sample_loc_type_bottom_field: final(v).chroma_sample_loc_type_bottom_field,
            neutral_chroma_indication_flag: final(v).neutral_chroma_indication_flag,
            field_seq_flag: final(v).field_seq_flag,
            frame_field_info_present_flag: final(v).frame_field_info_present_flag,
            default_display_window_flag: final(v).default_display_window_flag,
            default_display_window: final(v).default_display_window,
            ..*old(v)
        }),
        r matches Err(e) ==> e is UnexpectedEnd || e is ExpGolombOverflow,
{
    let ghost data = reader.bytes();
    let ghost pos = reader.pos();
    let ghost limit = reader.limit();
    proof {
        reveal_with_fuel(ue_run_end, 5);
    }
    let chroma_loc_info_present_flag = read_field(reader, 1)? != 0;
    let (chroma_sample_loc_type_top_field, chroma_sample_loc_type_bottom_field) = if chroma_loc_info_present_flag {
        let top = read_ue_field(reader)?;
        let bottom = read_ue_field(reader)?;
        (Some(top), Some(bottom))
    } else {
        (None, None)
    };
    let neutral_chroma_indication_flag = read_field(reader, 1)? != 0;
    let field_seq_flag = read_field(reader, 1)? != 0;
    let frame_field_info_present_flag = read_field(reader, 1)? != 0;
    let default_display_window_flag = read_field(reader, 1)? != 0;
    let default_display_window = if default_display_window_flag {
        let left = read_ue_field(reader)?;
        let right = read_ue_field(reader)?;
        let top = read_ue_field(reader)?;
        let bottom = read_ue_field(reader)?;
        Some([left, right, top, bottom])
    } else {
        None
    };
    v.chroma_loc_info_present_flag = chroma_loc_info_present_flag;
    v.chroma_sample_loc_type_top_field = chroma_sample_loc_type_top_field;
    v.chroma_sample_loc_type_bottom_field = chroma_sample_loc_type_bottom_field;
    v.neutral_chroma_indication_flag = neutral_chroma_indication_flag;
    v.field_seq_flag = field_seq_flag;
    v.frame_field_info_present_flag = frame_field_info_present_flag;
    v.default_display_window_flag = default_display_window_flag;
    v.default_display_window = default_display_window;
    assert(vui_display_at(*v, data, pos, limit));
    Ok(())
}

/// Reads the bitstream-restriction flag and fields into `v`.
#[verifier::spinoff_prover]
fn parse_bitstream_restriction(reader: &mut BitReader<'_>, v: &mut VuiParameters) -> (r: Result<(), SyntaxError>)
    requires
        old(reader).wf(),
    ensures
        final(reader).wf(),
        final(reader).same_input(old(reader)),
        r is Ok <==> exists|w: VuiParameters| vui_restriction_at(w, old(reader).bytes(), old(reader).pos(), old(reader).limit()),
        r is Ok ==> vui_restriction_at(*final(v), old(reader).bytes(), old(reader).pos(), old(reader).limit())
            && final(reader).pos() == restriction_end(*final(v), old(reader).bytes(), old(reader).pos(), old(reader).limit())
            && *final(v) == (VuiParameters {
            bitstream_restriction_flag: final(v).bitstream_restriction_flag,
            bitstream_restriction: final(v).bitstream_restriction,
            ..*old(v)
        }),
        r matches Err(e) ==> e is UnexpectedEnd || e is ExpGolombOverflow,
{
    let ghost data = reader.bytes();
    let ghost pos = reader.pos();
    let ghost limit = reader.limit();
    proof {
        reveal_with_fuel(ue_run_end, 6);
    }
    let bitstream_restriction_flag = read_field(reader, 1)? != 0;
    let bitstream_restriction = if bitstream_restriction_flag {
        let tiles_fixed_structure_flag = read_field(reader, 1)? != 0;
        let motion_vectors_over_pic_boundaries_flag = read_field(reader, 1)? != 0;
        let restricted_ref_pic_lists_flag = read_field(reader, 1)? != 0;
        let min_spatial_segmentation_idc = read_ue_field(reader)?;
        let max_bytes_per_pic_denom = read_ue_field(reader)?;
        let max_bits_per_min_cu_denom = read_ue_field(reader)?;
        let log2_max_mv_length_horizontal = read_ue_field(reader)?;
        let log2_max_mv_length_vertical = read_ue_field(reader)?;
        Some(
            BitstreamRestriction {
                tiles_fixed_structure_flag,
                motion_vectors_over_pic_boundaries_flag,
                restricted_ref_pic_lists_flag,
                min_spatial_segmentation_idc,
                max_bytes_per_pic_denom,
                max_bits_per_min_cu_denom,
                log2_max_mv_length_horizontal,
                log2_max_mv_length_vertical,
            },
        )
    } else {
        None
    };
    v.bitstream_restriction_flag = bitstream_restriction_flag;
    v.bitstream_restriction = bitstream_restriction;
    assert(vui_restriction_at(*v, data, pos, limit));
    Ok(())
}

/// Reads the timing flag and timing information into `v`.
#[verifier::spinoff_prover]
fn parse_vui_timing_part(reader: &mut BitReader<'_>, v: &mut VuiParameters, max_num_sub_layers_minus1: u8) -> (r: Result<
    (),
    SyntaxError,
>)
    requires
        old(reader).wf(),
    ensures
        final(reader).wf(),
        final(reader).same_input(old(reader)),
        r is Ok <==> exists|w: VuiParameters| vui_timing_part_at(
            w,
            old(reader).bytes(),
            old(reader).pos(),
            old(reader).limit(),
            max_num_sub_layers_minus1 as int,
        ),
        r is Ok ==> vui_timing_part_at(*final(v), old(reader).bytes(), old(reader).pos(), old(reader).limit(), max_num_sub_layers_minus1 as int)
            && final(reader).pos() == timing_part_end(
            *final(v),
            old(reader).bytes(),
            old(reader).pos(),
            old(reader).limit(),
            max_num_sub_layers_minus1 as int,
        ) && *final(v) == (VuiParameters {
            vui_timing_info_present_flag: final(v).vui_timing_info_present_flag,
            timing_info: final(v).timing_info,
            ..*old(v)
        }),
        r matches Err(e) ==> e is UnexpectedEnd || e is ExpGolombOverflow || e == SyntaxError::InvalidSyntaxValue(
            "too many CPB entries",
        ) || e == SyntaxError::InvalidSyntaxValue("maxNumSubLayersMinus1 must be at most 6"),
{
    let ghost data = reader.bytes();
    let ghost pos = reader.pos();
    let ghost limit = reader.limit();
    let ghost n = max_num_sub_layers_minus1 as int;
    let vui_timing_info_present_flag = read_field(reader, 1)? != 0;
    let timing_info = if vui_timing_info_present_flag {
        match parse_vui_timing(reader, max_num_sub_layers_minus1) {
            Ok(t) => Some(t),
            Err(e) => {
                assert forall|w: VuiParameters| !vui_timing_part_at(w, data, pos, limit, n) by {
                    if vui_timing_part_at(w, data, pos, limit, n) {
                        assert(vui_timing_at(w.timing_info->Some_0, data, pos + 1, limit, n));
                    }
                }
                return Err(e);
            },
        }
    } else {
        None
    };
    v.vui_timing_info_present_flag = vui_timing_info_present_flag;
    v.timing_info = timing_info;
    assert(vui_timing_part_at(*v, data, pos, limit, n));
    Ok(())
}

/// Where the fields before `p` are those of `earlier`, a group that cannot
/// be read at `p` leaves no `vui_parameters()` at `pos`.
proof fn lemma_no_vui(data: Seq<u8>, pos: int, limit: int, n: int, earlier: VuiParameters, stage: int)
    requires
        1 <= stage <= 3,
        stage >= 1 ==> vui_picture_at(earlier, data, pos, limit),
        stage >= 2 ==> vui_display_at(earlier, data, vui_chroma_loc_pos(earlier, pos), limit),
        stage >= 3 ==> vui_timing_part_at(earlier, data, vui_timing_pos(earlier, data, pos, limit), limit, n),
        stage == 1 ==> forall|w: VuiParameters| !vui_display_at(w, data, vui_chroma_loc_pos(earlier, pos), limit),
        stage == 2 ==> forall|w: VuiParameters| !vui_timing_part_at(w, data, vui_timing_pos(earlier, data, pos, limit), limit, n),
        stage == 3 ==> forall|w: VuiParameters| !vui_restriction_at(w, data, vui_restriction_pos(earlier, data, pos, limit, n), limit),
    ensures
        forall|w: VuiParameters| !vui_at(w, data, pos, limit, n),
{
    reveal(vui_at);
    assert forall|w: VuiParameters| !vui_at(w, data, pos, limit, n) by {
        if vui_at(w, data, pos, limit, n) {
            assert(vui_chroma_loc_pos(w, pos) == vui_chroma_loc_pos(earlier, pos));
            if stage >= 2 {
                assert(vui_timing_pos(w, data, pos, limit) == vui_timing_pos(earlier, data, pos, limit));
            }
            if stage >= 3 {
                assert(vui_restriction_pos(w, data, pos, limit, n) == vui_restriction_pos(earlier, data, pos, limit, n));
            }
        }
    }
}

/// Parses `vui_parameters()` from Annex E.2.1.
#[verifier::spinoff_prover]
#[verifier::rlimit(100)]
pub fn parse_vui_parameters(reader: &mut BitReader<'_>, max_num_sub_layers_minus1: u8) -> (r: Result<VuiParameters, SyntaxError>)
    requires
        old(reader).wf(),
    ensures
        final(reader).wf(),
        final(reader).same_input(old(reader)),
        r is Ok <==> exists|v: VuiParameters| vui_at(
            v,
            old(reader).bytes(),
            old(reader).pos(),
            old(reader).limit(),
            max_num_sub_layers_minus1 as int,
        ),
        r matches Ok(v) ==> vui_at(v, old(reader).bytes(), old(reader).pos(), old(reader).limit(), max_num_sub_layers_minus1 as int)
            && final(reader).pos() == vui_end(
            v,
            old(reader).bytes(),
            old(reader).pos(),
            old(reader).limit(),
            max_num_sub_layers_minus1 as int,
        ),
        r matches Err(e) ==> e is UnexpectedEnd || e is ExpGolombOverflow || e == SyntaxError::InvalidSyntaxValue(
            "too many CPB entries",
        ) || e == SyntaxError::InvalidSyntaxValue("maxNumSubLayersMinus1 must be at most 6"),
{
    let ghost data = reader.bytes();
    let ghost pos = reader.pos();
    let ghost limit = reader.limit();
    let ghost n = max_num_sub_layers_minus1 as int;
    let mut v = match parse_vui_picture(reader) {
        Ok(v) => v,
        Err(e) => {
            assert forall|w: VuiParameters| !vui_at(w, data, pos, limit, n) by {
                reveal(vui_at);
            }
            return Err(e);
        },
    };
    let ghost picture = v;
    match parse_vui_display(reader, &mut v) {
        Ok(()) => {},
        Err(e) => {
            proof {
                lemma_no_vui(data, pos, limit, n, picture, 1);
            }
            return Err(e);
        },
    }
    let ghost displayed = v;
    assert(vui_picture_at(v, data, pos, limit));
    match parse_vui_timing_part(reader, &mut v, max_num_sub_layers_minus1) {
        Ok(()) => {},
        Err(e) => {
            proof {
                lemma_no_vui(data, pos, limit, n, displayed, 2);
            }
            return Err(e);
        },
    }
    let ghost timed = v;
    assert(vui_picture_at(v, data, pos, limit));
    assert(vui_display_at(v, data, vui_chroma_loc_pos(v, pos), limit));
    match parse_bitstream_restriction(reader, &mut v) {
        Ok(()) => {},
        Err(e) => {
            proof {
                lemma_no_vui(data, pos, limit, n, timed, 3);
            }
            return Err(e);
        },
    }
    assert(vui_picture_at(v, data, pos, limit));
    assert(vui_display_at(v, data, vui_chroma_loc_pos(v, pos), limit));
    assert(vui_timing_part_at(v, data, vui_timing_pos(v, data, pos, limit), limit, n));
    assert(vui_at(v, data, pos, limit, n)) by {
        reveal(vui_at);
    }
    Ok(v)
}

} // verus!
