//! Video and sequence parameter set headers of §7.3.2.1 and §7.3.2.2.
use vstd::prelude::*;
use vstd::arithmetic::power2::pow2;
use super::bit_reader::{bits_value, lemma_bits_value_bound, ue_at, BitReader};
use super::profile::{flag_at, parse_profile_tier_level, profile_tier_level_at, ptl_end, readable, ProfileTierLevel};
use super::SyntaxError;

verus! {

/// The parameter-set ordering values repeated for each sub-layer.
#[derive(Clone, Copy, Debug, Eq, PartialEq)]
pub struct SubLayerOrderingInfo {
    /// `max_dec_pic_buffering_minus1`.
    pub max_dec_pic_buffering_minus1: u64,
    /// `max_num_reorder_pics`.
    pub max_num_reorder_pics: u64,
    /// `max_latency_increase_plus1`.
    pub max_latency_increase_plus1: u64,
}

/// The value of the `ue(v)` field at `pos`, when it decodes.
#[verifier::opaque]
pub open spec fn ue_value(data: Seq<u8>, pos: int, limit: int) -> Result<u64, SyntaxError> {
    ue_at(data, pos, limit).0
}

/// The bit offset just after the `ue(v)` field at `pos`.
#[verifier::opaque]
pub open spec fn ue_end(data: Seq<u8>, pos: int, limit: int) -> int {
    ue_at(data, pos, limit).1
}

/// The bit offset after one ordering entry (three `ue(v)` fields) at `pos`.
pub open spec fn ordering_entry_end(data: Seq<u8>, pos: int, limit: int) -> int {
    ue_end(data, ue_end(data, ue_end(data, pos, limit), limit), limit)
}

/// `e` holds the three `ue(v)` fields of an ordering entry coded at `pos`.
pub open spec fn ordering_entry_at(e: SubLayerOrderingInfo, data: Seq<u8>, pos: int, limit: int) -> bool {
    let p1 = ue_end(data, pos, limit);
    let p2 = ue_end(data, p1, limit);
    &&& ue_value(data, pos, limit) == Ok::<u64, SyntaxError>(e.max_dec_pic_buffering_minus1)
    &&& ue_value(data, p1, limit) == Ok::<u64, SyntaxError>(e.max_num_reorder_pics)
    &&& ue_value(data, p2, limit) == Ok::<u64, SyntaxError>(e.max_latency_increase_plus1)
}

/// The bit offset of ordering entry `i` of a run starting at `pos`.
pub open spec fn ordering_start(data: Seq<u8>, pos: int, limit: int, i: int) -> int
    decreases i,
{
    if i <= 0 {
        pos
    } else {
        ordering_entry_end(data, ordering_start(data, pos, limit, i - 1), limit)
    }
}

/// `entries` are the ordering entries coded one after another from `pos`.
pub open spec fn ordering_run_at(entries: Seq<SubLayerOrderingInfo>, data: Seq<u8>, pos: int, limit: int) -> bool {
    forall|i: int| 0 <= i < entries.len() ==> #[trigger] ordering_entry_at(
        entries[i],
        data,
        ordering_start(data, pos, limit, i as int),
        limit,
    )
}

/// Number of ordering entries coded: all sub-layers, or only the highest.
pub open spec fn ordering_count(present: bool, max_sub_layers_minus1: int) -> nat {
    if present {
        (max_sub_layers_minus1 + 1) as nat
    } else {
        1
    }
}

/// VPS syntax through `vps_timing_info_present_flag`.
#[derive(Clone, Debug, Eq, PartialEq)]
pub struct VideoParameterSetHeader {
    /// `vps_video_parameter_set_id`.
    pub vps_video_parameter_set_id: u8,
    /// `vps_base_layer_internal_flag`.
    pub vps_base_layer_internal_flag: bool,
    /// `vps_base_layer_available_flag`.
    pub vps_base_layer_available_flag: bool,
    /// `vps_max_layers_minus1`.
    pub vps_max_layers_minus1: u8,
    /// `vps_max_sub_layers_minus1`.
    pub vps_max_sub_layers_minus1: u8,
    /// `vps_temporal_id_nesting_flag`.
    pub vps_temporal_id_nesting_flag: bool,
    /// Reserved 16-bit VPS field.
    pub vps_reserved_0xffff_16bits: u16,
    /// Shared profile/tier/level syntax.
    pub profile_tier_level: ProfileTierLevel,
    /// `vps_sub_layer_ordering_info_present_flag`.
    pub vps_sub_layer_ordering_info_present_flag: bool,
    /// Ordering values in ascending sub-layer order.
    pub sub_layer_ordering_info: Vec<SubLayerOrderingInfo>,
    /// `vps_max_layer_id`.
    pub vps_max_layer_id: u8,
    /// `vps_num_layer_sets_minus1`.
    pub vps_num_layer_sets_minus1: u64,
    /// Layer-set inclusion flags, indexed by layer set then layer ID.
    pub layer_id_included_flag: Vec<Vec<bool>>,
    /// `vps_timing_info_present_flag`.
    pub vps_timing_info_present_flag: bool,
}

/// Bit offset of `vps_sub_layer_ordering_info_present_flag`, just after `profile_tier_level()`.
pub open spec fn vps_ordering_flag_pos(h: VideoParameterSetHeader, data: Seq<u8>, pos: int) -> int {
    ptl_end(data, pos + 32, true, h.vps_max_sub_layers_minus1 as int)
}

/// Bit offset of `vps_max_layer_id`.
pub open spec fn vps_layer_id_pos(h: VideoParameterSetHeader, data: Seq<u8>, pos: int, limit: int) -> int {
    ordering_start(
        data,
        vps_ordering_flag_pos(h, data, pos) + 1,
        limit,
        ordering_count(h.vps_sub_layer_ordering_info_present_flag, h.vps_max_sub_layers_minus1 as int) as int,
    )
}

/// Bit offset of the first `layer_id_included_flag`.
pub open spec fn vps_layer_sets_pos(h: VideoParameterSetHeader, data: Seq<u8>, pos: int, limit: int) -> int {
    ue_end(data, vps_layer_id_pos(h, data, pos, limit) + 6, limit)
}

/// Bit offset of `layer_id_included_flag[i][j]`, for layer sets counted from one.
pub open spec fn vps_layer_flag_pos(h: VideoParameterSetHeader, data: Seq<u8>, pos: int, limit: int, i: int, j: int) -> int {
    vps_layer_sets_pos(h, data, pos, limit) + i * (h.vps_max_layer_id + 1) + j
}

/// Bit offset of `vps_timing_info_present_flag`.
pub open spec fn vps_timing_flag_pos(h: VideoParameterSetHeader, data: Seq<u8>, pos: int, limit: int) -> int {
    vps_layer_flag_pos(h, data, pos, limit, h.vps_num_layer_sets_minus1 as int, 0)
}

/// `h` is the VPS header coded at `pos`, entirely before `limit`.
pub open spec fn vps_header_at(h: VideoParameterSetHeader, data: Seq<u8>, pos: int, limit: int) -> bool {
    let n = h.vps_max_sub_layers_minus1 as int;
    let ordering_pos = vps_ordering_flag_pos(h, data, pos);
    let layer_id_pos = vps_layer_id_pos(h, data, pos, limit);
    let sets = h.layer_id_included_flag@;
    &&& readable(pos, limit, 32)
    &&& h.vps_video_parameter_set_id == bits_value(data, pos, 4)
    &&& h.vps_base_layer_internal_flag == flag_at(data, pos + 4)
    &&& h.vps_base_layer_available_flag == flag_at(data, pos + 5)
    &&& h.vps_max_layers_minus1 == bits_value(data, pos + 6, 6)
    &&& h.vps_max_sub_layers_minus1 == bits_value(data, pos + 12, 3)
    &&& h.vps_temporal_id_nesting_flag == flag_at(data, pos + 15)
    &&& h.vps_reserved_0xffff_16bits == bits_value(data, pos + 16, 16)
    &&& ordering_pos <= limit
    &&& profile_tier_level_at(h.profile_tier_level, data, pos + 32, true, n)
    &&& readable(ordering_pos, limit, 1)
    &&& h.vps_sub_layer_ordering_info_present_flag == flag_at(data, ordering_pos)
    &&& h.sub_layer_ordering_info@.len() == ordering_count(h.vps_sub_layer_ordering_info_present_flag, n)
    &&& ordering_run_at(h.sub_layer_ordering_info@, data, ordering_pos + 1, limit)
    &&& readable(layer_id_pos, limit, 6)
    &&& h.vps_max_layer_id == bits_value(data, layer_id_pos, 6)
    &&& ue_value(data, layer_id_pos + 6, limit) == Ok::<u64, SyntaxError>(h.vps_num_layer_sets_minus1)
    &&& sets.len() == h.vps_num_layer_sets_minus1
    &&& forall|i: int| 0 <= i < sets.len() ==> (#[trigger] sets[i])@.len() == h.vps_max_layer_id + 1
    &&& forall|i: int, j: int| 0 <= i < sets.len() && 0 <= j <= h.vps_max_layer_id ==> (#[trigger] sets[i]@[j]) == flag_at(
        data,
        vps_layer_flag_pos(h, data, pos, limit, i, j),
    )
    &&& readable(vps_timing_flag_pos(h, data, pos, limit), limit, 1)
    &&& h.vps_timing_info_present_flag == flag_at(data, vps_timing_flag_pos(h, data, pos, limit))
}

/// The bit offset after `k` consecutive `ue(v)` fields starting at `pos`.
pub open spec fn ue_run_end(data: Seq<u8>, pos: int, limit: int, k: int) -> int
    decreases k,
{
    if k <= 0 {
        pos
    } else {
        ue_end(data, ue_run_end(data, pos, limit, k - 1), limit)
    }
}

/// The `j`-th of consecutive `ue(v)` fields starting at `pos`.
pub open spec fn ue_run_value(data: Seq<u8>, pos: int, limit: int, j: int) -> Result<u64, SyntaxError> {
    ue_value(data, ue_run_end(data, pos, limit, j), limit)
}

/// SPS common header through `max_transform_hierarchy_depth_intra`.
#[derive(Clone, Debug, Eq, PartialEq)]
pub struct SequenceParameterSetHeader {
    /// `sps_video_parameter_set_id`.
    pub sps_video_parameter_set_id: u8,
    /// `sps_max_sub_layers_minus1`.
    pub sps_max_sub_layers_minus1: u8,
    /// `sps_temporal_id_nesting_flag`.
    pub sps_temporal_id_nesting_flag: bool,
    /// Shared profile/tier/level syntax.
    pub profile_tier_level: ProfileTierLevel,
    /// `sps_seq_parameter_set_id`.
    pub sps_seq_parameter_set_id: u64,
    /// `chroma_format_idc`.
    pub chroma_format_idc: u64,
    /// `separate_colour_plane_flag`, when `chroma_format_idc == 3`.
    pub separate_colour_plane_flag: bool,
    /// `pic_width_in_luma_samples`.
    pub pic_width_in_luma_samples: u64,
    /// `pic_height_in_luma_samples`.
    pub pic_height_in_luma_samples: u64,
    /// `conformance_window_flag`.
    pub conformance_window_flag: bool,
    /// Conformance offsets in left, right, top, bottom order.
    pub conformance_window: Option<[u64; 4]>,
    /// `bit_depth_luma_minus8`.
    pub bit_depth_luma_minus8: u64,
    /// `bit_depth_chroma_minus8`.
    pub bit_depth_chroma_minus8: u64,
    /// `log2_max_pic_order_cnt_lsb_minus4`.
    pub log2_max_pic_order_cnt_lsb_minus4: u64,
    /// `sps_sub_layer_ordering_info_present_flag`.
    pub sps_sub_layer_ordering_info_present_flag: bool,
    /// Ordering values in ascending sub-layer order.
    pub sub_layer_ordering_info: Vec<SubLayerOrderingInfo>,
    /// `log2_min_luma_coding_block_size_minus3`.
    pub log2_min_luma_coding_block_size_minus3: u64,
    /// `log2_diff_max_min_luma_coding_block_size`.
    pub log2_diff_max_min_luma_coding_block_size: u64,
    /// `log2_min_luma_transform_block_size_minus2`.
    pub log2_min_luma_transform_block_size_minus2: u64,
    /// `log2_diff_max_min_luma_transform_block_size`.
    pub log2_diff_max_min_luma_transform_block_size: u64,
    /// `max_transform_hierarchy_depth_inter`.
    pub max_transform_hierarchy_depth_inter: u64,
    /// `max_transform_hierarchy_depth_intra`.
    pub max_transform_hierarchy_depth_intra: u64,
}

/// Bit offset of `sps_seq_parameter_set_id`, just after `profile_tier_level()`.
pub open spec fn sps_id_pos(h: SequenceParameterSetHeader, data: Seq<u8>, pos: int) -> int {
    ptl_end(data, pos + 8, true, h.sps_max_sub_layers_minus1 as int)
}

/// Bit offset of `pic_width_in_luma_samples`.
pub open spec fn sps_size_pos(h: SequenceParameterSetHeader, data: Seq<u8>, pos: int, limit: int) -> int {
    let p = ue_run_end(data, sps_id_pos(h, data, pos), limit, 2);
    if h.chroma_format_idc == 3 {
        p + 1
    } else {
        p
    }
}

/// Bit offset of `conformance_window_flag`.
pub open spec fn sps_window_flag_pos(h: SequenceParameterSetHeader, data: Seq<u8>, pos: int, limit: int) -> int {
    ue_run_end(data, sps_size_pos(h, data, pos, limit), limit, 2)
}

/// Bit offset of `bit_depth_luma_minus8`.
pub open spec fn sps_depth_pos(h: SequenceParameterSetHeader, data: Seq<u8>, pos: int, limit: int) -> int {
    let p = sps_window_flag_pos(h, data, pos, limit) + 1;
    if h.conformance_window_flag {
        ue_run_end(data, p, limit, 4)
    } else {
        p
    }
}

/// Bit offset of `sps_sub_layer_ordering_info_present_flag`.
pub open spec fn sps_ordering_flag_pos(h: SequenceParameterSetHeader, data: Seq<u8>, pos: int, limit: int) -> int {
    ue_run_end(data, sps_depth_pos(h, data, pos, limit), limit, 3)
}

/// Bit offset of `log2_min_luma_coding_block_size_minus3`.
pub open spec fn sps_block_sizes_pos(h: SequenceParameterSetHeader, data: Seq<u8>, pos: int, limit: int) -> int {
    ordering_start(
        data,
        sps_ordering_flag_pos(h, data, pos, limit) + 1,
        limit,
        ordering_count(h.sps_sub_layer_ordering_info_present_flag, h.sps_max_sub_layers_minus1 as int) as int,
    )
}

/// Bit offset just after the SPS common header.
pub open spec fn sps_header_end(h: SequenceParameterSetHeader, data: Seq<u8>, pos: int, limit: int) -> int {
    ue_run_end(data, sps_block_sizes_pos(h, data, pos, limit), limit, 6)
}

/// `h` is the SPS common header coded at `pos`, entirely before `limit`.
pub open spec fn sps_header_at(h: SequenceParameterSetHeader, data: Seq<u8>, pos: int, limit: int) -> bool {
    let n = h.sps_max_sub_layers_minus1 as int;
    let id_pos = sps_id_pos(h, data, pos);
    let chroma_end = ue_run_end(data, id_pos, limit, 2);
    let size_pos = sps_size_pos(h, data, pos, limit);
    let window_pos = sps_window_flag_pos(h, data, pos, limit);
    let depth_pos = sps_depth_pos(h, data, pos, limit);
    let ordering_pos = sps_ordering_flag_pos(h, data, pos, limit);
    let sizes_pos = sps_block_sizes_pos(h, data, pos, limit);
    &&& readable(pos, limit, 8)
    &&& h.sps_video_parameter_set_id == bits_value(data, pos, 4)
    &&& h.sps_max_sub_layers_minus1 == bits_value(data, pos + 4, 3)
    &&& h.sps_temporal_id_nesting_flag == flag_at(data, pos + 7)
    &&& id_pos <= limit
    &&& profile_tier_level_at(h.profile_tier_level, data, pos + 8, true, n)
    &&& ue_run_value(data, id_pos, limit, 0) == Ok::<u64, SyntaxError>(h.sps_seq_parameter_set_id)
    &&& ue_run_value(data, id_pos, limit, 1) == Ok::<u64, SyntaxError>(h.chroma_format_idc)
    &&& (h.chroma_format_idc == 3 ==> readable(chroma_end, limit, 1) && h.separate_colour_plane_flag == flag_at(
        data,
        chroma_end,
    ))
    &&& (h.chroma_format_idc != 3 ==> !h.separate_colour_plane_flag)
    &&& ue_run_value(data, size_pos, limit, 0) == Ok::<u64, SyntaxError>(h.pic_width_in_luma_samples)
    &&& ue_run_value(data, size_pos, limit, 1) == Ok::<u64, SyntaxError>(h.pic_height_in_luma_samples)
    &&& readable(window_pos, limit, 1)
    &&& h.conformance_window_flag == flag_at(data, window_pos)
    &&& (h.conformance_window is Some <==> h.conformance_window_flag)
    &&& (h.conformance_window matches Some(w) ==> {
        &&& ue_run_value(data, window_pos + 1, limit, 0) == Ok::<u64, SyntaxError>(w@[0])
        &&& ue_run_value(data, window_pos + 1, limit, 1) == Ok::<u64, SyntaxError>(w@[1])
        &&& ue_run_value(data, window_pos + 1, limit, 2) == Ok::<u64, SyntaxError>(w@[2])
        &&& ue_run_value(data, window_pos + 1, limit, 3) == Ok::<u64, SyntaxError>(w@[3])
    })
    &&& ue_run_value(data, depth_pos, limit, 0) == Ok::<u64, SyntaxError>(h.bit_depth_luma_minus8)
    &&& ue_run_value(data, depth_pos, limit, 1) == Ok::<u64, SyntaxError>(h.bit_depth_chroma_minus8)
    &&& ue_run_value(data, depth_pos, limit, 2) == Ok::<u64, SyntaxError>(h.log2_max_pic_order_cnt_lsb_minus4)
    &&& readable(ordering_pos, limit, 1)
    &&& h.sps_sub_layer_ordering_info_present_flag == flag_at(data, ordering_pos)
    &&& h.sub_layer_ordering_info@.len() == ordering_count(h.sps_sub_layer_ordering_info_present_flag, n)
    &&& ordering_run_at(h.sub_layer_ordering_info@, data, ordering_pos + 1, limit)
    &&& ue_run_value(data, sizes_pos, limit, 0) == Ok::<u64, SyntaxError>(h.log2_min_luma_coding_block_size_minus3)
    &&& ue_run_value(data, sizes_pos, limit, 1) == Ok::<u64, SyntaxError>(h.log2_diff_max_min_luma_coding_block_size)
    &&& ue_run_value(data, sizes_pos, limit, 2) == Ok::<u64, SyntaxError>(h.log2_min_luma_transform_block_size_minus2)
    &&& ue_run_value(data, sizes_pos, limit, 3) == Ok::<u64, SyntaxError>(h.log2_diff_max_min_luma_transform_block_size)
    &&& ue_run_value(data, sizes_pos, limit, 4) == Ok::<u64, SyntaxError>(h.max_transform_hierarchy_depth_inter)
    &&& ue_run_value(data, sizes_pos, limit, 5) == Ok::<u64, SyntaxError>(h.max_transform_hierarchy_depth_intra)
}

/// Reads one `u(n)` field of at most 32 bits.
pub(crate) fn read_field(reader: &mut BitReader<'_>, n: usize) -> (r: Result<u64, SyntaxError>)
    requires
        old(reader).wf(),
        1 <= n <= 32,
    ensures
        final(reader).wf(),
        final(reader).same_input(old(reader)),
        r is Ok <==> readable(old(reader).pos(), old(reader).limit(), n as int),
        r matches Ok(v) ==> v == bits_value(old(reader).bytes(), old(reader).pos(), n as nat) && v < 0x1_0000_0000
            && v < pow2(n as nat) && final(reader).pos() == old(reader).pos() + n,
        r matches Err(e) ==> e is UnexpectedEnd,
{
    proof {
        vstd::arithmetic::power2::lemma2_to64();
        lemma_bits_value_bound(reader.bytes(), reader.pos(), n as nat);
        if n < 32 {
            vstd::arithmetic::power2::lemma_pow2_strictly_increases(n as nat, 32);
        }
    }
    reader.read_u(n)
}

/// Reads one `ue(v)` field.
pub(crate) fn read_ue_field(reader: &mut BitReader<'_>) -> (r: Result<u64, SyntaxError>)
    requires
        old(reader).wf(),
    ensures
        final(reader).wf(),
        final(reader).same_input(old(reader)),
        r == ue_value(old(reader).bytes(), old(reader).pos(), old(reader).limit()),
        r is Ok ==> final(reader).pos() == ue_end(old(reader).bytes(), old(reader).pos(), old(reader).limit()),
        r matches Err(e) ==> e is UnexpectedEnd || e is ExpGolombOverflow,
{
    proof {
        reveal(ue_value);
        reveal(ue_end);
    }
    reader.read_ue()
}

/// Reads `count` consecutive ordering entries.
fn parse_ordering_run(reader: &mut BitReader<'_>, count: usize) -> (r: Result<Vec<SubLayerOrderingInfo>, SyntaxError>)
    requires
        old(reader).wf(),
    ensures
        final(reader).wf(),
        final(reader).same_input(old(reader)),
        r is Ok <==> exists|s: Seq<SubLayerOrderingInfo>|
            s.len() == count && ordering_run_at(s, old(reader).bytes(), old(reader).pos(), old(reader).limit()),
        r matches Ok(v) ==> v@.len() == count && ordering_run_at(v@, old(reader).bytes(), old(reader).pos(), old(reader).limit())
            && final(reader).pos() == ordering_start(old(reader).bytes(), old(reader).pos(), old(reader).limit(), count as int),
        r matches Err(e) ==> e is UnexpectedEnd || e is ExpGolombOverflow,
{
    let ghost data = reader.bytes();
    let ghost pos = reader.pos();
    let ghost limit = reader.limit();
    let mut entries: Vec<SubLayerOrderingInfo> = Vec::new();
    let mut i: usize = 0;
    while i < count
        invariant
            reader.wf(),
            reader.same_input(old(reader)),
            data == old(reader).bytes(),
            pos == old(reader).pos(),
            limit == old(reader).limit(),
            i <= count,
            entries@.len() == i,
            ordering_run_at(entries@, data, pos, limit),
            reader.pos() == ordering_start(data, pos, limit, i as int),
        decreases count - i,
    {
        let ghost p = reader.pos();
        let a = read_ue_field(reader);
        let a = match a {
            Ok(v) => v,
            Err(e) => {
                proof {
                    lemma_ordering_run_blocked(data, pos, limit, i as nat, count as nat);
                }
                return Err(e);
            },
        };
        let b = read_ue_field(reader);
        let b = match b {
            Ok(v) => v,
            Err(e) => {
                proof {
                    lemma_ordering_run_blocked(data, pos, limit, i as nat, count as nat);
                }
                return Err(e);
            },
        };
        let c = read_ue_field(reader);
        let c = match c {
            Ok(v) => v,
            Err(e) => {
                proof {
                    lemma_ordering_run_blocked(data, pos, limit, i as nat, count as nat);
                }
                return Err(e);
            },
        };
        let entry = SubLayerOrderingInfo {
            max_dec_pic_buffering_minus1: a,
            max_num_reorder_pics: b,
            max_latency_increase_plus1: c,
        };
        assert(ordering_entry_at(entry, data, p, limit));
        let ghost before = entries@;
        entries.push(entry);
        i += 1;
        assert forall|k: int| 0 <= k < entries@.len() implies #[trigger] ordering_entry_at(
            entries@[k],
            data,
            ordering_start(data, pos, limit, k),
            limit,
        ) by {
            if k < i - 1 {
                assert(entries@[k] == before[k]);
            }
        }
    }
    Ok(entries)
}

impl VideoParameterSetHeader {
    /// Parses the VPS through its timing-info presence flag.
    #[verifier::spinoff_prover]
    #[verifier::rlimit(80)]
    pub fn parse(reader: &mut BitReader<'_>) -> (r: Result<Self, SyntaxError>)
        requires
            old(reader).wf(),
        ensures
            final(reader).wf(),
            final(reader).same_input(old(reader)),
            r is Ok <==> exists|h: VideoParameterSetHeader| vps_header_at(
                h,
                old(reader).bytes(),
                old(reader).pos(),
                old(reader).limit(),
            ),
            r matches Ok(h) ==> vps_header_at(h, old(reader).bytes(), old(reader).pos(), old(reader).limit())
                && final(reader).pos() == vps_timing_flag_pos(h, old(reader).bytes(), old(reader).pos(), old(reader).limit()) + 1,
            r matches Err(e) ==> e is UnexpectedEnd || e is ExpGolombOverflow,
    {
        let ghost data = reader.bytes();
        let ghost pos = reader.pos();
        let ghost limit = reader.limit();
        proof {
            vstd::arithmetic::power2::lemma2_to64();
        }
        let vps_video_parameter_set_id = read_field(reader, 4)? as u8;
        let vps_base_layer_internal_flag = read_field(reader, 1)? != 0;
        let vps_base_layer_available_flag = read_field(reader, 1)? != 0;
        let vps_max_layers_minus1 = read_field(reader, 6)? as u8;
        let vps_max_sub_layers_minus1 = read_field(reader, 3)? as u8;
        let vps_temporal_id_nesting_flag = read_field(reader, 1)? != 0;
        let vps_reserved_0xffff_16bits = read_field(reader, 16)? as u16;
        let profile_tier_level = parse_profile_tier_level(reader, true, vps_max_sub_layers_minus1)?;
        let vps_sub_layer_ordering_info_present_flag = read_field(reader, 1)? != 0;
        let count: usize = if vps_sub_layer_ordering_info_present_flag {
            vps_max_sub_layers_minus1 as usize + 1
        } else {
            1
        };
        let sub_layer_ordering_info = parse_ordering_run(reader, count)?;
        let vps_max_layer_id = read_field(reader, 6)? as u8;
        let vps_num_layer_sets_minus1 = read_ue_field(reader)?;
        let ghost sets_pos = reader.pos();
        let width: usize = vps_max_layer_id as usize + 1;
        assert forall|h: VideoParameterSetHeader| #[trigger] vps_header_at(h, data, pos, limit) implies h.vps_max_layer_id
            == vps_max_layer_id && h.vps_num_layer_sets_minus1 == vps_num_layer_sets_minus1 && vps_layer_sets_pos(
            h,
            data,
            pos,
            limit,
        ) == sets_pos by {}
        let mut layer_id_included_flag: Vec<Vec<bool>> = Vec::new();
        let mut i: u64 = 0;
        while i < vps_num_layer_sets_minus1
            invariant
                reader.wf(),
                reader.same_input(old(reader)),
                data == old(reader).bytes(),
                pos == old(reader).pos(),
                limit == old(reader).limit(),
                width == vps_max_layer_id + 1,
                i <= vps_num_layer_sets_minus1,
                reader.pos() == sets_pos + i * width,
                layer_id_included_flag@.len() == i,
                forall|k: int| 0 <= k < i ==> (#[trigger] layer_id_included_flag@[k])@.len() == width,
                forall|k: int, j: int| 0 <= k < i && 0 <= j < width ==> (#[trigger] layer_id_included_flag@[k]@[j])
                    == flag_at(data, sets_pos + k * width + j),
                forall|h: VideoParameterSetHeader| #[trigger] vps_header_at(h, data, pos, limit) ==> h.vps_max_layer_id
                    == vps_max_layer_id && h.vps_num_layer_sets_minus1 == vps_num_layer_sets_minus1 && vps_layer_sets_pos(
                    h,
                    data,
                    pos,
                    limit,
                ) == sets_pos,
            decreases vps_num_layer_sets_minus1 - i,
        {
            let mut layer_set: Vec<bool> = Vec::new();
            let mut j: usize = 0;
            while j < width
                invariant
                    reader.wf(),
                    reader.same_input(old(reader)),
                    data == old(reader).bytes(),
                    pos == old(reader).pos(),
                    limit == old(reader).limit(),
                    width == vps_max_layer_id + 1,
                    i < vps_num_layer_sets_minus1,
                    j <= width,
                    reader.pos() == sets_pos + i * width + j,
                    layer_set@.len() == j,
                    forall|k: int| 0 <= k < j ==> #[trigger] layer_set@[k] == flag_at(data, sets_pos + i * width + k),
                    forall|h: VideoParameterSetHeader| #[trigger] vps_header_at(h, data, pos, limit) ==> h.vps_max_layer_id
                        == vps_max_layer_id && h.vps_num_layer_sets_minus1 == vps_num_layer_sets_minus1
                        && vps_layer_sets_pos(h, data, pos, limit) == sets_pos,
                decreases width - j,
            {
                let bit = match read_field(reader, 1) {
                    Ok(b) => b,
                    Err(e) => {
                        assert(i * width + j < vps_num_layer_sets_minus1 * width) by (nonlinear_arith)
                            requires
                                i < vps_num_layer_sets_minus1,
                                j < width,
                        ;
                        assert forall|h: VideoParameterSetHeader| !vps_header_at(h, data, pos, limit) by {
                            if vps_header_at(h, data, pos, limit) {
                                assert(vps_timing_flag_pos(h, data, pos, limit) == sets_pos + vps_num_layer_sets_minus1 * width);
                            }
                        }
                        return Err(e);
                    },
                };
                layer_set.push(bit != 0);
                j += 1;
            }
            assert(sets_pos + i * width + width == sets_pos + (i + 1) * width) by (nonlinear_arith);
            layer_id_included_flag.push(layer_set);
            i += 1;
        }
        let timing = read_field(reader, 1);
        let vps_timing_info_present_flag = match timing {
            Ok(b) => b != 0,
            Err(e) => {
                assert forall|h: VideoParameterSetHeader| !vps_header_at(h, data, pos, limit) by {
                    if vps_header_at(h, data, pos, limit) {
                        assert(vps_timing_flag_pos(h, data, pos, limit) == sets_pos + vps_num_layer_sets_minus1 * width);
                    }
                }
                return Err(e);
            },
        };
        let h = VideoParameterSetHeader {
            vps_video_parameter_set_id,
            vps_base_layer_internal_flag,
            vps_base_layer_available_flag,
            vps_max_layers_minus1,
            vps_max_sub_layers_minus1,
            vps_temporal_id_nesting_flag,
            vps_reserved_0xffff_16bits,
            profile_tier_level,
            vps_sub_layer_ordering_info_present_flag,
            sub_layer_ordering_info,
            vps_max_layer_id,
            vps_num_layer_sets_minus1,
            layer_id_included_flag,
            vps_timing_info_present_flag,
        };
        assert(vps_header_at(h, data, pos, limit));
        Ok(h)
    }
}

impl SequenceParameterSetHeader {
    /// Parses the SPS common header through `max_transform_hierarchy_depth_intra`,
    /// leaving the following `scaling_list_enabled_flag` unread.
    #[verifier::spinoff_prover]
    #[verifier::rlimit(80)]
    pub fn parse(reader: &mut BitReader<'_>) -> (r: Result<Self, SyntaxError>)
        requires
            old(reader).wf(),
        ensures
            final(reader).wf(),
            final(reader).same_input(old(reader)),
            r is Ok <==> exists|h: SequenceParameterSetHeader| sps_header_at(
                h,
                old(reader).bytes(),
                old(reader).pos(),
                old(reader).limit(),
            ),
            r matches Ok(h) ==> sps_header_at(h, old(reader).bytes(), old(reader).pos(), old(reader).limit())
                && final(reader).pos() == sps_header_end(h, old(reader).bytes(), old(reader).pos(), old(reader).limit()),
            r matches Err(e) ==> e is UnexpectedEnd || e is ExpGolombOverflow,
    {
        let ghost data = reader.bytes();
        let ghost pos = reader.pos();
        let ghost limit = reader.limit();
        proof {
            reveal_with_fuel(ue_run_end, 7);
            vstd::arithmetic::power2::lemma2_to64();
        }
        let sps_video_parameter_set_id = read_field(reader, 4)? as u8;
        let sps_max_sub_layers_minus1 = read_field(reader, 3)? as u8;
        let sps_temporal_id_nesting_flag = read_field(reader, 1)? != 0;
        let profile_tier_level = parse_profile_tier_level(reader, true, sps_max_sub_layers_minus1)?;
        let sps_seq_parameter_set_id = read_ue_field(reader)?;
        let chroma_format_idc = read_ue_field(reader)?;
        let separate_colour_plane_flag = if chroma_format_idc == 3 {
            read_field(reader, 1)? != 0
        } else {
            false
        };
        let pic_width_in_luma_samples = read_ue_field(reader)?;
        let pic_height_in_luma_samples = read_ue_field(reader)?;
        let conformance_window_flag = read_field(reader, 1)? != 0;
        let conformance_window = if conformance_window_flag {
            let left = read_ue_field(reader)?;
            let right = read_ue_field(reader)?;
            let top = read_ue_field(reader)?;
            let bottom = read_ue_field(reader)?;
            Some([left, right, top, bottom])
        } else {
            None
        };
        let bit_depth_luma_minus8 = read_ue_field(reader)?;
        let bit_depth_chroma_minus8 = read_ue_field(reader)?;
        let log2_max_pic_order_cnt_lsb_minus4 = read_ue_field(reader)?;
        let sps_sub_layer_ordering_info_present_flag = read_field(reader, 1)? != 0;
        let count: usize = if sps_sub_layer_ordering_info_present_flag {
            sps_max_sub_layers_minus1 as usize + 1
        } else {
            1
        };
        let sub_layer_ordering_info = parse_ordering_run(reader, count)?;
        let log2_min_luma_coding_block_size_minus3 = read_ue_field(reader)?;
        let log2_diff_max_min_luma_coding_block_size = read_ue_field(reader)?;
        let log2_min_luma_transform_block_size_minus2 = read_ue_field(reader)?;
        let log2_diff_max_min_luma_transform_block_size = read_ue_field(reader)?;
        let max_transform_hierarchy_depth_inter = read_ue_field(reader)?;
        let max_transform_hierarchy_depth_intra = read_ue_field(reader)?;
        let h = SequenceParameterSetHeader {
            sps_video_parameter_set_id,
            sps_max_sub_layers_minus1,
            sps_temporal_id_nesting_flag,
            profile_tier_level,
            sps_seq_parameter_set_id,
            chroma_format_idc,
            separate_colour_plane_flag,
            pic_width_in_luma_samples,
            pic_height_in_luma_samples,
            conformance_window_flag,
            conformance_window,
            bit_depth_luma_minus8,
            bit_depth_chroma_minus8,
            log2_max_pic_order_cnt_lsb_minus4,
            sps_sub_layer_ordering_info_present_flag,
            sub_layer_ordering_info,
            log2_min_luma_coding_block_size_minus3,
            log2_diff_max_min_luma_coding_block_size,
            log2_min_luma_transform_block_size_minus2,
            log2_diff_max_min_luma_transform_block_size,
            max_transform_hierarchy_depth_inter,
            max_transform_hierarchy_depth_intra,
        };
        assert(sps_header_at(h, data, pos, limit));
        Ok(h)
    }
}

/// Where entry `i` of a run does not decode, no run of more than `i` entries is coded there.
proof fn lemma_ordering_run_blocked(data: Seq<u8>, pos: int, limit: int, i: nat, count: nat)
    requires
        i < count,
        !(exists|e: SubLayerOrderingInfo| ordering_entry_at(e, data, ordering_start(data, pos, limit, i as int), limit)),
    ensures
        !(exists|s: Seq<SubLayerOrderingInfo>| s.len() == count && ordering_run_at(s, data, pos, limit)),
{
    if exists|s: Seq<SubLayerOrderingInfo>| s.len() == count && ordering_run_at(s, data, pos, limit) {
        let s = choose|s: Seq<SubLayerOrderingInfo>| s.len() == count && ordering_run_at(s, data, pos, limit);
        assert(ordering_entry_at(s[i as int], data, ordering_start(data, pos, limit, i as int), limit));
    }
}

} // verus!
