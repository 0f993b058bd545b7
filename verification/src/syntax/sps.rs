//! `seq_parameter_set_rbsp()` of §7.3.2.2 up to the SPS extension flag.
use vstd::prelude::*;
use super::bit_reader::{bits_value, lemma_bits_value_bound, ue_at, BitReader};
use super::parameter_sets::{sps_header_at, sps_header_end, SequenceParameterSetHeader};
use super::rbsp::short_read;
use super::reference_sets::{
    flag_outcome, parse_short_term_reference_picture_set, read_flag, rps_outcome, ShortTermReferencePictureSet,
};
use super::scaling::{scaling_outcome, ScalingListData, ScalingMatrixFields};
use super::vui::{parse_vui_parameters, vui_at, vui_end, VuiParameters};
use super::SyntaxError;

verus! {

/// PCM parameters in an SPS.
#[derive(Clone, Copy, Debug, Eq, PartialEq)]
pub struct PcmSyntax {
    /// `pcm_sample_bit_depth_luma_minus1`.
    pub sample_bit_depth_luma_minus1: u8,
    /// `pcm_sample_bit_depth_chroma_minus1`.
    pub sample_bit_depth_chroma_minus1: u8,
    /// `log2_min_pcm_luma_coding_block_size_minus3`.
    pub log2_min_pcm_luma_coding_block_size_minus3: u64,
    /// `log2_diff_max_min_pcm_luma_coding_block_size`.
    pub log2_diff_max_min_pcm_luma_coding_block_size: u64,
    /// `pcm_loop_filter_disabled_flag`.
    pub loop_filter_disabled_flag: bool,
}

/// Long-term reference picture candidates in an SPS.
#[derive(Clone, Debug, Eq, PartialEq)]
pub struct LongTermReferencePictureSetSyntax {
    /// `num_long_term_ref_pics_sps`.
    pub num_long_term_ref_pics_sps: u64,
    /// `lt_ref_pic_poc_lsb_sps` values.
    pub poc_lsb_sps: Vec<u64>,
    /// `used_by_curr_pic_lt_sps_flag` values.
    pub used_by_curr_pic_lt_sps_flag: Vec<bool>,
}

/// The outcome of an `n`-bit `u(n)` field at `pos` and the bit offset it
/// leaves (unchanged on an error).
pub open spec fn bits_at(data: Seq<u8>, pos: int, limit: int, n: usize) -> (Result<u64, SyntaxError>, int) {
    if n > 64 {
        (Err(SyntaxError::InvalidBitCount(n)), pos)
    } else if n > (if limit > pos { limit - pos } else { 0 }) {
        (Err(short_read(n, pos, limit)), pos)
    } else {
        (Ok(bits_value(data, pos, n as nat) as u64), pos + n)
    }
}

pub(crate) fn read_bits_field(reader: &mut BitReader<'_>, n: usize) -> (r: Result<u64, SyntaxError>)
    requires
        old(reader).wf(),
    ensures
        final(reader).wf(),
        final(reader).same_input(old(reader)),
        r == bits_at(old(reader).bytes(), old(reader).pos(), old(reader).limit(), n).0,
        final(reader).pos() == bits_at(old(reader).bytes(), old(reader).pos(), old(reader).limit(), n).1,
{
    reader.read_u(n)
}

/// Scaling-list stage: `(scaling_list_enabled_flag,
/// sps_scaling_list_data_present_flag, scaling list fields)` and the offset
/// after it.
pub open spec fn sps_scaling_outcome(data: Seq<u8>, p: int, limit: int) -> (Result<(bool, bool, Option<Seq<ScalingMatrixFields>>), SyntaxError>, int) {
    let (enabled, p1) = flag_outcome(data, p, limit);
    match enabled {
        Err(e) => (Err(e), p1),
        Ok(en) => {
            let (present, p2) = if en { flag_outcome(data, p1, limit) } else { (Ok(false), p1) };
            match present {
                Err(e) => (Err(e), p2),
                Ok(pr) => if pr {
                    let (list, p3) = scaling_outcome(data, p2, limit);
                    match list {
                        Err(e) => (Err(e), p3),
                        Ok(fields) => (Ok((en, pr, Some(fields))), p3),
                    }
                } else {
                    (Ok((en, pr, None)), p2)
                },
            }
        },
    }
}

/// The fields of an optional PCM block.
pub type PcmFields = (u8, u8, u64, u64, bool);

/// Tool stage: `(amp_enabled_flag, sample_adaptive_offset_enabled_flag,
/// pcm_enabled_flag, PCM fields)` and the offset after it.
pub open spec fn sps_tools_outcome(data: Seq<u8>, p: int, limit: int) -> (Result<(bool, bool, bool, Option<PcmFields>), SyntaxError>, int) {
    let (amp, p1) = flag_outcome(data, p, limit);
    let (sao, p2) = flag_outcome(data, p1, limit);
    let (pcm, p3) = flag_outcome(data, p2, limit);
    match (amp, sao, pcm) {
        (Err(e), _, _) => (Err(e), p1),
        (Ok(_), Err(e), _) => (Err(e), p2),
        (Ok(_), Ok(_), Err(e)) => (Err(e), p3),
        (Ok(a), Ok(s), Ok(false)) => (Ok((a, s, false, None)), p3),
        (Ok(a), Ok(s), Ok(true)) => {
            let (luma, q1) = bits_at(data, p3, limit, 4);
            let (chroma, q2) = bits_at(data, q1, limit, 4);
            let (min, q3) = ue_at(data, q2, limit);
            let (diff, q4) = ue_at(data, q3, limit);
            let (filter, q5) = flag_outcome(data, q4, limit);
            match (luma, chroma, min, diff, filter) {
                (Err(e), _, _, _, _) => (Err(e), q1),
                (Ok(_), Err(e), _, _, _) => (Err(e), q2),
                (Ok(_), Ok(_), Err(e), _, _) => (Err(e), q3),
                (Ok(_), Ok(_), Ok(_), Err(e), _) => (Err(e), q4),
                (Ok(_), Ok(_), Ok(_), Ok(_), Err(e)) => (Err(e), q5),
                (Ok(l), Ok(c), Ok(m), Ok(d), Ok(f)) => (Ok((a, s, true, Some((l as u8, c as u8, m, d, f)))), q5),
            }
        },
    }
}

/// The first `n` long-term entries (`u(bits)` POC LSBs and flags) at `pos`.
pub open spec fn lt_entries(data: Seq<u8>, pos: int, limit: int, bits: usize, n: int) -> (Result<(Seq<u64>, Seq<bool>), SyntaxError>, int)
    decreases n,
{
    if n <= 0 {
        (Ok((Seq::empty(), Seq::empty())), pos)
    } else {
        let (prev, p) = lt_entries(data, pos, limit, bits, n - 1);
        match prev {
            Err(e) => (Err(e), p),
            Ok((lsbs, flags)) => {
                let (lsb, q1) = bits_at(data, p, limit, bits);
                match lsb {
                    Err(e) => (Err(e), q1),
                    Ok(l) => {
                        let (flag, q2) = flag_outcome(data, q1, limit);
                        match flag {
                            Err(e) => (Err(e), q2),
                            Ok(f) => (Ok((lsbs.push(l), flags.push(f))), q2),
                        }
                    },
                }
            },
        }
    }
}

/// The fields of the optional long-term block.
pub type LongTermFields = (u64, Seq<u64>, Seq<bool>);

/// Long-term stage: `(long_term_ref_pics_present_flag, fields)` and the
/// offset after it, for `log2_max_pic_order_cnt_lsb_minus4 = log2_minus4`.
pub open spec fn sps_long_term_outcome(data: Seq<u8>, p: int, limit: int, log2_minus4: u64) -> (Result<(bool, Option<LongTermFields>), SyntaxError>, int) {
    let (present, p1) = flag_outcome(data, p, limit);
    match present {
        Err(e) => (Err(e), p1),
        Ok(false) => (Ok((false, None)), p1),
        Ok(true) => {
            let (num, p2) = ue_at(data, p1, limit);
            match num {
                Err(e) => (Err(e), p2),
                Ok(n) => if n > usize::MAX {
                    (Err(SyntaxError::InvalidSyntaxValue("too many long-term SPS reference pictures")), p2)
                } else if log2_minus4 > u64::MAX - 4 {
                    (Err(SyntaxError::InvalidSyntaxValue("POC LSB bit width overflows")), p2)
                } else if log2_minus4 + 4 > 64 {
                    (Err(SyntaxError::InvalidSyntaxValue("POC LSB bit width must be at most 64")), p2)
                } else {
                    let (entries, p3) = lt_entries(data, p2, limit, (log2_minus4 + 4) as usize, n as int);
                    match entries {
                        Err(e) => (Err(e), p3),
                        Ok((lsbs, flags)) => (Ok((true, Some((n, lsbs, flags)))), p3),
                    }
                },
            }
        },
    }
}

/// Flags stage: `(sps_temporal_mvp_enabled_flag,
/// strong_intra_smoothing_enabled_flag, vui_parameters_present_flag)`.
pub open spec fn sps_flags_outcome(data: Seq<u8>, p: int, limit: int) -> (Result<(bool, bool, bool), SyntaxError>, int) {
    let (a, p1) = flag_outcome(data, p, limit);
    let (b, p2) = flag_outcome(data, p1, limit);
    let (c, p3) = flag_outcome(data, p2, limit);
    match (a, b, c) {
        (Err(e), _, _) => (Err(e), p1),
        (Ok(_), Err(e), _) => (Err(e), p2),
        (Ok(_), Ok(_), Err(e)) => (Err(e), p3),
        (Ok(x), Ok(y), Ok(z)) => (Ok((x, y, z)), p3),
    }
}

fn parse_sps_scaling(reader: &mut BitReader<'_>) -> (r: Result<(bool, bool, Option<ScalingListData>), SyntaxError>)
    requires
        old(reader).wf(),
    ensures
        final(reader).wf(),
        final(reader).same_input(old(reader)),
        ({
            let (expected, end) = sps_scaling_outcome(old(reader).bytes(), old(reader).pos(), old(reader).limit());
            &&& r is Ok ==> final(reader).pos() == end
            &&& match r {
                Ok((a, b, list)) => expected == Ok::<(bool, bool, Option<Seq<ScalingMatrixFields>>), SyntaxError>((
                    a,
                    b,
                    match list {
                        Some(l) => Some(l.fields()),
                        None => None,
                    },
                )),
                Err(e) => expected == Err::<(bool, bool, Option<Seq<ScalingMatrixFields>>), SyntaxError>(e),
            }
        }),
{
    let enabled = match read_flag(reader) {
        Ok(v) => v,
        Err(e) => return Err(e),
    };
    let present = if enabled {
        match read_flag(reader) {
            Ok(v) => v,
            Err(e) => return Err(e),
        }
    } else {
        false
    };
    if present {
        match ScalingListData::parse(reader) {
            Ok(list) => Ok((enabled, present, Some(list))),
            Err(e) => Err(e),
        }
    } else {
        Ok((enabled, present, None))
    }
}

fn read_ue_value(reader: &mut BitReader<'_>) -> (r: Result<u64, SyntaxError>)
    requires
        old(reader).wf(),
    ensures
        final(reader).wf(),
        final(reader).same_input(old(reader)),
        r == ue_at(old(reader).bytes(), old(reader).pos(), old(reader).limit()).0,
        final(reader).pos() == ue_at(old(reader).bytes(), old(reader).pos(), old(reader).limit()).1,
{
    reader.read_ue()
}

fn parse_sps_tools(reader: &mut BitReader<'_>) -> (r: Result<(bool, bool, bool, Option<PcmSyntax>), SyntaxError>)
    requires
        old(reader).wf(),
    ensures
        final(reader).wf(),
        final(reader).same_input(old(reader)),
        ({
            let (expected, end) = sps_tools_outcome(old(reader).bytes(), old(reader).pos(), old(reader).limit());
            &&& r is Ok ==> final(reader).pos() == end
            &&& match r {
                Ok((a, s, p, pcm)) => expected == Ok::<(bool, bool, bool, Option<PcmFields>), SyntaxError>((
                    a,
                    s,
                    p,
                    match pcm {
                        Some(x) => Some(
                            (
                                x.sample_bit_depth_luma_minus1,
                                x.sample_bit_depth_chroma_minus1,
                                x.log2_min_pcm_luma_coding_block_size_minus3,
                                x.log2_diff_max_min_pcm_luma_coding_block_size,
                                x.loop_filter_disabled_flag,
                            ),
                        ),
                        None => None,
                    },
                )),
                Err(e) => expected == Err::<(bool, bool, bool, Option<PcmFields>), SyntaxError>(e),
            }
        }),
{
    let amp = match read_flag(reader) {
        Ok(v) => v,
        Err(e) => return Err(e),
    };
    let sao = match read_flag(reader) {
        Ok(v) => v,
        Err(e) => return Err(e),
    };
    let pcm_enabled = match read_flag(reader) {
        Ok(v) => v,
        Err(e) => return Err(e),
    };
    if !pcm_enabled {
        return Ok((amp, sao, pcm_enabled, None));
    }
    let luma = match read_bits_field(reader, 4) {
        Ok(v) => v,
        Err(e) => return Err(e),
    };
    let chroma = match read_bits_field(reader, 4) {
        Ok(v) => v,
        Err(e) => return Err(e),
    };
    let min = match read_ue_value(reader) {
        Ok(v) => v,
        Err(e) => return Err(e),
    };
    let diff = match read_ue_value(reader) {
        Ok(v) => v,
        Err(e) => return Err(e),
    };
    let filter = match read_flag(reader) {
        Ok(v) => v,
        Err(e) => return Err(e),
    };
    Ok((
        amp,
        sao,
        pcm_enabled,
        Some(
            PcmSyntax {
                sample_bit_depth_luma_minus1: luma as u8,
                sample_bit_depth_chroma_minus1: chroma as u8,
                log2_min_pcm_luma_coding_block_size_minus3: min,
                log2_diff_max_min_pcm_luma_coding_block_size: diff,
                loop_filter_disabled_flag: filter,
            },
        ),
    ))
}

proof fn lemma_lt_error_stays(data: Seq<u8>, pos: int, limit: int, bits: usize, m: int, n: int)
    requires
        0 <= m <= n,
        lt_entries(data, pos, limit, bits, m).0 is Err,
    ensures
        lt_entries(data, pos, limit, bits, n) == lt_entries(data, pos, limit, bits, m),
    decreases n - m,
{
    if m < n {
        lemma_lt_error_stays(data, pos, limit, bits, m, n - 1);
    }
}

fn parse_sps_long_term(reader: &mut BitReader<'_>, log2_minus4: u64) -> (r: Result<(bool, Option<LongTermReferencePictureSetSyntax>), SyntaxError>)
    requires
        old(reader).wf(),
    ensures
        final(reader).wf(),
        final(reader).same_input(old(reader)),
        ({
            let (expected, end) = sps_long_term_outcome(old(reader).bytes(), old(reader).pos(), old(reader).limit(), log2_minus4);
            &&& r is Ok ==> final(reader).pos() == end
            &&& match r {
                Ok((present, lt)) => expected == Ok::<(bool, Option<LongTermFields>), SyntaxError>((
                    present,
                    match lt {
                        Some(x) => Some((x.num_long_term_ref_pics_sps, x.poc_lsb_sps@, x.used_by_curr_pic_lt_sps_flag@)),
                        None => None,
                    },
                )),
                Err(e) => expected == Err::<(bool, Option<LongTermFields>), SyntaxError>(e),
            }
        }),
{
    let ghost data = reader.bytes();
    let ghost limit = reader.limit();
    let ghost p0 = reader.pos();
    let present = match read_flag(reader) {
        Ok(v) => v,
        Err(e) => return Err(e),
    };
    if !present {
        return Ok((false, None));
    }
    let num = match read_ue_value(reader) {
        Ok(v) => v,
        Err(e) => return Err(e),
    };
    if num > usize::MAX as u64 {
        return Err(SyntaxError::InvalidSyntaxValue("too many long-term SPS reference pictures"));
    }
    let count = num as usize;
    if log2_minus4 > u64::MAX - 4 {
        return Err(SyntaxError::InvalidSyntaxValue("POC LSB bit width overflows"));
    }
    let bits = log2_minus4 + 4;
    if bits > 64 {
        return Err(SyntaxError::InvalidSyntaxValue("POC LSB bit width must be at most 64"));
    }
    let bits = bits as usize;
    let ghost start = reader.pos();
    assert(start == ue_at(data, flag_outcome(data, p0, limit).1, limit).1);
    assert(bits == (log2_minus4 + 4) as usize);
    let mut poc_lsb_sps: Vec<u64> = Vec::new();
    let mut used_by_curr_pic_lt_sps_flag: Vec<bool> = Vec::new();
    let mut k: usize = 0;
    while k < count
        invariant
            reader.wf(),
            start == ue_at(data, flag_outcome(data, p0, limit).1, limit).1,
            p0 == old(reader).pos(),
            data == old(reader).bytes(),
            limit == old(reader).limit(),
            bits == (log2_minus4 + 4) as usize,
            num == count,
            flag_outcome(data, p0, limit).0 == Ok::<bool, SyntaxError>(true),
            ue_at(data, flag_outcome(data, p0, limit).1, limit).0 == Ok::<u64, SyntaxError>(num),
            num <= usize::MAX,
            log2_minus4 <= u64::MAX - 4,
            log2_minus4 + 4 <= 64,
            reader.bytes() == data,
            reader.limit() == limit,
            reader.same_input(old(reader)),
            k <= count,
            lt_entries(data, start, limit, bits, k as int) == (
                Ok::<(Seq<u64>, Seq<bool>), SyntaxError>((poc_lsb_sps@, used_by_curr_pic_lt_sps_flag@)),
                reader.pos(),
            ),
        decreases count - k,
    {
        let lsb = match read_bits_field(reader, bits) {
            Ok(v) => v,
            Err(e) => {
                proof {
                    assert(lt_entries(data, start, limit, bits, (k + 1) as int).0 == Err::<(Seq<u64>, Seq<bool>), SyntaxError>(e));
                    lemma_lt_error_stays(data, start, limit, bits, (k + 1) as int, count as int);
                    assert(sps_long_term_outcome(data, p0, limit, log2_minus4).0 == Err::<(bool, Option<LongTermFields>), SyntaxError>(e));
                }
                return Err(e);
            },
        };
        let flag = match read_flag(reader) {
            Ok(v) => v,
            Err(e) => {
                proof {
                    assert(lt_entries(data, start, limit, bits, (k + 1) as int).0 == Err::<(Seq<u64>, Seq<bool>), SyntaxError>(e));
                    lemma_lt_error_stays(data, start, limit, bits, (k + 1) as int, count as int);
                    assert(sps_long_term_outcome(data, p0, limit, log2_minus4).0 == Err::<(bool, Option<LongTermFields>), SyntaxError>(e));
                }
                return Err(e);
            },
        };
        poc_lsb_sps.push(lsb);
        used_by_curr_pic_lt_sps_flag.push(flag);
        k += 1;
    }
    assert(sps_long_term_outcome(data, p0, limit, log2_minus4) == (
        Ok::<(bool, Option<LongTermFields>), SyntaxError>((true, Some((num, poc_lsb_sps@, used_by_curr_pic_lt_sps_flag@)))),
        reader.pos(),
    ));
    Ok((true, Some(LongTermReferencePictureSetSyntax { num_long_term_ref_pics_sps: num, poc_lsb_sps, used_by_curr_pic_lt_sps_flag })))
}

fn parse_sps_flags(reader: &mut BitReader<'_>) -> (r: Result<(bool, bool, bool), SyntaxError>)
    requires
        old(reader).wf(),
    ensures
        final(reader).wf(),
        final(reader).same_input(old(reader)),
        ({
            let (expected, end) = sps_flags_outcome(old(reader).bytes(), old(reader).pos(), old(reader).limit());
            &&& r is Ok ==> final(reader).pos() == end
            &&& match r {
                Ok(v) => expected == Ok::<(bool, bool, bool), SyntaxError>(v),
                Err(e) => expected == Err::<(bool, bool, bool), SyntaxError>(e),
            }
        }),
{
    let a = match read_flag(reader) {
        Ok(v) => v,
        Err(e) => return Err(e),
    };
    let b = match read_flag(reader) {
        Ok(v) => v,
        Err(e) => return Err(e),
    };
    let c = match read_flag(reader) {
        Ok(v) => v,
        Err(e) => return Err(e),
    };
    Ok((a, b, c))
}

/// Parsed SPS syntax up to `sps_extension_present_flag`.
#[derive(Clone, Debug, Eq, PartialEq)]
pub struct SequenceParameterSetSyntax {
    /// Common SPS header fields.
    pub header: SequenceParameterSetHeader,
    /// `scaling_list_enabled_flag`.
    pub scaling_list_enabled_flag: bool,
    /// `sps_scaling_list_data_present_flag`.
    pub sps_scaling_list_data_present_flag: bool,
    /// SPS scaling-list data, when present.
    pub scaling_list_data: Option<ScalingListData>,
    /// `amp_enabled_flag`.
    pub amp_enabled_flag: bool,
    /// `sample_adaptive_offset_enabled_flag`.
    pub sample_adaptive_offset_enabled_flag: bool,
    /// `pcm_enabled_flag`.
    pub pcm_enabled_flag: bool,
    /// PCM parameters, when enabled.
    pub pcm: Option<PcmSyntax>,
    /// `num_short_term_ref_pic_sets`.
    pub num_short_term_ref_pic_sets: u64,
    /// Parsed short-term RPS entries.
    pub short_term_ref_pic_sets: Vec<ShortTermReferencePictureSet>,
    /// `long_term_ref_pics_present_flag`.
    pub long_term_ref_pics_present_flag: bool,
    /// Long-term SPS candidates, when present.
    pub long_term_ref_pic_set: Option<LongTermReferencePictureSetSyntax>,
    /// `sps_temporal_mvp_enabled_flag`.
    pub sps_temporal_mvp_enabled_flag: bool,
    /// `strong_intra_smoothing_enabled_flag`.
    pub strong_intra_smoothing_enabled_flag: bool,
    /// `vui_parameters_present_flag`.
    pub vui_parameters_present_flag: bool,
    /// VUI parameters, when present.
    pub vui_parameters: Option<VuiParameters>,
    /// `sps_extension_present_flag`.
    pub sps_extension_present_flag: bool,
}

/// `r` and the offset `q` are what the SPS header parser states of a header
/// read at `p`.
pub open spec fn header_read(data: Seq<u8>, p: int, limit: int, q: int, r: Result<SequenceParameterSetHeader, SyntaxError>) -> bool {
    &&& (r is Ok <==> exists|h: SequenceParameterSetHeader| sps_header_at(h, data, p, limit))
    &&& (r matches Ok(h) ==> sps_header_at(h, data, p, limit) && q == sps_header_end(h, data, p, limit))
    &&& (r matches Err(e) ==> e is UnexpectedEnd || e is ExpGolombOverflow)
}

/// `r` and the offset `q` are what the VUI parser states of VUI read at `p`
/// for `maxNumSubLayersMinus1 = n`.
pub open spec fn vui_read(data: Seq<u8>, p: int, limit: int, n: u8, q: int, r: Result<VuiParameters, SyntaxError>) -> bool {
    &&& (r is Ok <==> exists|v: VuiParameters| vui_at(v, data, p, limit, n as int))
    &&& (r matches Ok(v) ==> vui_at(v, data, p, limit, n as int) && q == vui_end(v, data, p, limit, n as int))
    &&& (r matches Err(e) ==> e is UnexpectedEnd || e is ExpGolombOverflow || e == SyntaxError::InvalidSyntaxValue("too many CPB entries")
        || e == SyntaxError::InvalidSyntaxValue("maxNumSubLayersMinus1 must be at most 6"))
}

/// The short-term RPS entries `k..n` read at `p` after `prev`, each as
/// `st_ref_pic_set(k)` states, ending at `q` with result `r`.
pub open spec fn rps_list_read(
    data: Seq<u8>,
    p: int,
    limit: int,
    n: usize,
    k: int,
    prev: Seq<ShortTermReferencePictureSet>,
    q: int,
    r: Result<Seq<ShortTermReferencePictureSet>, SyntaxError>,
) -> bool
    decreases n - k,
{
    if k >= n || k < 0 {
        r == Ok::<Seq<ShortTermReferencePictureSet>, SyntaxError>(prev) && q == p
    } else {
        let (o, p2) = rps_outcome(data, p, limit, k as usize, prev, n);
        match o {
            Err(e) => r == Err::<Seq<ShortTermReferencePictureSet>, SyntaxError>(e),
            Ok(f) => exists|set: ShortTermReferencePictureSet| #[trigger] set.fields() == f && rps_list_read(
                data,
                p2,
                limit,
                n,
                k + 1,
                prev.push(set),
                q,
                r,
            ),
        }
    }
}

/// The parts read before the VUI: header, scaling stage, tool stage,
/// `num_short_term_ref_pic_sets`, the RPS entries, the long-term stage and
/// the flags stage.
pub type SpsParts = (
    SequenceParameterSetHeader,
    (bool, bool, Option<Seq<ScalingMatrixFields>>),
    (bool, bool, bool, Option<PcmFields>),
    u64,
    Seq<ShortTermReferencePictureSet>,
    (bool, Option<LongTermFields>),
    (bool, bool, bool),
);

/// `s` holds exactly the parts, the VUI and the extension flag.
pub open spec fn sps_holds(s: SequenceParameterSetSyntax, parts: SpsParts, vui: Option<VuiParameters>, extension: bool) -> bool {
    let (h, sc, tools, num, sets, lt, flags) = parts;
    &&& s.header == h
    &&& s.scaling_list_enabled_flag == sc.0
    &&& s.sps_scaling_list_data_present_flag == sc.1
    &&& sc.2 == match s.scaling_list_data {
        Some(l) => Some(l.fields()),
        None => None,
    }
    &&& s.amp_enabled_flag == tools.0
    &&& s.sample_adaptive_offset_enabled_flag == tools.1
    &&& s.pcm_enabled_flag == tools.2
    &&& tools.3 == match s.pcm {
        Some(x) => Some(
            (
                x.sample_bit_depth_luma_minus1,
                x.sample_bit_depth_chroma_minus1,
                x.log2_min_pcm_luma_coding_block_size_minus3,
                x.log2_diff_max_min_pcm_luma_coding_block_size,
                x.loop_filter_disabled_flag,
            ),
        ),
        None => None,
    }
    &&& s.num_short_term_ref_pic_sets == num
    &&& s.short_term_ref_pic_sets@ == sets
    &&& s.long_term_ref_pics_present_flag == lt.0
    &&& lt.1 == match s.long_term_ref_pic_set {
        Some(x) => Some((x.num_long_term_ref_pics_sps, x.poc_lsb_sps@, x.used_by_curr_pic_lt_sps_flag@)),
        None => None,
    }
    &&& s.sps_temporal_mvp_enabled_flag == flags.0
    &&& s.strong_intra_smoothing_enabled_flag == flags.1
    &&& s.vui_parameters_present_flag == flags.2
    &&& s.vui_parameters == vui
    &&& s.sps_extension_present_flag == extension
}

/// The end of the SPS after the VUI (or its absence) at `p`: the extension
/// flag, then the whole SPS in `r` and the final offset `q`.
pub open spec fn sps_last_read(parts: SpsParts, vui: Option<VuiParameters>, data: Seq<u8>, p: int, limit: int, q: int, r: Result<SequenceParameterSetSyntax, SyntaxError>) -> bool {
    let (ext, p9) = flag_outcome(data, p, limit);
    match ext {
        Err(e) => r == Err::<SequenceParameterSetSyntax, SyntaxError>(e),
        Ok(x) => q == p9 && (r matches Ok(s) && sps_holds(s, parts, vui, x)),
    }
}

/// The SPS from the long-term stage at `p` on, after the RPS entries.
pub open spec fn sps_tail_read(
    h: SequenceParameterSetHeader,
    sc: (bool, bool, Option<Seq<ScalingMatrixFields>>),
    tools: (bool, bool, bool, Option<PcmFields>),
    num: u64,
    sets: Seq<ShortTermReferencePictureSet>,
    data: Seq<u8>,
    p: int,
    limit: int,
    q: int,
    r: Result<SequenceParameterSetSyntax, SyntaxError>,
) -> bool {
    let (lt, p6) = sps_long_term_outcome(data, p, limit, h.log2_max_pic_order_cnt_lsb_minus4);
    match lt {
        Err(e) => r == Err::<SequenceParameterSetSyntax, SyntaxError>(e),
        Ok(ltv) => {
            let (flags, p7) = sps_flags_outcome(data, p6, limit);
            match flags {
                Err(e) => r == Err::<SequenceParameterSetSyntax, SyntaxError>(e),
                Ok(fv) => {
                    let parts = (h, sc, tools, num, sets, ltv, fv);
                    if fv.2 {
                        exists|p8: int, vr: Result<VuiParameters, SyntaxError>|
                            #[trigger] vui_read(data, p7, limit, h.sps_max_sub_layers_minus1, p8, vr) && match vr {
                                Err(e) => r == Err::<SequenceParameterSetSyntax, SyntaxError>(e),
                                Ok(v) => sps_last_read(parts, Some(v), data, p8, limit, q, r),
                            }
                    } else {
                        sps_last_read(parts, None, data, p7, limit, q, r)
                    }
                },
            }
        },
    }
}

/// The SPS after its header `h`, read from `p`.
pub open spec fn sps_body_read(h: SequenceParameterSetHeader, data: Seq<u8>, p: int, limit: int, q: int, r: Result<SequenceParameterSetSyntax, SyntaxError>) -> bool {
    let (sc, p2) = sps_scaling_outcome(data, p, limit);
    match sc {
        Err(e) => r == Err::<SequenceParameterSetSyntax, SyntaxError>(e),
        Ok(scv) => {
            let (tools, p3) = sps_tools_outcome(data, p2, limit);
            match tools {
                Err(e) => r == Err::<SequenceParameterSetSyntax, SyntaxError>(e),
                Ok(tv) => {
                    let (num, p4) = ue_at(data, p3, limit);
                    match num {
                        Err(e) => r == Err::<SequenceParameterSetSyntax, SyntaxError>(e),
                        Ok(nv) => if nv > usize::MAX {
                            r == Err::<SequenceParameterSetSyntax, SyntaxError>(
                                SyntaxError::InvalidSyntaxValue("too many short-term RPS entries"),
                            )
                        } else {
                            exists|p5: int, lr: Result<Seq<ShortTermReferencePictureSet>, SyntaxError>|
                                #[trigger] rps_list_read(data, p4, limit, nv as usize, 0, Seq::empty(), p5, lr) && match lr {
                                    Err(e) => r == Err::<SequenceParameterSetSyntax, SyntaxError>(e),
                                    Ok(sets) => sps_tail_read(h, scv, tv, nv, sets, data, p5, limit, q, r),
                                }
                        },
                    }
                },
            }
        },
    }
}

/// `seq_parameter_set_rbsp()` read at `pos` up to the extension flag gives
/// `r`, leaving the offset `q` when it succeeds: the header as the header
/// parser states, then each stage in syntax order, the first failing stage
/// giving the error.
pub open spec fn sps_read(data: Seq<u8>, pos: int, limit: int, q: int, r: Result<SequenceParameterSetSyntax, SyntaxError>) -> bool {
    exists|p1: int, hr: Result<SequenceParameterSetHeader, SyntaxError>|
        #[trigger] header_read(data, pos, limit, p1, hr) && match hr {
            Err(e) => r == Err::<SequenceParameterSetSyntax, SyntaxError>(e),
            Ok(h) => sps_body_read(h, data, p1, limit, q, r),
        }
}

fn parse_rps_list(reader: &mut BitReader<'_>, count: usize) -> (r: Result<Vec<ShortTermReferencePictureSet>, SyntaxError>)
    requires
        old(reader).wf(),
    ensures
        final(reader).wf(),
        final(reader).same_input(old(reader)),
        rps_list_read(
            old(reader).bytes(),
            old(reader).pos(),
            old(reader).limit(),
            count,
            0,
            Seq::empty(),
            final(reader).pos(),
            match r {
                Ok(v) => Ok(v@),
                Err(e) => Err(e),
            },
        ),
{
    let ghost data = reader.bytes();
    let ghost pos = reader.pos();
    let ghost limit = reader.limit();
    let mut sets: Vec<ShortTermReferencePictureSet> = Vec::new();
    let mut k: usize = 0;
    while k < count
        invariant
            reader.wf(),
            reader.bytes() == data,
            reader.limit() == limit,
            reader.same_input(old(reader)),
            data == old(reader).bytes(),
            limit == old(reader).limit(),
            pos == old(reader).pos(),
            k <= count,
            forall|q: int, res: Result<Seq<ShortTermReferencePictureSet>, SyntaxError>|
                rps_list_read(data, reader.pos(), limit, count, k as int, sets@, q, res) ==> #[trigger] rps_list_read(
                    data,
                    pos,
                    limit,
                    count,
                    0,
                    Seq::empty(),
                    q,
                    res,
                ),
        decreases count - k,
    {
        let ghost before = reader.pos();
        let ghost prev = sets@;
        let set = match parse_short_term_reference_picture_set(reader, k, sets.as_slice(), count) {
            Ok(s) => s,
            Err(e) => {
                proof {
                    assert(rps_list_read(data, before, limit, count, k as int, prev, reader.pos(), Err(e)));
                }
                return Err(e);
            },
        };
        sets.push(set);
        proof {
            assert forall|q: int, res: Result<Seq<ShortTermReferencePictureSet>, SyntaxError>|
                rps_list_read(data, reader.pos(), limit, count, (k + 1) as int, sets@, q, res) implies #[trigger] rps_list_read(
                data,
                pos,
                limit,
                count,
                0,
                Seq::empty(),
                q,
                res,
            ) by {
                assert(sets@ == prev.push(set));
                assert(rps_list_read(data, before, limit, count, k as int, prev, q, res));
            }
        }
        k += 1;
    }
    proof {
        assert(rps_list_read(data, reader.pos(), limit, count, k as int, sets@, reader.pos(), Ok(sets@)));
    }
    Ok(sets)
}

impl SequenceParameterSetSyntax {
    /// Parses the SPS common header, scaling-list data, AMP, SAO, PCM and
    /// short- and long-term reference picture-set syntax, VUI syntax, and the
    /// SPS extension presence flag. The reader stops before SPS extensions.
    #[verifier::spinoff_prover]
    #[verifier::rlimit(100)]
    pub fn parse(reader: &mut BitReader<'_>) -> (r: Result<Self, SyntaxError>)
        requires
            old(reader).wf(),
        ensures
            final(reader).wf(),
            final(reader).same_input(old(reader)),
            sps_read(old(reader).bytes(), old(reader).pos(), old(reader).limit(), final(reader).pos(), r),
    {
        let ghost data = reader.bytes();
        let ghost pos = reader.pos();
        let ghost limit = reader.limit();
        let header = match SequenceParameterSetHeader::parse(reader) {
            Ok(h) => h,
            Err(e) => {
                proof {
                    assert(header_read(data, pos, limit, reader.pos(), Err(e)));
                }
                return Err(e);
            },
        };
        let ghost p1 = reader.pos();
        assert(header_read(data, pos, limit, p1, Ok(header)));
        let (scaling_list_enabled_flag, sps_scaling_list_data_present_flag, scaling_list_data) = match parse_sps_scaling(reader) {
            Ok(v) => v,
            Err(e) => return Err(e),
        };
        let ghost p2 = reader.pos();
        let (amp_enabled_flag, sample_adaptive_offset_enabled_flag, pcm_enabled_flag, pcm) = match parse_sps_tools(reader) {
            Ok(v) => v,
            Err(e) => return Err(e),
        };
        let ghost p3 = reader.pos();
        let num_short_term_ref_pic_sets = match read_ue_value(reader) {
            Ok(v) => v,
            Err(e) => return Err(e),
        };
        if num_short_term_ref_pic_sets > usize::MAX as u64 {
            return Err(SyntaxError::InvalidSyntaxValue("too many short-term RPS entries"));
        }
        let ghost p4 = reader.pos();
        let sets = match parse_rps_list(reader, num_short_term_ref_pic_sets as usize) {
            Ok(v) => v,
            Err(e) => {
                proof {
                    assert(rps_list_read(data, p4, limit, num_short_term_ref_pic_sets as usize, 0, Seq::empty(), reader.pos(), Err(e)));
                }
                return Err(e);
            },
        };
        let ghost p5 = reader.pos();
        assert(rps_list_read(data, p4, limit, num_short_term_ref_pic_sets as usize, 0, Seq::empty(), p5, Ok(sets@)));
        let (long_term_ref_pics_present_flag, long_term_ref_pic_set) = match parse_sps_long_term(
            reader,
            header.log2_max_pic_order_cnt_lsb_minus4,
        ) {
            Ok(v) => v,
            Err(e) => return Err(e),
        };
        let (sps_temporal_mvp_enabled_flag, strong_intra_smoothing_enabled_flag, vui_parameters_present_flag) = match parse_sps_flags(
            reader,
        ) {
            Ok(v) => v,
            Err(e) => return Err(e),
        };
        let ghost p7 = reader.pos();
        let vui_parameters = if vui_parameters_present_flag {
            match parse_vui_parameters(reader, header.sps_max_sub_layers_minus1) {
                Ok(v) => {
                    assert(vui_read(data, p7, limit, header.sps_max_sub_layers_minus1, reader.pos(), Ok(v)));
                    Some(v)
                },
                Err(e) => {
                    proof {
                        assert(vui_read(data, p7, limit, header.sps_max_sub_layers_minus1, reader.pos(), Err(e)));
                    }
                    return Err(e);
                },
            }
        } else {
            None
        };
        let sps_extension_present_flag = match read_flag(reader) {
            Ok(v) => v,
            Err(e) => return Err(e),
        };
        Ok(SequenceParameterSetSyntax {
            header,
            scaling_list_enabled_flag,
            sps_scaling_list_data_present_flag,
            scaling_list_data,
            amp_enabled_flag,
            sample_adaptive_offset_enabled_flag,
            pcm_enabled_flag,
            pcm,
            num_short_term_ref_pic_sets,
            short_term_ref_pic_sets: sets,
            long_term_ref_pics_present_flag,
            long_term_ref_pic_set,
            sps_temporal_mvp_enabled_flag,
            strong_intra_smoothing_enabled_flag,
            vui_parameters_present_flag,
            vui_parameters,
            sps_extension_present_flag,
        })
    }
}

} // verus!
