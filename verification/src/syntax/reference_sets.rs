//! Short-term reference picture set syntax, `st_ref_pic_set()` of §7.3.7.
use vstd::prelude::*;
use super::bit_reader::{bits_value, lemma_bits_value_bound, ue_at, BitReader};
use super::rbsp::short_read;
use super::SyntaxError;

verus! {

/// One short-term reference picture set from §7.3.7.
#[derive(Clone, Debug, Eq, PartialEq)]
pub struct ShortTermReferencePictureSet {
    /// RPS index in the containing syntax structure.
    pub index: usize,
    /// `inter_ref_pic_set_prediction_flag`.
    pub inter_ref_pic_set_prediction_flag: bool,
    /// Referenced RPS index for inter-predicted sets.
    pub reference_rps_idx: Option<usize>,
    /// `delta_idx_minus1`, present for a slice-created RPS.
    pub delta_idx_minus1: Option<u64>,
    /// `delta_rps_sign`.
    pub delta_rps_sign: Option<bool>,
    /// `abs_delta_rps_minus1`.
    pub abs_delta_rps_minus1: Option<u64>,
    /// `used_by_curr_pic_flag` values for inter-predicted sets.
    pub used_by_curr_pic_flag: Vec<bool>,
    /// `use_delta_flag` values for inter-predicted sets.
    pub use_delta_flag: Vec<bool>,
    /// `num_negative_pics` for directly coded sets.
    pub num_negative_pics: Option<u64>,
    /// `num_positive_pics` for directly coded sets.
    pub num_positive_pics: Option<u64>,
    /// `delta_poc_s0_minus1` values.
    pub delta_poc_s0_minus1: Vec<u64>,
    /// `used_by_curr_pic_s0_flag` values.
    pub used_by_curr_pic_s0_flag: Vec<bool>,
    /// `delta_poc_s1_minus1` values.
    pub delta_poc_s1_minus1: Vec<u64>,
    /// `used_by_curr_pic_s1_flag` values.
    pub used_by_curr_pic_s1_flag: Vec<bool>,
    /// Derived `NumDeltaPocs` for this set.
    pub num_delta_pocs: usize,
}

/// The inter-prediction fields of a set: `(reference_rps_idx, delta_idx_minus1,
/// delta_rps_sign, abs_delta_rps_minus1, used_by_curr_pic_flag, use_delta_flag)`.
pub type InterFields = (Option<usize>, Option<u64>, Option<bool>, Option<u64>, Seq<bool>, Seq<bool>);

/// The directly coded fields of a set: `(num_negative_pics, num_positive_pics,
/// delta_poc_s0_minus1, used_by_curr_pic_s0_flag, delta_poc_s1_minus1,
/// used_by_curr_pic_s1_flag)`.
pub type DirectFields = (Option<u64>, Option<u64>, Seq<u64>, Seq<bool>, Seq<u64>, Seq<bool>);

/// A set as plain values: `(index, inter_ref_pic_set_prediction_flag, inter
/// fields, direct fields, num_delta_pocs)`.
pub type RpsFields = (usize, bool, InterFields, DirectFields, usize);

impl ShortTermReferencePictureSet {
    /// The set's fields as plain values.
    pub open spec fn fields(&self) -> RpsFields {
        (
            self.index,
            self.inter_ref_pic_set_prediction_flag,
            (
                self.reference_rps_idx,
                self.delta_idx_minus1,
                self.delta_rps_sign,
                self.abs_delta_rps_minus1,
                self.used_by_curr_pic_flag@,
                self.use_delta_flag@,
            ),
            (
                self.num_negative_pics,
                self.num_positive_pics,
                self.delta_poc_s0_minus1@,
                self.used_by_curr_pic_s0_flag@,
                self.delta_poc_s1_minus1@,
                self.used_by_curr_pic_s1_flag@,
            ),
            self.num_delta_pocs,
        )
    }
}

/// The outcome of `u(1)` read at `pos`, and the bit offset it leaves.
pub open spec fn flag_outcome(data: Seq<u8>, pos: int, limit: int) -> (Result<bool, SyntaxError>, int) {
    if limit - pos < 1 {
        (Err(short_read(1, pos, limit)), pos)
    } else {
        (Ok(bits_value(data, pos, 1) != 0), pos + 1)
    }
}

/// The `n` directly coded `(delta_poc_minus1, used_by_curr_pic_flag)` pairs read at `pos`.
pub open spec fn delta_entries(data: Seq<u8>, pos: int, limit: int, n: int) -> (Result<Seq<(u64, bool)>, SyntaxError>, int)
    decreases n,
{
    if n <= 0 {
        (Ok(Seq::empty()), pos)
    } else {
        let (prior, p) = delta_entries(data, pos, limit, n - 1);
        match prior {
            Err(e) => (Err(e), p),
            Ok(s) => {
                let (delta, p1) = ue_at(data, p, limit);
                match delta {
                    Err(e) => (Err(e), p1),
                    Ok(d) => {
                        let (flag, p2) = flag_outcome(data, p1, limit);
                        match flag {
                            Err(e) => (Err(e), p2),
                            Ok(f) => (Ok(s.push((d, f))), p2),
                        }
                    },
                }
            },
        }
    }
}

/// The `n` inter-prediction `(used_by_curr_pic_flag, use_delta_flag)` pairs
/// read at `pos`; `use_delta_flag` is read only when the picture is unused.
pub open spec fn inter_entries(data: Seq<u8>, pos: int, limit: int, n: int) -> (Result<Seq<(bool, bool)>, SyntaxError>, int)
    decreases n,
{
    if n <= 0 {
        (Ok(Seq::empty()), pos)
    } else {
        let (prior, p) = inter_entries(data, pos, limit, n - 1);
        match prior {
            Err(e) => (Err(e), p),
            Ok(s) => {
                let (used, p1) = flag_outcome(data, p, limit);
                match used {
                    Err(e) => (Err(e), p1),
                    Ok(true) => (Ok(s.push((true, false))), p1),
                    Ok(false) => {
                        let (use_delta, p2) = flag_outcome(data, p1, limit);
                        match use_delta {
                            Err(e) => (Err(e), p2),
                            Ok(u) => (Ok(s.push((false, u))), p2),
                        }
                    },
                }
            },
        }
    }
}

/// The number of pairs with either flag set: `NumDeltaPocs` of an inter-predicted set.
pub open spec fn count_delta_pocs(s: Seq<(bool, bool)>) -> nat
    decreases s.len(),
{
    if s.len() == 0 {
        0
    } else {
        count_delta_pocs(s.drop_last()) + if s.last().0 || s.last().1 {
            1nat
        } else {
            0nat
        }
    }
}

/// The first components of `s`.
pub open spec fn firsts<A, B>(s: Seq<(A, B)>) -> Seq<A> {
    s.map_values(|p: (A, B)| p.0)
}

/// The second components of `s`.
pub open spec fn seconds<A, B>(s: Seq<(A, B)>) -> Seq<B> {
    s.map_values(|p: (A, B)| p.1)
}

/// The inter-predicted part of `st_ref_pic_set()` after the prediction flag,
/// read at `pos`.
pub open spec fn inter_rps_outcome(data: Seq<u8>, pos: int, limit: int, index: usize, previous: Seq<ShortTermReferencePictureSet>, num_sets: usize) -> (Result<RpsFields, SyntaxError>, int) {
    let (delta_idx, p1) = if index == num_sets {
        let (v, q) = ue_at(data, pos, limit);
        (
            match v {
                Ok(d) => Ok(Some(d)),
                Err(e) => Err(e),
            },
            q,
        )
    } else {
        (Ok(None::<u64>), pos)
    };
    match delta_idx {
        Err(e) => (Err(e), p1),
        Ok(delta_idx_minus1) => {
            let delta = match delta_idx_minus1 {
                Some(d) => d as int,
                None => 0,
            };
            if delta > usize::MAX || delta == usize::MAX {
                (Err(SyntaxError::InvalidSyntaxValue("delta_idx_minus1 is too large")), p1)
            } else if delta + 1 > index {
                (Err(SyntaxError::InvalidSyntaxValue("referenced short-term RPS index is out of range")), p1)
            } else if index - delta - 1 >= previous.len() {
                (Err(SyntaxError::InvalidSyntaxValue("referenced short-term RPS has not been parsed")), p1)
            } else {
                let reference_index = (index - delta - 1) as usize;
                let reference = previous[reference_index as int];
                let (sign, p2) = flag_outcome(data, p1, limit);
                match sign {
                    Err(e) => (Err(e), p2),
                    Ok(delta_rps_sign) => {
                        let (abs, p3) = ue_at(data, p2, limit);
                        match abs {
                            Err(e) => (Err(e), p3),
                            Ok(abs_delta_rps_minus1) => {
                                let (entries, p4) = inter_entries(data, p3, limit, reference.num_delta_pocs + 1);
                                match entries {
                                    Err(e) => (Err(e), p4),
                                    Ok(flags) => (
                                        Ok(
                                            (
                                                index,
                                                true,
                                                (
                                                    Some(reference_index),
                                                    delta_idx_minus1,
                                                    Some(delta_rps_sign),
                                                    Some(abs_delta_rps_minus1),
                                                    firsts(flags),
                                                    seconds(flags),
                                                ),
                                                (None, None, Seq::empty(), Seq::empty(), Seq::empty(), Seq::empty()),
                                                count_delta_pocs(flags) as usize,
                                            ),
                                        ),
                                        p4,
                                    ),
                                }
                            },
                        }
                    },
                }
            }
        },
    }
}

/// The directly coded part of `st_ref_pic_set()` read at `pos`.
pub open spec fn direct_rps_outcome(data: Seq<u8>, pos: int, limit: int, index: usize) -> (Result<RpsFields, SyntaxError>, int) {
    let (negative, p1) = ue_at(data, pos, limit);
    let (positive, p2) = ue_at(data, p1, limit);
    match negative {
        Err(e) => (Err(e), p1),
        Ok(n0) => match positive {
            Err(e) => (Err(e), p2),
            Ok(n1) => if n0 + n1 > u64::MAX {
                (Err(SyntaxError::InvalidSyntaxValue("too many delta POCs")), p2)
            } else {
                let (s0, p3) = delta_entries(data, p2, limit, n0 as int);
                match s0 {
                    Err(e) => (Err(e), p3),
                    Ok(e0) => {
                        let (s1, p4) = delta_entries(data, p3, limit, n1 as int);
                        match s1 {
                            Err(e) => (Err(e), p4),
                            Ok(e1) => if n0 + n1 > usize::MAX {
                                (Err(SyntaxError::InvalidSyntaxValue("too many delta POCs")), p4)
                            } else {
                                (
                                    Ok(
                                        (
                                            index,
                                            false,
                                            (None, None, None, None, Seq::empty(), Seq::empty()),
                                            (Some(n0), Some(n1), firsts(e0), seconds(e0), firsts(e1), seconds(e1)),
                                            (n0 + n1) as usize,
                                        ),
                                    ),
                                    p4,
                                )
                            },
                        }
                    },
                }
            },
        },
    }
}

/// The outcome of `st_ref_pic_set(index)` read at `pos`, and the bit offset it leaves.
pub open spec fn rps_outcome(data: Seq<u8>, pos: int, limit: int, index: usize, previous: Seq<ShortTermReferencePictureSet>, num_sets: usize) -> (Result<RpsFields, SyntaxError>, int) {
    let (flag, p0) = if index != 0 {
        flag_outcome(data, pos, limit)
    } else {
        (Ok(false), pos)
    };
    match flag {
        Err(e) => (Err(e), p0),
        Ok(true) => inter_rps_outcome(data, p0, limit, index, previous, num_sets),
        Ok(false) => direct_rps_outcome(data, p0, limit, index),
    }
}

proof fn lemma_delta_entries_error(data: Seq<u8>, pos: int, limit: int, m: int, n: int)
    requires
        0 <= m <= n,
        delta_entries(data, pos, limit, m).0 is Err,
    ensures
        delta_entries(data, pos, limit, n) == delta_entries(data, pos, limit, m),
    decreases n - m,
{
    if m < n {
        lemma_delta_entries_error(data, pos, limit, m, n - 1);
    }
}

proof fn lemma_inter_entries_error(data: Seq<u8>, pos: int, limit: int, m: int, n: int)
    requires
        0 <= m <= n,
        inter_entries(data, pos, limit, m).0 is Err,
    ensures
        inter_entries(data, pos, limit, n) == inter_entries(data, pos, limit, m),
    decreases n - m,
{
    if m < n {
        lemma_inter_entries_error(data, pos, limit, m, n - 1);
    }
}

pub(crate) fn read_flag(reader: &mut BitReader<'_>) -> (r: Result<bool, SyntaxError>)
    requires
        old(reader).wf(),
    ensures
        final(reader).wf(),
        final(reader).same_input(old(reader)),
        r == flag_outcome(old(reader).bytes(), old(reader).pos(), old(reader).limit()).0,
        final(reader).pos() == flag_outcome(old(reader).bytes(), old(reader).pos(), old(reader).limit()).1,
{
    proof {
        vstd::arithmetic::power2::lemma2_to64();
        lemma_bits_value_bound(reader.bytes(), reader.pos(), 1);
    }
    let bit = reader.read_u(1)?;
    Ok(bit != 0)
}

/// Reads `n` directly coded `(delta_poc_minus1, used_flag)` pairs.
fn read_delta_entries(reader: &mut BitReader<'_>, n: u64) -> (r: Result<(Vec<u64>, Vec<bool>), SyntaxError>)
    requires
        old(reader).wf(),
    ensures
        final(reader).wf(),
        final(reader).same_input(old(reader)),
        ({
            let (expected, end) = delta_entries(old(reader).bytes(), old(reader).pos(), old(reader).limit(), n as int);
            &&& r is Ok <==> expected is Ok
            &&& r matches Err(e) ==> expected == Err::<Seq<(u64, bool)>, SyntaxError>(e)
            &&& r matches Ok((deltas, flags)) ==> deltas@ == firsts(expected.unwrap()) && flags@ == seconds(expected.unwrap())
                && final(reader).pos() == end
        }),
{
    let ghost start = reader.pos();
    let mut deltas: Vec<u64> = Vec::new();
    let mut flags: Vec<bool> = Vec::new();
    let mut k: u64 = 0;
    while k < n
        invariant
            reader.wf(),
            reader.same_input(old(reader)),
            start == old(reader).pos(),
            k <= n,
            delta_entries(reader.bytes(), start, reader.limit(), k as int).0 is Ok,
            delta_entries(reader.bytes(), start, reader.limit(), k as int).1 == reader.pos(),
            deltas@ == firsts(delta_entries(reader.bytes(), start, reader.limit(), k as int).0.unwrap()),
            flags@ == seconds(delta_entries(reader.bytes(), start, reader.limit(), k as int).0.unwrap()),
        decreases n - k,
    {
        let ghost prior = delta_entries(reader.bytes(), start, reader.limit(), k as int).0.unwrap();
        let delta = match reader.read_ue() {
            Ok(v) => v,
            Err(e) => {
                proof {
                    lemma_delta_entries_error(reader.bytes(), start, reader.limit(), k + 1, n as int);
                }
                return Err(e);
            },
        };
        let flag = match read_flag(reader) {
            Ok(f) => f,
            Err(e) => {
                proof {
                    lemma_delta_entries_error(reader.bytes(), start, reader.limit(), k + 1, n as int);
                }
                return Err(e);
            },
        };
        deltas.push(delta);
        flags.push(flag);
        proof {
            assert(firsts(prior.push((delta, flag))) == firsts(prior).push(delta));
            assert(seconds(prior.push((delta, flag))) == seconds(prior).push(flag));
        }
        k += 1;
    }
    Ok((deltas, flags))
}

/// Reads `last + 1` inter-prediction `(used, use_delta)` flag pairs and
/// counts the pairs with a flag set.
fn read_inter_entries(reader: &mut BitReader<'_>, last: usize) -> (r: Result<(Vec<bool>, Vec<bool>, usize), SyntaxError>)
    requires
        old(reader).wf(),
    ensures
        final(reader).wf(),
        final(reader).same_input(old(reader)),
        ({
            let (expected, end) = inter_entries(old(reader).bytes(), old(reader).pos(), old(reader).limit(), last + 1);
            &&& r is Ok <==> expected is Ok
            &&& r matches Err(e) ==> expected == Err::<Seq<(bool, bool)>, SyntaxError>(e)
            &&& r matches Ok((used, use_delta, count)) ==> used@ == firsts(expected.unwrap()) && use_delta@ == seconds(
                expected.unwrap(),
            ) && count == count_delta_pocs(expected.unwrap()) && final(reader).pos() == end
        }),
{
    let ghost start = reader.pos();
    let mut used_flags: Vec<bool> = Vec::new();
    let mut use_delta_flags: Vec<bool> = Vec::new();
    let mut count: usize = 0;
    let mut k: usize = 0;
    loop
        invariant
            reader.wf(),
            reader.same_input(old(reader)),
            start == old(reader).pos(),
            k <= last,
            count <= k,
            reader.pos() >= start + k,
            0 <= start,
            inter_entries(reader.bytes(), start, reader.limit(), k as int).0 is Ok,
            inter_entries(reader.bytes(), start, reader.limit(), k as int).1 == reader.pos(),
            used_flags@ == firsts(inter_entries(reader.bytes(), start, reader.limit(), k as int).0.unwrap()),
            use_delta_flags@ == seconds(inter_entries(reader.bytes(), start, reader.limit(), k as int).0.unwrap()),
            count == count_delta_pocs(inter_entries(reader.bytes(), start, reader.limit(), k as int).0.unwrap()),
            inter_entries(reader.bytes(), start, reader.limit(), k as int).0.unwrap().len() == k,
        decreases last - k,
    {
        let ghost prior = inter_entries(reader.bytes(), start, reader.limit(), k as int).0.unwrap();
        let used = match read_flag(reader) {
            Ok(f) => f,
            Err(e) => {
                proof {
                    lemma_inter_entries_error(reader.bytes(), start, reader.limit(), k + 1, last + 1);
                }
                return Err(e);
            },
        };
        let use_delta = if used {
            false
        } else {
            match read_flag(reader) {
                Ok(f) => f,
                Err(e) => {
                    proof {
                        lemma_inter_entries_error(reader.bytes(), start, reader.limit(), k + 1, last + 1);
                    }
                    return Err(e);
                },
            }
        };
        assert(reader.pos() >= start + k + 1);
        assert(reader.pos() <= usize::MAX);
        used_flags.push(used);
        use_delta_flags.push(use_delta);
        if used || use_delta {
            count += 1;
        }
        proof {
            let next = prior.push((used, use_delta));
            assert(firsts(next) == firsts(prior).push(used));
            assert(seconds(next) == seconds(prior).push(use_delta));
            assert(next.drop_last() == prior);
        }
        if k == last {
            return Ok((used_flags, use_delta_flags, count));
        }
        k += 1;
    }
}

/// Parses one `st_ref_pic_set(stRpsIdx)` syntax structure.
pub fn parse_short_term_reference_picture_set(reader: &mut BitReader<'_>, index: usize, previous_sets: &[ShortTermReferencePictureSet], num_short_term_ref_pic_sets: usize) -> (r: Result<ShortTermReferencePictureSet, SyntaxError>)
    requires
        old(reader).wf(),
    ensures
        final(reader).wf(),
        final(reader).same_input(old(reader)),
        ({
            let (expected, end) = rps_outcome(
                old(reader).bytes(),
                old(reader).pos(),
                old(reader).limit(),
                index,
                previous_sets@,
                num_short_term_ref_pic_sets,
            );
            &&& r is Ok <==> expected is Ok
            &&& r matches Err(e) ==> expected == Err::<RpsFields, SyntaxError>(e)
            &&& r matches Ok(set) ==> set.fields() == expected.unwrap() && final(reader).pos() == end
        }),
{
    let inter_ref_pic_set_prediction_flag = if index != 0 {
        read_flag(reader)?
    } else {
        false
    };
    if inter_ref_pic_set_prediction_flag {
        let delta_idx_minus1 = if index == num_short_term_ref_pic_sets {
            Some(reader.read_ue()?)
        } else {
            None
        };
        let delta_value = match delta_idx_minus1 {
            Some(d) => d,
            None => 0,
        };
        if delta_value >= usize::MAX as u64 {
            return Err(SyntaxError::InvalidSyntaxValue("delta_idx_minus1 is too large"));
        }
        let delta_idx = delta_value as usize;
        if delta_idx + 1 > index {
            return Err(SyntaxError::InvalidSyntaxValue("referenced short-term RPS index is out of range"));
        }
        let reference_rps_idx = index - (delta_idx + 1);
        if reference_rps_idx >= previous_sets.len() {
            return Err(SyntaxError::InvalidSyntaxValue("referenced short-term RPS has not been parsed"));
        }
        let reference_count = previous_sets[reference_rps_idx].num_delta_pocs;
        let delta_rps_sign = read_flag(reader)?;
        let abs_delta_rps_minus1 = reader.read_ue()?;
        let (used_by_curr_pic_flag, use_delta_flag, num_delta_pocs) = read_inter_entries(reader, reference_count)?;
        Ok(
            ShortTermReferencePictureSet {
                index,
                inter_ref_pic_set_prediction_flag,
                reference_rps_idx: Some(reference_rps_idx),
                delta_idx_minus1,
                delta_rps_sign: Some(delta_rps_sign),
                abs_delta_rps_minus1: Some(abs_delta_rps_minus1),
                used_by_curr_pic_flag,
                use_delta_flag,
                num_negative_pics: None,
                num_positive_pics: None,
                delta_poc_s0_minus1: Vec::new(),
                used_by_curr_pic_s0_flag: Vec::new(),
                delta_poc_s1_minus1: Vec::new(),
                used_by_curr_pic_s1_flag: Vec::new(),
                num_delta_pocs,
            },
        )
    } else {
        let num_negative_pics = reader.read_ue()?;
        let num_positive_pics = reader.read_ue()?;
        if num_negative_pics > u64::MAX - num_positive_pics {
            return Err(SyntaxError::InvalidSyntaxValue("too many delta POCs"));
        }
        let num_delta_pocs = num_negative_pics + num_positive_pics;
        let (delta_poc_s0_minus1, used_by_curr_pic_s0_flag) = read_delta_entries(reader, num_negative_pics)?;
        let (delta_poc_s1_minus1, used_by_curr_pic_s1_flag) = read_delta_entries(reader, num_positive_pics)?;
        if num_delta_pocs > usize::MAX as u64 {
            return Err(SyntaxError::InvalidSyntaxValue("too many delta POCs"));
        }
        Ok(
            ShortTermReferencePictureSet {
                index,
                inter_ref_pic_set_prediction_flag,
                reference_rps_idx: None,
                delta_idx_minus1: None,
                delta_rps_sign: None,
                abs_delta_rps_minus1: None,
                used_by_curr_pic_flag: Vec::new(),
                use_delta_flag: Vec::new(),
                num_negative_pics: Some(num_negative_pics),
                num_positive_pics: Some(num_positive_pics),
                delta_poc_s0_minus1,
                used_by_curr_pic_s0_flag,
                delta_poc_s1_minus1,
                used_by_curr_pic_s1_flag,
                num_delta_pocs: num_delta_pocs as usize,
            },
        )
    }
}

/// Slice long-term reference-picture syntax.
#[derive(Clone, Debug, Eq, PartialEq)]
pub struct SliceLongTermReferencePicture {
    /// `lt_idx_sps`, when referring to an SPS candidate.
    pub lt_idx_sps: Option<u64>,
    /// `poc_lsb_lt`, when signalled directly in the slice.
    pub poc_lsb_lt: Option<u64>,
    /// `used_by_curr_pic_lt_flag`, for a directly signalled candidate.
    pub used_by_curr_pic_lt_flag: Option<bool>,
    /// `delta_poc_msb_present_flag`.
    pub delta_poc_msb_present_flag: bool,
    /// `delta_poc_msb_cycle_lt`, when present.
    pub delta_poc_msb_cycle_lt: Option<u64>,
}

/// Reference-picture syntax in a slice-segment header.
#[derive(Clone, Debug, Eq, PartialEq)]
pub struct SliceReferencePictureSet {
    /// `short_term_ref_pic_set_sps_flag`.
    pub short_term_ref_pic_set_sps_flag: bool,
    /// `short_term_ref_pic_set_idx`, when an SPS RPS is selected.
    pub short_term_ref_pic_set_idx: Option<u64>,
    /// Slice-created short-term RPS, when selected.
    pub short_term_ref_pic_set: Option<ShortTermReferencePictureSet>,
    /// `num_long_term_sps`, when SPS long-term candidates exist.
    pub num_long_term_sps: Option<u64>,
    /// `num_long_term_pics`.
    pub num_long_term_pics: u64,
    /// Long-term entries in syntax order.
    pub long_term_pictures: Vec<SliceLongTermReferencePicture>,
}

} // verus!
