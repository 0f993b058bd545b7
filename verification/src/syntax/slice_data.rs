//! `slice_segment_data()` syntax structures of §7.3.8 read from CABAC `ae(v)` values.
use vstd::prelude::*;
use super::cabac::{decode_at, lemma_decision_range, lemma_valid_decision, CabacDecoder};
use super::SyntaxError;

verus! {

/// A source of `ae(v)` values for the Clause 7 slice-data parsers.
pub trait CabacReader: Sized {
    /// `after` is this reader after one `ae(v)` read with outcome `r`.
    spec fn ae_read(&self, after: &Self, r: Result<u64, SyntaxError>) -> bool;

    /// The reader is ready to decode its next `ae(v)` value.
    spec fn can_read(&self) -> bool;

    /// Reads one context-adaptive arithmetic-coded syntax value.
    fn read_ae(&mut self) -> (r: Result<u64, SyntaxError>)
        requires
            old(self).can_read(),
        ensures
            old(self).ae_read(final(self), r),
            r is Ok ==> final(self).can_read(),
    ;
}

impl<'a> CabacReader for CabacDecoder<'a> {
    /// One context-coded decision on context 0.
    open spec fn ae_read(&self, after: &Self, r: Result<u64, SyntaxError>) -> bool {
        decode_at(self, after, 0, r) && after.wf()
    }

    open spec fn can_read(&self) -> bool {
        self.wf() && self.range() >= 256
    }

    fn read_ae(&mut self) -> (r: Result<u64, SyntaxError>) {
        proof {
            lemma_valid_decision(*self, 0);
        }
        let r = self.decode_decision(0);
        proof {
            lemma_decision_range(*old(self), *self, 0, r);
        }
        r
    }
}

/// Cross-component prediction syntax from §7.3.8.12.
#[derive(Clone, Copy, Debug, Eq, PartialEq)]
pub struct CrossComponentPredictionSyntax {
    /// `log2_res_scale_abs_plus1`.
    pub log2_res_scale_abs_plus1: u64,
    /// `res_scale_sign_flag`, when the absolute scale is non-zero.
    pub res_scale_sign_flag: Option<bool>,
}

/// An optional `ae(v)` read: none when `present` is false, otherwise one
/// read from `before` to `after`; `r` carries the value or the error.
pub open spec fn ae_opt<R: CabacReader>(before: R, after: R, present: bool, r: Result<Option<u64>, SyntaxError>) -> bool {
    if present {
        exists|v: Result<u64, SyntaxError>| #[trigger] before.ae_read(&after, v) && r == match v {
            Ok(x) => Ok::<Option<u64>, SyntaxError>(Some(x)),
            Err(e) => Err::<Option<u64>, SyntaxError>(e),
        }
    } else {
        after == before && r == Ok::<Option<u64>, SyntaxError>(None)
    }
}

/// `value != 0`.
pub open spec fn nonzero(value: u64) -> bool {
    value != 0
}

/// `cross_comp_pred()` read from `before` to `after` with result `r`.
pub open spec fn cross_component_read<R: CabacReader>(before: R, after: R, r: Result<CrossComponentPredictionSyntax, SyntaxError>) -> bool {
    exists|mid: R, first: Result<Option<u64>, SyntaxError>|
        #[trigger] ae_opt(before, mid, true, first) && match first {
            Err(e) => after == mid && r == Err::<CrossComponentPredictionSyntax, SyntaxError>(e),
            Ok(v) => {
                let abs = v.unwrap();
                exists|sign: Result<Option<u64>, SyntaxError>|
                    #[trigger] ae_opt(mid, after, nonzero(abs), sign) && r == match sign {
                        Err(e) => Err::<CrossComponentPredictionSyntax, SyntaxError>(e),
                        Ok(s) => Ok(
                            CrossComponentPredictionSyntax {
                                log2_res_scale_abs_plus1: abs,
                                res_scale_sign_flag: match s {
                                    Some(x) => Some(x != 0),
                                    None => None,
                                },
                            },
                        ),
                    }
            },
        }
}

/// Reads an optional `ae(v)` value.
fn read_ae_opt<R: CabacReader>(cabac: &mut R, present: bool) -> (r: Result<Option<u64>, SyntaxError>)
    requires
        present ==> old(cabac).can_read(),
    ensures
        ae_opt(*old(cabac), *final(cabac), present, r),
        r is Ok && present ==> final(cabac).can_read(),
        !present ==> *final(cabac) == *old(cabac),
{
    if !present {
        return Ok(None);
    }
    let ghost before = *cabac;
    let v = cabac.read_ae();
    let out = match v {
        Ok(x) => Ok(Some(x)),
        Err(e) => Err(e),
    };
    proof {
        assert(before.ae_read(&*cabac, v));
        assert(ae_opt(before, *cabac, true, out));
    }
    out
}

/// Parses `cross_comp_pred()`.
pub fn parse_cross_component_prediction<R: CabacReader>(cabac: &mut R) -> (r: Result<CrossComponentPredictionSyntax, SyntaxError>)
    requires
        old(cabac).can_read(),
    ensures
        cross_component_read(*old(cabac), *final(cabac), r),
        r is Ok ==> final(cabac).can_read(),
{
    let ghost d0 = *cabac;
    let first = read_ae_opt(cabac, true);
    let ghost d1 = *cabac;
    assert(ae_opt(d0, d1, true, first));
    let abs = match first {
        Ok(v) => v.unwrap(),
        Err(e) => {
            assert(cross_component_read(d0, d1, Err(e)));
            return Err(e);
        },
    };
    let sign = read_ae_opt(cabac, abs != 0);
    assert(ae_opt(d1, *cabac, nonzero(abs), sign));
    let out = match sign {
        Ok(s) => Ok(
            CrossComponentPredictionSyntax {
                log2_res_scale_abs_plus1: abs,
                res_scale_sign_flag: match s {
                    Some(x) => Some(x != 0),
                    None => None,
                },
            },
        ),
        Err(e) => Err(e),
    };
    assert(cross_component_read(d0, *cabac, out));
    out
}

/// Motion vector difference syntax from §7.3.8.9.
#[derive(Clone, Copy, Debug, Eq, PartialEq)]
pub struct MotionVectorDifferenceSyntax {
    /// `abs_mvd_greater0_flag` values.
    pub abs_mvd_greater0_flag: [bool; 2],
    /// `abs_mvd_greater1_flag` values, inferred false when absent.
    pub abs_mvd_greater1_flag: [bool; 2],
    /// `abs_mvd_minus2` values, when greater-than-one is set.
    pub abs_mvd_minus2: [Option<u64>; 2],
    /// `mvd_sign_flag` values, when the absolute value is non-zero.
    pub mvd_sign_flag: [Option<bool>; 2],
}

/// A read value taken as a flag (`false` when absent).
pub open spec fn flag_of(v: Option<u64>) -> bool {
    match v {
        Some(x) => x != 0,
        None => false,
    }
}

/// Both conditions hold.
pub open spec fn both(a: bool, b: bool) -> bool {
    a && b
}

/// A read value taken as an optional flag.
pub open spec fn optional_flag(v: Option<u64>) -> Option<bool> {
    match v {
        Some(x) => Some(x != 0),
        None => None,
    }
}

/// The `abs_mvd_minus2` and sign reads of `mvd_coding()` once the
/// greater-than-zero flags `g0`, `g1` and greater-than-one flags `h0`, `h1`
/// are known.
pub open spec fn mvd_rest_read<R: CabacReader>(
    before: R,
    after: R,
    g0: bool,
    g1: bool,
    h0: bool,
    h1: bool,
    r: Result<MotionVectorDifferenceSyntax, SyntaxError>,
) -> bool {
    exists|d5: R, m0: Result<Option<u64>, SyntaxError>|
        #[trigger] ae_opt(before, d5, both(g0, h0), m0) && match m0 {
            Err(e) => after == d5 && r == Err::<MotionVectorDifferenceSyntax, SyntaxError>(e),
            Ok(mv0) => exists|d6: R, s0: Result<Option<u64>, SyntaxError>|
                #[trigger] ae_opt(d5, d6, g0, s0) && match s0 {
                    Err(e) => after == d6 && r == Err::<MotionVectorDifferenceSyntax, SyntaxError>(e),
                    Ok(sv0) => exists|d7: R, m1: Result<Option<u64>, SyntaxError>|
                        #[trigger] ae_opt(d6, d7, both(g1, h1), m1) && match m1 {
                            Err(e) => after == d7 && r == Err::<MotionVectorDifferenceSyntax, SyntaxError>(e),
                            Ok(mv1) => exists|s1: Result<Option<u64>, SyntaxError>|
                                #[trigger] ae_opt(d7, after, g1, s1) && r == match s1 {
                                    Err(e) => Err::<MotionVectorDifferenceSyntax, SyntaxError>(e),
                                    Ok(sv1) => Ok(
                                        MotionVectorDifferenceSyntax {
                                            abs_mvd_greater0_flag: [g0, g1],
                                            abs_mvd_greater1_flag: [h0, h1],
                                            abs_mvd_minus2: [mv0, mv1],
                                            mvd_sign_flag: [optional_flag(sv0), optional_flag(sv1)],
                                        },
                                    ),
                                },
                        },
                },
        }
}

/// The greater-than-one reads of `mvd_coding()` and the rest.
pub open spec fn mvd_greater1_read<R: CabacReader>(before: R, after: R, g0: bool, g1: bool, r: Result<MotionVectorDifferenceSyntax, SyntaxError>) -> bool {
    exists|d3: R, a: Result<Option<u64>, SyntaxError>|
        #[trigger] ae_opt(before, d3, g0, a) && match a {
            Err(e) => after == d3 && r == Err::<MotionVectorDifferenceSyntax, SyntaxError>(e),
            Ok(av) => exists|d4: R, b: Result<Option<u64>, SyntaxError>|
                #[trigger] ae_opt(d3, d4, g1, b) && match b {
                    Err(e) => after == d4 && r == Err::<MotionVectorDifferenceSyntax, SyntaxError>(e),
                    Ok(bv) => mvd_rest_read(d4, after, g0, g1, flag_of(av), flag_of(bv), r),
                },
        }
}

/// `mvd_coding()` read from `before` to `after` with result `r`.
pub open spec fn mvd_read<R: CabacReader>(before: R, after: R, r: Result<MotionVectorDifferenceSyntax, SyntaxError>) -> bool {
    exists|d1: R, x: Result<Option<u64>, SyntaxError>|
        #[trigger] ae_opt(before, d1, true, x) && match x {
            Err(e) => after == d1 && r == Err::<MotionVectorDifferenceSyntax, SyntaxError>(e),
            Ok(xv) => exists|d2: R, y: Result<Option<u64>, SyntaxError>|
                #[trigger] ae_opt(d1, d2, true, y) && match y {
                    Err(e) => after == d2 && r == Err::<MotionVectorDifferenceSyntax, SyntaxError>(e),
                    Ok(yv) => mvd_greater1_read(d2, after, flag_of(xv), flag_of(yv), r),
                },
        }
}

fn optional_flag_exec(v: Option<u64>) -> (r: Option<bool>)
    ensures
        r == optional_flag(v),
{
    match v {
        Some(z) => Some(z != 0),
        None => None,
    }
}

/// Parses `mvd_coding()`.
pub fn parse_motion_vector_difference<R: CabacReader>(cabac: &mut R) -> (r: Result<MotionVectorDifferenceSyntax, SyntaxError>)
    requires
        old(cabac).can_read(),
    ensures
        mvd_read(*old(cabac), *final(cabac), r),
        r is Ok ==> final(cabac).can_read(),
{
    let ghost d0 = *cabac;
    let x = read_ae_opt(cabac, true);
    let ghost d1 = *cabac;
    assert(ae_opt(d0, d1, true, x));
    let g0 = match x {
        Ok(v) => v.unwrap() != 0,
        Err(e) => {
            assert(mvd_read(d0, d1, Err(e)));
            return Err(e);
        },
    };
    let y = read_ae_opt(cabac, true);
    let ghost d2 = *cabac;
    assert(ae_opt(d1, d2, true, y));
    let g1 = match y {
        Ok(v) => v.unwrap() != 0,
        Err(e) => {
            assert(mvd_read(d0, d2, Err(e)));
            return Err(e);
        },
    };
    assert(g0 == flag_of(x->Ok_0) && g1 == flag_of(y->Ok_0));
    let a = read_ae_opt(cabac, g0);
    let ghost d3 = *cabac;
    assert(ae_opt(d2, d3, g0, a));
    let h0 = match a {
        Ok(v) => match v {
            Some(z) => z != 0,
            None => false,
        },
        Err(e) => {
            assert(mvd_greater1_read(d2, d3, g0, g1, Err(e)));
            assert(mvd_read(d0, d3, Err(e)));
            return Err(e);
        },
    };
    let b = read_ae_opt(cabac, g1);
    let ghost d4 = *cabac;
    assert(ae_opt(d3, d4, g1, b));
    let h1 = match b {
        Ok(v) => match v {
            Some(z) => z != 0,
            None => false,
        },
        Err(e) => {
            assert(mvd_greater1_read(d2, d4, g0, g1, Err(e)));
            assert(mvd_read(d0, d4, Err(e)));
            return Err(e);
        },
    };
    assert(h0 == flag_of(a->Ok_0) && h1 == flag_of(b->Ok_0));
    let m0 = read_ae_opt(cabac, g0 && h0);
    let ghost d5 = *cabac;
    assert(ae_opt(d4, d5, both(g0, h0), m0));
    let mv0 = match m0 {
        Ok(v) => v,
        Err(e) => {
            assert(mvd_rest_read(d4, d5, g0, g1, h0, h1, Err(e)));
            assert(mvd_greater1_read(d2, d5, g0, g1, Err(e)));
            assert(mvd_read(d0, d5, Err(e)));
            return Err(e);
        },
    };
    let s0 = read_ae_opt(cabac, g0);
    let ghost d6 = *cabac;
    assert(ae_opt(d5, d6, g0, s0));
    let sv0 = match s0 {
        Ok(v) => v,
        Err(e) => {
            assert(mvd_rest_read(d4, d6, g0, g1, h0, h1, Err(e)));
            assert(mvd_greater1_read(d2, d6, g0, g1, Err(e)));
            assert(mvd_read(d0, d6, Err(e)));
            return Err(e);
        },
    };
    let m1 = read_ae_opt(cabac, g1 && h1);
    let ghost d7 = *cabac;
    assert(ae_opt(d6, d7, both(g1, h1), m1));
    let mv1 = match m1 {
        Ok(v) => v,
        Err(e) => {
            assert(mvd_rest_read(d4, d7, g0, g1, h0, h1, Err(e)));
            assert(mvd_greater1_read(d2, d7, g0, g1, Err(e)));
            assert(mvd_read(d0, d7, Err(e)));
            return Err(e);
        },
    };
    let s1 = read_ae_opt(cabac, g1);
    assert(ae_opt(d7, *cabac, g1, s1));
    let out = match s1 {
        Ok(sv1) => Ok(
            MotionVectorDifferenceSyntax {
                abs_mvd_greater0_flag: [g0, g1],
                abs_mvd_greater1_flag: [h0, h1],
                abs_mvd_minus2: [mv0, mv1],
                mvd_sign_flag: [optional_flag_exec(sv0), optional_flag_exec(sv1)],
            },
        ),
        Err(e) => Err(e),
    };
    assert(mvd_rest_read(d4, *cabac, g0, g1, h0, h1, out));
    assert(mvd_greater1_read(d2, *cabac, g0, g1, out));
    assert(mvd_read(d0, *cabac, out));
    out
}

/// SAO syntax of one component from §7.3.8.3.
#[derive(Clone, Debug, Eq, PartialEq)]
pub struct SaoComponentSyntax {
    /// `sao_type_idx`.
    pub type_idx: u64,
    /// Four `sao_offset_abs` values.
    pub offset_abs: [u64; 4],
    /// Sign flags of the non-zero offsets in band-offset mode.
    pub offset_sign: Vec<bool>,
    /// `sao_band_position`, for band-offset mode.
    pub band_position: Option<u64>,
    /// `sao_eo_class`, for edge-offset mode.
    pub eo_class: Option<u64>,
}

/// A present read as a one-element sign list.
pub open spec fn sign_list(v: Option<u64>) -> Seq<bool> {
    match v {
        Some(x) => seq![x != 0],
        None => Seq::empty(),
    }
}

/// `c` holds the given component fields.
pub open spec fn component_is(c: SaoComponentSyntax, ty: u64, abs: [u64; 4], signs: Seq<bool>, band: Option<u64>, eo: Option<u64>) -> bool {
    &&& c.type_idx == ty
    &&& c.offset_abs == abs
    &&& c.offset_sign@ == signs
    &&& c.band_position == band
    &&& c.eo_class == eo
}

/// The sign and band reads of a band-offset component.
pub open spec fn sao_band_read<R: CabacReader>(before: R, after: R, ty: u64, abs: [u64; 4], r: Result<SaoComponentSyntax, SyntaxError>) -> bool {
    exists|d1: R, s0: Result<Option<u64>, SyntaxError>|
        #[trigger] ae_opt(before, d1, nonzero(abs[0]), s0) && match s0 {
            Err(e) => after == d1 && r == Err::<SaoComponentSyntax, SyntaxError>(e),
            Ok(v0) => exists|d2: R, s1: Result<Option<u64>, SyntaxError>|
                #[trigger] ae_opt(d1, d2, nonzero(abs[1]), s1) && match s1 {
                    Err(e) => after == d2 && r == Err::<SaoComponentSyntax, SyntaxError>(e),
                    Ok(v1) => exists|d3: R, s2: Result<Option<u64>, SyntaxError>|
                        #[trigger] ae_opt(d2, d3, nonzero(abs[2]), s2) && match s2 {
                            Err(e) => after == d3 && r == Err::<SaoComponentSyntax, SyntaxError>(e),
                            Ok(v2) => exists|d4: R, s3: Result<Option<u64>, SyntaxError>|
                                #[trigger] ae_opt(d3, d4, nonzero(abs[3]), s3) && match s3 {
                                    Err(e) => after == d4 && r == Err::<SaoComponentSyntax, SyntaxError>(e),
                                    Ok(v3) => exists|band: Result<Option<u64>, SyntaxError>|
                                        #[trigger] ae_opt(d4, after, true, band) && match band {
                                            Err(e) => r == Err::<SaoComponentSyntax, SyntaxError>(e),
                                            Ok(b) => (r matches Ok(c) && component_is(
                                                c,
                                                ty,
                                                abs,
                                                sign_list(v0) + sign_list(v1) + sign_list(v2) + sign_list(v3),
                                                Some(b.unwrap()),
                                                None,
                                            )),
                                        },
                                },
                        },
                },
        }
}

/// The reads after the four offsets of a component of type `ty`.
pub open spec fn sao_tail_read<R: CabacReader>(before: R, after: R, ty: u64, abs: [u64; 4], r: Result<SaoComponentSyntax, SyntaxError>) -> bool {
    if ty == 1 {
        sao_band_read(before, after, ty, abs, r)
    } else if ty != 0 {
        exists|eo: Result<Option<u64>, SyntaxError>|
            #[trigger] ae_opt(before, after, true, eo) && match eo {
                Err(e) => r == Err::<SaoComponentSyntax, SyntaxError>(e),
                Ok(c) => (r matches Ok(x) && component_is(x, ty, abs, Seq::empty(), None, Some(c.unwrap()))),
            }
    } else {
        after == before && (r matches Ok(x) && component_is(x, ty, abs, Seq::empty(), None, None))
    }
}

/// The SAO syntax of one component (`sao_type_idx`, four `sao_offset_abs`,
/// then signs and band position or the edge class) read from `before` to
/// `after` with result `r`.
pub open spec fn sao_component_read<R: CabacReader>(before: R, after: R, r: Result<SaoComponentSyntax, SyntaxError>) -> bool {
    exists|d1: R, t: Result<Option<u64>, SyntaxError>|
        #[trigger] ae_opt(before, d1, true, t) && match t {
            Err(e) => after == d1 && r == Err::<SaoComponentSyntax, SyntaxError>(e),
            Ok(tv) => exists|d2: R, a0: Result<Option<u64>, SyntaxError>|
                #[trigger] ae_opt(d1, d2, true, a0) && match a0 {
                    Err(e) => after == d2 && r == Err::<SaoComponentSyntax, SyntaxError>(e),
                    Ok(x0) => exists|d3: R, a1: Result<Option<u64>, SyntaxError>|
                        #[trigger] ae_opt(d2, d3, true, a1) && match a1 {
                            Err(e) => after == d3 && r == Err::<SaoComponentSyntax, SyntaxError>(e),
                            Ok(x1) => exists|d4: R, a2: Result<Option<u64>, SyntaxError>|
                                #[trigger] ae_opt(d3, d4, true, a2) && match a2 {
                                    Err(e) => after == d4 && r == Err::<SaoComponentSyntax, SyntaxError>(e),
                                    Ok(x2) => exists|d5: R, a3: Result<Option<u64>, SyntaxError>|
                                        #[trigger] ae_opt(d4, d5, true, a3) && match a3 {
                                            Err(e) => after == d5 && r == Err::<SaoComponentSyntax, SyntaxError>(e),
                                            Ok(x3) => sao_tail_read(
                                                d5,
                                                after,
                                                tv.unwrap(),
                                                [x0.unwrap(), x1.unwrap(), x2.unwrap(), x3.unwrap()],
                                                r,
                                            ),
                                        },
                                },
                        },
                },
        }
}

/// Reads one value that must be present.
fn read_value<R: CabacReader>(cabac: &mut R) -> (r: Result<u64, SyntaxError>)
    requires
        old(cabac).can_read(),
    ensures
        ae_opt(*old(cabac), *final(cabac), true, match r {
            Ok(v) => Ok::<Option<u64>, SyntaxError>(Some(v)),
            Err(e) => Err(e),
        }),
        r is Ok ==> final(cabac).can_read(),
{
    match read_ae_opt(cabac, true) {
        Ok(v) => Ok(v.unwrap()),
        Err(e) => Err(e),
    }
}

fn push_sign(signs: &mut Vec<bool>, v: Option<u64>)
    ensures
        final(signs)@ == old(signs)@ + sign_list(v),
{
    match v {
        Some(x) => {
            signs.push(x != 0);
            assert(old(signs)@.push(x != 0) =~= old(signs)@ + seq![x != 0]);
        },
        None => {
            assert(old(signs)@ + Seq::<bool>::empty() =~= old(signs)@);
        },
    }
}

/// Parses the syntax of one SAO component.
pub fn parse_sao_component<R: CabacReader>(cabac: &mut R) -> (r: Result<SaoComponentSyntax, SyntaxError>)
    requires
        old(cabac).can_read(),
    ensures
        sao_component_read(*old(cabac), *final(cabac), r),
        r is Ok ==> final(cabac).can_read(),
{
    let ghost d0 = *cabac;
    let type_idx = match read_value(cabac) {
        Ok(v) => v,
        Err(e) => {
            assert(sao_component_read(d0, *cabac, Err(e)));
            return Err(e);
        },
    };
    let ghost d1 = *cabac;
    let x0 = match read_value(cabac) {
        Ok(v) => v,
        Err(e) => {
            assert(sao_component_read(d0, *cabac, Err(e)));
            return Err(e);
        },
    };
    let ghost d2 = *cabac;
    let x1 = match read_value(cabac) {
        Ok(v) => v,
        Err(e) => {
            assert(sao_component_read(d0, *cabac, Err(e)));
            return Err(e);
        },
    };
    let ghost d3 = *cabac;
    let x2 = match read_value(cabac) {
        Ok(v) => v,
        Err(e) => {
            assert(sao_component_read(d0, *cabac, Err(e)));
            return Err(e);
        },
    };
    let ghost d4 = *cabac;
    let x3 = match read_value(cabac) {
        Ok(v) => v,
        Err(e) => {
            assert(sao_component_read(d0, *cabac, Err(e)));
            return Err(e);
        },
    };
    let ghost d5 = *cabac;
    let offset_abs: [u64; 4] = [x0, x1, x2, x3];
    let r = parse_sao_tail(cabac, type_idx, offset_abs);
    assert(sao_tail_read(d5, *cabac, type_idx, offset_abs, r));
    assert(sao_component_read(d0, *cabac, r));
    r
}

fn parse_sao_tail<R: CabacReader>(cabac: &mut R, type_idx: u64, offset_abs: [u64; 4]) -> (r: Result<SaoComponentSyntax, SyntaxError>)
    requires
        old(cabac).can_read(),
    ensures
        sao_tail_read(*old(cabac), *final(cabac), type_idx, offset_abs, r),
        r is Ok ==> final(cabac).can_read(),
{
    let ghost d0 = *cabac;
    if type_idx == 1 {
        let mut signs: Vec<bool> = Vec::new();
        let s0 = read_ae_opt(cabac, offset_abs[0] != 0);
        let ghost d1 = *cabac;
        assert(ae_opt(d0, d1, nonzero(offset_abs[0]), s0));
        match s0 {
            Ok(v) => push_sign(&mut signs, v),
            Err(e) => {
                assert(sao_band_read(d0, d1, type_idx, offset_abs, Err(e)));
                return Err(e);
            },
        }
        let s1 = read_ae_opt(cabac, offset_abs[1] != 0);
        let ghost d2 = *cabac;
        assert(ae_opt(d1, d2, nonzero(offset_abs[1]), s1));
        match s1 {
            Ok(v) => push_sign(&mut signs, v),
            Err(e) => {
                assert(sao_band_read(d0, d2, type_idx, offset_abs, Err(e)));
                return Err(e);
            },
        }
        let s2 = read_ae_opt(cabac, offset_abs[2] != 0);
        let ghost d3 = *cabac;
        assert(ae_opt(d2, d3, nonzero(offset_abs[2]), s2));
        match s2 {
            Ok(v) => push_sign(&mut signs, v),
            Err(e) => {
                assert(sao_band_read(d0, d3, type_idx, offset_abs, Err(e)));
                return Err(e);
            },
        }
        let s3 = read_ae_opt(cabac, offset_abs[3] != 0);
        let ghost d4 = *cabac;
        assert(ae_opt(d3, d4, nonzero(offset_abs[3]), s3));
        match s3 {
            Ok(v) => push_sign(&mut signs, v),
            Err(e) => {
                assert(sao_band_read(d0, d4, type_idx, offset_abs, Err(e)));
                return Err(e);
            },
        }
        assert(signs@ =~= sign_list(s0->Ok_0) + sign_list(s1->Ok_0) + sign_list(s2->Ok_0) + sign_list(s3->Ok_0));
        let band = read_ae_opt(cabac, true);
        assert(ae_opt(d4, *cabac, true, band));
        match band {
            Ok(b) => {
                let out = SaoComponentSyntax {
                    type_idx,
                    offset_abs,
                    offset_sign: signs,
                    band_position: Some(b.unwrap()),
                    eo_class: None,
                };
                assert(sao_band_read(d0, *cabac, type_idx, offset_abs, Ok(out)));
                Ok(out)
            },
            Err(e) => {
                assert(sao_band_read(d0, *cabac, type_idx, offset_abs, Err(e)));
                Err(e)
            },
        }
    } else if type_idx != 0 {
        let eo = read_ae_opt(cabac, true);
        assert(ae_opt(d0, *cabac, true, eo));
        match eo {
            Ok(c) => {
                let out = SaoComponentSyntax { type_idx, offset_abs, offset_sign: Vec::new(), band_position: None, eo_class: Some(c.unwrap()) };
                assert(out.offset_sign@ =~= Seq::<bool>::empty());
                Ok(out)
            },
            Err(e) => Err(e),
        }
    } else {
        let out = SaoComponentSyntax { type_idx, offset_abs, offset_sign: Vec::new(), band_position: None, eo_class: None };
        assert(out.offset_sign@ =~= Seq::<bool>::empty());
        Ok(out)
    }
}


/// Parsed SAO syntax from §7.3.8.3.
#[derive(Clone, Debug, Eq, PartialEq)]
pub struct SaoSyntax {
    /// `sao_merge_left_flag`, when available.
    pub merge_left_flag: bool,
    /// `sao_merge_up_flag`, when available and not merged left.
    pub merge_up_flag: bool,
    /// Luma component syntax, when enabled.
    pub luma: Option<SaoComponentSyntax>,
    /// Chroma component syntax, when enabled.
    pub chroma: Option<SaoComponentSyntax>,
}

/// An optional SAO component: none when `present` is false, otherwise one
/// component read from `before` to `after`.
pub open spec fn component_opt<R: CabacReader>(
    before: R,
    after: R,
    present: bool,
    r: Result<Option<SaoComponentSyntax>, SyntaxError>,
) -> bool {
    if present {
        exists|c: Result<SaoComponentSyntax, SyntaxError>| #[trigger] sao_component_read(before, after, c) && r == match c {
            Ok(x) => Ok::<Option<SaoComponentSyntax>, SyntaxError>(Some(x)),
            Err(e) => Err::<Option<SaoComponentSyntax>, SyntaxError>(e),
        }
    } else {
        after == before && r == Ok::<Option<SaoComponentSyntax>, SyntaxError>(None)
    }
}

/// The luma and chroma components of an unmerged `sao()`.
pub open spec fn sao_components_read<R: CabacReader>(
    before: R,
    after: R,
    luma_present: bool,
    chroma_present: bool,
    r: Result<SaoSyntax, SyntaxError>,
) -> bool {
    exists|d1: R, lu: Result<Option<SaoComponentSyntax>, SyntaxError>|
        #[trigger] component_opt(before, d1, luma_present, lu) && match lu {
            Err(e) => after == d1 && r == Err::<SaoSyntax, SyntaxError>(e),
            Ok(l) => exists|ch: Result<Option<SaoComponentSyntax>, SyntaxError>|
                #[trigger] component_opt(d1, after, chroma_present, ch) && r == match ch {
                    Err(e) => Err::<SaoSyntax, SyntaxError>(e),
                    Ok(c) => Ok(SaoSyntax { merge_left_flag: false, merge_up_flag: false, luma: l, chroma: c }),
                },
        }
}

/// `sao(rx, ry)` read from `before` to `after` with result `r`: the merge-left
/// flag when the left CTB is available, the merge-up flag when the upper CTB
/// is available and the CTB is not merged left, and, unless merged, the luma
/// component when luma SAO is on and the chroma component when chroma SAO is
/// on and `ChromaArrayType != 0`.
pub open spec fn sao_read<R: CabacReader>(
    before: R,
    after: R,
    left_available: bool,
    up_available: bool,
    slice_sao_luma_flag: bool,
    slice_sao_chroma_flag: bool,
    chroma_array_type_nonzero: bool,
    r: Result<SaoSyntax, SyntaxError>,
) -> bool {
    exists|d1: R, ml: Result<Option<u64>, SyntaxError>|
        #[trigger] ae_opt(before, d1, left_available, ml) && match ml {
            Err(e) => after == d1 && r == Err::<SaoSyntax, SyntaxError>(e),
            Ok(lv) => exists|d2: R, mu: Result<Option<u64>, SyntaxError>|
                #[trigger] ae_opt(d1, d2, up_unless_left(up_available, lv), mu) && match mu {
                    Err(e) => after == d2 && r == Err::<SaoSyntax, SyntaxError>(e),
                    Ok(uv) => if flag_of(lv) || flag_of(uv) {
                        after == d2 && r == Ok::<SaoSyntax, SyntaxError>(
                            SaoSyntax { merge_left_flag: flag_of(lv), merge_up_flag: flag_of(uv), luma: None, chroma: None },
                        )
                    } else {
                        sao_components_read(
                            d2,
                            after,
                            slice_sao_luma_flag,
                            both(slice_sao_chroma_flag, chroma_array_type_nonzero),
                            r,
                        )
                    },
                },
        }
}

/// The merge-up flag is read: the upper CTB is available and the merge-left
/// read `lv` did not merge.
pub open spec fn up_unless_left(up_available: bool, lv: Option<u64>) -> bool {
    up_available && !flag_of(lv)
}

fn flag_exec(v: Option<u64>) -> (r: bool)
    ensures
        r == flag_of(v),
{
    match v {
        Some(x) => x != 0,
        None => false,
    }
}

fn parse_component_opt<R: CabacReader>(cabac: &mut R, present: bool) -> (r: Result<Option<SaoComponentSyntax>, SyntaxError>)
    requires
        old(cabac).can_read(),
    ensures
        component_opt(*old(cabac), *final(cabac), present, r),
        r is Ok ==> final(cabac).can_read(),
{
    if !present {
        return Ok(None);
    }
    let ghost d0 = *cabac;
    let c = parse_sao_component(cabac);
    let out = match c {
        Ok(x) => Ok(Some(x)),
        Err(e) => Err(e),
    };
    assert(sao_component_read(d0, *cabac, c));
    out
}

/// Parses `sao(rx, ry)` with the neighbour availability and slice flags
/// supplied by the caller.
pub fn parse_sao<R: CabacReader>(
    cabac: &mut R,
    left_available: bool,
    up_available: bool,
    slice_sao_luma_flag: bool,
    slice_sao_chroma_flag: bool,
    chroma_array_type_nonzero: bool,
) -> (r: Result<SaoSyntax, SyntaxError>)
    requires
        old(cabac).can_read(),
    ensures
        sao_read(
            *old(cabac),
            *final(cabac),
            left_available,
            up_available,
            slice_sao_luma_flag,
            slice_sao_chroma_flag,
            chroma_array_type_nonzero,
            r,
        ),
        r is Ok ==> final(cabac).can_read(),
{
    let ghost d0 = *cabac;
    let ml = read_ae_opt(cabac, left_available);
    let ghost d1 = *cabac;
    assert(ae_opt(d0, d1, left_available, ml));
    let lv = match ml {
        Ok(v) => v,
        Err(e) => {
            assert(sao_read(d0, d1, left_available, up_available, slice_sao_luma_flag, slice_sao_chroma_flag, chroma_array_type_nonzero, Err(e)));
            return Err(e);
        },
    };
    let merge_left_flag = flag_exec(lv);
    let mu = read_ae_opt(cabac, up_available && !merge_left_flag);
    let ghost d2 = *cabac;
    assert(ae_opt(d1, d2, up_unless_left(up_available, lv), mu));
    let uv = match mu {
        Ok(v) => v,
        Err(e) => {
            assert(sao_read(d0, d2, left_available, up_available, slice_sao_luma_flag, slice_sao_chroma_flag, chroma_array_type_nonzero, Err(e)));
            return Err(e);
        },
    };
    let merge_up_flag = flag_exec(uv);
    if merge_left_flag || merge_up_flag {
        let out = Ok(SaoSyntax { merge_left_flag, merge_up_flag, luma: None, chroma: None });
        assert(sao_read(d0, d2, left_available, up_available, slice_sao_luma_flag, slice_sao_chroma_flag, chroma_array_type_nonzero, out));
        return out;
    }
    let lu = parse_component_opt(cabac, slice_sao_luma_flag);
    let ghost d3 = *cabac;
    assert(component_opt(d2, d3, slice_sao_luma_flag, lu));
    let luma = match lu {
        Ok(v) => v,
        Err(e) => {
            assert(sao_components_read(d2, d3, slice_sao_luma_flag, both(slice_sao_chroma_flag, chroma_array_type_nonzero), Err(e)));
            assert(sao_read(d0, d3, left_available, up_available, slice_sao_luma_flag, slice_sao_chroma_flag, chroma_array_type_nonzero, Err(e)));
            return Err(e);
        },
    };
    let ch = parse_component_opt(cabac, slice_sao_chroma_flag && chroma_array_type_nonzero);
    assert(component_opt(d3, *cabac, both(slice_sao_chroma_flag, chroma_array_type_nonzero), ch));
    let out = match ch {
        Ok(c) => Ok(SaoSyntax { merge_left_flag: false, merge_up_flag: false, luma, chroma: c }),
        Err(e) => Err(e),
    };
    assert(sao_components_read(d2, *cabac, slice_sao_luma_flag, both(slice_sao_chroma_flag, chroma_array_type_nonzero), out));
    assert(sao_read(d0, *cabac, left_available, up_available, slice_sao_luma_flag, slice_sao_chroma_flag, chroma_array_type_nonzero, out));
    out
}

} // verus!
