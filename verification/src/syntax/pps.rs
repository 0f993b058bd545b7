//! `pic_parameter_set_rbsp()` syntax of §7.3.2.3.
use vstd::prelude::*;
use super::bit_reader::{bits_value, trailing_bits_end, trailing_bits_outcome, ue_at, BitReader};
use super::rbsp::{more_rbsp_data_at, short_read};
use super::reference_sets::{flag_outcome, read_flag};
use super::scaling::{scaling_outcome, se_at, ScalingListData, ScalingMatrixFields};
use super::SyntaxError;

verus! {

/// Tile syntax embedded in a picture parameter set.
#[derive(Clone, Debug, Eq, PartialEq)]
pub struct PpsTileSyntax {
    /// `num_tile_columns_minus1`.
    pub num_tile_columns_minus1: u64,
    /// `num_tile_rows_minus1`.
    pub num_tile_rows_minus1: u64,
    /// `uniform_spacing_flag`.
    pub uniform_spacing_flag: bool,
    /// `column_width_minus1` values for non-uniform spacing.
    pub column_width_minus1: Vec<u64>,
    /// `row_height_minus1` values for non-uniform spacing.
    pub row_height_minus1: Vec<u64>,
    /// `loop_filter_across_tiles_enabled_flag`.
    pub loop_filter_across_tiles_enabled_flag: bool,
}

/// Deblocking-control syntax in a picture parameter set.
#[derive(Clone, Copy, Debug, Eq, PartialEq)]
pub struct PpsDeblockingFilterSyntax {
    /// `deblocking_filter_override_enabled_flag`.
    pub deblocking_filter_override_enabled_flag: bool,
    /// `pps_deblocking_filter_disabled_flag`.
    pub pps_deblocking_filter_disabled_flag: bool,
    /// `pps_beta_offset_div2`, when deblocking is enabled.
    pub pps_beta_offset_div2: Option<i64>,
    /// `pps_tc_offset_div2`, when deblocking is enabled.
    pub pps_tc_offset_div2: Option<i64>,
}

/// The outcome of a `u(n)` field at `pos` and the bit offset it leaves.
pub open spec fn bits_outcome(data: Seq<u8>, pos: int, limit: int, n: usize) -> (Result<u64, SyntaxError>, int) {
    if limit - pos < n {
        (Err(short_read(n, pos, limit)), pos)
    } else {
        (Ok(bits_value(data, pos, n as nat) as u64), pos + n)
    }
}

/// An `ue(v)` field read only when `present`.
pub open spec fn ue_opt_at(data: Seq<u8>, pos: int, limit: int, present: bool) -> (Result<Option<u64>, SyntaxError>, int) {
    if present {
        match ue_at(data, pos, limit).0 {
            Ok(v) => (Ok(Some(v)), ue_at(data, pos, limit).1),
            Err(e) => (Err(e), ue_at(data, pos, limit).1),
        }
    } else {
        (Ok(None), pos)
    }
}

/// `n` consecutive `ue(v)` fields read at `pos`.
pub open spec fn ue_list(data: Seq<u8>, pos: int, limit: int, n: nat) -> (Result<Seq<u64>, SyntaxError>, int)
    decreases n,
{
    if n == 0 {
        (Ok(Seq::empty()), pos)
    } else {
        let (prior, p) = ue_list(data, pos, limit, (n - 1) as nat);
        match prior {
            Err(e) => (Err(e), p),
            Ok(values) => {
                let (v, q) = ue_at(data, p, limit);
                match v {
                    Err(e) => (Err(e), q),
                    Ok(x) => (Ok(values.push(x)), q),
                }
            },
        }
    }
}

fn read_bits_field(reader: &mut BitReader<'_>, n: usize) -> (r: Result<u64, SyntaxError>)
    requires
        old(reader).wf(),
        1 <= n <= 32,
    ensures
        final(reader).wf(),
        final(reader).same_input(old(reader)),
        r == bits_outcome(old(reader).bytes(), old(reader).pos(), old(reader).limit(), n).0,
        final(reader).pos() == bits_outcome(old(reader).bytes(), old(reader).pos(), old(reader).limit(), n).1,
        r matches Ok(v) ==> v < vstd::arithmetic::power2::pow2(n as nat),
{
    reader.read_u(n)
}

fn read_ue_value(reader: &mut BitReader<'_>) -> (r: Result<u64, SyntaxError>)
    requires
        old(reader).wf(),
    ensures
        final(reader).wf(),
        final(reader).same_input(old(reader)),
        r == ue_at(old(reader).bytes(), old(reader).pos(), old(reader).limit()).0,
        final(reader).pos() == ue_at(old(reader).bytes(), old(reader).pos(), old(reader).limit()).1,
{
    reader.read_ue()
}

fn read_se_value(reader: &mut BitReader<'_>) -> (r: Result<i64, SyntaxError>)
    requires
        old(reader).wf(),
    ensures
        final(reader).wf(),
        final(reader).same_input(old(reader)),
        r == se_at(old(reader).bytes(), old(reader).pos(), old(reader).limit()).0,
        final(reader).pos() == se_at(old(reader).bytes(), old(reader).pos(), old(reader).limit()).1,
{
    reader.read_se()
}

fn read_opt_ue(reader: &mut BitReader<'_>, present: bool) -> (r: Result<Option<u64>, SyntaxError>)
    requires
        old(reader).wf(),
    ensures
        final(reader).wf(),
        final(reader).same_input(old(reader)),
        r == ue_opt_at(old(reader).bytes(), old(reader).pos(), old(reader).limit(), present).0,
        final(reader).pos() == ue_opt_at(old(reader).bytes(), old(reader).pos(), old(reader).limit(), present).1,
{
    if present {
        match read_ue_value(reader) {
            Ok(v) => Ok(Some(v)),
            Err(e) => Err(e),
        }
    } else {
        Ok(None)
    }
}

fn read_ue_list(reader: &mut BitReader<'_>, n: usize) -> (r: Result<Vec<u64>, SyntaxError>)
    requires
        old(reader).wf(),
    ensures
        final(reader).wf(),
        final(reader).same_input(old(reader)),
        ue_list(old(reader).bytes(), old(reader).pos(), old(reader).limit(), n as nat).0 == match r {
            Ok(v) => Ok::<Seq<u64>, SyntaxError>(v@),
            Err(e) => Err(e),
        },
        r is Ok ==> final(reader).pos() == ue_list(old(reader).bytes(), old(reader).pos(), old(reader).limit(), n as nat).1,
{
    let ghost data = reader.bytes();
    let ghost pos = reader.pos();
    let ghost limit = reader.limit();
    let mut values: Vec<u64> = Vec::new();
    let mut i: usize = 0;
    while i < n
        invariant
            reader.wf(),
            reader.same_input(old(reader)),
            data == old(reader).bytes(),
            pos == old(reader).pos(),
            limit == old(reader).limit(),
            reader.bytes() == data,
            reader.limit() == limit,
            i <= n,
            ue_list(data, pos, limit, i as nat) == (Ok::<Seq<u64>, SyntaxError>(values@), reader.pos()),
        decreases n - i,
    {
        let ghost prior = values@;
        let ghost p = reader.pos();
        assert(ue_list(data, pos, limit, (i + 1) as nat).0 == {
            let (v, q) = ue_at(data, p, limit);
            match v {
                Err(e) => Err::<Seq<u64>, SyntaxError>(e),
                Ok(x) => Ok(prior.push(x)),
            }
        });
        let v = match read_ue_value(reader) {
            Ok(v) => v,
            Err(e) => {
                proof {
                    lemma_ue_list_blocked(data, pos, limit, (i + 1) as nat, n as nat);
                }
                return Err(e);
            },
        };
        values.push(v);
        i += 1;
    }
    Ok(values)
}

/// Once a prefix of a `ue(v)` list fails, the whole list fails with the same error.
proof fn lemma_ue_list_blocked(data: Seq<u8>, pos: int, limit: int, m: nat, n: nat)
    requires
        m <= n,
        ue_list(data, pos, limit, m).0 is Err,
    ensures
        ue_list(data, pos, limit, n).0 == ue_list(data, pos, limit, m).0,
    decreases n - m,
{
    if m < n {
        lemma_ue_list_blocked(data, pos, limit, m, (n - 1) as nat);
    }
}

/// The first syntax elements of a PPS, from `pps_pic_parameter_set_id` to `init_qp_minus26`.
#[verifier::opaque]
pub open spec fn pps_head_outcome(data: Seq<u8>, p0: int, limit: int) -> (Result<(u64, u64, bool, bool, u64, bool, bool, u64, u64, i64), SyntaxError>, int) {
    let (r1, p1) = ue_at(data, p0, limit);
    match r1 {
        Err(e) => (Err(e), p1),
        Ok(id) => {
            let (r2, p2) = ue_at(data, p1, limit);
            match r2 {
                Err(e) => (Err(e), p2),
                Ok(sps_id) => {
                    let (r3, p3) = flag_outcome(data, p2, limit);
                    match r3 {
                        Err(e) => (Err(e), p3),
                        Ok(dependent) => {
                            let (r4, p4) = flag_outcome(data, p3, limit);
                            match r4 {
                                Err(e) => (Err(e), p4),
                                Ok(output) => {
                                    let (r5, p5) = bits_outcome(data, p4, limit, 3);
                                    match r5 {
                                        Err(e) => (Err(e), p5),
                                        Ok(extra) => {
                                            let (r6, p6) = flag_outcome(data, p5, limit);
                                            match r6 {
                                                Err(e) => (Err(e), p6),
                                                Ok(sign_hiding) => {
                                                    let (r7, p7) = flag_outcome(data, p6, limit);
                                                    match r7 {
                                                        Err(e) => (Err(e), p7),
                                                        Ok(cabac_init) => {
                                                            let (r8, p8) = ue_at(data, p7, limit);
                                                            match r8 {
                                                                Err(e) => (Err(e), p8),
                                                                Ok(l0) => {
                                                                    let (r9, p9) = ue_at(data, p8, limit);
                                                                    match r9 {
                                                                        Err(e) => (Err(e), p9),
                                                                        Ok(l1) => {
                                                                            let (r10, p10) = se_at(data, p9, limit);
                                                                            match r10 {
                                                                                Err(e) => (Err(e), p10),
                                                                                Ok(init_qp) => {
                                                                                    (Ok((id, sps_id, dependent, output, extra, sign_hiding, cabac_init, l0, l1, init_qp)), p10)
                                                                                },
                                                                            }
                                                                        },
                                                                    }
                                                                },
                                                            }
                                                        },
                                                    }
                                                },
                                            }
                                        },
                                    }
                                },
                            }
                        },
                    }
                },
            }
        },
    }
}

fn parse_pps_head(reader: &mut BitReader<'_>) -> (r: Result<(u64, u64, bool, bool, u64, bool, bool, u64, u64, i64), SyntaxError>)
    requires
        old(reader).wf(),
    ensures
        final(reader).wf(),
        final(reader).same_input(old(reader)),
        r == pps_head_outcome(old(reader).bytes(), old(reader).pos(), old(reader).limit()).0,
        r is Ok ==> final(reader).pos() == pps_head_outcome(old(reader).bytes(), old(reader).pos(), old(reader).limit()).1,
        r matches Ok(v) ==> v.4 < 8,
{
    proof {
        reveal(pps_head_outcome);
    }
    proof {
        vstd::arithmetic::power2::lemma2_to64();
    }
    let id = match read_ue_value(reader) {
        Ok(v) => v,
        Err(e) => return Err(e),
    };
    let sps_id = match read_ue_value(reader) {
        Ok(v) => v,
        Err(e) => return Err(e),
    };
    let dependent = match read_flag(reader) {
        Ok(v) => v,
        Err(e) => return Err(e),
    };
    let output = match read_flag(reader) {
        Ok(v) => v,
        Err(e) => return Err(e),
    };
    let extra = match read_bits_field(reader, 3) {
        Ok(v) => v,
        Err(e) => return Err(e),
    };
    let sign_hiding = match read_flag(reader) {
        Ok(v) => v,
        Err(e) => return Err(e),
    };
    let cabac_init = match read_flag(reader) {
        Ok(v) => v,
        Err(e) => return Err(e),
    };
    let l0 = match read_ue_value(reader) {
        Ok(v) => v,
        Err(e) => return Err(e),
    };
    let l1 = match read_ue_value(reader) {
        Ok(v) => v,
        Err(e) => return Err(e),
    };
    let init_qp = match read_se_value(reader) {
        Ok(v) => v,
        Err(e) => return Err(e),
    };
    Ok((id, sps_id, dependent, output, extra, sign_hiding, cabac_init, l0, l1, init_qp))
}

/// The PPS syntax elements from `constrained_intra_pred_flag` to `entropy_coding_sync_enabled_flag`.
#[verifier::opaque]
pub open spec fn pps_coding_outcome(data: Seq<u8>, p0: int, limit: int) -> (Result<(bool, bool, bool, Option<u64>, i64, i64, bool, bool, bool, bool, bool, bool), SyntaxError>, int) {
    let (r1, p1) = flag_outcome(data, p0, limit);
    match r1 {
        Err(e) => (Err(e), p1),
        Ok(constrained) => {
            let (r2, p2) = flag_outcome(data, p1, limit);
            match r2 {
                Err(e) => (Err(e), p2),
                Ok(transform_skip) => {
                    let (r3, p3) = flag_outcome(data, p2, limit);
                    match r3 {
                        Err(e) => (Err(e), p3),
                        Ok(cu_qp) => {
                            let (r4, p4) = ue_opt_at(data, p3, limit, cu_qp);
                            match r4 {
                                Err(e) => (Err(e), p4),
                                Ok(diff_depth) => {
                                    let (r5, p5) = se_at(data, p4, limit);
                                    match r5 {
                                        Err(e) => (Err(e), p5),
                                        Ok(cb) => {
                                            let (r6, p6) = se_at(data, p5, limit);
                                            match r6 {
                                                Err(e) => (Err(e), p6),
                                                Ok(cr) => {
                                                    let (r7, p7) = flag_outcome(data, p6, limit);
                                                    match r7 {
                                                        Err(e) => (Err(e), p7),
                                                        Ok(chroma_offsets) => {
                                                            let (r8, p8) = flag_outcome(data, p7, limit);
                                                            match r8 {
                                                                Err(e) => (Err(e), p8),
                                                                Ok(weighted) => {
                                                                    let (r9, p9) = flag_outcome(data, p8, limit);
                                                                    match r9 {
                                                                        Err(e) => (Err(e), p9),
                                                                        Ok(weighted_bi) => {
                                                                            let (r10, p10) = flag_outcome(data, p9, limit);
                                                                            match r10 {
                                                                                Err(e) => (Err(e), p10),
                                                                                Ok(bypass) => {
                                                                                    let (r11, p11) = flag_outcome(data, p10, limit);
                                                                                    match r11 {
                                                                                        Err(e) => (Err(e), p11),
                                                                                        Ok(tiles) => {
                                                                                            let (r12, p12) = flag_outcome(data, p11, limit);
                                                                                            match r12 {
                                                                                                Err(e) => (Err(e), p12),
                                                                                                Ok(sync) => {
                                                                                                    (Ok((constrained, transform_skip, cu_qp, diff_depth, cb, cr, chroma_offsets, weighted, weighted_bi, bypass, tiles, sync)), p12)
                                                                                                },
                                                                                            }
                                                                                        },
                                                                                    }
                                                                                },
                                                                            }
                                                                        },
                                                                    }
                                                                },
                                                            }
                                                        },
                                                    }
                                                },
                                            }
                                        },
                                    }
                                },
                            }
                        },
                    }
                },
            }
        },
    }
}

fn parse_pps_coding(reader: &mut BitReader<'_>) -> (r: Result<(bool, bool, bool, Option<u64>, i64, i64, bool, bool, bool, bool, bool, bool), SyntaxError>)
    requires
        old(reader).wf(),
    ensures
        final(reader).wf(),
        final(reader).same_input(old(reader)),
        r == pps_coding_outcome(old(reader).bytes(), old(reader).pos(), old(reader).limit()).0,
        r is Ok ==> final(reader).pos() == pps_coding_outcome(old(reader).bytes(), old(reader).pos(), old(reader).limit()).1,
{
    proof {
        reveal(pps_coding_outcome);
    }
    let constrained = match read_flag(reader) {
        Ok(v) => v,
        Err(e) => return Err(e),
    };
    let transform_skip = match read_flag(reader) {
        Ok(v) => v,
        Err(e) => return Err(e),
    };
    let cu_qp = match read_flag(reader) {
        Ok(v) => v,
        Err(e) => return Err(e),
    };
    let diff_depth = match read_opt_ue(reader, cu_qp) {
        Ok(v) => v,
        Err(e) => return Err(e),
    };
    let cb = match read_se_value(reader) {
        Ok(v) => v,
        Err(e) => return Err(e),
    };
    let cr = match read_se_value(reader) {
        Ok(v) => v,
        Err(e) => return Err(e),
    };
    let chroma_offsets = match read_flag(reader) {
        Ok(v) => v,
        Err(e) => return Err(e),
    };
    let weighted = match read_flag(reader) {
        Ok(v) => v,
        Err(e) => return Err(e),
    };
    let weighted_bi = match read_flag(reader) {
        Ok(v) => v,
        Err(e) => return Err(e),
    };
    let bypass = match read_flag(reader) {
        Ok(v) => v,
        Err(e) => return Err(e),
    };
    let tiles = match read_flag(reader) {
        Ok(v) => v,
        Err(e) => return Err(e),
    };
    let sync = match read_flag(reader) {
        Ok(v) => v,
        Err(e) => return Err(e),
    };
    Ok((constrained, transform_skip, cu_qp, diff_depth, cb, cr, chroma_offsets, weighted, weighted_bi, bypass, tiles, sync))
}

/// The PPS syntax elements from `lists_modification_present_flag` to `pps_extension_present_flag`.
#[verifier::opaque]
pub open spec fn pps_tail_outcome(data: Seq<u8>, p0: int, limit: int) -> (Result<(bool, u64, bool, bool), SyntaxError>, int) {
    let (r1, p1) = flag_outcome(data, p0, limit);
    match r1 {
        Err(e) => (Err(e), p1),
        Ok(lists_modification) => {
            let (r2, p2) = ue_at(data, p1, limit);
            match r2 {
                Err(e) => (Err(e), p2),
                Ok(merge_level) => {
                    let (r3, p3) = flag_outcome(data, p2, limit);
                    match r3 {
                        Err(e) => (Err(e), p3),
                        Ok(header_extension) => {
                            let (r4, p4) = flag_outcome(data, p3, limit);
                            match r4 {
                                Err(e) => (Err(e), p4),
                                Ok(extension) => {
                                    (Ok((lists_modification, merge_level, header_extension, extension)), p4)
                                },
                            }
                        },
                    }
                },
            }
        },
    }
}

fn parse_pps_tail(reader: &mut BitReader<'_>) -> (r: Result<(bool, u64, bool, bool), SyntaxError>)
    requires
        old(reader).wf(),
    ensures
        final(reader).wf(),
        final(reader).same_input(old(reader)),
        r == pps_tail_outcome(old(reader).bytes(), old(reader).pos(), old(reader).limit()).0,
        r is Ok ==> final(reader).pos() == pps_tail_outcome(old(reader).bytes(), old(reader).pos(), old(reader).limit()).1,
{
    proof {
        reveal(pps_tail_outcome);
    }
    let lists_modification = match read_flag(reader) {
        Ok(v) => v,
        Err(e) => return Err(e),
    };
    let merge_level = match read_ue_value(reader) {
        Ok(v) => v,
        Err(e) => return Err(e),
    };
    let header_extension = match read_flag(reader) {
        Ok(v) => v,
        Err(e) => return Err(e),
    };
    let extension = match read_flag(reader) {
        Ok(v) => v,
        Err(e) => return Err(e),
    };
    Ok((lists_modification, merge_level, header_extension, extension))
}



/// `num_tile_columns_minus1`, `num_tile_rows_minus1`, `uniform_spacing_flag`,
/// the column widths, the row heights and
/// `loop_filter_across_tiles_enabled_flag` of a tile block.
pub type TileFields = (u64, u64, bool, Seq<u64>, Seq<u64>, bool);

impl PpsTileSyntax {
    /// The fields of this tile block.
    pub open spec fn fields(&self) -> TileFields {
        (
            self.num_tile_columns_minus1,
            self.num_tile_rows_minus1,
            self.uniform_spacing_flag,
            self.column_width_minus1@,
            self.row_height_minus1@,
            self.loop_filter_across_tiles_enabled_flag,
        )
    }
}

/// The explicit column widths and row heights of non-uniform tiles; a count
/// beyond `usize` is rejected before its list is read.
pub open spec fn tile_lists(data: Seq<u8>, p: int, limit: int, cols: u64, rows: u64) -> (Result<(Seq<u64>, Seq<u64>), SyntaxError>, int) {
    if cols > usize::MAX {
        (Err(SyntaxError::InvalidSyntaxValue("too many tile columns")), p)
    } else {
        let (a, p1) = ue_list(data, p, limit, cols as nat);
        match a {
            Err(e) => (Err(e), p1),
            Ok(widths) => if rows > usize::MAX {
                (Err(SyntaxError::InvalidSyntaxValue("too many tile rows")), p1)
            } else {
                let (b, p2) = ue_list(data, p1, limit, rows as nat);
                match b {
                    Err(e) => (Err(e), p2),
                    Ok(heights) => (Ok((widths, heights)), p2),
                }
            },
        }
    }
}

/// The tile block read at `p0`.
#[verifier::opaque]
pub open spec fn pps_tiles_outcome(data: Seq<u8>, p0: int, limit: int) -> (Result<TileFields, SyntaxError>, int) {
    let (r1, p1) = ue_at(data, p0, limit);
    match r1 {
        Err(e) => (Err(e), p1),
        Ok(cols) => {
            let (r2, p2) = ue_at(data, p1, limit);
            match r2 {
                Err(e) => (Err(e), p2),
                Ok(rows) => {
                    let (r3, p3) = flag_outcome(data, p2, limit);
                    match r3 {
                        Err(e) => (Err(e), p3),
                        Ok(uniform) => {
                            let (lists, p4) = if uniform {
                                (Ok::<(Seq<u64>, Seq<u64>), SyntaxError>((Seq::empty(), Seq::empty())), p3)
                            } else {
                                tile_lists(data, p3, limit, cols, rows)
                            };
                            match lists {
                                Err(e) => (Err(e), p4),
                                Ok(l) => {
                                    let (r5, p5) = flag_outcome(data, p4, limit);
                                    match r5 {
                                        Err(e) => (Err(e), p5),
                                        Ok(lf) => (Ok((cols, rows, uniform, l.0, l.1, lf)), p5),
                                    }
                                },
                            }
                        },
                    }
                },
            }
        },
    }
}

fn parse_tile_lists(reader: &mut BitReader<'_>, cols: u64, rows: u64) -> (r: Result<(Vec<u64>, Vec<u64>), SyntaxError>)
    requires
        old(reader).wf(),
    ensures
        final(reader).wf(),
        final(reader).same_input(old(reader)),
        tile_lists(old(reader).bytes(), old(reader).pos(), old(reader).limit(), cols, rows).0 == match r {
            Ok((a, b)) => Ok::<(Seq<u64>, Seq<u64>), SyntaxError>((a@, b@)),
            Err(e) => Err(e),
        },
        r is Ok ==> final(reader).pos() == tile_lists(old(reader).bytes(), old(reader).pos(), old(reader).limit(), cols, rows).1,
{
    if cols > usize::MAX as u64 {
        return Err(SyntaxError::InvalidSyntaxValue("too many tile columns"));
    }
    let widths = match read_ue_list(reader, cols as usize) {
        Ok(v) => v,
        Err(e) => return Err(e),
    };
    if rows > usize::MAX as u64 {
        return Err(SyntaxError::InvalidSyntaxValue("too many tile rows"));
    }
    let heights = match read_ue_list(reader, rows as usize) {
        Ok(v) => v,
        Err(e) => return Err(e),
    };
    Ok((widths, heights))
}

fn parse_pps_tiles(reader: &mut BitReader<'_>) -> (r: Result<PpsTileSyntax, SyntaxError>)
    requires
        old(reader).wf(),
    ensures
        final(reader).wf(),
        final(reader).same_input(old(reader)),
        pps_tiles_outcome(old(reader).bytes(), old(reader).pos(), old(reader).limit()).0 == match r {
            Ok(t) => Ok::<TileFields, SyntaxError>(t.fields()),
            Err(e) => Err(e),
        },
        r is Ok ==> final(reader).pos() == pps_tiles_outcome(old(reader).bytes(), old(reader).pos(), old(reader).limit()).1,
{
    proof {
        reveal(pps_tiles_outcome);
    }
    let num_tile_columns_minus1 = match read_ue_value(reader) {
        Ok(v) => v,
        Err(e) => return Err(e),
    };
    let num_tile_rows_minus1 = match read_ue_value(reader) {
        Ok(v) => v,
        Err(e) => return Err(e),
    };
    let uniform_spacing_flag = match read_flag(reader) {
        Ok(v) => v,
        Err(e) => return Err(e),
    };
    let (column_width_minus1, row_height_minus1) = if uniform_spacing_flag {
        (Vec::new(), Vec::new())
    } else {
        match parse_tile_lists(reader, num_tile_columns_minus1, num_tile_rows_minus1) {
            Ok(v) => v,
            Err(e) => return Err(e),
        }
    };
    let loop_filter_across_tiles_enabled_flag = match read_flag(reader) {
        Ok(v) => v,
        Err(e) => return Err(e),
    };
    let t = PpsTileSyntax {
        num_tile_columns_minus1,
        num_tile_rows_minus1,
        uniform_spacing_flag,
        column_width_minus1,
        row_height_minus1,
        loop_filter_across_tiles_enabled_flag,
    };
    assert(t.fields().3 == column_width_minus1@);
    Ok(t)
}

/// `pps_loop_filter_across_slices_enabled_flag` and the deblocking-control
/// block read at `p0`.
#[verifier::opaque]
pub open spec fn pps_deblocking_outcome(data: Seq<u8>, p0: int, limit: int) -> (Result<(bool, Option<PpsDeblockingFilterSyntax>), SyntaxError>, int) {
    let (r1, p1) = flag_outcome(data, p0, limit);
    match r1 {
        Err(e) => (Err(e), p1),
        Ok(across) => {
            let (r2, p2) = flag_outcome(data, p1, limit);
            match r2 {
                Err(e) => (Err(e), p2),
                Ok(present) => if !present {
                    (Ok((across, None)), p2)
                } else {
                    let (r3, p3) = flag_outcome(data, p2, limit);
                    match r3 {
                        Err(e) => (Err(e), p3),
                        Ok(over) => {
                            let (r4, p4) = flag_outcome(data, p3, limit);
                            match r4 {
                                Err(e) => (Err(e), p4),
                                Ok(disabled) => if disabled {
                                    (Ok((across, Some(PpsDeblockingFilterSyntax {
                                        deblocking_filter_override_enabled_flag: over,
                                        pps_deblocking_filter_disabled_flag: true,
                                        pps_beta_offset_div2: None,
                                        pps_tc_offset_div2: None,
                                    }))), p4)
                                } else {
                                    let (r5, p5) = se_at(data, p4, limit);
                                    match r5 {
                                        Err(e) => (Err(e), p5),
                                        Ok(beta) => {
                                            let (r6, p6) = se_at(data, p5, limit);
                                            match r6 {
                                                Err(e) => (Err(e), p6),
                                                Ok(tc) => (Ok((across, Some(PpsDeblockingFilterSyntax {
                                                    deblocking_filter_override_enabled_flag: over,
                                                    pps_deblocking_filter_disabled_flag: false,
                                                    pps_beta_offset_div2: Some(beta),
                                                    pps_tc_offset_div2: Some(tc),
                                                }))), p6),
                                            }
                                        },
                                    }
                                },
                            }
                        },
                    }
                },
            }
        },
    }
}

fn parse_pps_deblocking(reader: &mut BitReader<'_>) -> (r: Result<(bool, Option<PpsDeblockingFilterSyntax>), SyntaxError>)
    requires
        old(reader).wf(),
    ensures
        final(reader).wf(),
        final(reader).same_input(old(reader)),
        r == pps_deblocking_outcome(old(reader).bytes(), old(reader).pos(), old(reader).limit()).0,
        r is Ok ==> final(reader).pos() == pps_deblocking_outcome(old(reader).bytes(), old(reader).pos(), old(reader).limit()).1,
{
    proof {
        reveal(pps_deblocking_outcome);
    }
    let across = match read_flag(reader) {
        Ok(v) => v,
        Err(e) => return Err(e),
    };
    let present = match read_flag(reader) {
        Ok(v) => v,
        Err(e) => return Err(e),
    };
    if !present {
        return Ok((across, None));
    }
    let over = match read_flag(reader) {
        Ok(v) => v,
        Err(e) => return Err(e),
    };
    let disabled = match read_flag(reader) {
        Ok(v) => v,
        Err(e) => return Err(e),
    };
    let (beta, tc) = if disabled {
        (None, None)
    } else {
        let beta = match read_se_value(reader) {
            Ok(v) => v,
            Err(e) => return Err(e),
        };
        let tc = match read_se_value(reader) {
            Ok(v) => v,
            Err(e) => return Err(e),
        };
        (Some(beta), Some(tc))
    };
    Ok((
        across,
        Some(
            PpsDeblockingFilterSyntax {
                deblocking_filter_override_enabled_flag: over,
                pps_deblocking_filter_disabled_flag: disabled,
                pps_beta_offset_div2: beta,
                pps_tc_offset_div2: tc,
            },
        ),
    ))
}

/// `pps_scaling_list_data_present_flag` and, when set, the scaling-list data
/// read at `p0`.
#[verifier::opaque]
pub open spec fn pps_scaling_outcome(data: Seq<u8>, p0: int, limit: int) -> (Result<(bool, Option<Seq<ScalingMatrixFields>>), SyntaxError>, int) {
    let (r1, p1) = flag_outcome(data, p0, limit);
    match r1 {
        Err(e) => (Err(e), p1),
        Ok(present) => if present {
            let (list, p2) = scaling_outcome(data, p1, limit);
            match list {
                Err(e) => (Err(e), p2),
                Ok(fields) => (Ok((true, Some(fields))), p2),
            }
        } else {
            (Ok((false, None)), p1)
        },
    }
}

fn parse_pps_scaling(reader: &mut BitReader<'_>) -> (r: Result<(bool, Option<ScalingListData>), SyntaxError>)
    requires
        old(reader).wf(),
    ensures
        final(reader).wf(),
        final(reader).same_input(old(reader)),
        pps_scaling_outcome(old(reader).bytes(), old(reader).pos(), old(reader).limit()).0 == match r {
            Ok((a, list)) => Ok::<(bool, Option<Seq<ScalingMatrixFields>>), SyntaxError>((a, match list {
                Some(l) => Some(l.fields()),
                None => None,
            })),
            Err(e) => Err(e),
        },
        r is Ok ==> final(reader).pos() == pps_scaling_outcome(old(reader).bytes(), old(reader).pos(), old(reader).limit()).1,
{
    proof {
        reveal(pps_scaling_outcome);
    }
    let present = match read_flag(reader) {
        Ok(v) => v,
        Err(e) => return Err(e),
    };
    if present {
        match ScalingListData::parse(reader) {
            Ok(list) => Ok((true, Some(list))),
            Err(e) => Err(e),
        }
    } else {
        Ok((false, None))
    }
}


/// PPS range-extension syntax from §7.3.2.3.2.
#[derive(Clone, Debug, Eq, PartialEq)]
pub struct PpsRangeExtensionSyntax {
    /// `log2_max_transform_skip_block_size_minus2`, when transform skip is enabled.
    pub log2_max_transform_skip_block_size_minus2: Option<u64>,
    /// `cross_component_prediction_enabled_flag`.
    pub cross_component_prediction_enabled_flag: bool,
    /// `chroma_qp_offset_list_enabled_flag`.
    pub chroma_qp_offset_list_enabled_flag: bool,
    /// `diff_cu_chroma_qp_offset_depth`, when the list is enabled.
    pub diff_cu_chroma_qp_offset_depth: Option<u64>,
    /// `chroma_qp_offset_list_len_minus1`, when the list is enabled.
    pub chroma_qp_offset_list_len_minus1: Option<u64>,
    /// `cb_qp_offset_list` values.
    pub cb_qp_offset_list: Vec<i64>,
    /// `cr_qp_offset_list` values.
    pub cr_qp_offset_list: Vec<i64>,
    /// `log2_sao_offset_scale_luma`.
    pub log2_sao_offset_scale_luma: u64,
    /// `log2_sao_offset_scale_chroma`.
    pub log2_sao_offset_scale_chroma: u64,
}

/// The fields of a range extension, in syntax order.
pub type RangeFields = (Option<u64>, bool, bool, Option<u64>, Option<u64>, Seq<i64>, Seq<i64>, u64, u64);

impl PpsRangeExtensionSyntax {
    /// The fields of this range extension.
    pub open spec fn fields(&self) -> RangeFields {
        (
            self.log2_max_transform_skip_block_size_minus2,
            self.cross_component_prediction_enabled_flag,
            self.chroma_qp_offset_list_enabled_flag,
            self.diff_cu_chroma_qp_offset_depth,
            self.chroma_qp_offset_list_len_minus1,
            self.cb_qp_offset_list@,
            self.cr_qp_offset_list@,
            self.log2_sao_offset_scale_luma,
            self.log2_sao_offset_scale_chroma,
        )
    }
}

/// `n` interleaved `(cb_qp_offset_list, cr_qp_offset_list)` `se(v)` pairs
/// read at `pos`, as the two lists.
pub open spec fn se_pairs(data: Seq<u8>, pos: int, limit: int, n: nat) -> (Result<(Seq<i64>, Seq<i64>), SyntaxError>, int)
    decreases n,
{
    if n == 0 {
        (Ok((Seq::empty(), Seq::empty())), pos)
    } else {
        let (prior, p) = se_pairs(data, pos, limit, (n - 1) as nat);
        match prior {
            Err(e) => (Err(e), p),
            Ok(lists) => {
                let (a, p1) = se_at(data, p, limit);
                match a {
                    Err(e) => (Err(e), p1),
                    Ok(cb) => {
                        let (b, p2) = se_at(data, p1, limit);
                        match b {
                            Err(e) => (Err(e), p2),
                            Ok(cr) => (Ok((lists.0.push(cb), lists.1.push(cr))), p2),
                        }
                    },
                }
            },
        }
    }
}

proof fn lemma_se_pairs_blocked(data: Seq<u8>, pos: int, limit: int, m: nat, n: nat)
    requires
        m <= n,
        se_pairs(data, pos, limit, m).0 is Err,
    ensures
        se_pairs(data, pos, limit, n).0 == se_pairs(data, pos, limit, m).0,
    decreases n - m,
{
    if m < n {
        lemma_se_pairs_blocked(data, pos, limit, m, (n - 1) as nat);
    }
}

fn read_se_pairs(reader: &mut BitReader<'_>, n: usize) -> (r: Result<(Vec<i64>, Vec<i64>), SyntaxError>)
    requires
        old(reader).wf(),
    ensures
        final(reader).wf(),
        final(reader).same_input(old(reader)),
        se_pairs(old(reader).bytes(), old(reader).pos(), old(reader).limit(), n as nat).0 == match r {
            Ok((a, b)) => Ok::<(Seq<i64>, Seq<i64>), SyntaxError>((a@, b@)),
            Err(e) => Err(e),
        },
        r is Ok ==> final(reader).pos() == se_pairs(old(reader).bytes(), old(reader).pos(), old(reader).limit(), n as nat).1,
{
    let ghost data = reader.bytes();
    let ghost pos = reader.pos();
    let ghost limit = reader.limit();
    let mut cb: Vec<i64> = Vec::new();
    let mut cr: Vec<i64> = Vec::new();
    let mut i: usize = 0;
    while i < n
        invariant
            reader.wf(),
            reader.same_input(old(reader)),
            data == old(reader).bytes(),
            pos == old(reader).pos(),
            limit == old(reader).limit(),
            reader.bytes() == data,
            reader.limit() == limit,
            i <= n,
            se_pairs(data, pos, limit, i as nat) == (Ok::<(Seq<i64>, Seq<i64>), SyntaxError>((cb@, cr@)), reader.pos()),
        decreases n - i,
    {
        let ghost p = reader.pos();
        let ghost lists = (cb@, cr@);
        assert(se_pairs(data, pos, limit, (i + 1) as nat) == {
            let (a, p1) = se_at(data, p, limit);
            match a {
                Err(e) => (Err::<(Seq<i64>, Seq<i64>), SyntaxError>(e), p1),
                Ok(x) => {
                    let (b, p2) = se_at(data, p1, limit);
                    match b {
                        Err(e) => (Err(e), p2),
                        Ok(y) => (Ok((lists.0.push(x), lists.1.push(y))), p2),
                    }
                },
            }
        });
        let x = match read_se_value(reader) {
            Ok(v) => v,
            Err(e) => {
                proof {
                    lemma_se_pairs_blocked(data, pos, limit, (i + 1) as nat, n as nat);
                }
                return Err(e);
            },
        };
        let y = match read_se_value(reader) {
            Ok(v) => v,
            Err(e) => {
                proof {
                    lemma_se_pairs_blocked(data, pos, limit, (i + 1) as nat, n as nat);
                }
                return Err(e);
            },
        };
        cb.push(x);
        cr.push(y);
        i += 1;
    }
    Ok((cb, cr))
}

/// The chroma QP offset list block of a range extension: depth, length and
/// the `len_minus1 + 1` pairs, whose count must fit in `usize`.
pub open spec fn chroma_qp_list_outcome(data: Seq<u8>, p0: int, limit: int) -> (Result<(u64, u64, Seq<i64>, Seq<i64>), SyntaxError>, int) {
    let (r1, p1) = ue_at(data, p0, limit);
    match r1 {
        Err(e) => (Err(e), p1),
        Ok(depth) => {
            let (r2, p2) = ue_at(data, p1, limit);
            match r2 {
                Err(e) => (Err(e), p2),
                Ok(len) => if len >= usize::MAX {
                    (Err(SyntaxError::InvalidSyntaxValue("too many chroma QP offset entries")), p2)
                } else {
                    let (r3, p3) = se_pairs(data, p2, limit, (len + 1) as nat);
                    match r3 {
                        Err(e) => (Err(e), p3),
                        Ok(l) => (Ok((depth, len, l.0, l.1)), p3),
                    }
                },
            }
        },
    }
}

/// `pps_range_extension()` read at `p0` when transform skip is `ts`.
pub open spec fn range_outcome(data: Seq<u8>, p0: int, limit: int, ts: bool) -> (Result<RangeFields, SyntaxError>, int) {
    let (r1, p1) = ue_opt_at(data, p0, limit, ts);
    match r1 {
        Err(e) => (Err(e), p1),
        Ok(skip) => {
            let (r2, p2) = flag_outcome(data, p1, limit);
            match r2 {
                Err(e) => (Err(e), p2),
                Ok(ccp) => {
                    let (r3, p3) = flag_outcome(data, p2, limit);
                    match r3 {
                        Err(e) => (Err(e), p3),
                        Ok(listed) => {
                            let (r4, p4) = if listed {
                                chroma_qp_list_outcome(data, p3, limit)
                            } else {
                                (Ok((0u64, 0u64, Seq::<i64>::empty(), Seq::<i64>::empty())), p3)
                            };
                            match r4 {
                                Err(e) => (Err(e), p4),
                                Ok(q) => {
                                    let (r5, p5) = ue_at(data, p4, limit);
                                    match r5 {
                                        Err(e) => (Err(e), p5),
                                        Ok(luma) => {
                                            let (r6, p6) = ue_at(data, p5, limit);
                                            match r6 {
                                                Err(e) => (Err(e), p6),
                                                Ok(chroma) => (Ok((
                                                    skip,
                                                    ccp,
                                                    listed,
                                                    if listed { Some(q.0) } else { None },
                                                    if listed { Some(q.1) } else { None },
                                                    q.2,
                                                    q.3,
                                                    luma,
                                                    chroma,
                                                )), p6),
                                            }
                                        },
                                    }
                                },
                            }
                        },
                    }
                },
            }
        },
    }
}

fn parse_chroma_qp_list(reader: &mut BitReader<'_>) -> (r: Result<(u64, u64, Vec<i64>, Vec<i64>), SyntaxError>)
    requires
        old(reader).wf(),
    ensures
        final(reader).wf(),
        final(reader).same_input(old(reader)),
        chroma_qp_list_outcome(old(reader).bytes(), old(reader).pos(), old(reader).limit()).0 == match r {
            Ok((a, b, c, d)) => Ok::<(u64, u64, Seq<i64>, Seq<i64>), SyntaxError>((a, b, c@, d@)),
            Err(e) => Err(e),
        },
        r is Ok ==> final(reader).pos() == chroma_qp_list_outcome(old(reader).bytes(), old(reader).pos(), old(reader).limit()).1,
{
    let depth = match read_ue_value(reader) {
        Ok(v) => v,
        Err(e) => return Err(e),
    };
    let len = match read_ue_value(reader) {
        Ok(v) => v,
        Err(e) => return Err(e),
    };
    if len >= usize::MAX as u64 {
        return Err(SyntaxError::InvalidSyntaxValue("too many chroma QP offset entries"));
    }
    let (cb, cr) = match read_se_pairs(reader, (len + 1) as usize) {
        Ok(v) => v,
        Err(e) => return Err(e),
    };
    Ok((depth, len, cb, cr))
}

impl PpsRangeExtensionSyntax {
    /// Parses `pps_range_extension()`; the first element is present only
    /// when transform skip is enabled.
    pub fn parse(reader: &mut BitReader<'_>, transform_skip_enabled_flag: bool) -> (r: Result<Self, SyntaxError>)
        requires
            old(reader).wf(),
        ensures
            final(reader).wf(),
            final(reader).same_input(old(reader)),
            range_outcome(old(reader).bytes(), old(reader).pos(), old(reader).limit(), transform_skip_enabled_flag).0 == match r {
                Ok(x) => Ok::<RangeFields, SyntaxError>(x.fields()),
                Err(e) => Err(e),
            },
            r is Ok ==> final(reader).pos() == range_outcome(old(reader).bytes(), old(reader).pos(), old(reader).limit(), transform_skip_enabled_flag).1,
    {
        let skip = match read_opt_ue(reader, transform_skip_enabled_flag) {
            Ok(v) => v,
            Err(e) => return Err(e),
        };
        let ccp = match read_flag(reader) {
            Ok(v) => v,
            Err(e) => return Err(e),
        };
        let listed = match read_flag(reader) {
            Ok(v) => v,
            Err(e) => return Err(e),
        };
        let (depth, len, cb, cr) = if listed {
            match parse_chroma_qp_list(reader) {
                Ok((a, b, c, d)) => (Some(a), Some(b), c, d),
                Err(e) => return Err(e),
            }
        } else {
            (None, None, Vec::new(), Vec::new())
        };
        let luma = match read_ue_value(reader) {
            Ok(v) => v,
            Err(e) => return Err(e),
        };
        let chroma = match read_ue_value(reader) {
            Ok(v) => v,
            Err(e) => return Err(e),
        };
        let x = PpsRangeExtensionSyntax {
            log2_max_transform_skip_block_size_minus2: skip,
            cross_component_prediction_enabled_flag: ccp,
            chroma_qp_offset_list_enabled_flag: listed,
            diff_cu_chroma_qp_offset_depth: depth,
            chroma_qp_offset_list_len_minus1: len,
            cb_qp_offset_list: cb,
            cr_qp_offset_list: cr,
            log2_sao_offset_scale_luma: luma,
            log2_sao_offset_scale_chroma: chroma,
        };
        assert(x.fields().5 == x.cb_qp_offset_list@);
        Ok(x)
    }
}

/// The five PPS extension selectors: range, multilayer, 3D and SCC flags and `pps_extension_4bits`.
pub open spec fn pps_extension_flags_outcome(data: Seq<u8>, p0: int, limit: int) -> (Result<(bool, bool, bool, bool, u64), SyntaxError>, int) {
    let (r1, p1) = flag_outcome(data, p0, limit);
    match r1 {
        Err(e) => (Err(e), p1),
        Ok(range) => {
            let (r2, p2) = flag_outcome(data, p1, limit);
            match r2 {
                Err(e) => (Err(e), p2),
                Ok(multilayer) => {
                    let (r3, p3) = flag_outcome(data, p2, limit);
                    match r3 {
                        Err(e) => (Err(e), p3),
                        Ok(three_d) => {
                            let (r4, p4) = flag_outcome(data, p3, limit);
                            match r4 {
                                Err(e) => (Err(e), p4),
                                Ok(scc) => {
                                    let (r5, p5) = bits_outcome(data, p4, limit, 4);
                                    match r5 {
                                        Err(e) => (Err(e), p5),
                                        Ok(four_bits) => {
                                            (Ok((range, multilayer, three_d, scc, four_bits)), p5)
                                        },
                                    }
                                },
                            }
                        },
                    }
                },
            }
        },
    }
}

fn parse_pps_extension_flags(reader: &mut BitReader<'_>) -> (r: Result<(bool, bool, bool, bool, u64), SyntaxError>)
    requires
        old(reader).wf(),
    ensures
        final(reader).wf(),
        final(reader).same_input(old(reader)),
        r == pps_extension_flags_outcome(old(reader).bytes(), old(reader).pos(), old(reader).limit()).0,
        r is Ok ==> final(reader).pos() == pps_extension_flags_outcome(old(reader).bytes(), old(reader).pos(), old(reader).limit()).1,
        r matches Ok(v) ==> v.4 < 16,
{
    proof {
        vstd::arithmetic::power2::lemma2_to64();
    }
    let range = match read_flag(reader) {
        Ok(v) => v,
        Err(e) => return Err(e),
    };
    let multilayer = match read_flag(reader) {
        Ok(v) => v,
        Err(e) => return Err(e),
    };
    let three_d = match read_flag(reader) {
        Ok(v) => v,
        Err(e) => return Err(e),
    };
    let scc = match read_flag(reader) {
        Ok(v) => v,
        Err(e) => return Err(e),
    };
    let four_bits = match read_bits_field(reader, 4) {
        Ok(v) => v,
        Err(e) => return Err(e),
    };
    Ok((range, multilayer, three_d, scc, four_bits))
}


/// The error for extension bodies this parser does not read.
pub open spec fn unparsed_extension() -> SyntaxError {
    SyntaxError::InvalidSyntaxValue("PPS multilayer, 3D and SCC extensions are not parsed")
}

/// PPS extension selectors and the range extension body.
#[derive(Clone, Debug, Eq, PartialEq)]
pub struct PpsExtensionSyntax {
    /// `pps_range_extension_flag`.
    pub pps_range_extension_flag: bool,
    /// `pps_multilayer_extension_flag`.
    pub pps_multilayer_extension_flag: bool,
    /// `pps_3d_extension_flag`.
    pub pps_3d_extension_flag: bool,
    /// `pps_scc_extension_flag`.
    pub pps_scc_extension_flag: bool,
    /// `pps_extension_4bits`.
    pub pps_extension_4bits: u8,
    /// Range extension syntax, when selected.
    pub range_extension: Option<PpsRangeExtensionSyntax>,
    /// `pps_extension_data_flag` values when `pps_extension_4bits` is non-zero.
    pub extension_data: Vec<bool>,
    /// Whether `rbsp_trailing_bits()` was consumed by this parser.
    pub trailing_bits_parsed: bool,
}

/// The `pps_extension_data_flag` bits read at `pos` while `more_rbsp_data()`.
pub open spec fn extension_bits(data: Seq<u8>, pos: int, limit: int) -> Seq<bool>
    decreases limit - pos,
{
    if pos < limit && more_rbsp_data_at(data, pos, limit) {
        seq![bits_value(data, pos, 1) != 0] + extension_bits(data, pos + 1, limit)
    } else {
        Seq::empty()
    }
}

/// The bit offset after the extension data bits read at `pos`.
pub open spec fn extension_bits_end(data: Seq<u8>, pos: int, limit: int) -> int
    decreases limit - pos,
{
    if pos < limit && more_rbsp_data_at(data, pos, limit) {
        extension_bits_end(data, pos + 1, limit)
    } else {
        pos
    }
}

/// The range extension fields of an optional body.
pub open spec fn range_fields(x: Option<PpsRangeExtensionSyntax>) -> Option<RangeFields> {
    match x {
        Some(v) => Some(v.fields()),
        None => None,
    }
}

/// `x` holds the selectors `f`, the range body `range`, the data bits
/// `bits`, and records the trailing bits.
pub open spec fn extension_holds(x: PpsExtensionSyntax, f: (bool, bool, bool, bool, u64), range: Option<RangeFields>, bits: Seq<bool>) -> bool {
    &&& x.pps_range_extension_flag == f.0
    &&& x.pps_multilayer_extension_flag == f.1
    &&& x.pps_3d_extension_flag == f.2
    &&& x.pps_scc_extension_flag == f.3
    &&& x.pps_extension_4bits == f.4
    &&& range_fields(x.range_extension) == range
    &&& x.extension_data@ == bits
    &&& x.trailing_bits_parsed
}

/// `pps_extension_*` syntax read at `p0` with transform skip `ts`, ending
/// with `rbsp_trailing_bits()` at `q`: the selectors, the range body when
/// selected, the data bits when `pps_extension_4bits` is non-zero, then the
/// trailing bits. A multilayer, 3D or SCC selector is reported as an error.
#[verifier::opaque]
pub open spec fn pps_extension_read(data: Seq<u8>, p0: int, limit: int, ts: bool, q: int, r: Result<PpsExtensionSyntax, SyntaxError>) -> bool {
    let (f, p1) = pps_extension_flags_outcome(data, p0, limit);
    match f {
        Err(e) => r == Err::<PpsExtensionSyntax, SyntaxError>(e),
        Ok(fl) => {
            let (rg, p2) = if fl.0 {
                let (o, p) = range_outcome(data, p1, limit, ts);
                (match o {
                    Ok(v) => Ok::<Option<RangeFields>, SyntaxError>(Some(v)),
                    Err(e) => Err(e),
                }, p)
            } else {
                (Ok(None), p1)
            };
            match rg {
                Err(e) => r == Err::<PpsExtensionSyntax, SyntaxError>(e),
                Ok(rv) => if fl.1 || fl.2 || fl.3 {
                    r == Err::<PpsExtensionSyntax, SyntaxError>(unparsed_extension())
                } else {
                    let bits = if fl.4 != 0 { extension_bits(data, p2, limit) } else { Seq::empty() };
                    let p3 = if fl.4 != 0 { extension_bits_end(data, p2, limit) } else { p2 };
                    match trailing_bits_outcome(data, p3, limit) {
                        Err(e) => r == Err::<PpsExtensionSyntax, SyntaxError>(e),
                        Ok(_) => q == trailing_bits_end(p3) && (r matches Ok(x) && extension_holds(x, fl, rv, bits)),
                    }
                },
            }
        },
    }
}

fn read_extension_bits(reader: &mut BitReader<'_>) -> (r: Vec<bool>)
    requires
        old(reader).wf(),
    ensures
        final(reader).wf(),
        final(reader).same_input(old(reader)),
        r@ == extension_bits(old(reader).bytes(), old(reader).pos(), old(reader).limit()),
        final(reader).pos() == extension_bits_end(old(reader).bytes(), old(reader).pos(), old(reader).limit()),
{
    let ghost data = reader.bytes();
    let ghost pos = reader.pos();
    let ghost limit = reader.limit();
    let mut bits: Vec<bool> = Vec::new();
    while reader.more_rbsp_data()
        invariant
            reader.wf(),
            reader.same_input(old(reader)),
            data == old(reader).bytes(),
            limit == old(reader).limit(),
            reader.bytes() == data,
            reader.limit() == limit,
            extension_bits(data, pos, limit) == bits@ + extension_bits(data, reader.pos(), limit),
            extension_bits_end(data, pos, limit) == extension_bits_end(data, reader.pos(), limit),
        decreases limit - reader.pos(),
    {
        let ghost p = reader.pos();
        assert(more_rbsp_data_at(data, p, limit));
        let b = match read_flag(reader) {
            Ok(v) => v,
            Err(e) => {
                assert(false);
                return bits;
            },
        };
        assert(extension_bits(data, p, limit) == seq![b] + extension_bits(data, p + 1, limit));
        let ghost before = bits@;
        bits.push(b);
        assert(before + (seq![b] + extension_bits(data, p + 1, limit)) =~= bits@ + extension_bits(data, p + 1, limit));
    }
    proof {
        let p = reader.pos();
        assert(!more_rbsp_data_at(data, p, limit));
        assert(extension_bits(data, p, limit) =~= Seq::<bool>::empty());
        assert(bits@ + Seq::<bool>::empty() =~= bits@);
    }
    bits
}

impl PpsExtensionSyntax {
    /// Parses the PPS extension selectors, the range extension when selected,
    /// the extension data bits and `rbsp_trailing_bits()`.
    #[verifier::spinoff_prover]
    #[verifier::rlimit(60)]
    pub fn parse(reader: &mut BitReader<'_>, transform_skip_enabled_flag: bool) -> (r: Result<Self, SyntaxError>)
        requires
            old(reader).wf(),
        ensures
            final(reader).wf(),
            final(reader).same_input(old(reader)),
            pps_extension_read(old(reader).bytes(), old(reader).pos(), old(reader).limit(), transform_skip_enabled_flag, final(reader).pos(), r),
    {
        proof {
            reveal(pps_extension_read);
        }
        let ghost data = reader.bytes();
        let ghost p0 = reader.pos();
        let ghost limit = reader.limit();
        let flags = parse_pps_extension_flags(reader);
        let (range_flag, multilayer_flag, three_d_flag, scc_flag, four_bits) = match flags {
            Ok(v) => v,
            Err(e) => {
                assert(pps_extension_read(data, p0, limit, transform_skip_enabled_flag, reader.pos(), Err(e)));
                return Err(e);
            },
        };
        let ghost fl = (range_flag, multilayer_flag, three_d_flag, scc_flag, four_bits);
        let ghost p1 = reader.pos();
        assert(pps_extension_flags_outcome(data, p0, limit) == (Ok::<(bool, bool, bool, bool, u64), SyntaxError>(fl), p1));
        proof {
            vstd::arithmetic::power2::lemma2_to64();
        }
        let range_extension = if range_flag {
            match PpsRangeExtensionSyntax::parse(reader, transform_skip_enabled_flag) {
                Ok(v) => Some(v),
                Err(e) => {
                    assert(pps_extension_read(data, p0, limit, transform_skip_enabled_flag, reader.pos(), Err(e)));
                    return Err(e);
                },
            }
        } else {
            None
        };
        let ghost p2 = reader.pos();
        if multilayer_flag || three_d_flag || scc_flag {
            let out = Err(SyntaxError::InvalidSyntaxValue("PPS multilayer, 3D and SCC extensions are not parsed"));
            assert(pps_extension_read(data, p0, limit, transform_skip_enabled_flag, reader.pos(), out));
            return out;
        }
        let extension_data = if four_bits != 0 {
            read_extension_bits(reader)
        } else {
            Vec::new()
        };
        let ghost p3 = reader.pos();
        assert(extension_data@ == if four_bits != 0 { extension_bits(data, p2, limit) } else { Seq::empty() });
        let t = reader.read_rbsp_trailing_bits();
        match t {
            Ok(()) => {},
            Err(e) => {
                assert(pps_extension_read(data, p0, limit, transform_skip_enabled_flag, reader.pos(), Err(e)));
                return Err(e);
            },
        }
        let x = PpsExtensionSyntax {
            pps_range_extension_flag: range_flag,
            pps_multilayer_extension_flag: multilayer_flag,
            pps_3d_extension_flag: three_d_flag,
            pps_scc_extension_flag: scc_flag,
            pps_extension_4bits: four_bits as u8,
            range_extension,
            extension_data,
            trailing_bits_parsed: true,
        };
        assert(extension_holds(x, fl, range_fields(range_extension), extension_data@));
        assert(pps_extension_read(data, p0, limit, transform_skip_enabled_flag, reader.pos(), Ok(x)));
        Ok(x)
    }
}


/// Complete picture parameter set syntax.
#[derive(Clone, Debug, Eq, PartialEq)]
pub struct PictureParameterSetSyntax {
    /// `pps_pic_parameter_set_id`.
    pub pps_pic_parameter_set_id: u64,
    /// `pps_seq_parameter_set_id`.
    pub pps_seq_parameter_set_id: u64,
    /// `dependent_slice_segments_enabled_flag`.
    pub dependent_slice_segments_enabled_flag: bool,
    /// `output_flag_present_flag`.
    pub output_flag_present_flag: bool,
    /// `num_extra_slice_header_bits`.
    pub num_extra_slice_header_bits: u8,
    /// `sign_data_hiding_enabled_flag`.
    pub sign_data_hiding_enabled_flag: bool,
    /// `cabac_init_present_flag`.
    pub cabac_init_present_flag: bool,
    /// `num_ref_idx_l0_default_active_minus1`.
    pub num_ref_idx_l0_default_active_minus1: u64,
    /// `num_ref_idx_l1_default_active_minus1`.
    pub num_ref_idx_l1_default_active_minus1: u64,
    /// `init_qp_minus26`.
    pub init_qp_minus26: i64,
    /// `constrained_intra_pred_flag`.
    pub constrained_intra_pred_flag: bool,
    /// `transform_skip_enabled_flag`.
    pub transform_skip_enabled_flag: bool,
    /// `cu_qp_delta_enabled_flag`.
    pub cu_qp_delta_enabled_flag: bool,
    /// `diff_cu_qp_delta_depth`, when CU QP deltas are enabled.
    pub diff_cu_qp_delta_depth: Option<u64>,
    /// `pps_cb_qp_offset`.
    pub pps_cb_qp_offset: i64,
    /// `pps_cr_qp_offset`.
    pub pps_cr_qp_offset: i64,
    /// `pps_slice_chroma_qp_offsets_present_flag`.
    pub pps_slice_chroma_qp_offsets_present_flag: bool,
    /// `weighted_pred_flag`.
    pub weighted_pred_flag: bool,
    /// `weighted_bipred_flag`.
    pub weighted_bipred_flag: bool,
    /// `transquant_bypass_enabled_flag`.
    pub transquant_bypass_enabled_flag: bool,
    /// `tiles_enabled_flag`.
    pub tiles_enabled_flag: bool,
    /// `entropy_coding_sync_enabled_flag`.
    pub entropy_coding_sync_enabled_flag: bool,
    /// Tile syntax, when tiles are enabled.
    pub tiles: Option<PpsTileSyntax>,
    /// `pps_loop_filter_across_slices_enabled_flag`.
    pub pps_loop_filter_across_slices_enabled_flag: bool,
    /// Deblocking syntax, when present.
    pub deblocking_filter_control: Option<PpsDeblockingFilterSyntax>,
    /// `pps_scaling_list_data_present_flag`.
    pub pps_scaling_list_data_present_flag: bool,
    /// Scaling-list data, when present.
    pub scaling_list_data: Option<ScalingListData>,
    /// `lists_modification_present_flag`.
    pub lists_modification_present_flag: bool,
    /// `log2_parallel_merge_level_minus2`.
    pub log2_parallel_merge_level_minus2: u64,
    /// `slice_segment_header_extension_present_flag`.
    pub slice_segment_header_extension_present_flag: bool,
    /// `pps_extension_present_flag`.
    pub pps_extension_present_flag: bool,
    /// PPS extension syntax, when present.
    pub pps_extension: Option<PpsExtensionSyntax>,
}

/// The head stage of a PPS.
pub type PpsParts0 = (u64, u64, bool, bool, u64, bool, bool, u64, u64, i64);

/// The coding-flag stage of a PPS.
pub type PpsParts1 = (bool, bool, bool, Option<u64>, i64, i64, bool, bool, bool, bool, bool, bool);

/// The stages of a PPS before its extension: head, coding flags, tiles,
/// deblocking, scaling list and tail.
pub type PpsParts = (
    (u64, u64, bool, bool, u64, bool, bool, u64, u64, i64),
    (bool, bool, bool, Option<u64>, i64, i64, bool, bool, bool, bool, bool, bool),
    Option<TileFields>,
    (bool, Option<PpsDeblockingFilterSyntax>),
    (bool, Option<Seq<ScalingMatrixFields>>),
    (bool, u64, bool, bool),
);

/// `s` holds exactly the stages `parts` and the extension `ext`.
#[verifier::opaque]
pub open spec fn pps_holds(s: PictureParameterSetSyntax, parts: PpsParts, ext: Option<PpsExtensionSyntax>) -> bool {
    let (h, c, t, d, sc, l) = parts;
    &&& s.pps_pic_parameter_set_id == h.0
    &&& s.pps_seq_parameter_set_id == h.1
    &&& s.dependent_slice_segments_enabled_flag == h.2
    &&& s.output_flag_present_flag == h.3
    &&& s.num_extra_slice_header_bits == h.4
    &&& s.sign_data_hiding_enabled_flag == h.5
    &&& s.cabac_init_present_flag == h.6
    &&& s.num_ref_idx_l0_default_active_minus1 == h.7
    &&& s.num_ref_idx_l1_default_active_minus1 == h.8
    &&& s.init_qp_minus26 == h.9
    &&& s.constrained_intra_pred_flag == c.0
    &&& s.transform_skip_enabled_flag == c.1
    &&& s.cu_qp_delta_enabled_flag == c.2
    &&& s.diff_cu_qp_delta_depth == c.3
    &&& s.pps_cb_qp_offset == c.4
    &&& s.pps_cr_qp_offset == c.5
    &&& s.pps_slice_chroma_qp_offsets_present_flag == c.6
    &&& s.weighted_pred_flag == c.7
    &&& s.weighted_bipred_flag == c.8
    &&& s.transquant_bypass_enabled_flag == c.9
    &&& s.tiles_enabled_flag == c.10
    &&& s.entropy_coding_sync_enabled_flag == c.11
    &&& t == match s.tiles {
        Some(x) => Some(x.fields()),
        None => None,
    }
    &&& s.pps_loop_filter_across_slices_enabled_flag == d.0
    &&& s.deblocking_filter_control == d.1
    &&& s.pps_scaling_list_data_present_flag == sc.0
    &&& sc.1 == match s.scaling_list_data {
        Some(x) => Some(x.fields()),
        None => None,
    }
    &&& s.lists_modification_present_flag == l.0
    &&& s.log2_parallel_merge_level_minus2 == l.1
    &&& s.slice_segment_header_extension_present_flag == l.2
    &&& s.pps_extension_present_flag == l.3
    &&& s.pps_extension == ext
}

/// The end of a PPS at `p`: the extension when `extension` is set (read
/// with transform skip `ts`), otherwise `rbsp_trailing_bits()`; `r` carries
/// the extension, if any, and `q` the offset after it.
#[verifier::opaque]
pub open spec fn pps_ending_read(data: Seq<u8>, p: int, limit: int, extension: bool, ts: bool, q: int, r: Result<Option<PpsExtensionSyntax>, SyntaxError>) -> bool {
    if extension {
        exists|p7: int, er: Result<PpsExtensionSyntax, SyntaxError>|
            #[trigger] pps_extension_read(data, p, limit, ts, p7, er) && match er {
                Err(e) => r == Err::<Option<PpsExtensionSyntax>, SyntaxError>(e),
                Ok(x) => q == p7 && r == Ok::<Option<PpsExtensionSyntax>, SyntaxError>(Some(x)),
            }
    } else {
        match trailing_bits_outcome(data, p, limit) {
            Err(e) => r == Err::<Option<PpsExtensionSyntax>, SyntaxError>(e),
            Ok(_) => q == trailing_bits_end(p) && r == Ok::<Option<PpsExtensionSyntax>, SyntaxError>(None),
        }
    }
}

/// The end of a PPS at `p` after its stages `parts`, giving `r`.
#[verifier::opaque]
pub open spec fn pps_end_read(parts: PpsParts, data: Seq<u8>, p: int, limit: int, q: int, r: Result<PictureParameterSetSyntax, SyntaxError>) -> bool {
    exists|er: Result<Option<PpsExtensionSyntax>, SyntaxError>|
        #[trigger] pps_ending_read(data, p, limit, parts.5.3, parts.1.1, q, er) && match er {
            Err(e) => r == Err::<PictureParameterSetSyntax, SyntaxError>(e),
            Ok(x) => (r matches Ok(s) && pps_holds(s, parts, x)),
        }
}

fn parse_pps_ending(reader: &mut BitReader<'_>, extension: bool, ts: bool) -> (r: Result<Option<PpsExtensionSyntax>, SyntaxError>)
    requires
        old(reader).wf(),
    ensures
        final(reader).wf(),
        final(reader).same_input(old(reader)),
        pps_ending_read(old(reader).bytes(), old(reader).pos(), old(reader).limit(), extension, ts, final(reader).pos(), r),
{
    proof {
        reveal(pps_ending_read);
    }
    let ghost data = reader.bytes();
    let ghost p = reader.pos();
    let ghost limit = reader.limit();
    if extension {
        match PpsExtensionSyntax::parse(reader, ts) {
            Ok(x) => {
                assert(pps_extension_read(data, p, limit, ts, reader.pos(), Ok(x)));
                Ok(Some(x))
            },
            Err(e) => {
                assert(pps_extension_read(data, p, limit, ts, reader.pos(), Err(e)));
                Err(e)
            },
        }
    } else {
        match reader.read_rbsp_trailing_bits() {
            Ok(()) => Ok(None),
            Err(e) => Err(e),
        }
    }
}

/// The fields of an optional tile block.
pub open spec fn tile_opt_fields(t: Option<PpsTileSyntax>) -> Option<TileFields> {
    match t {
        Some(x) => Some(x.fields()),
        None => None,
    }
}

/// The fields of optional scaling-list data.
pub open spec fn scaling_opt_fields(l: Option<ScalingListData>) -> Option<Seq<ScalingMatrixFields>> {
    match l {
        Some(x) => Some(x.fields()),
        None => None,
    }
}

/// The tile block when tiles are enabled.
pub open spec fn tiles_opt_outcome(data: Seq<u8>, p: int, limit: int, enabled: bool) -> (Result<Option<TileFields>, SyntaxError>, int) {
    if enabled {
        let (o, q) = pps_tiles_outcome(data, p, limit);
        (match o {
            Ok(v) => Ok(Some(v)),
            Err(e) => Err(e),
        }, q)
    } else {
        (Ok(None), p)
    }
}

/// The head, coding and tile stages of a PPS read at `p0`.
#[verifier::opaque]
pub open spec fn pps_front_outcome(data: Seq<u8>, p0: int, limit: int) -> (Result<(PpsParts0, PpsParts1, Option<TileFields>), SyntaxError>, int) {
    let (h, p1) = pps_head_outcome(data, p0, limit);
    match h {
        Err(e) => (Err(e), p1),
        Ok(hv) => {
            let (c, p2) = pps_coding_outcome(data, p1, limit);
            match c {
                Err(e) => (Err(e), p2),
                Ok(cv) => {
                    let (t, p3) = tiles_opt_outcome(data, p2, limit, cv.10);
                    match t {
                        Err(e) => (Err(e), p3),
                        Ok(tv) => (Ok((hv, cv, tv)), p3),
                    }
                },
            }
        },
    }
}

/// The deblocking, scaling and tail stages of a PPS read at `p0`.
#[verifier::opaque]
pub open spec fn pps_back_outcome(data: Seq<u8>, p0: int, limit: int) -> (Result<((bool, Option<PpsDeblockingFilterSyntax>), (bool, Option<Seq<ScalingMatrixFields>>), (bool, u64, bool, bool)), SyntaxError>, int) {
    let (d, p4) = pps_deblocking_outcome(data, p0, limit);
    match d {
        Err(e) => (Err(e), p4),
        Ok(dv) => {
            let (sc, p5) = pps_scaling_outcome(data, p4, limit);
            match sc {
                Err(e) => (Err(e), p5),
                Ok(sv) => {
                    let (l, p6) = pps_tail_outcome(data, p5, limit);
                    match l {
                        Err(e) => (Err(e), p6),
                        Ok(lv) => (Ok((dv, sv, lv)), p6),
                    }
                },
            }
        },
    }
}

fn parse_pps_front(reader: &mut BitReader<'_>) -> (r: Result<(PpsParts0, PpsParts1, Option<PpsTileSyntax>), SyntaxError>)
    requires
        old(reader).wf(),
    ensures
        final(reader).wf(),
        final(reader).same_input(old(reader)),
        pps_front_outcome(old(reader).bytes(), old(reader).pos(), old(reader).limit()).0 == match r {
            Ok((h, c, t)) => Ok::<(PpsParts0, PpsParts1, Option<TileFields>), SyntaxError>((h, c, tile_opt_fields(t))),
            Err(e) => Err(e),
        },
        r is Ok ==> final(reader).pos() == pps_front_outcome(old(reader).bytes(), old(reader).pos(), old(reader).limit()).1,
        r matches Ok(v) ==> v.0.4 < 8,
{
    proof {
        reveal(pps_front_outcome);
    }
    let h = match parse_pps_head(reader) {
        Ok(v) => v,
        Err(e) => return Err(e),
    };
    let c = match parse_pps_coding(reader) {
        Ok(v) => v,
        Err(e) => return Err(e),
    };
    let t = if c.10 {
        match parse_pps_tiles(reader) {
            Ok(t) => Some(t),
            Err(e) => return Err(e),
        }
    } else {
        None
    };
    Ok((h, c, t))
}

fn parse_pps_back(reader: &mut BitReader<'_>) -> (r: Result<((bool, Option<PpsDeblockingFilterSyntax>), (bool, Option<ScalingListData>), (bool, u64, bool, bool)), SyntaxError>)
    requires
        old(reader).wf(),
    ensures
        final(reader).wf(),
        final(reader).same_input(old(reader)),
        pps_back_outcome(old(reader).bytes(), old(reader).pos(), old(reader).limit()).0 == match r {
            Ok((d, sc, l)) => Ok::<((bool, Option<PpsDeblockingFilterSyntax>), (bool, Option<Seq<ScalingMatrixFields>>), (bool, u64, bool, bool)), SyntaxError>((d, (sc.0, scaling_opt_fields(sc.1)), l)),
            Err(e) => Err(e),
        },
        r is Ok ==> final(reader).pos() == pps_back_outcome(old(reader).bytes(), old(reader).pos(), old(reader).limit()).1,
{
    proof {
        reveal(pps_back_outcome);
    }
    let d = match parse_pps_deblocking(reader) {
        Ok(v) => v,
        Err(e) => return Err(e),
    };
    let sc = match parse_pps_scaling(reader) {
        Ok(v) => v,
        Err(e) => return Err(e),
    };
    let l = match parse_pps_tail(reader) {
        Ok(v) => v,
        Err(e) => return Err(e),
    };
    Ok((d, sc, l))
}

/// `pic_parameter_set_rbsp()` read at `pos` gives `r`, leaving the offset `q`
/// when it succeeds: each stage in syntax order, the first failing stage
/// giving the error.
pub open spec fn pps_read(data: Seq<u8>, pos: int, limit: int, q: int, r: Result<PictureParameterSetSyntax, SyntaxError>) -> bool {
    let (f, p3) = pps_front_outcome(data, pos, limit);
    match f {
        Err(e) => r == Err::<PictureParameterSetSyntax, SyntaxError>(e),
        Ok(fv) => {
            let (b, p6) = pps_back_outcome(data, p3, limit);
            match b {
                Err(e) => r == Err::<PictureParameterSetSyntax, SyntaxError>(e),
                Ok(bv) => pps_end_read((fv.0, fv.1, fv.2, bv.0, bv.1, bv.2), data, p6, limit, q, r),
            }
        },
    }
}

fn assemble_pps(
    front: (PpsParts0, PpsParts1, Option<PpsTileSyntax>),
    back: ((bool, Option<PpsDeblockingFilterSyntax>), (bool, Option<ScalingListData>), (bool, u64, bool, bool)),
    pps_extension: Option<PpsExtensionSyntax>,
) -> (s: PictureParameterSetSyntax)
    requires
        front.0.4 < 8,
    ensures
        pps_holds(
            s,
            (front.0, front.1, tile_opt_fields(front.2), back.0, ((back.1).0, scaling_opt_fields((back.1).1)), back.2),
            pps_extension,
        ),
{
    proof {
        reveal(pps_holds);
    }
    let ((id, sps_id, dependent, output, extra, sign_hiding, cabac_init, l0, l1, init_qp), (constrained, transform_skip, cu_qp, diff_depth, cb, cr, chroma_offsets, weighted, weighted_bi, bypass, tiles_enabled, sync), tiles) = front;
    let ((across_slices, deblocking), (scaling_present, scaling_list_data), (lists_modification, merge_level, header_extension, extension)) = back;
        let s = PictureParameterSetSyntax {
            pps_pic_parameter_set_id: id,
            pps_seq_parameter_set_id: sps_id,
            dependent_slice_segments_enabled_flag: dependent,
            output_flag_present_flag: output,
            num_extra_slice_header_bits: extra as u8,
            sign_data_hiding_enabled_flag: sign_hiding,
            cabac_init_present_flag: cabac_init,
            num_ref_idx_l0_default_active_minus1: l0,
            num_ref_idx_l1_default_active_minus1: l1,
            init_qp_minus26: init_qp,
            constrained_intra_pred_flag: constrained,
            transform_skip_enabled_flag: transform_skip,
            cu_qp_delta_enabled_flag: cu_qp,
            diff_cu_qp_delta_depth: diff_depth,
            pps_cb_qp_offset: cb,
            pps_cr_qp_offset: cr,
            pps_slice_chroma_qp_offsets_present_flag: chroma_offsets,
            weighted_pred_flag: weighted,
            weighted_bipred_flag: weighted_bi,
            transquant_bypass_enabled_flag: bypass,
            tiles_enabled_flag: tiles_enabled,
            entropy_coding_sync_enabled_flag: sync,
            tiles,
            pps_loop_filter_across_slices_enabled_flag: across_slices,
            deblocking_filter_control: deblocking,
            pps_scaling_list_data_present_flag: scaling_present,
            scaling_list_data,
            lists_modification_present_flag: lists_modification,
            log2_parallel_merge_level_minus2: merge_level,
            slice_segment_header_extension_present_flag: header_extension,
            pps_extension_present_flag: extension,
            pps_extension,
        };
    s
}

impl PictureParameterSetSyntax {
    /// Parses a complete `pic_parameter_set_rbsp()`, including the range
    /// extension, the extension data and the trailing bits.
    #[verifier::spinoff_prover]
    #[verifier::rlimit(100)]
    pub fn parse(reader: &mut BitReader<'_>) -> (r: Result<Self, SyntaxError>)
        requires
            old(reader).wf(),
        ensures
            final(reader).wf(),
            final(reader).same_input(old(reader)),
            pps_read(old(reader).bytes(), old(reader).pos(), old(reader).limit(), final(reader).pos(), r),
    {
        let ghost data = reader.bytes();
        let ghost pos = reader.pos();
        let ghost limit = reader.limit();
        let front = match parse_pps_front(reader) {
            Ok(v) => v,
            Err(e) => return Err(e),
        };
        let back = match parse_pps_back(reader) {
            Ok(v) => v,
            Err(e) => return Err(e),
        };
        let ghost p6 = reader.pos();
        let ghost parts: PpsParts = (front.0, front.1, tile_opt_fields(front.2), back.0, ((back.1).0, scaling_opt_fields((back.1).1)), back.2);
        let extension = (back.2).3;
        let transform_skip = (front.1).1;
        let ending = parse_pps_ending(reader, extension, transform_skip);
        assert(pps_ending_read(data, p6, limit, extension, transform_skip, reader.pos(), ending));
        let pps_extension = match ending {
            Ok(x) => x,
            Err(e) => {
                assert(pps_end_read(parts, data, p6, limit, reader.pos(), Err(e))) by {
                    reveal(pps_end_read);
                    assert(pps_ending_read(data, p6, limit, parts.5.3, parts.1.1, reader.pos(), ending));
                }
                return Err(e);
            },
        };
        let s = assemble_pps(front, back, pps_extension);
        assert(pps_holds(s, parts, pps_extension));
        assert(pps_end_read(parts, data, p6, limit, reader.pos(), Ok(s))) by {
            reveal(pps_end_read);
            assert(pps_ending_read(data, p6, limit, parts.5.3, parts.1.1, reader.pos(), ending));
        }
        Ok(s)
    }
}

} // verus!
