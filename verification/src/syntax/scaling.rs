//! `scaling_list_data()` of §7.3.4.
use vstd::prelude::*;
use super::bit_reader::{map_signed_spec, ue_at, BitReader};
use super::reference_sets::{flag_outcome, read_flag};
use super::SyntaxError;

verus! {

/// One matrix entry from `scaling_list_data()` in §7.3.4.
#[derive(Clone, Debug, Eq, PartialEq)]
pub struct ScalingListMatrix {
    /// Matrix size identifier, 0 through 3.
    pub size_id: u8,
    /// Matrix identifier within the size group.
    pub matrix_id: u8,
    /// `scaling_list_pred_mode_flag`.
    pub pred_mode_flag: bool,
    /// `scaling_list_pred_matrix_id_delta`, when prediction mode is used.
    pub pred_matrix_id_delta: Option<u64>,
    /// `scaling_list_dc_coef_minus8`, for size IDs greater than 1.
    pub dc_coef_minus8: Option<i64>,
    /// Parsed `scaling_list_delta_coef` values.
    pub delta_coefficients: Vec<i64>,
    /// Derived scaling coefficients, when prediction mode is not used.
    pub coefficients: Vec<u8>,
}

/// The fields of a matrix entry as plain values: `(size_id, matrix_id,
/// pred_mode_flag, pred_matrix_id_delta, dc_coef_minus8, delta_coefficients,
/// coefficients)`.
pub type ScalingMatrixFields = (u8, u8, bool, Option<u64>, Option<i64>, Seq<i64>, Seq<u8>);

impl ScalingListMatrix {
    /// The entry's fields as plain values.
    pub open spec fn fields(&self) -> ScalingMatrixFields {
        (
            self.size_id,
            self.matrix_id,
            self.pred_mode_flag,
            self.pred_matrix_id_delta,
            self.dc_coef_minus8,
            self.delta_coefficients@,
            self.coefficients@,
        )
    }
}

/// Parsed `scaling_list_data()` syntax from §7.3.4.
#[derive(Clone, Debug, Eq, PartialEq)]
pub struct ScalingListData {
    /// Matrix entries in syntax-table order.
    pub matrices: Vec<ScalingListMatrix>,
}

impl ScalingListData {
    /// The fields of every matrix entry, in syntax-table order.
    pub open spec fn fields(&self) -> Seq<ScalingMatrixFields> {
        self.matrices@.map_values(|m: ScalingListMatrix| m.fields())
    }
}

/// The outcome of an `se(v)` field at `pos` and the bit offset it leaves.
pub open spec fn se_at(data: Seq<u8>, pos: int, limit: int) -> (Result<i64, SyntaxError>, int) {
    match ue_at(data, pos, limit).0 {
        Ok(v) => (Ok(map_signed_spec(v as int) as i64), ue_at(data, pos, limit).1),
        Err(e) => (Err(e), ue_at(data, pos, limit).1),
    }
}

/// `(last + delta + 256) mod 256`, the next coefficient of (7-42).
pub open spec fn next_coefficient(last: int, delta: int) -> int {
    (last + delta + 256) % 256
}

/// The error for a coefficient computation that leaves `i64`.
pub open spec fn coefficient_overflow() -> SyntaxError {
    SyntaxError::InvalidSyntaxValue("scaling list coefficient overflows")
}

/// The first `n` `scaling_list_delta_coef` values read at `pos`, with the
/// coefficients they derive from `start`, and the offset after them. A sum
/// `last + delta + 256` outside `i64` is an error.
pub open spec fn coefficient_run(data: Seq<u8>, pos: int, limit: int, start: int, n: int) -> (Result<(Seq<i64>, Seq<u8>), SyntaxError>, int)
    decreases n,
{
    if n <= 0 {
        (Ok((Seq::empty(), Seq::empty())), pos)
    } else {
        let (prev, p) = coefficient_run(data, pos, limit, start, n - 1);
        match prev {
            Err(e) => (Err(e), p),
            Ok((deltas, coefficients)) => {
                let (d, q) = se_at(data, p, limit);
                match d {
                    Err(e) => (Err(e), q),
                    Ok(delta) => {
                        let last = if coefficients.len() == 0 { start } else { coefficients.last() as int };
                        if i64::MIN <= last + delta + 256 <= i64::MAX {
                            (Ok((deltas.push(delta), coefficients.push(next_coefficient(last, delta as int) as u8))), q)
                        } else {
                            (Err(coefficient_overflow()), q)
                        }
                    },
                }
            },
        }
    }
}

/// Number of coefficients coded for `size_id`: `Min(64, 1 << (4 + (sizeId << 1)))`.
pub open spec fn coefficient_count(size_id: u8) -> int {
    if size_id == 0 {
        16
    } else {
        64
    }
}

/// The outcome of the matrix entry `(size_id, matrix_id)` read at `pos`
/// and the offset after it; a DC value whose `+ 8` leaves `i64` is an error.
pub open spec fn matrix_outcome(data: Seq<u8>, pos: int, limit: int, size_id: u8, matrix_id: u8) -> (Result<ScalingMatrixFields, SyntaxError>, int) {
    let (flag, p0) = flag_outcome(data, pos, limit);
    match flag {
        Err(e) => (Err(e), p0),
        Ok(false) => {
            let (delta, p1) = ue_at(data, p0, limit);
            match delta {
                Err(e) => (Err(e), p1),
                Ok(v) => (Ok((size_id, matrix_id, false, Some(v), None, Seq::empty(), Seq::empty())), p1),
            }
        },
        Ok(true) => {
            let (dc, p1) = if size_id > 1 { se_at(data, p0, limit) } else { (Ok(0i64), p0) };
            match dc {
                Err(e) => (Err(e), p1),
                Ok(dcv) => if dcv + 8 > i64::MAX {
                    (Err(coefficient_overflow()), p1)
                } else {
                    let start = if size_id > 1 { dcv + 8 } else { 8 };
                    let (run, p2) = coefficient_run(data, p1, limit, start, coefficient_count(size_id));
                    match run {
                        Err(e) => (Err(e), p2),
                        Ok((deltas, coefficients)) => (
                            Ok((
                                size_id,
                                matrix_id,
                                true,
                                None,
                                if size_id > 1 { Some(dcv) } else { None },
                                deltas,
                                coefficients,
                            )),
                            p2,
                        ),
                    }
                },
            }
        },
    }
}

/// `sizeId` of the `t`-th matrix entry in syntax-table order.
pub open spec fn entry_size_id(t: int) -> u8 {
    if t < 18 {
        (t / 6) as u8
    } else {
        3
    }
}

/// `matrixId` of the `t`-th matrix entry (steps of 3 for `sizeId == 3`).
pub open spec fn entry_matrix_id(t: int) -> u8 {
    if t < 18 {
        (t % 6) as u8
    } else {
        ((t - 18) * 3) as u8
    }
}

/// The first `t` matrix entries read at `pos` and the offset after them.
pub open spec fn scaling_run(data: Seq<u8>, pos: int, limit: int, t: int) -> (Result<Seq<ScalingMatrixFields>, SyntaxError>, int)
    decreases t,
{
    if t <= 0 {
        (Ok(Seq::empty()), pos)
    } else {
        let (prev, p) = scaling_run(data, pos, limit, t - 1);
        match prev {
            Err(e) => (Err(e), p),
            Ok(entries) => {
                let (m, q) = matrix_outcome(data, p, limit, entry_size_id(t - 1), entry_matrix_id(t - 1));
                match m {
                    Err(e) => (Err(e), q),
                    Ok(fields) => (Ok(entries.push(fields)), q),
                }
            },
        }
    }
}

/// The outcome of `scaling_list_data()` (all 20 entries) read at `pos`.
pub open spec fn scaling_outcome(data: Seq<u8>, pos: int, limit: int) -> (Result<Seq<ScalingMatrixFields>, SyntaxError>, int) {
    scaling_run(data, pos, limit, 20)
}

fn read_se_field(reader: &mut BitReader<'_>) -> (r: Result<i64, SyntaxError>)
    requires
        old(reader).wf(),
    ensures
        final(reader).wf(),
        final(reader).same_input(old(reader)),
        r == se_at(old(reader).bytes(), old(reader).pos(), old(reader).limit()).0,
        final(reader).pos() == se_at(old(reader).bytes(), old(reader).pos(), old(reader).limit()).1,
{
    reader.read_se()
}

/// `(last + delta + 256) mod 256` in `i64`.
fn next_coefficient_exec(last: i64, delta: i64) -> (r: u8)
    requires
        i64::MIN <= last + delta + 256 <= i64::MAX,
    ensures
        r == next_coefficient(last as int, delta as int),
{
    let s: i128 = last as i128 + delta as i128 + 256;
    if s >= 0 {
        ((s as u128) % 256) as u8
    } else {
        let m = ((-(s + 1)) as u128) % 256;
        assert(255 - m == (s as int) % 256) by (nonlinear_arith)
            requires s < 0, m == (-(s + 1)) % 256;
        (255 - m) as u8
    }
}

/// Reads the coefficients of one explicitly coded matrix.
fn parse_coefficients(reader: &mut BitReader<'_>, start: i64, count: usize) -> (r: Result<(Vec<i64>, Vec<u8>), SyntaxError>)
    requires
        old(reader).wf(),
        count <= 64,
    ensures
        final(reader).wf(),
        final(reader).same_input(old(reader)),
        ({
            let (expected, end) = coefficient_run(old(reader).bytes(), old(reader).pos(), old(reader).limit(), start as int, count as int);
            &&& final(reader).pos() == end
            &&& match r {
                Ok((d, c)) => expected == Ok::<(Seq<i64>, Seq<u8>), SyntaxError>((d@, c@)),
                Err(e) => expected == Err::<(Seq<i64>, Seq<u8>), SyntaxError>(e),
            }
        }),
{
    let ghost data = reader.bytes();
    let ghost pos = reader.pos();
    let ghost limit = reader.limit();
    let mut deltas: Vec<i64> = Vec::new();
    let mut coefficients: Vec<u8> = Vec::new();
    let mut next = start;
    let mut k: usize = 0;
    while k < count
        invariant
            reader.wf(),
            reader.bytes() == data,
            reader.limit() == limit,
            reader.same_input(old(reader)),
            old(reader).bytes() == data,
            old(reader).pos() == pos,
            old(reader).limit() == limit,
            k <= count <= 64,
            coefficient_run(data, pos, limit, start as int, k as int) == (
                Ok::<(Seq<i64>, Seq<u8>), SyntaxError>((deltas@, coefficients@)),
                reader.pos(),
            ),
            next as int == if coefficients@.len() == 0 { start as int } else { coefficients@.last() as int },
        decreases count - k,
    {
        let delta = match read_se_field(reader) {
            Ok(v) => v,
            Err(e) => {
                proof {
                    lemma_run_error_stays(data, pos, limit, start as int, (k + 1) as int, count as int);
                }
                return Err(e);
            },
        };
        let sum: i128 = next as i128 + delta as i128 + 256;
        if sum < i64::MIN as i128 || sum > i64::MAX as i128 {
            proof {
                lemma_run_error_stays(data, pos, limit, start as int, (k + 1) as int, count as int);
            }
            return Err(SyntaxError::InvalidSyntaxValue("scaling list coefficient overflows"));
        }
        let value = next_coefficient_exec(next, delta);
        deltas.push(delta);
        coefficients.push(value);
        next = value as i64;
        k += 1;
    }
    Ok((deltas, coefficients))
}

proof fn lemma_run_error_stays(data: Seq<u8>, pos: int, limit: int, start: int, m: int, n: int)
    requires
        0 <= m <= n,
        coefficient_run(data, pos, limit, start, m).0 is Err,
    ensures
        coefficient_run(data, pos, limit, start, n).0 == coefficient_run(data, pos, limit, start, m).0,
        coefficient_run(data, pos, limit, start, n).1 == coefficient_run(data, pos, limit, start, m).1,
    decreases n - m,
{
    if m < n {
        lemma_run_error_stays(data, pos, limit, start, m, n - 1);
    }
}

/// Reads the matrix entry `(size_id, matrix_id)`.
fn parse_matrix(reader: &mut BitReader<'_>, size_id: u8, matrix_id: u8) -> (r: Result<ScalingListMatrix, SyntaxError>)
    requires
        old(reader).wf(),
        size_id <= 3,
    ensures
        final(reader).wf(),
        final(reader).same_input(old(reader)),
        ({
            let (expected, end) = matrix_outcome(old(reader).bytes(), old(reader).pos(), old(reader).limit(), size_id, matrix_id);
            &&& final(reader).pos() == end
            &&& match r {
                Ok(m) => expected == Ok::<ScalingMatrixFields, SyntaxError>(m.fields()),
                Err(e) => expected == Err::<ScalingMatrixFields, SyntaxError>(e),
            }
        }),
{
    let pred_mode_flag = match read_flag(reader) {
        Ok(v) => v,
        Err(e) => return Err(e),
    };
    if !pred_mode_flag {
        let delta = match reader.read_ue() {
            Ok(v) => v,
            Err(e) => return Err(e),
        };
        return Ok(ScalingListMatrix {
            size_id,
            matrix_id,
            pred_mode_flag,
            pred_matrix_id_delta: Some(delta),
            dc_coef_minus8: None,
            delta_coefficients: Vec::new(),
            coefficients: Vec::new(),
        });
    }
    let dc_coef_minus8 = if size_id > 1 {
        match read_se_field(reader) {
            Ok(v) => Some(v),
            Err(e) => return Err(e),
        }
    } else {
        None
    };
    let start: i64 = match dc_coef_minus8 {
        Some(v) => {
            if v > i64::MAX - 8 {
                return Err(SyntaxError::InvalidSyntaxValue("scaling list coefficient overflows"));
            }
            v + 8
        },
        None => 8,
    };
    let count: usize = if size_id == 0 { 16 } else { 64 };
    let (delta_coefficients, coefficients) = match parse_coefficients(reader, start, count) {
        Ok(run) => run,
        Err(e) => return Err(e),
    };
    Ok(ScalingListMatrix {
        size_id,
        matrix_id,
        pred_mode_flag,
        pred_matrix_id_delta: None,
        dc_coef_minus8,
        delta_coefficients,
        coefficients,
    })
}

proof fn lemma_scaling_error_stays(data: Seq<u8>, pos: int, limit: int, m: int, n: int)
    requires
        0 <= m <= n,
        scaling_run(data, pos, limit, m).0 is Err,
    ensures
        scaling_run(data, pos, limit, n).0 == scaling_run(data, pos, limit, m).0,
        scaling_run(data, pos, limit, n).1 == scaling_run(data, pos, limit, m).1,
    decreases n - m,
{
    if m < n {
        lemma_scaling_error_stays(data, pos, limit, m, n - 1);
    }
}

impl ScalingListData {
    /// Parses all 20 scaling-list matrix entries. The result, and the bit
    /// offset the reader is left at (also after an error), are those of
    /// `scaling_outcome`; a coefficient computation that would leave `i64` is
    /// reported as an error.
    pub fn parse(reader: &mut BitReader<'_>) -> (r: Result<Self, SyntaxError>)
        requires
            old(reader).wf(),
        ensures
            final(reader).wf(),
            final(reader).same_input(old(reader)),
            ({
                let (expected, end) = scaling_outcome(old(reader).bytes(), old(reader).pos(), old(reader).limit());
                &&& final(reader).pos() == end
                &&& match r {
                    Ok(d) => expected == Ok::<Seq<ScalingMatrixFields>, SyntaxError>(d.fields()),
                    Err(e) => expected == Err::<Seq<ScalingMatrixFields>, SyntaxError>(e),
                }
            }),
    {
        let ghost data = reader.bytes();
        let ghost pos = reader.pos();
        let ghost limit = reader.limit();
        let mut matrices: Vec<ScalingListMatrix> = Vec::new();
        let mut t: usize = 0;
        assert(matrices@.map_values(|m: ScalingListMatrix| m.fields()) =~= Seq::<ScalingMatrixFields>::empty());
        while t < 20
            invariant
                reader.wf(),
                reader.bytes() == data,
                reader.limit() == limit,
                reader.same_input(old(reader)),
                old(reader).bytes() == data,
                old(reader).pos() == pos,
                old(reader).limit() == limit,
                t <= 20,
                scaling_run(data, pos, limit, t as int) == (
                    Ok::<Seq<ScalingMatrixFields>, SyntaxError>(matrices@.map_values(|m: ScalingListMatrix| m.fields())),
                    reader.pos(),
                ),
            decreases 20 - t,
        {
            let size_id: u8 = if t < 18 { (t / 6) as u8 } else { 3 };
            let matrix_id: u8 = if t < 18 { (t % 6) as u8 } else { ((t - 18) * 3) as u8 };
            assert(size_id == entry_size_id(t as int) && matrix_id == entry_matrix_id(t as int));
            let matrix = match parse_matrix(reader, size_id, matrix_id) {
                Ok(m) => m,
                Err(e) => {
                    proof {
                        lemma_scaling_error_stays(data, pos, limit, (t + 1) as int, 20);
                    }
                    return Err(e);
                },
            };
            let ghost before = matrices@;
            matrices.push(matrix);
            proof {
                assert(matrices@.map_values(|m: ScalingListMatrix| m.fields()) =~= before.map_values(|m: ScalingListMatrix| m.fields()).push(
                    matrix.fields(),
                ));
            }
            t += 1;
        }
        Ok(ScalingListData { matrices })
    }
}

} // verus!
