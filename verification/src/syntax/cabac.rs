use vstd::prelude::*;
use vstd::arithmetic::power2::pow2;
use super::{bits_value, lemma_bits_value_bound, BitReader, SyntaxError};
use super::bit_reader::{trailing_bits_end, trailing_bits_outcome};

verus! {

/// One CABAC probability context variable.
#[derive(Clone, Copy, Debug, Eq, PartialEq, Structural)]
pub struct CabacContext {
    /// LPS probability-state index, 0..63.
    pub state_index: u8,
    /// Most probable symbol.
    pub value_mps: u8,
}

/// A context with the state clamped to 63 and the MPS reduced to one bit.
pub open spec fn context_spec(state_index: u8, value_mps: u8) -> CabacContext {
    CabacContext { state_index: if state_index > 63 { 63 } else { state_index }, value_mps: value_mps & 1 }
}

/// `preCtxState` of §9.3.2.2 for an `initValue` and slice QP.
pub open spec fn pre_ctx_state(init_value: u8, slice_qp: i32) -> int {
    let slope = (init_value / 16) * 5 - 45;
    let offset = (init_value % 16) * 8 - 16;
    let qp = if slice_qp < 0 { 0 } else if slice_qp > 51 { 51 } else { slice_qp as int };
    let pre = (((slope * qp) as i32) >> 4i32) + offset;
    if pre < 1 { 1 } else if pre > 126 { 126 } else { pre }
}

/// The context initialized from `initValue` and the slice QP (§9.3.2.2).
pub open spec fn init_context_spec(init_value: u8, slice_qp: i32) -> CabacContext {
    let pre = pre_ctx_state(init_value, slice_qp);
    if pre <= 63 {
        CabacContext { state_index: (63 - pre) as u8, value_mps: 0 }
    } else {
        CabacContext { state_index: (pre - 64) as u8, value_mps: 1 }
    }
}

/// The context can drive the arithmetic decoder: its state indexes the
/// 64-entry tables and its MPS is a single bit.
pub open spec fn context_valid(c: CabacContext) -> bool {
    c.state_index <= 63 && c.value_mps <= 1
}

impl CabacContext {
    /// Creates a context with an explicitly specified state.
    pub fn new(state_index: u8, value_mps: u8) -> (r: Self)
        ensures
            r == context_spec(state_index, value_mps),
            context_valid(r),
    {
        assert(value_mps & 1 <= 1) by (bit_vector);
        Self { state_index: if state_index > 63 { 63 } else { state_index }, value_mps: value_mps & 1 }
    }

    /// Initializes a context from a Clause 9 `initValue` and slice QP.
    pub fn from_init_value(init_value: u8, slice_qp: i32) -> (r: Self)
        ensures
            r == init_context_spec(init_value, slice_qp),
            context_valid(r),
    {
        let slope = (init_value / 16) as i32 * 5 - 45;
        let offset = (init_value % 16) as i32 * 8 - 16;
        let qp = if slice_qp < 0 { 0 } else if slice_qp > 51 { 51 } else { slice_qp };
        assert(-45 * 51 <= slope * qp <= 30 * 51) by (nonlinear_arith)
            requires -45 <= slope <= 30, 0 <= qp <= 51;
        let product: i32 = slope * qp;
        let shifted: i32 = product >> 4i32;
        assert(-1000 <= product >> 4i32 <= 1000) by (bit_vector)
            requires -45 * 51 <= product <= 30 * 51;
        let pre = shifted + offset;
        let pre = if pre < 1 { 1 } else if pre > 126 { 126 } else { pre };
        assert(product == (slope * qp) as i32);
        if pre <= 63 {
            Self { state_index: (63 - pre) as u8, value_mps: 0 }
        } else {
            Self { state_index: (pre - 64) as u8, value_mps: 1 }
        }
    }
}

/// CABAC context tables defined by H.265 Table 9-4.
#[derive(Clone, Copy, Debug, Eq, PartialEq, Structural)]
pub enum CabacContextTable {
    /// SAO merge flags.
    SaoMerge,
    /// SAO type index.
    SaoType,
    /// Coding-unit split flag.
    SplitCu,
    /// CU transquant bypass flag.
    CuTransquantBypass,
    /// CU skip flag.
    CuSkip,
    /// Prediction mode flag.
    PredMode,
    /// Partition mode.
    PartMode,
    /// Previous intra luma prediction flag.
    PrevIntraLumaPred,
    /// Intra chroma prediction mode.
    IntraChromaPred,
    /// Root coded-block flag.
    RqtRootCbf,
    /// Merge flag.
    Merge,
    /// Merge candidate index.
    MergeIdx,
    /// Inter prediction direction.
    InterPredIdc,
    /// Reference-picture index.
    RefIdx,
    /// Motion-vector predictor flag.
    MvpFlag,
    /// Transform split flag.
    SplitTransform,
    /// Luma coded-block flag.
    CbfLuma,
    /// Chroma coded-block flags.
    CbfChroma,
    /// Motion-vector absolute-value flags.
    AbsMvd,
    /// CU delta-QP absolute value.
    CuQpDeltaAbs,
    /// Transform skip flag.
    TransformSkip,
    /// Last significant coefficient X prefix.
    LastSigCoeffXPrefix,
    /// Last significant coefficient Y prefix.
    LastSigCoeffYPrefix,
    /// Coded sub-block flag.
    CodedSubBlock,
    /// Significant coefficient flag.
    SigCoeff,
    /// Coefficient absolute level greater-than-one flag.
    CoeffAbsLevelGreater1,
    /// Coefficient absolute level greater-than-two flag.
    CoeffAbsLevelGreater2,
    /// Explicit RDPCM flag.
    ExplicitRdpcm,
    /// Explicit RDPCM direction flag.
    ExplicitRdpcmDir,
    /// Chroma QP offset flag.
    ChromaQpOffsetFlag,
    /// Chroma QP offset index.
    ChromaQpOffsetIdx,
    /// Cross-component residual scale prefix.
    Log2ResScaleAbsPlus1,
    /// Cross-component residual scale sign.
    ResScaleSign,
    /// Palette mode flag.
    PaletteMode,
    /// Transform-unit residual ACT flag.
    TuResidualAct,
    /// Palette run prefix.
    PaletteRunPrefix,
    /// Palette copy-above flags.
    PaletteCopyAbove,
    /// Palette transpose flag.
    PaletteTranspose,
}

/// Number of flat contexts in the standard Clause 9 tables.
pub const CABAC_CONTEXT_COUNT: usize = 531;

/// Number of context tables.
pub const CABAC_TABLE_COUNT: usize = 38;

/// The table at position `index` of the flat context storage order.
pub open spec fn table_at_spec(index: int) -> CabacContextTable {
    if index == 0 {
        CabacContextTable::SaoMerge
    } else if index == 1 {
        CabacContextTable::SaoType
    } else if index == 2 {
        CabacContextTable::SplitCu
    } else if index == 3 {
        CabacContextTable::CuTransquantBypass
    } else if index == 4 {
        CabacContextTable::CuSkip
    } else if index == 5 {
        CabacContextTable::PredMode
    } else if index == 6 {
        CabacContextTable::PartMode
    } else if index == 7 {
        CabacContextTable::PrevIntraLumaPred
    } else if index == 8 {
        CabacContextTable::IntraChromaPred
    } else if index == 9 {
        CabacContextTable::RqtRootCbf
    } else if index == 10 {
        CabacContextTable::Merge
    } else if index == 11 {
        CabacContextTable::MergeIdx
    } else if index == 12 {
        CabacContextTable::InterPredIdc
    } else if index == 13 {
        CabacContextTable::RefIdx
    } else if index == 14 {
        CabacContextTable::MvpFlag
    } else if index == 15 {
        CabacContextTable::SplitTransform
    } else if index == 16 {
        CabacContextTable::CbfLuma
    } else if index == 17 {
        CabacContextTable::CbfChroma
    } else if index == 18 {
        CabacContextTable::AbsMvd
    } else if index == 19 {
        CabacContextTable::CuQpDeltaAbs
    } else if index == 20 {
        CabacContextTable::TransformSkip
    } else if index == 21 {
        CabacContextTable::LastSigCoeffXPrefix
    } else if index == 22 {
        CabacContextTable::LastSigCoeffYPrefix
    } else if index == 23 {
        CabacContextTable::CodedSubBlock
    } else if index == 24 {
        CabacContextTable::SigCoeff
    } else if index == 25 {
        CabacContextTable::CoeffAbsLevelGreater1
    } else if index == 26 {
        CabacContextTable::CoeffAbsLevelGreater2
    } else if index == 27 {
        CabacContextTable::ExplicitRdpcm
    } else if index == 28 {
        CabacContextTable::ExplicitRdpcmDir
    } else if index == 29 {
        CabacContextTable::ChromaQpOffsetFlag
    } else if index == 30 {
        CabacContextTable::ChromaQpOffsetIdx
    } else if index == 31 {
        CabacContextTable::Log2ResScaleAbsPlus1
    } else if index == 32 {
        CabacContextTable::ResScaleSign
    } else if index == 33 {
        CabacContextTable::PaletteMode
    } else if index == 34 {
        CabacContextTable::TuResidualAct
    } else if index == 35 {
        CabacContextTable::PaletteRunPrefix
    } else if index == 36 {
        CabacContextTable::PaletteCopyAbove
    } else {
        CabacContextTable::PaletteTranspose
    }
}

/// Number of local context indices of a table.
pub open spec fn table_size_spec(table: CabacContextTable) -> usize {
    match table {
        CabacContextTable::SaoMerge => 3,
        CabacContextTable::SaoType => 3,
        CabacContextTable::SplitCu => 9,
        CabacContextTable::CuTransquantBypass => 3,
        CabacContextTable::CuSkip => 6,
        CabacContextTable::PredMode => 2,
        CabacContextTable::PartMode => 9,
        CabacContextTable::PrevIntraLumaPred => 3,
        CabacContextTable::IntraChromaPred => 3,
        CabacContextTable::RqtRootCbf => 2,
        CabacContextTable::Merge => 2,
        CabacContextTable::MergeIdx => 2,
        CabacContextTable::InterPredIdc => 10,
        CabacContextTable::RefIdx => 4,
        CabacContextTable::MvpFlag => 2,
        CabacContextTable::SplitTransform => 9,
        CabacContextTable::CbfLuma => 6,
        CabacContextTable::CbfChroma => 15,
        CabacContextTable::AbsMvd => 4,
        CabacContextTable::CuQpDeltaAbs => 6,
        CabacContextTable::TransformSkip => 6,
        CabacContextTable::LastSigCoeffXPrefix => 54,
        CabacContextTable::LastSigCoeffYPrefix => 54,
        CabacContextTable::CodedSubBlock => 12,
        CabacContextTable::SigCoeff => 132,
        CabacContextTable::CoeffAbsLevelGreater1 => 72,
        CabacContextTable::CoeffAbsLevelGreater2 => 18,
        CabacContextTable::ExplicitRdpcm => 4,
        CabacContextTable::ExplicitRdpcmDir => 4,
        CabacContextTable::ChromaQpOffsetFlag => 3,
        CabacContextTable::ChromaQpOffsetIdx => 3,
        CabacContextTable::Log2ResScaleAbsPlus1 => 24,
        CabacContextTable::ResScaleSign => 6,
        CabacContextTable::PaletteMode => 3,
        CabacContextTable::TuResidualAct => 3,
        CabacContextTable::PaletteRunPrefix => 24,
        CabacContextTable::PaletteCopyAbove => 3,
        CabacContextTable::PaletteTranspose => 3,
    }
}

/// Position of a table in the flat storage order.
pub open spec fn table_ordinal(table: CabacContextTable) -> int {
    match table {
        CabacContextTable::SaoMerge => 0,
        CabacContextTable::SaoType => 1,
        CabacContextTable::SplitCu => 2,
        CabacContextTable::CuTransquantBypass => 3,
        CabacContextTable::CuSkip => 4,
        CabacContextTable::PredMode => 5,
        CabacContextTable::PartMode => 6,
        CabacContextTable::PrevIntraLumaPred => 7,
        CabacContextTable::IntraChromaPred => 8,
        CabacContextTable::RqtRootCbf => 9,
        CabacContextTable::Merge => 10,
        CabacContextTable::MergeIdx => 11,
        CabacContextTable::InterPredIdc => 12,
        CabacContextTable::RefIdx => 13,
        CabacContextTable::MvpFlag => 14,
        CabacContextTable::SplitTransform => 15,
        CabacContextTable::CbfLuma => 16,
        CabacContextTable::CbfChroma => 17,
        CabacContextTable::AbsMvd => 18,
        CabacContextTable::CuQpDeltaAbs => 19,
        CabacContextTable::TransformSkip => 20,
        CabacContextTable::LastSigCoeffXPrefix => 21,
        CabacContextTable::LastSigCoeffYPrefix => 22,
        CabacContextTable::CodedSubBlock => 23,
        CabacContextTable::SigCoeff => 24,
        CabacContextTable::CoeffAbsLevelGreater1 => 25,
        CabacContextTable::CoeffAbsLevelGreater2 => 26,
        CabacContextTable::ExplicitRdpcm => 27,
        CabacContextTable::ExplicitRdpcmDir => 28,
        CabacContextTable::ChromaQpOffsetFlag => 29,
        CabacContextTable::ChromaQpOffsetIdx => 30,
        CabacContextTable::Log2ResScaleAbsPlus1 => 31,
        CabacContextTable::ResScaleSign => 32,
        CabacContextTable::PaletteMode => 33,
        CabacContextTable::TuResidualAct => 34,
        CabacContextTable::PaletteRunPrefix => 35,
        CabacContextTable::PaletteCopyAbove => 36,
        CabacContextTable::PaletteTranspose => 37,
    }
}

/// First flat context index of a table: the sizes of all earlier tables summed.
pub open spec fn table_offset_spec(table: CabacContextTable) -> usize {
    match table {
        CabacContextTable::SaoMerge => 0,
        CabacContextTable::SaoType => 3,
        CabacContextTable::SplitCu => 6,
        CabacContextTable::CuTransquantBypass => 15,
        CabacContextTable::CuSkip => 18,
        CabacContextTable::PredMode => 24,
        CabacContextTable::PartMode => 26,
        CabacContextTable::PrevIntraLumaPred => 35,
        CabacContextTable::IntraChromaPred => 38,
        CabacContextTable::RqtRootCbf => 41,
        CabacContextTable::Merge => 43,
        CabacContextTable::MergeIdx => 45,
        CabacContextTable::InterPredIdc => 47,
        CabacContextTable::RefIdx => 57,
        CabacContextTable::MvpFlag => 61,
        CabacContextTable::SplitTransform => 63,
        CabacContextTable::CbfLuma => 72,
        CabacContextTable::CbfChroma => 78,
        CabacContextTable::AbsMvd => 93,
        CabacContextTable::CuQpDeltaAbs => 97,
        CabacContextTable::TransformSkip => 103,
        CabacContextTable::LastSigCoeffXPrefix => 109,
        CabacContextTable::LastSigCoeffYPrefix => 163,
        CabacContextTable::CodedSubBlock => 217,
        CabacContextTable::SigCoeff => 229,
        CabacContextTable::CoeffAbsLevelGreater1 => 361,
        CabacContextTable::CoeffAbsLevelGreater2 => 433,
        CabacContextTable::ExplicitRdpcm => 451,
        CabacContextTable::ExplicitRdpcmDir => 455,
        CabacContextTable::ChromaQpOffsetFlag => 459,
        CabacContextTable::ChromaQpOffsetIdx => 462,
        CabacContextTable::Log2ResScaleAbsPlus1 => 465,
        CabacContextTable::ResScaleSign => 489,
        CabacContextTable::PaletteMode => 495,
        CabacContextTable::TuResidualAct => 498,
        CabacContextTable::PaletteRunPrefix => 501,
        CabacContextTable::PaletteCopyAbove => 525,
        CabacContextTable::PaletteTranspose => 528,
    }
}

/// Where the Table 9-4 values for `init_type` start inside a table's value
/// list, and how many there are (zero when the syntax element is absent).
#[verifier::opaque]
pub open spec fn init_layout(table: CabacContextTable, init_type: int) -> (int, int) {
    match table {
        CabacContextTable::SaoMerge => (init_type, 1),
        CabacContextTable::SaoType => (init_type, 1),
        CabacContextTable::SplitCu => (init_type * 3, 3),
        CabacContextTable::CuTransquantBypass => (init_type, 1),
        CabacContextTable::CuSkip => if init_type == 0 { (0, 0) } else { ((init_type - 1) * 3, 3) },
        CabacContextTable::PredMode => if init_type == 0 { (0, 0) } else { ((init_type - 1) * 1, 1) },
        CabacContextTable::PartMode => if init_type == 0 { (0, 1) } else { (1 + (init_type - 1) * 4, 4) },
        CabacContextTable::PrevIntraLumaPred => (init_type, 1),
        CabacContextTable::IntraChromaPred => (init_type, 1),
        CabacContextTable::RqtRootCbf => if init_type == 0 { (0, 0) } else { ((init_type - 1) * 1, 1) },
        CabacContextTable::Merge => if init_type == 0 { (0, 0) } else { ((init_type - 1) * 1, 1) },
        CabacContextTable::MergeIdx => if init_type == 0 { (0, 0) } else { ((init_type - 1) * 1, 1) },
        CabacContextTable::InterPredIdc => if init_type == 0 { (0, 0) } else { ((init_type - 1) * 5, 5) },
        CabacContextTable::RefIdx => if init_type == 0 { (0, 0) } else { ((init_type - 1) * 2, 2) },
        CabacContextTable::MvpFlag => if init_type == 0 { (0, 0) } else { ((init_type - 1) * 1, 1) },
        CabacContextTable::SplitTransform => (init_type * 3, 3),
        CabacContextTable::CbfLuma => (init_type * 2, 2),
        CabacContextTable::CbfChroma => (init_type * 4, 4),
        CabacContextTable::AbsMvd => if init_type == 0 { (0, 0) } else { ((init_type - 1) * 2, 2) },
        CabacContextTable::CuQpDeltaAbs => (init_type * 2, 2),
        CabacContextTable::TransformSkip => (init_type, 1),
        CabacContextTable::LastSigCoeffXPrefix => (init_type * 18, 18),
        CabacContextTable::LastSigCoeffYPrefix => (init_type * 18, 18),
        CabacContextTable::CodedSubBlock => (init_type * 4, 4),
        CabacContextTable::SigCoeff => (init_type * 42, 42),
        CabacContextTable::CoeffAbsLevelGreater1 => (init_type * 24, 24),
        CabacContextTable::CoeffAbsLevelGreater2 => (init_type * 6, 6),
        CabacContextTable::ExplicitRdpcm => if init_type == 0 { (0, 0) } else { ((init_type - 1) * 1, 1) },
        CabacContextTable::ExplicitRdpcmDir => if init_type == 0 { (0, 0) } else { ((init_type - 1) * 1, 1) },
        CabacContextTable::ChromaQpOffsetFlag => (init_type, 1),
        CabacContextTable::ChromaQpOffsetIdx => (init_type, 1),
        CabacContextTable::Log2ResScaleAbsPlus1 => (init_type * 8, 8),
        CabacContextTable::ResScaleSign => (init_type * 2, 2),
        CabacContextTable::PaletteMode => (init_type, 1),
        CabacContextTable::TuResidualAct => (init_type, 1),
        CabacContextTable::PaletteRunPrefix => (init_type * 8, 8),
        CabacContextTable::PaletteCopyAbove => (init_type, 1),
        CabacContextTable::PaletteTranspose => (init_type, 1),
    }
}

/// The full list of Table 9-4 `initValue`s stored for a table.
#[verifier::opaque]
pub open spec fn init_table_spec(table: CabacContextTable) -> Seq<u8> {
    match table {
        CabacContextTable::SaoMerge => SAO_MERGE_INIT@,
        CabacContextTable::SaoType => SAO_TYPE_INIT@,
        CabacContextTable::SplitCu => SPLIT_CU_INIT@,
        CabacContextTable::CuTransquantBypass => CU_TRANSQUANT_BYPASS_INIT@,
        CabacContextTable::CuSkip => CU_SKIP_INIT@,
        CabacContextTable::PredMode => PRED_MODE_INIT@,
        CabacContextTable::PartMode => PART_MODE_INIT@,
        CabacContextTable::PrevIntraLumaPred => PREV_INTRA_LUMA_INIT@,
        CabacContextTable::IntraChromaPred => INTRA_CHROMA_INIT@,
        CabacContextTable::RqtRootCbf => RQT_ROOT_CBF_INIT@,
        CabacContextTable::Merge => MERGE_INIT@,
        CabacContextTable::MergeIdx => MERGE_IDX_INIT@,
        CabacContextTable::InterPredIdc => INTER_PRED_IDC_INIT@,
        CabacContextTable::RefIdx => REF_IDX_INIT@,
        CabacContextTable::MvpFlag => MVP_FLAG_INIT@,
        CabacContextTable::SplitTransform => SPLIT_TRANSFORM_INIT@,
        CabacContextTable::CbfLuma => CBF_LUMA_INIT@,
        CabacContextTable::CbfChroma => CBF_CHROMA_INIT@,
        CabacContextTable::AbsMvd => ABS_MVD_INIT@,
        CabacContextTable::CuQpDeltaAbs => CU_QP_DELTA_INIT@,
        CabacContextTable::TransformSkip => TRANSFORM_SKIP_INIT@,
        CabacContextTable::LastSigCoeffXPrefix => LAST_SIG_X_INIT@,
        CabacContextTable::LastSigCoeffYPrefix => LAST_SIG_Y_INIT@,
        CabacContextTable::CodedSubBlock => CODED_SUB_BLOCK_INIT@,
        CabacContextTable::SigCoeff => SIG_COEFF_INIT@,
        CabacContextTable::CoeffAbsLevelGreater1 => COEFF_GREATER1_INIT@,
        CabacContextTable::CoeffAbsLevelGreater2 => COEFF_GREATER2_INIT@,
        CabacContextTable::ExplicitRdpcm => EXPLICIT_RDPCM_INIT@,
        CabacContextTable::ExplicitRdpcmDir => EXPLICIT_RDPCM_DIR_INIT@,
        CabacContextTable::ChromaQpOffsetFlag => CHROMA_QP_OFFSET_FLAG_INIT@,
        CabacContextTable::ChromaQpOffsetIdx => CHROMA_QP_OFFSET_IDX_INIT@,
        CabacContextTable::Log2ResScaleAbsPlus1 => LOG2_RES_SCALE_INIT@,
        CabacContextTable::ResScaleSign => RES_SCALE_SIGN_INIT@,
        CabacContextTable::PaletteMode => PALETTE_MODE_INIT@,
        CabacContextTable::TuResidualAct => TU_RESIDUAL_ACT_INIT@,
        CabacContextTable::PaletteRunPrefix => PALETTE_RUN_PREFIX_INIT@,
        CabacContextTable::PaletteCopyAbove => PALETTE_COPY_ABOVE_INIT@,
        CabacContextTable::PaletteTranspose => PALETTE_TRANSPOSE_INIT@,
    }
}

/// The additional single-context ranges of Table 9-4 for an initialization type.
#[verifier::opaque]
pub open spec fn extra_range(table: CabacContextTable, init_type: int) -> Option<(int, int)> {
    match table {
        CabacContextTable::CbfChroma => Some((12 + init_type, 1)),
        CabacContextTable::TransformSkip => Some((3 + init_type, 1)),
        CabacContextTable::ExplicitRdpcm | CabacContextTable::ExplicitRdpcmDir => if init_type == 0 {
            None
        } else {
            Some((init_type + 1, 1))
        },
        CabacContextTable::SigCoeff => Some((126 + init_type * 2, 2)),
        _ => None,
    }
}

/// The `(local_start, values)` ranges initialized for a table.
pub open spec fn init_ranges_spec(table: CabacContextTable, init_type: int) -> Seq<(usize, Seq<u8>)> {
    let (start, len) = init_layout(table, init_type);
    let first = (start as usize, init_table_spec(table).subrange(start, start + len));
    if (table == CabacContextTable::ExplicitRdpcm || table == CabacContextTable::ExplicitRdpcmDir)
        && init_type == 0 {
        Seq::empty()
    } else {
        match extra_range(table, init_type) {
            Some((s, l)) => seq![first, (s as usize, init_table_spec(table).subrange(s, s + l))],
            None => seq![first],
        }
    }
}

/// The local index `local` of `table` is initialized for `init_type`, with
/// the value at that position of the table's value list.
pub open spec fn local_is_initialized(table: CabacContextTable, init_type: int, local: int) -> bool {
    let (start, len) = init_layout(table, init_type);
    ||| start <= local < start + len
    ||| (extra_range(table, init_type) matches Some((s, l)) && s <= local < s + l)
}

/// The context at flat index `index` after standard initialization.
pub open spec fn standard_context_spec(index: int, init_type: int, slice_qp: i32) -> CabacContext {
    let table = table_containing(index, 0);
    let local = index - table_offset_spec(table);
    if local_is_initialized(table, init_type, local) {
        init_context_spec(init_table_spec(table)[local], slice_qp)
    } else {
        CabacContext { state_index: 0, value_mps: 0 }
    }
}

/// The table whose flat index range contains `index`, searching from position `from`.
pub open spec fn table_containing(index: int, from: int) -> CabacContextTable
    decreases 38 - from,
{
    if from >= 37 || index < table_offset_spec(table_at_spec(from)) + table_size_spec(table_at_spec(from)) {
        table_at_spec(from)
    } else {
        table_containing(index, from + 1)
    }
}

/// Derives `initType` from `slice_type` and `cabac_init_flag` (Equation 9-7).
pub open spec fn init_type_spec(slice_type: u8, cabac_init_flag: bool) -> Option<u8> {
    if slice_type == 2 {
        Some(0)
    } else if slice_type == 1 {
        Some(if cabac_init_flag { 2 } else { 1 })
    } else if slice_type == 0 {
        Some(if cabac_init_flag { 1 } else { 2 })
    } else {
        None
    }
}

pub const SAO_MERGE_INIT: [u8; 3] = [153, 153, 153];
pub const SAO_TYPE_INIT: [u8; 3] = [200, 185, 160];
pub const SPLIT_CU_INIT: [u8; 9] = [139, 141, 157, 107, 139, 126, 107, 139, 126];
pub const CU_TRANSQUANT_BYPASS_INIT: [u8; 3] = [154, 154, 154];
pub const CU_SKIP_INIT: [u8; 6] = [197, 185, 201, 197, 185, 201];
pub const PRED_MODE_INIT: [u8; 2] = [149, 134];
pub const PART_MODE_INIT: [u8; 9] = [184, 154, 139, 154, 154, 154, 139, 154, 154];
pub const PREV_INTRA_LUMA_INIT: [u8; 3] = [184, 154, 183];
pub const INTRA_CHROMA_INIT: [u8; 3] = [63, 152, 152];
pub const RQT_ROOT_CBF_INIT: [u8; 2] = [79, 79];
pub const MERGE_INIT: [u8; 2] = [110, 154];
pub const MERGE_IDX_INIT: [u8; 2] = [122, 137];
pub const INTER_PRED_IDC_INIT: [u8; 10] = [95, 79, 63, 31, 31, 95, 79, 63, 31, 31];
pub const REF_IDX_INIT: [u8; 4] = [153, 153, 153, 153];
pub const MVP_FLAG_INIT: [u8; 2] = [168, 168];
pub const SPLIT_TRANSFORM_INIT: [u8; 9] = [153, 138, 138, 124, 138, 94, 224, 167, 122];
pub const CBF_LUMA_INIT: [u8; 6] = [111, 141, 153, 111, 153, 111];
pub const CBF_CHROMA_INIT: [u8; 15] = [94, 138, 182, 154, 149, 107, 167, 154, 149, 92, 167, 154, 154, 154, 154];
pub const ABS_MVD_INIT: [u8; 4] = [140, 198, 169, 198];
pub const CU_QP_DELTA_INIT: [u8; 6] = [154, 154, 154, 154, 154, 154];
pub const TRANSFORM_SKIP_INIT: [u8; 6] = [139, 139, 139, 139, 139, 139];
pub const LAST_SIG_X_INIT: [u8; 54] = [110, 110, 124, 125, 140, 153, 125, 127, 140, 109, 111, 143, 127, 111, 79, 108, 123, 63, 125, 110, 94, 110, 95, 79, 125, 111, 110, 78, 110, 111, 111, 95, 94, 108, 123, 108, 125, 110, 124, 110, 95, 94, 125, 111, 111, 79, 125, 126, 111, 111, 79, 108, 123, 93];
pub const LAST_SIG_Y_INIT: [u8; 54] = [110, 110, 124, 125, 140, 153, 125, 127, 140, 109, 111, 143, 127, 111, 79, 108, 123, 63, 125, 110, 94, 110, 95, 79, 125, 111, 110, 78, 110, 111, 111, 95, 94, 108, 123, 108, 125, 110, 124, 110, 95, 94, 125, 111, 111, 79, 125, 126, 111, 111, 79, 108, 123, 93];
pub const CODED_SUB_BLOCK_INIT: [u8; 12] = [91, 171, 134, 141, 121, 140, 61, 154, 121, 140, 61, 154];
pub const SIG_COEFF_INIT: [u8; 132] = [111, 111, 125, 110, 110, 94, 124, 108, 124, 107, 125, 141, 179, 153, 125, 107, 125, 141, 179, 153, 125, 107, 125, 141, 179, 153, 125, 140, 139, 182, 182, 152, 136, 152, 136, 153, 136, 139, 111, 136, 139, 111, 155, 154, 139, 153, 139, 123, 123, 63, 153, 166, 183, 140, 136, 153, 154, 166, 183, 140, 136, 153, 154, 166, 183, 140, 136, 153, 154, 170, 153, 123, 123, 107, 121, 107, 121, 167, 151, 183, 140, 151, 183, 140, 170, 154, 139, 153, 139, 123, 123, 63, 124, 166, 183, 140, 136, 153, 154, 166, 183, 140, 136, 153, 154, 166, 183, 140, 136, 153, 154, 170, 153, 138, 138, 122, 121, 122, 121, 167, 151, 183, 140, 151, 183, 140, 141, 111, 140, 140, 140, 140];
pub const COEFF_GREATER1_INIT: [u8; 72] = [140, 92, 137, 138, 140, 152, 138, 139, 153, 74, 149, 92, 139, 107, 122, 152, 140, 179, 166, 182, 140, 227, 122, 197, 154, 196, 196, 167, 154, 152, 167, 182, 182, 134, 149, 136, 153, 121, 136, 137, 169, 194, 166, 167, 154, 167, 137, 182, 154, 196, 167, 167, 154, 152, 167, 182, 182, 134, 149, 136, 153, 121, 136, 122, 169, 208, 166, 167, 154, 152, 167, 182];
pub const COEFF_GREATER2_INIT: [u8; 18] = [138, 153, 136, 167, 152, 152, 107, 167, 91, 122, 107, 167, 107, 167, 91, 107, 107, 167];
pub const EXPLICIT_RDPCM_INIT: [u8; 4] = [139, 139, 139, 139];
pub const EXPLICIT_RDPCM_DIR_INIT: [u8; 4] = [139, 139, 139, 139];
pub const CHROMA_QP_OFFSET_FLAG_INIT: [u8; 3] = [154, 154, 154];
pub const CHROMA_QP_OFFSET_IDX_INIT: [u8; 3] = [154, 154, 154];
pub const LOG2_RES_SCALE_INIT: [u8; 24] = [154, 154, 154, 154, 154, 154, 154, 154, 154, 154, 154, 154, 154, 154, 154, 154, 154, 154, 154, 154, 154, 154, 154, 154];
pub const RES_SCALE_SIGN_INIT: [u8; 6] = [154, 154, 154, 154, 154, 154];
pub const PALETTE_MODE_INIT: [u8; 3] = [154, 154, 154];
pub const TU_RESIDUAL_ACT_INIT: [u8; 3] = [154, 154, 154];
pub const PALETTE_RUN_PREFIX_INIT: [u8; 24] = [154, 154, 154, 154, 154, 154, 154, 154, 154, 154, 154, 154, 154, 154, 154, 154, 154, 154, 154, 154, 154, 154, 154, 154];
pub const PALETTE_COPY_ABOVE_INIT: [u8; 3] = [154, 154, 154];
pub const PALETTE_TRANSPOSE_INIT: [u8; 3] = [154, 154, 154];
impl CabacContextTable {
    /// Number of local context indices in this table.
    pub fn size(self) -> (r: usize)
        ensures
            r == table_size_spec(self),
    {
        match self {
            Self::SaoMerge => 3,
            Self::SaoType => 3,
            Self::SplitCu => 9,
            Self::CuTransquantBypass => 3,
            Self::CuSkip => 6,
            Self::PredMode => 2,
            Self::PartMode => 9,
            Self::PrevIntraLumaPred => 3,
            Self::IntraChromaPred => 3,
            Self::RqtRootCbf => 2,
            Self::Merge => 2,
            Self::MergeIdx => 2,
            Self::InterPredIdc => 10,
            Self::RefIdx => 4,
            Self::MvpFlag => 2,
            Self::SplitTransform => 9,
            Self::CbfLuma => 6,
            Self::CbfChroma => 15,
            Self::AbsMvd => 4,
            Self::CuQpDeltaAbs => 6,
            Self::TransformSkip => 6,
            Self::LastSigCoeffXPrefix => 54,
            Self::LastSigCoeffYPrefix => 54,
            Self::CodedSubBlock => 12,
            Self::SigCoeff => 132,
            Self::CoeffAbsLevelGreater1 => 72,
            Self::CoeffAbsLevelGreater2 => 18,
            Self::ExplicitRdpcm => 4,
            Self::ExplicitRdpcmDir => 4,
            Self::ChromaQpOffsetFlag => 3,
            Self::ChromaQpOffsetIdx => 3,
            Self::Log2ResScaleAbsPlus1 => 24,
            Self::ResScaleSign => 6,
            Self::PaletteMode => 3,
            Self::TuResidualAct => 3,
            Self::PaletteRunPrefix => 24,
            Self::PaletteCopyAbove => 3,
            Self::PaletteTranspose => 3,
        }
    }

    /// First flat context index of this table.
    fn offset(self) -> (r: usize)
        ensures
            r == table_offset_spec(self),
    {
        match self {
            Self::SaoMerge => 0,
            Self::SaoType => 3,
            Self::SplitCu => 6,
            Self::CuTransquantBypass => 15,
            Self::CuSkip => 18,
            Self::PredMode => 24,
            Self::PartMode => 26,
            Self::PrevIntraLumaPred => 35,
            Self::IntraChromaPred => 38,
            Self::RqtRootCbf => 41,
            Self::Merge => 43,
            Self::MergeIdx => 45,
            Self::InterPredIdc => 47,
            Self::RefIdx => 57,
            Self::MvpFlag => 61,
            Self::SplitTransform => 63,
            Self::CbfLuma => 72,
            Self::CbfChroma => 78,
            Self::AbsMvd => 93,
            Self::CuQpDeltaAbs => 97,
            Self::TransformSkip => 103,
            Self::LastSigCoeffXPrefix => 109,
            Self::LastSigCoeffYPrefix => 163,
            Self::CodedSubBlock => 217,
            Self::SigCoeff => 229,
            Self::CoeffAbsLevelGreater1 => 361,
            Self::CoeffAbsLevelGreater2 => 433,
            Self::ExplicitRdpcm => 451,
            Self::ExplicitRdpcmDir => 455,
            Self::ChromaQpOffsetFlag => 459,
            Self::ChromaQpOffsetIdx => 462,
            Self::Log2ResScaleAbsPlus1 => 465,
            Self::ResScaleSign => 489,
            Self::PaletteMode => 495,
            Self::TuResidualAct => 498,
            Self::PaletteRunPrefix => 501,
            Self::PaletteCopyAbove => 525,
            Self::PaletteTranspose => 528,
        }
    }

    /// The full list of Table 9-4 init values stored for this table.
    fn values(self) -> (r: &'static [u8])
        ensures
            r@ == init_table_spec(self),
            r@.len() == table_size_spec(self),
    {
        reveal(init_table_spec);
        match self {
            Self::SaoMerge => &SAO_MERGE_INIT,
            Self::SaoType => &SAO_TYPE_INIT,
            Self::SplitCu => &SPLIT_CU_INIT,
            Self::CuTransquantBypass => &CU_TRANSQUANT_BYPASS_INIT,
            Self::CuSkip => &CU_SKIP_INIT,
            Self::PredMode => &PRED_MODE_INIT,
            Self::PartMode => &PART_MODE_INIT,
            Self::PrevIntraLumaPred => &PREV_INTRA_LUMA_INIT,
            Self::IntraChromaPred => &INTRA_CHROMA_INIT,
            Self::RqtRootCbf => &RQT_ROOT_CBF_INIT,
            Self::Merge => &MERGE_INIT,
            Self::MergeIdx => &MERGE_IDX_INIT,
            Self::InterPredIdc => &INTER_PRED_IDC_INIT,
            Self::RefIdx => &REF_IDX_INIT,
            Self::MvpFlag => &MVP_FLAG_INIT,
            Self::SplitTransform => &SPLIT_TRANSFORM_INIT,
            Self::CbfLuma => &CBF_LUMA_INIT,
            Self::CbfChroma => &CBF_CHROMA_INIT,
            Self::AbsMvd => &ABS_MVD_INIT,
            Self::CuQpDeltaAbs => &CU_QP_DELTA_INIT,
            Self::TransformSkip => &TRANSFORM_SKIP_INIT,
            Self::LastSigCoeffXPrefix => &LAST_SIG_X_INIT,
            Self::LastSigCoeffYPrefix => &LAST_SIG_Y_INIT,
            Self::CodedSubBlock => &CODED_SUB_BLOCK_INIT,
            Self::SigCoeff => &SIG_COEFF_INIT,
            Self::CoeffAbsLevelGreater1 => &COEFF_GREATER1_INIT,
            Self::CoeffAbsLevelGreater2 => &COEFF_GREATER2_INIT,
            Self::ExplicitRdpcm => &EXPLICIT_RDPCM_INIT,
            Self::ExplicitRdpcmDir => &EXPLICIT_RDPCM_DIR_INIT,
            Self::ChromaQpOffsetFlag => &CHROMA_QP_OFFSET_FLAG_INIT,
            Self::ChromaQpOffsetIdx => &CHROMA_QP_OFFSET_IDX_INIT,
            Self::Log2ResScaleAbsPlus1 => &LOG2_RES_SCALE_INIT,
            Self::ResScaleSign => &RES_SCALE_SIGN_INIT,
            Self::PaletteMode => &PALETTE_MODE_INIT,
            Self::TuResidualAct => &TU_RESIDUAL_ACT_INIT,
            Self::PaletteRunPrefix => &PALETTE_RUN_PREFIX_INIT,
            Self::PaletteCopyAbove => &PALETTE_COPY_ABOVE_INIT,
            Self::PaletteTranspose => &PALETTE_TRANSPOSE_INIT,
        }
    }

    /// The table at position `index` of the flat storage order.
    fn at(index: usize) -> (r: Self)
        requires
            index < CABAC_TABLE_COUNT,
        ensures
            r == table_at_spec(index as int),
    {
        match index {
            0 => Self::SaoMerge,
            1 => Self::SaoType,
            2 => Self::SplitCu,
            3 => Self::CuTransquantBypass,
            4 => Self::CuSkip,
            5 => Self::PredMode,
            6 => Self::PartMode,
            7 => Self::PrevIntraLumaPred,
            8 => Self::IntraChromaPred,
            9 => Self::RqtRootCbf,
            10 => Self::Merge,
            11 => Self::MergeIdx,
            12 => Self::InterPredIdc,
            13 => Self::RefIdx,
            14 => Self::MvpFlag,
            15 => Self::SplitTransform,
            16 => Self::CbfLuma,
            17 => Self::CbfChroma,
            18 => Self::AbsMvd,
            19 => Self::CuQpDeltaAbs,
            20 => Self::TransformSkip,
            21 => Self::LastSigCoeffXPrefix,
            22 => Self::LastSigCoeffYPrefix,
            23 => Self::CodedSubBlock,
            24 => Self::SigCoeff,
            25 => Self::CoeffAbsLevelGreater1,
            26 => Self::CoeffAbsLevelGreater2,
            27 => Self::ExplicitRdpcm,
            28 => Self::ExplicitRdpcmDir,
            29 => Self::ChromaQpOffsetFlag,
            30 => Self::ChromaQpOffsetIdx,
            31 => Self::Log2ResScaleAbsPlus1,
            32 => Self::ResScaleSign,
            33 => Self::PaletteMode,
            34 => Self::TuResidualAct,
            35 => Self::PaletteRunPrefix,
            36 => Self::PaletteCopyAbove,
            _ => Self::PaletteTranspose,
        }
    }
}

impl CabacContextTable {
    /// Start and length of this table's Table 9-4 values for `init_type`.
    fn layout(self, init_type: u8) -> (r: (usize, usize))
        requires
            init_type <= 2,
        ensures
            r.0 as int == init_layout(self, init_type as int).0,
            r.1 as int == init_layout(self, init_type as int).1,
            r.0 + r.1 <= table_size_spec(self),
    {
        reveal(init_layout);
        let t = init_type as usize;
        match self {
            Self::SaoMerge | Self::SaoType | Self::CuTransquantBypass | Self::PrevIntraLumaPred
            | Self::IntraChromaPred | Self::TransformSkip | Self::ChromaQpOffsetFlag
            | Self::ChromaQpOffsetIdx | Self::PaletteMode | Self::TuResidualAct
            | Self::PaletteCopyAbove | Self::PaletteTranspose => (t, 1),
            Self::SplitCu | Self::SplitTransform => (t * 3, 3),
            Self::CuSkip => if t == 0 { (0, 0) } else { ((t - 1) * 3, 3) },
            Self::PredMode | Self::RqtRootCbf | Self::Merge | Self::MergeIdx | Self::MvpFlag
            | Self::ExplicitRdpcm | Self::ExplicitRdpcmDir => if t == 0 { (0, 0) } else { (t - 1, 1) },
            Self::PartMode => if t == 0 { (0, 1) } else { (1 + (t - 1) * 4, 4) },
            Self::InterPredIdc => if t == 0 { (0, 0) } else { ((t - 1) * 5, 5) },
            Self::RefIdx | Self::AbsMvd => if t == 0 { (0, 0) } else { ((t - 1) * 2, 2) },
            Self::CbfLuma | Self::CuQpDeltaAbs | Self::ResScaleSign => (t * 2, 2),
            Self::CbfChroma | Self::CodedSubBlock => (t * 4, 4),
            Self::LastSigCoeffXPrefix | Self::LastSigCoeffYPrefix => (t * 18, 18),
            Self::SigCoeff => (t * 42, 42),
            Self::CoeffAbsLevelGreater1 => (t * 24, 24),
            Self::CoeffAbsLevelGreater2 => (t * 6, 6),
            Self::Log2ResScaleAbsPlus1 | Self::PaletteRunPrefix => (t * 8, 8),
        }
    }

    /// The second single-context range of Table 9-4, where the table has one.
    fn extra(self, init_type: u8) -> (r: Option<(usize, usize)>)
        requires
            init_type <= 2,
        ensures
            r matches Some((s, l)) ==> extra_range(self, init_type as int) == Some((s as int, l as int))
                && s + l <= table_size_spec(self),
            r is None ==> extra_range(self, init_type as int) is None,
    {
        reveal(extra_range);
        let t = init_type as usize;
        match self {
            Self::CbfChroma => Some((12 + t, 1)),
            Self::TransformSkip => Some((3 + t, 1)),
            Self::ExplicitRdpcm | Self::ExplicitRdpcmDir => if t == 0 { None } else { Some((t + 1, 1)) },
            Self::SigCoeff => Some((126 + t * 2, 2)),
            _ => None,
        }
    }

    /// Returns the flat context-vector index for a local `(ctxTable, ctxIdx)`.
    pub fn context_index(self, ctx_idx: usize) -> (r: Result<usize, SyntaxError>)
        ensures
            ctx_idx < table_size_spec(self) ==> r == Ok::<usize, SyntaxError>(
                (table_offset_spec(self) + ctx_idx) as usize,
            ),
            ctx_idx >= table_size_spec(self) ==> r matches Err(SyntaxError::InvalidSyntaxValue(_)),
    {
        if ctx_idx >= self.size() {
            return Err(SyntaxError::InvalidSyntaxValue("CABAC table context index is out of range"));
        }
        Ok(self.offset() + ctx_idx)
    }

    /// Returns the `ctxIdxOffset` selected by Table 9-4 for an initialization type.
    pub fn context_offset(self, init_type: u8) -> (r: Result<usize, SyntaxError>)
        ensures
            init_type <= 2 ==> r == Ok::<usize, SyntaxError>(init_layout(self, init_type as int).0 as usize),
            init_type > 2 ==> r matches Err(SyntaxError::InvalidSyntaxValue(_)),
            r matches Ok(o) ==> o <= table_size_spec(self),
            init_type <= 2 ==> 0 <= init_layout(self, init_type as int).0 <= table_size_spec(self),
    {
        let (_, offset) = self.init_values(init_type)?;
        Ok(offset)
    }

    /// Returns the standard init-value slice and its local starting index for
    /// the selected initialization type. Empty slices denote syntax elements
    /// that are not present for that initialization type.
    pub fn init_values(self, init_type: u8) -> (r: Result<(&'static [u8], usize), SyntaxError>)
        ensures
            init_type > 2 ==> r matches Err(SyntaxError::InvalidSyntaxValue(_)),
            init_type <= 2 ==> (r matches Ok((values, start)) && ({
                let (s, l) = init_layout(self, init_type as int);
                &&& start == s
                &&& values@ == init_table_spec(self).subrange(s, s + l)
                &&& start + values@.len() <= table_size_spec(self)
            })),
    {
        if init_type > 2 {
            return Err(invalid_init_type());
        }
        let (start, len) = self.layout(init_type);
        let all = self.values();
        Ok((vstd::slice::slice_subrange(all, start, start + len), start))
    }

    /// Returns all `(local_start, init_values)` ranges for an initialization
    /// type. A few tables have a second single-context range in Table 9-4.
    pub fn init_ranges(self, init_type: u8) -> (r: Result<Vec<(usize, &'static [u8])>, SyntaxError>)
        ensures
            init_type > 2 ==> r matches Err(SyntaxError::InvalidSyntaxValue(_)),
            init_type <= 2 ==> (r matches Ok(ranges) && ranges@.len() == init_ranges_spec(self, init_type as int).len()
                && forall|i: int| 0 <= i < ranges@.len() ==> {
                    &&& (#[trigger] ranges@[i]).0 == init_ranges_spec(self, init_type as int)[i].0
                    &&& ranges@[i].1@ == init_ranges_spec(self, init_type as int)[i].1
                }),
    {
        if init_type > 2 {
            return Err(invalid_init_type());
        }
        let mut ranges: Vec<(usize, &'static [u8])> = Vec::new();
        let rdpcm = match self {
            Self::ExplicitRdpcm | Self::ExplicitRdpcmDir => true,
            _ => false,
        };
        if rdpcm && init_type == 0 {
            return Ok(ranges);
        }
        let (start, len) = self.layout(init_type);
        let all = self.values();
        ranges.push((start, vstd::slice::slice_subrange(all, start, start + len)));
        match self.extra(init_type) {
            Some((s, l)) => ranges.push((s, vstd::slice::slice_subrange(all, s, s + l))),
            None => {},
        }
        Ok(ranges)
    }
}

fn invalid_init_type() -> (r: SyntaxError)
    ensures
        r matches SyntaxError::InvalidSyntaxValue(_),
{
    SyntaxError::InvalidSyntaxValue("CABAC initialization type must be 0, 1, or 2")
}

/// The context tables lie back to back in the flat storage: the first starts
/// at index 0, each next one starts where the previous one ends, and the last
/// one ends at `CABAC_CONTEXT_COUNT`.
#[verifier::rlimit(100)]
#[verifier::spinoff_prover]
pub proof fn lemma_context_tables_are_contiguous()
    ensures
        table_offset_spec(table_at_spec(0)) == 0,
        forall|i: int| 0 <= i < CABAC_TABLE_COUNT - 1 ==>
            table_offset_spec(#[trigger] table_at_spec(i + 1))
                == table_offset_spec(table_at_spec(i)) + table_size_spec(table_at_spec(i)),
        table_offset_spec(table_at_spec(CABAC_TABLE_COUNT - 1))
            + table_size_spec(table_at_spec(CABAC_TABLE_COUNT - 1)) == CABAC_CONTEXT_COUNT,
{
    assert forall|i: int| 0 <= i < CABAC_TABLE_COUNT - 1 implies
        table_offset_spec(#[trigger] table_at_spec(i + 1))
            == table_offset_spec(table_at_spec(i)) + table_size_spec(table_at_spec(i)) by {
        if i == 0 {
        } else if i == 1 {
        } else if i == 2 {
        } else if i == 3 {
        } else if i == 4 {
        } else if i == 5 {
        } else if i == 6 {
        } else if i == 7 {
        } else if i == 8 {
        } else if i == 9 {
        } else if i == 10 {
        } else if i == 11 {
        } else if i == 12 {
        } else if i == 13 {
        } else if i == 14 {
        } else if i == 15 {
        } else if i == 16 {
        } else if i == 17 {
        } else if i == 18 {
        } else if i == 19 {
        } else if i == 20 {
        } else if i == 21 {
        } else if i == 22 {
        } else if i == 23 {
        } else if i == 24 {
        } else if i == 25 {
        } else if i == 26 {
        } else if i == 27 {
        } else if i == 28 {
        } else if i == 29 {
        } else if i == 30 {
        } else if i == 31 {
        } else if i == 32 {
        } else if i == 33 {
        } else if i == 34 {
        } else if i == 35 {
        } else {
            assert(i == 36);
        }
    }
}

/// Derives `initType` from `slice_type` and `cabac_init_flag` as specified by
/// Equation (9-7). Slice types use the H.265 values: B=0, P=1, I=2.
pub fn derive_cabac_init_type(slice_type: u8, cabac_init_flag: bool) -> (r: Result<u8, SyntaxError>)
    ensures
        init_type_spec(slice_type, cabac_init_flag) matches Some(t) ==> r == Ok::<u8, SyntaxError>(t),
        init_type_spec(slice_type, cabac_init_flag) is None ==> r matches Err(SyntaxError::InvalidSyntaxValue(_)),
{
    match slice_type {
        2 => Ok(0),
        1 => Ok(if cabac_init_flag { 2 } else { 1 }),
        0 => Ok(if cabac_init_flag { 1 } else { 2 }),
        _ => Err(SyntaxError::InvalidSyntaxValue("slice_type must be B, P, or I")),
    }
}


/// `rangeTabLps` of Table 9-52, row-major by `pStateIdx` then `qRangeIdx`.
pub const RANGE_TAB_LPS: [u8; 256] = [
    128, 176, 208, 240,
    128, 167, 197, 227,
    128, 158, 187, 216,
    123, 150, 178, 205,
    116, 142, 169, 195,
    111, 135, 160, 185,
    105, 128, 152, 175,
    100, 122, 144, 166,
    95, 116, 137, 158,
    90, 110, 130, 150,
    85, 104, 123, 142,
    81, 99, 117, 135,
    77, 94, 111, 128,
    73, 89, 105, 122,
    69, 85, 100, 116,
    66, 80, 95, 110,
    62, 76, 90, 104,
    59, 72, 86, 99,
    56, 69, 81, 94,
    53, 65, 77, 89,
    51, 62, 73, 85,
    48, 59, 69, 80,
    46, 56, 66, 76,
    43, 53, 63, 72,
    41, 50, 59, 69,
    39, 48, 56, 65,
    37, 45, 54, 62,
    35, 43, 51, 59,
    33, 41, 48, 56,
    32, 39, 46, 53,
    30, 37, 43, 50,
    29, 35, 41, 48,
    27, 33, 39, 45,
    26, 31, 37, 43,
    24, 30, 35, 41,
    23, 28, 33, 39,
    22, 27, 32, 37,
    21, 26, 30, 35,
    20, 24, 29, 33,
    19, 23, 27, 31,
    18, 22, 26, 30,
    17, 21, 25, 28,
    16, 20, 23, 27,
    15, 19, 22, 25,
    14, 18, 21, 24,
    14, 17, 20, 23,
    13, 16, 19, 22,
    12, 15, 18, 21,
    12, 14, 17, 20,
    11, 14, 16, 19,
    11, 13, 15, 18,
    10, 12, 15, 17,
    10, 12, 14, 16,
    9, 11, 13, 15,
    9, 11, 12, 14,
    8, 10, 12, 14,
    8, 9, 11, 13,
    7, 9, 11, 12,
    7, 9, 10, 12,
    7, 8, 10, 11,
    6, 8, 9, 11,
    6, 7, 9, 10,
    6, 7, 8, 9,
    2, 2, 2, 2,
];

/// `transIdxLps` of Table 9-53.
pub const TRANS_IDX_LPS: [u8; 64] = [
    0, 0, 1, 2, 2, 4, 4, 5, 6, 7, 8, 9, 9, 11, 11, 12,
    13, 13, 15, 15, 16, 16, 18, 18, 19, 19, 21, 21, 22, 22, 23, 24,
    24, 25, 26, 26, 27, 27, 28, 29, 29, 30, 30, 30, 31, 32, 32, 33,
    33, 33, 34, 34, 35, 35, 35, 36, 36, 36, 37, 37, 37, 38, 38, 63,
];

/// `transIdxMps` of Table 9-53.
pub const TRANS_IDX_MPS: [u8; 64] = [
    1, 2, 3, 4, 5, 6, 7, 8, 9, 10, 11, 12, 13, 14, 15, 16,
    17, 18, 19, 20, 21, 22, 23, 24, 25, 26, 27, 28, 29, 30, 31, 32,
    33, 34, 35, 36, 37, 38, 39, 40, 41, 42, 43, 44, 45, 46, 47, 48,
    49, 50, 51, 52, 53, 54, 55, 56, 57, 58, 59, 60, 61, 62, 62, 63,
];

/// Every context in `ctxs` can drive the arithmetic decoder.
pub open spec fn all_valid(ctxs: Seq<CabacContext>) -> bool {
    forall|i: int| 0 <= i < ctxs.len() ==> context_valid(#[trigger] ctxs[i])
}

/// `rangeTabLps[pStateIdx][qRangeIdx]` of Table 9-52 for a state and the
/// current interval range.
pub open spec fn lps_range(state_index: u8, range: u16) -> u16 {
    RANGE_TAB_LPS@[state_index as int * 4 + ((range >> 6u16) & 3u16) as int] as u16
}

/// One context-coded bin decision of §9.3.4.3.2 before renormalization:
/// the bin, the new range and offset, and the updated context.
pub open spec fn decision_outcome(range: u16, offset: u32, ctx: CabacContext) -> (u8, u16, u32, CabacContext) {
    let lps = lps_range(ctx.state_index, range);
    let mps_range = (range - lps) as u16;
    if offset >= mps_range {
        (
            (1 - ctx.value_mps) as u8,
            lps,
            (offset - mps_range) as u32,
            CabacContext {
                state_index: TRANS_IDX_LPS@[ctx.state_index as int],
                value_mps: if ctx.state_index == 0 { (1 - ctx.value_mps) as u8 } else { ctx.value_mps },
            },
        )
    } else {
        (
            ctx.value_mps,
            mps_range,
            offset,
            CabacContext { state_index: TRANS_IDX_MPS@[ctx.state_index as int], value_mps: ctx.value_mps },
        )
    }
}

/// The renormalization of §9.3.4.3.3 from `range`/`offset` with the input
/// at bit `pos`: the outcome, the final range and offset, and the bit
/// position it stops at.
pub open spec fn renorm_outcome(range: u16, offset: u32, bytes: Seq<u8>, pos: int, limit: int) -> (Result<(), SyntaxError>, u16, u32, int)
    decreases limit - pos,
{
    if range >= 256 {
        if offset >= range {
            (Err(SyntaxError::InvalidSyntaxValue("CABAC offset is outside the arithmetic interval")), range, offset, pos)
        } else {
            (Ok(()), range, offset, pos)
        }
    } else if pos >= limit {
        (Err(SyntaxError::UnexpectedEnd { requested: 1, remaining: 0 }), (range * 2) as u16, offset, pos)
    } else {
        renorm_outcome(
            (range * 2) as u16,
            (offset << 1u32) | (bits_value(bytes, pos, 1) as u32),
            bytes,
            pos + 1,
            limit,
        )
    }
}

/// Clause 9.3.4 CABAC arithmetic decoder.
#[derive(Clone, Debug)]
pub struct CabacDecoder<'a> {
    reader: BitReader<'a>,
    /// Arithmetic interval range.
    pub interval_range: u16,
    /// Arithmetic interval offset.
    pub offset: u32,
    contexts: Vec<CabacContext>,
    initial_contexts: Vec<CabacContext>,
    wpp_contexts: Option<Vec<CabacContext>>,
    init_type: Option<u8>,
    terminated: bool,
}

impl<'a> CabacDecoder<'a> {
    /// The bit reader over the CABAC payload.
    pub closed spec fn input(&self) -> BitReader<'a> {
        self.reader
    }

    /// `ivlCurrRange`.
    pub closed spec fn range(&self) -> u16 {
        self.interval_range
    }

    /// `ivlOffset`.
    pub closed spec fn ivl_offset(&self) -> u32 {
        self.offset
    }

    /// The current context variables.
    pub closed spec fn ctxs(&self) -> Seq<CabacContext> {
        self.contexts@
    }

    /// The context variables produced by construction.
    pub closed spec fn initial_ctxs(&self) -> Seq<CabacContext> {
        self.initial_contexts@
    }

    /// The contexts stored for wavefront synchronization, if any.
    pub closed spec fn wpp_ctxs(&self) -> Option<Seq<CabacContext>> {
        match self.wpp_contexts {
            Some(v) => Some(v@),
            None => None,
        }
    }

    /// The initialization type the standard tables were set up for, if any.
    pub closed spec fn init_kind(&self) -> Option<u8> {
        self.init_type
    }

    /// Whether a terminating bin equal to 1 has been decoded.
    pub closed spec fn done(&self) -> bool {
        self.terminated
    }

    /// The reader is consistent and every context variable is usable.
    pub open spec fn wf(&self) -> bool {
        &&& self.input().wf()
        &&& all_valid(self.ctxs())
        &&& all_valid(self.initial_ctxs())
        &&& (self.wpp_ctxs() matches Some(w) ==> all_valid(w))
    }

    /// The arithmetic engine (reader, range, offset, termination) is unchanged.
    pub open spec fn same_engine(&self, other: &Self) -> bool {
        &&& self.input().same_input(&other.input())
        &&& self.input().pos() == other.input().pos()
        &&& self.range() == other.range()
        &&& self.ivl_offset() == other.ivl_offset()
        &&& self.done() == other.done()
    }

    /// The arithmetic state (range, offset, termination) is unchanged.
    pub open spec fn same_arith(&self, other: &Self) -> bool {
        &&& self.range() == other.range()
        &&& self.ivl_offset() == other.ivl_offset()
        &&& self.done() == other.done()
    }

    /// A decoder just started on `data`: nine bits of `ivlOffset` consumed,
    /// full range, no stored wavefront state.
    pub open spec fn fresh(&self, data: Seq<u8>) -> bool {
        &&& self.input().bytes() == data
        &&& self.input().pos() == 9
        &&& self.input().limit() == data.len() * 8
        &&& self.range() == 510
        &&& self.ivl_offset() == bits_value(data, 0, 9)
        &&& self.wpp_ctxs() is None
        &&& !self.done()
    }

    /// The context variables, the stored ones and the initialization type are unchanged.
    pub open spec fn same_contexts(&self, other: &Self) -> bool {
        &&& self.ctxs() == other.ctxs()
        &&& self.initial_ctxs() == other.initial_ctxs()
        &&& self.wpp_ctxs() == other.wpp_ctxs()
        &&& self.init_kind() == other.init_kind()
    }

    /// Initializes a decoder from the CABAC payload, consuming `ivlOffset`'s
    /// nine initialization bits as specified by §9.3.2.6.
    pub fn new(data: &'a [u8], context_count: usize) -> (r: Result<Self, SyntaxError>)
        requires
            data@.len() * 8 <= usize::MAX,
        ensures
            start_error(data@) matches Some(e) ==> r == Err::<Self, SyntaxError>(e),
            start_error(data@) is None ==> (r matches Ok(d) && {
                &&& d.wf()
                &&& d.fresh(data@)
                &&& d.ctxs() == Seq::new(
                    if context_count == 0 { 1nat } else { context_count as nat },
                    |i: int| CabacContext { state_index: 0, value_mps: 0 },
                )
                &&& d.initial_ctxs() == d.ctxs()
                &&& d.init_kind() is None
            }),
    {
        proof {
            lemma_bits_value_bound(data@, 0, 9);
            vstd::arithmetic::power2::lemma2_to64();
        }
        let mut reader = BitReader::new(data);
        let offset = reader.read_bits(9)? as u32;
        if offset >= 510 {
            return Err(SyntaxError::InvalidSyntaxValue("CABAC ivlOffset must not be 510 or 511"));
        }
        let count = if context_count == 0 { 1 } else { context_count };
        let contexts = vec![CabacContext { state_index: 0, value_mps: 0 }; count];
        let initial_contexts = vec![CabacContext { state_index: 0, value_mps: 0 }; count];
        let d = Self {
            reader,
            interval_range: 510,
            offset,
            contexts,
            initial_contexts,
            wpp_contexts: None,
            init_type: None,
            terminated: false,
        };
        assert(d.ctxs() =~= Seq::new(count as nat, |i: int| CabacContext { state_index: 0, value_mps: 0 }));
        assert(d.initial_ctxs() =~= d.ctxs());
        Ok(d)
    }

    /// Initializes a decoder using caller-provided context init values.
    pub fn with_init_values(data: &'a [u8], init_values: &[u8], slice_qp: i32) -> (r: Result<Self, SyntaxError>)
        requires
            data@.len() * 8 <= usize::MAX,
        ensures
            start_error(data@) matches Some(e) ==> r == Err::<Self, SyntaxError>(e),
            start_error(data@) is None ==> (r matches Ok(d) && {
                &&& d.wf()
                &&& d.fresh(data@)
                &&& d.ctxs() == (if init_values@.len() == 0 {
                    seq![CabacContext { state_index: 0, value_mps: 0 }]
                } else {
                    init_values@.map_values(|v: u8| init_context_spec(v, slice_qp))
                })
                &&& d.initial_ctxs() == d.ctxs()
                &&& d.init_kind() is None
            }),
    {
        let mut decoder = Self::new(data, init_values.len())?;
        let mut contexts: Vec<CabacContext> = Vec::new();
        if init_values.len() == 0 {
            contexts.push(CabacContext { state_index: 0, value_mps: 0 });
            assert(contexts@ =~= seq![CabacContext { state_index: 0, value_mps: 0 }]);
        } else {
            let mut i: usize = 0;
            while i < init_values.len()
                invariant
                    i <= init_values@.len(),
                    contexts@ =~= init_values@.subrange(0, i as int).map_values(|v: u8| init_context_spec(v, slice_qp)),
                    all_valid(contexts@),
                decreases init_values@.len() - i,
            {
                contexts.push(CabacContext::from_init_value(init_values[i], slice_qp));
                i += 1;
            }
            assert(init_values@.subrange(0, init_values@.len() as int) =~= init_values@);
        }
        decoder.initial_contexts = copy_contexts(&contexts);
        decoder.contexts = contexts;
        Ok(decoder)
    }

    /// Initializes all standard Clause 9.3 context tables for `init_type`.
    pub fn with_standard_contexts(data: &'a [u8], init_type: u8, slice_qp: i32) -> (r: Result<Self, SyntaxError>)
        requires
            data@.len() * 8 <= usize::MAX,
        ensures
            start_error(data@) matches Some(e) ==> r == Err::<Self, SyntaxError>(e),
            start_error(data@) is None && init_type > 2 ==> r matches Err(SyntaxError::InvalidSyntaxValue(_)),
            start_error(data@) is None && init_type <= 2 ==> (r matches Ok(d) && {
                &&& d.wf()
                &&& d.fresh(data@)
                &&& d.ctxs().len() == CABAC_CONTEXT_COUNT
                &&& forall|i: int| 0 <= i < CABAC_CONTEXT_COUNT ==>
                    #[trigger] d.ctxs()[i] == standard_context_spec(i, init_type as int, slice_qp)
                &&& d.initial_ctxs() == d.ctxs()
                &&& d.init_kind() == Some(init_type)
            }),
    {
        let mut decoder = Self::new(data, CABAC_CONTEXT_COUNT)?;
        if init_type > 2 {
            return Err(invalid_init_type());
        }
        proof {
            lemma_context_tables_are_contiguous();
        }
        let mut contexts: Vec<CabacContext> = Vec::new();
        let mut k: usize = 0;
        while k < CABAC_TABLE_COUNT
            invariant
                init_type <= 2,
                k <= CABAC_TABLE_COUNT,
                contexts@.len() == if k < CABAC_TABLE_COUNT {
                    table_offset_spec(table_at_spec(k as int)) as int
                } else {
                    CABAC_CONTEXT_COUNT as int
                },
                all_valid(contexts@),
                forall|i: int| 0 <= i < contexts@.len() ==>
                    #[trigger] contexts@[i] == standard_context_spec(i, init_type as int, slice_qp),
            decreases CABAC_TABLE_COUNT - k,
        {
            push_table_contexts(&mut contexts, k, init_type, slice_qp);
            proof {
                lemma_context_tables_are_contiguous();
                if k + 1 < CABAC_TABLE_COUNT {
                    assert(table_offset_spec(table_at_spec(k as int + 1))
                        == table_offset_spec(table_at_spec(k as int)) + table_size_spec(table_at_spec(k as int)));
                }
            }
            k += 1;
        }
        decoder.initial_contexts = copy_contexts(&contexts);
        decoder.contexts = contexts;
        decoder.init_type = Some(init_type);
        Ok(decoder)
    }

    /// Restores the context variables to the state produced by construction.
    /// Clause 9.3.2.1 invokes this context initialization at a new tile
    /// substream.
    pub fn reset_contexts_to_initial(&mut self)
        ensures
            final(self).same_engine(old(self)),
            final(self).ctxs() == old(self).initial_ctxs(),
            final(self).initial_ctxs() == old(self).initial_ctxs(),
            final(self).wpp_ctxs() is None,
            final(self).init_kind() == old(self).init_kind(),
            old(self).wf() ==> final(self).wf(),
    {
        self.contexts = copy_contexts(&self.initial_contexts);
        self.wpp_contexts = None;
    }

    /// Stores the adapted context variables after the second CTU in a WPP
    /// row, as required by Clause 9.3.2.4.
    pub fn store_wpp_contexts(&mut self)
        ensures
            final(self).same_engine(old(self)),
            final(self).ctxs() == old(self).ctxs(),
            final(self).initial_ctxs() == old(self).initial_ctxs(),
            final(self).wpp_ctxs() == Some(old(self).ctxs()),
            final(self).init_kind() == old(self).init_kind(),
            old(self).wf() ==> final(self).wf(),
    {
        self.wpp_contexts = Some(copy_contexts(&self.contexts));
    }

    /// Restores the context variables stored for the preceding WPP row.
    /// Returns `false` when no preceding-row state is available.
    pub fn synchronize_wpp_contexts(&mut self) -> (r: bool)
        ensures
            r == old(self).wpp_ctxs() is Some,
            final(self).same_engine(old(self)),
            final(self).ctxs() == match old(self).wpp_ctxs() {
                Some(w) => w,
                None => old(self).ctxs(),
            },
            final(self).initial_ctxs() == old(self).initial_ctxs(),
            final(self).wpp_ctxs() == old(self).wpp_ctxs(),
            final(self).init_kind() == old(self).init_kind(),
            old(self).wf() ==> final(self).wf(),
    {
        match &self.wpp_contexts {
            Some(contexts) => {
                self.contexts = copy_contexts(contexts);
                true
            },
            None => false,
        }
    }

    /// Replaces the decoder context state, useful for WPP/dependent-slice synchronization.
    pub fn set_contexts(&mut self, contexts: Vec<CabacContext>)
        ensures
            final(self).same_engine(old(self)),
            final(self).ctxs() == if contexts@.len() == 0 {
                seq![CabacContext { state_index: 0, value_mps: 0 }]
            } else {
                contexts@
            },
            final(self).initial_ctxs() == old(self).initial_ctxs(),
            final(self).wpp_ctxs() == old(self).wpp_ctxs(),
            final(self).init_kind() == old(self).init_kind(),
            old(self).wf() && all_valid(contexts@) ==> final(self).wf(),
    {
        if contexts.len() == 0 {
            let mut one: Vec<CabacContext> = Vec::new();
            one.push(CabacContext { state_index: 0, value_mps: 0 });
            assert(one@ =~= seq![CabacContext { state_index: 0, value_mps: 0 }]);
            self.contexts = one;
        } else {
            self.contexts = contexts;
        }
    }

    /// Returns all context variables.
    pub fn contexts(&self) -> (r: &[CabacContext])
        ensures
            r@ == self.ctxs(),
    {
        self.contexts.as_slice()
    }

    /// Stores the context variables for WPP or dependent-slice restart.
    pub fn store_contexts(&self) -> (r: Vec<CabacContext>)
        ensures
            r@ == self.ctxs(),
    {
        copy_contexts(&self.contexts)
    }

    /// Restores context variables saved by [`Self::store_contexts`].
    pub fn synchronize_contexts(&mut self, stored: &[CabacContext]) -> (r: Result<(), SyntaxError>)
        ensures
            r is Ok <==> stored@.len() != 0 && stored@.len() == old(self).ctxs().len(),
            r is Err ==> (r matches Err(SyntaxError::InvalidSyntaxValue(_))) && *final(self) == *old(self),
            r is Ok ==> final(self).ctxs() == stored@,
            final(self).same_engine(old(self)),
            final(self).initial_ctxs() == old(self).initial_ctxs(),
            final(self).wpp_ctxs() == old(self).wpp_ctxs(),
            final(self).init_kind() == old(self).init_kind(),
            old(self).wf() && all_valid(stored@) ==> final(self).wf(),
    {
        if stored.len() == 0 {
            return Err(SyntaxError::InvalidSyntaxValue("CABAC synchronization context state is empty"));
        }
        if stored.len() != self.contexts.len() {
            return Err(SyntaxError::InvalidSyntaxValue("CABAC synchronization context state has the wrong size"));
        }
        self.contexts = vstd::slice::slice_to_vec(stored);
        Ok(())
    }

    /// Returns `ivlCurrRange`, the value of the public `interval_range` field.
    pub fn current_range(&self) -> (r: u16)
        ensures
            r == self.range(),
    {
        self.interval_range
    }

    /// Returns `ivlOffset`, the value of the public `offset` field.
    pub fn current_offset(&self) -> (r: u32)
        ensures
            r == self.ivl_offset(),
    {
        self.offset
    }

    /// Returns the current input bit position.
    pub fn bit_position(&self) -> (r: usize)
        ensures
            r == self.input().pos(),
    {
        self.reader.position()
    }

    /// Returns whether arithmetic termination has been decoded.
    pub fn is_terminated(&self) -> (r: bool)
        ensures
            r == self.done(),
    {
        self.terminated
    }

    /// Returns one mutable context for WPP/dependent-slice synchronization.
    pub fn context_mut(&mut self, index: usize) -> (r: Option<&mut CabacContext>)
        ensures
            r is Some <==> index < old(self).ctxs().len(),
            r is None ==> *final(self) == *old(self),
            r matches Some(c) ==> *c == old(self).ctxs()[index as int]
                && final(self).ctxs() == old(self).ctxs().update(index as int, *final(c)),
            final(self).same_engine(old(self)),
            final(self).initial_ctxs() == old(self).initial_ctxs(),
            final(self).wpp_ctxs() == old(self).wpp_ctxs(),
            final(self).init_kind() == old(self).init_kind(),
    {
        if index < self.contexts.len() {
            Some(&mut self.contexts[index])
        } else {
            None
        }
    }

    /// Initializes the arithmetic engine for a new CABAC substream.
    pub fn initialize_arithmetic_engine(&mut self) -> (r: Result<(), SyntaxError>)
        requires
            old(self).input().wf(),
        ensures
            engine_restart(old(self), final(self), r),
    {
        proof {
            lemma_bits_value_bound(self.reader.bytes(), self.reader.pos(), 9);
            vstd::arithmetic::power2::lemma2_to64();
        }
        let offset = self.reader.read_bits(9)? as u32;
        if offset >= 510 {
            return Err(SyntaxError::InvalidSyntaxValue("CABAC ivlOffset must not be 510 or 511"));
        }
        self.interval_range = 510;
        self.offset = offset;
        self.terminated = false;
        Ok(())
    }

    /// Reads PCM alignment bits and samples from the CABAC-owned payload,
    /// then invokes the arithmetic-engine initialization process again.
    /// Reads zero bits up to the next byte boundary.
    fn skip_alignment_zero_bits(&mut self) -> (r: Result<(), SyntaxError>)
        requires
            old(self).input().wf(),
        ensures
            final(self).input().wf(),
            final(self).input().same_input(&old(self).input()),
            final(self).same_contexts(old(self)),
            final(self).same_arith(old(self)),
            (match r {
                Ok(_) => None::<SyntaxError>,
                Err(e) => Some(e),
            }, final(self).input().pos()) == align_outcome(old(self).input().bytes(), old(self).input().pos(), old(self).input().limit()),
            old(self).wf() ==> final(self).wf(),
    {
        skip_zero_alignment(&mut self.reader)
    }

    #[verifier::rlimit(50)]
    #[verifier::spinoff_prover]
    pub fn read_pcm_sample_values(
        &mut self,
        luma_sample_count: usize,
        chroma_sample_count: usize,
        bit_depth_luma: usize,
        bit_depth_chroma: usize,
    ) -> (r: Result<(Vec<u64>, Vec<u64>), SyntaxError>)
        requires
            old(self).input().wf(),
        ensures
            ({
                let (res, pos) = pcm_outcome(
                    old(self).input().bytes(),
                    old(self).input().pos(),
                    old(self).input().limit(),
                    luma_sample_count as nat,
                    chroma_sample_count as nat,
                    bit_depth_luma,
                    bit_depth_chroma,
                );
                &&& final(self).input().pos() == pos
                &&& (res matches Ok((l, c, v)) ==> (r matches Ok((lv, cv)) && lv@ == l && cv@ == c)
                    && final(self).range() == 510 && final(self).ivl_offset() == v && !final(self).done())
                &&& (res matches Err(e) ==> r == Err::<(Vec<u64>, Vec<u64>), SyntaxError>(e)
                    && final(self).range() == old(self).range()
                    && final(self).ivl_offset() == old(self).ivl_offset()
                    && final(self).done() == old(self).done())
            }),
            final(self).input().wf(),
            final(self).input().same_input(&old(self).input()),
            final(self).same_contexts(old(self)),
            old(self).wf() ==> final(self).wf(),
    {
        let ghost bytes = self.reader.bytes();
        let ghost limit = self.reader.limit();
        let ghost start = *self;
        self.skip_alignment_zero_bits()?;
        let ghost p1 = self.reader.pos();
        assert(align_outcome(bytes, old(self).input().pos(), limit) == (None::<SyntaxError>, p1));
        let luma_samples = self.read_samples(luma_sample_count, bit_depth_luma)?;
        let ghost p2 = self.reader.pos();
        assert(samples_outcome(bytes, p1, limit, luma_sample_count as nat, bit_depth_luma)
            == (Ok::<Seq<u64>, SyntaxError>(luma_samples@), p2));
        let chroma_samples = self.read_samples(chroma_sample_count, bit_depth_chroma)?;
        let ghost p3 = self.reader.pos();
        assert(samples_outcome(bytes, p2, limit, chroma_sample_count as nat, bit_depth_chroma)
            == (Ok::<Seq<u64>, SyntaxError>(chroma_samples@), p3));
        proof {
            lemma_bits_value_bound(bytes, p3, 9);
            vstd::arithmetic::power2::lemma2_to64();
        }
        self.reinitialize_after_pcm()?;
        Ok((luma_samples, chroma_samples))
    }

    /// Reads `count` raw samples of `bit_depth` bits each.
    fn read_samples(&mut self, count: usize, bit_depth: usize) -> (r: Result<Vec<u64>, SyntaxError>)
        requires
            old(self).input().wf(),
        ensures
            ({
                let (res, pos) = samples_outcome(
                    old(self).input().bytes(),
                    old(self).input().pos(),
                    old(self).input().limit(),
                    count as nat,
                    bit_depth,
                );
                &&& final(self).input().pos() == pos
                &&& (res matches Ok(v) ==> (r matches Ok(rv) && rv@ == v))
                &&& (res matches Err(e) ==> r == Err::<Vec<u64>, SyntaxError>(e))
            }),
            final(self).input().wf(),
            final(self).input().same_input(&old(self).input()),
            final(self).same_contexts(old(self)),
            final(self).same_arith(old(self)),
    {
        read_sample_run(&mut self.reader, count, bit_depth)
    }

    /// Reinitializes `ivlCurrRange` and `ivlOffset` after PCM data while
    /// retaining the already-adapted context variables.
    pub fn reinitialize_after_pcm(&mut self) -> (r: Result<(), SyntaxError>)
        requires
            old(self).input().wf(),
        ensures
            engine_restart(old(self), final(self), r),
    {
        self.initialize_arithmetic_engine()
    }

    fn renormalize(&mut self) -> (r: Result<(), SyntaxError>)
        requires
            old(self).input().wf(),
        ensures
            final(self).input().wf(),
            final(self).input().same_input(&old(self).input()),
            final(self).same_contexts(old(self)),
            final(self).done() == old(self).done(),
            (r, final(self).range(), final(self).ivl_offset(), final(self).input().pos()) == renorm_outcome(
                old(self).range(),
                old(self).ivl_offset(),
                old(self).input().bytes(),
                old(self).input().pos(),
                old(self).input().limit(),
            ),
    {
        let ghost bytes = self.reader.bytes();
        let ghost limit = self.reader.limit();
        let ghost goal = renorm_outcome(self.interval_range, self.offset, bytes, self.reader.pos(), limit);
        let ghost start = *self;
        while self.interval_range < 256
            invariant
                start == *old(self),
                bytes == old(self).input().bytes(),
                limit == old(self).input().limit(),
                goal == renorm_outcome(old(self).range(), old(self).ivl_offset(), bytes, old(self).input().pos(), limit),
                self.reader.wf(),
                self.reader.bytes() == bytes,
                self.reader.limit() == limit,
                self.same_contexts(&start),
                self.done() == start.done(),
                renorm_outcome(self.interval_range, self.offset, bytes, self.reader.pos(), limit) == goal,
            decreases self.reader.remaining(),
        {
            let range = self.interval_range;
            assert(range << 1u16 == range * 2) by (bit_vector)
                requires range < 256;
            self.interval_range = range << 1u16;
            proof {
                lemma_bits_value_bound(bytes, self.reader.pos(), 1);
                vstd::arithmetic::power2::lemma2_to64();
            }
            let bit = self.reader.read_bits(1)?;
            self.offset = (self.offset << 1u32) | (bit as u32);
        }
        if self.offset >= self.interval_range as u32 {
            return Err(SyntaxError::InvalidSyntaxValue("CABAC offset is outside the arithmetic interval"));
        }
        Ok(())
    }

    /// Decodes a context-coded bin using context index `ctx_idx`.
    pub fn decode_decision(&mut self, ctx_idx: usize) -> (r: Result<u64, SyntaxError>)
        requires
            old(self).input().wf(),
            ctx_idx < old(self).ctxs().len() ==> decision_allowed(old(self), ctx_idx as int),
        ensures
            ctx_idx >= old(self).ctxs().len() ==> (r matches Err(SyntaxError::InvalidSyntaxValue(_)))
                && *final(self) == *old(self),
            ctx_idx < old(self).ctxs().len() ==> decision_step(old(self), final(self), ctx_idx as int, r),
            final(self).input().wf(),
            final(self).initial_ctxs() == old(self).initial_ctxs(),
            final(self).wpp_ctxs() == old(self).wpp_ctxs(),
            final(self).init_kind() == old(self).init_kind(),
            final(self).done() == old(self).done(),
            old(self).wf() ==> final(self).wf(),
    {
        if ctx_idx >= self.contexts.len() {
            return Err(SyntaxError::InvalidSyntaxValue("CABAC context index is out of range"));
        }
        let ghost start = *self;
        let context = self.contexts[ctx_idx];
        let range = self.interval_range;
        let q_range_idx = ((range >> 6u16) & 3u16) as usize;
        assert(((range >> 6u16) & 3u16) < 4) by (bit_vector);
        proof {
            lemma_tables_bounded();
        }
        let lps_range = RANGE_TAB_LPS[context.state_index as usize * 4 + q_range_idx] as u16;
        self.interval_range = range - lps_range;
        let bin: u8;
        let next: CabacContext;
        if self.offset >= self.interval_range as u32 {
            self.offset = self.offset - self.interval_range as u32;
            self.interval_range = lps_range;
            bin = 1 - context.value_mps;
            next = CabacContext {
                state_index: TRANS_IDX_LPS[context.state_index as usize],
                value_mps: if context.state_index == 0 { 1 - context.value_mps } else { context.value_mps },
            };
        } else {
            bin = context.value_mps;
            next = CabacContext { state_index: TRANS_IDX_MPS[context.state_index as usize], value_mps: context.value_mps };
        }
        self.contexts.set(ctx_idx, next);
        assert(self.ctxs() == start.ctxs().update(ctx_idx as int, next));
        let res = self.renormalize();
        match res {
            Ok(()) => Ok(bin as u64),
            Err(e) => Err(e),
        }
    }

    /// Decodes a bin from a named Clause 9 context table.
    pub fn decode_context(&mut self, table: CabacContextTable, ctx_idx: usize) -> (r: Result<u64, SyntaxError>)
        requires
            old(self).wf(),
            old(self).range() >= 256,
        ensures
            ctx_idx >= table_size_spec(table) ==> (r matches Err(SyntaxError::InvalidSyntaxValue(_)))
                && *final(self) == *old(self),
            ctx_idx < table_size_spec(table) ==> decode_at(
                old(self),
                final(self),
                (table_offset_spec(table) + ctx_idx) as int,
                r,
            ),
            final(self).wf(),
            r is Ok ==> final(self).range() >= 256,
    {
        let index = table.context_index(ctx_idx)?;
        proof {
            lemma_valid_decision(*self, index as int);
        }
        let r = self.decode_decision(index);
        proof {
            lemma_decision_range(*old(self), *self, index as int, r);
        }
        r
    }

    /// Decodes a bin using the context increment from Table 9-48. The
    /// initialization-type offset from Table 9-4 is applied automatically
    /// for a decoder created with [`Self::with_standard_contexts`].
    #[verifier::spinoff_prover]
    pub fn decode_syntax_context(&mut self, table: CabacContextTable, ctx_inc: usize) -> (r: Result<u64, SyntaxError>)
        requires
            ctx_inc <= usize::MAX / 2,
            old(self).wf(),
            old(self).range() >= 256,
        ensures
            syntax_index_spec(old(self).init_kind(), table, ctx_inc) matches Some(i) ==> decode_at(old(self), final(self), i, r),
            syntax_index_spec(old(self).init_kind(), table, ctx_inc) is None ==> r is Err && *final(self) == *old(self),
            final(self).wf(),
            r is Ok ==> final(self).range() >= 256,
    {
        let index = self.syntax_context_index(table, ctx_inc)?;
        proof {
            lemma_valid_decision(*self, index as int);
        }
        let r = self.decode_decision(index);
        proof {
            lemma_decision_range(*old(self), *self, index as int, r);
        }
        r
    }

    /// Returns the flat context-vector index selected by a syntax context
    /// increment.
    pub fn syntax_context_index(&self, table: CabacContextTable, ctx_inc: usize) -> (r: Result<usize, SyntaxError>)
        requires
            ctx_inc <= usize::MAX / 2,
        ensures
            syntax_index_spec(self.init_kind(), table, ctx_inc) matches Some(i) ==> r == Ok::<usize, SyntaxError>(i as usize),
            syntax_index_spec(self.init_kind(), table, ctx_inc) is None ==> r matches Err(SyntaxError::InvalidSyntaxValue(_)),
    {
        let is_chroma = match table {
            CabacContextTable::CbfChroma => true,
            _ => false,
        };
        let is_sig = match table {
            CabacContextTable::SigCoeff => true,
            _ => false,
        };
        assert(is_chroma == (table == CabacContextTable::CbfChroma));
        assert(is_sig == (table == CabacContextTable::SigCoeff));
        let local: usize = if is_chroma && ctx_inc >= 12 {
            ctx_inc
        } else if is_sig && ctx_inc >= 42 {
            match self.init_type {
                Some(init_type) => 126 + init_type as usize * 2 + ctx_inc - 42,
                None => ctx_inc,
            }
        } else {
            match self.init_type {
                Some(init_type) => table.context_offset(init_type)? + ctx_inc,
                None => ctx_inc,
            }
        };
        table.context_index(local)
    }

    /// Decodes a bypass bin (§9.3.4.3.4).
    #[verifier::spinoff_prover]
    pub fn decode_bypass(&mut self) -> (r: Result<u64, SyntaxError>)
        requires
            old(self).input().wf(),
        ensures
            final(self).input().wf(),
            final(self).input().same_input(&old(self).input()),
            final(self).same_contexts(old(self)),
            final(self).range() == old(self).range(),
            final(self).done() == old(self).done(),
            (r, final(self).ivl_offset(), final(self).input().pos()) == bypass_outcome(
                old(self).range(),
                old(self).ivl_offset(),
                old(self).input().bytes(),
                old(self).input().pos(),
                old(self).input().limit(),
            ),
            old(self).wf() ==> final(self).wf(),
    {
        proof {
            lemma_bits_value_bound(self.reader.bytes(), self.reader.pos(), 1);
            vstd::arithmetic::power2::lemma2_to64();
        }
        let bit = self.reader.read_bits(1)?;
        self.offset = (self.offset << 1u32) | (bit as u32);
        if self.offset >= self.interval_range as u32 {
            self.offset = self.offset - self.interval_range as u32;
            if self.offset >= self.interval_range as u32 {
                return Err(SyntaxError::InvalidSyntaxValue(
                    "CABAC offset is outside the arithmetic interval after bypass decoding",
                ));
            }
            Ok(1)
        } else {
            Ok(0)
        }
    }

    /// Decodes a termination bin (§9.3.4.3.5).
    pub fn decode_terminate(&mut self) -> (r: Result<u64, SyntaxError>)
        requires
            old(self).input().wf(),
            old(self).range() >= 2,
        ensures
            final(self).input().wf(),
            final(self).input().same_input(&old(self).input()),
            final(self).same_contexts(old(self)),
            old(self).ivl_offset() >= old(self).range() - 2 ==> {
                &&& r == Ok::<u64, SyntaxError>(1)
                &&& final(self).done()
                &&& final(self).range() == old(self).range() - 2
                &&& final(self).ivl_offset() == old(self).ivl_offset()
                &&& final(self).input().same_input(&old(self).input())
                &&& final(self).input().pos() == old(self).input().pos()
            },
            old(self).ivl_offset() < old(self).range() - 2 ==> {
                let (res, range, offset, pos) = renorm_outcome(
                    (old(self).range() - 2) as u16,
                    old(self).ivl_offset(),
                    old(self).input().bytes(),
                    old(self).input().pos(),
                    old(self).input().limit(),
                );
                &&& r == match res {
                    Ok(_) => Ok::<u64, SyntaxError>(0),
                    Err(e) => Err(e),
                }
                &&& final(self).done() == old(self).done()
                &&& final(self).range() == range
                &&& final(self).ivl_offset() == offset
                &&& final(self).input().pos() == pos
            },
            old(self).wf() ==> final(self).wf(),
    {
        self.interval_range = self.interval_range - 2;
        if self.offset >= self.interval_range as u32 {
            self.terminated = true;
            Ok(1)
        } else {
            let res = self.renormalize();
            match res {
                Ok(()) => Ok(0),
                Err(e) => Err(e),
            }
        }
    }

    /// Reads `count` bypass-coded bits, MSB first.
    pub fn read_bypass_bits(&mut self, count: usize) -> (r: Result<u64, SyntaxError>)
        requires
            old(self).input().wf(),
        ensures
            count > 64 ==> r == Err::<u64, SyntaxError>(SyntaxError::InvalidBitCount(count)) && *final(self) == *old(self),
            count <= 64 ==> (r, final(self).ivl_offset(), final(self).input().pos()) == bypass_run(
                old(self).range(),
                old(self).ivl_offset(),
                old(self).input().bytes(),
                old(self).input().pos(),
                old(self).input().limit(),
                count as nat,
                0,
            ),
            final(self).input().wf(),
            final(self).input().same_input(&old(self).input()),
            final(self).same_contexts(old(self)),
            final(self).range() == old(self).range(),
            final(self).done() == old(self).done(),
            old(self).wf() ==> final(self).wf(),
    {
        if count > 64 {
            return Err(SyntaxError::InvalidBitCount(count));
        }
        let ghost start = *self;
        let ghost bytes = self.reader.bytes();
        let ghost limit = self.reader.limit();
        let ghost goal = bypass_run(self.interval_range, self.offset, bytes, self.reader.pos(), limit, count as nat, 0);
        let mut value: u64 = 0;
        let mut i: usize = 0;
        while i < count
            invariant
                start == *old(self),
                bytes == old(self).input().bytes(),
                limit == old(self).input().limit(),
                count <= 64,
                goal == bypass_run(old(self).range(), old(self).ivl_offset(), bytes, old(self).input().pos(), limit, count as nat, 0),
                i <= count,
                self.reader.wf(),
                self.reader.bytes() == bytes,
                self.reader.limit() == limit,
                self.same_contexts(&start),
                self.interval_range == start.interval_range,
                self.done() == start.done(),
                start.wf() ==> self.wf(),
                bypass_run(self.interval_range, self.offset, bytes, self.reader.pos(), limit, (count - i) as nat, value) == goal,
            decreases count - i,
        {
            let bin = self.decode_bypass()?;
            value = (value << 1u64) | bin;
            i += 1;
        }
        Ok(value)
    }

    /// Reads a truncated-binary value using bypass bins.
    #[verifier::rlimit(50)]
    pub fn read_truncated_binary_bypass(&mut self, c_max: u64) -> (r: Result<u64, SyntaxError>)
        requires
            old(self).input().wf(),
            c_max < 0x7fff_ffff_ffff_ffff || c_max == u64::MAX,
        ensures
            c_max == u64::MAX ==> (r matches Err(SyntaxError::InvalidSyntaxValue(_))) && *final(self) == *old(self),
            c_max < u64::MAX ==> (r, final(self).ivl_offset(), final(self).input().pos()) == truncated_binary_outcome(
                old(self).range(),
                old(self).ivl_offset(),
                old(self).input().bytes(),
                old(self).input().pos(),
                old(self).input().limit(),
                c_max,
            ),
            final(self).input().wf(),
            final(self).input().same_input(&old(self).input()),
            final(self).same_contexts(old(self)),
            final(self).range() == old(self).range(),
            final(self).done() == old(self).done(),
            old(self).wf() ==> final(self).wf(),
    {
        let n = match c_max.checked_add(1) {
            Some(n) => n,
            None => return Err(SyntaxError::InvalidSyntaxValue("truncated-binary range is too large")),
        };
        proof {
            lemma_truncated_binary_bounds(n);
        }
        let k = 63 - n.leading_zeros();
        proof {
            vstd::bits::lemma_u64_pow2_no_overflow((k + 1) as nat);
            vstd::bits::lemma_u64_shl_is_mul(1, (k + 1) as u64);
        }
        let u = (1u64 << (k + 1) as u64) - n;
        assert(k as int == tb_k(c_max));
        assert(u as int == tb_u(c_max));
        let ghost mid = *self;
        let mut value = self.read_bypass_bits(k as usize)?;
        if value < u {
            return Ok(value);
        }
        let bin = self.decode_bypass()?;
        value = (value << 1u64) | bin;
        if value < u {
            return Err(SyntaxError::InvalidSyntaxValue("truncated-binary value exceeds cMax"));
        }
        let value = value - u;
        if value <= c_max {
            Ok(value)
        } else {
            Err(SyntaxError::InvalidSyntaxValue("truncated-binary value exceeds cMax"))
        }
    }

    /// Consumes `byte_alignment()` inside CABAC-coded data: a one bit (unless a
    /// terminating bin already supplied it) followed by zero bits up to the
    /// next byte boundary.
    pub fn byte_alignment(&mut self) -> (r: Result<(), SyntaxError>)
        requires
            old(self).input().wf(),
        ensures
            final(self).input().wf(),
            final(self).input().same_input(&old(self).input()),
            final(self).same_contexts(old(self)),
            final(self).range() == old(self).range(),
            final(self).ivl_offset() == old(self).ivl_offset(),
            !old(self).done() ==> r == trailing_bits_outcome(old(self).input().bytes(), old(self).input().pos(), old(self).input().limit())
                && (r is Ok ==> final(self).input().pos() == trailing_bits_end(old(self).input().pos()))
                && !final(self).done(),
            old(self).done() ==> (match r {
                Ok(_) => None::<SyntaxError>,
                Err(e) => Some(e),
            }, final(self).input().pos()) == align_outcome(old(self).input().bytes(), old(self).input().pos(), old(self).input().limit())
                && final(self).done() == (r is Err),
            old(self).wf() ==> final(self).wf(),
    {
        if !self.terminated {
            self.reader.read_rbsp_trailing_bits()?;
        } else {
            self.skip_alignment_zero_bits()?;
            self.terminated = false;
        }
        Ok(())
    }

    /// Consumes the trailing bits of a CABAC-coded slice segment: the
    /// terminating bin (unless already decoded), zero alignment bits and any
    /// `cabac_zero_word`s, returning how many of those words were present.
    pub fn rbsp_slice_segment_trailing_bits(&mut self) -> (r: Result<usize, SyntaxError>)
        requires
            old(self).input().wf(),
            old(self).done() || old(self).range() >= 2,
        ensures
            final(self).input().wf(),
            final(self).input().same_input(&old(self).input()),
            final(self).same_contexts(old(self)),
            (old(self).done() || old(self).ivl_offset() >= old(self).range() - 2) ==> r == cabac_trailing_outcome(
                old(self).input().bytes(),
                old(self).input().pos(),
                old(self).input().limit(),
            ),
            !old(self).done() && old(self).ivl_offset() < old(self).range() - 2 ==> r == match renorm_outcome(
                (old(self).range() - 2) as u16,
                old(self).ivl_offset(),
                old(self).input().bytes(),
                old(self).input().pos(),
                old(self).input().limit(),
            ).0 {
                Ok(_) => Err::<usize, SyntaxError>(SyntaxError::InvalidAlignmentBit),
                Err(e) => Err(e),
            },
            old(self).wf() ==> final(self).wf(),
    {
        if !self.terminated {
            let bin = self.decode_terminate()?;
            if bin != 1 {
                return Err(SyntaxError::InvalidAlignmentBit);
            }
        }
        let ghost bytes = self.reader.bytes();
        let ghost limit = self.reader.limit();
        let ghost start = *self;
        self.skip_alignment_zero_bits()?;
        let ghost q = self.reader.pos();
        let mut cabac_zero_word_count: usize = 0;
        while self.reader.bits_remaining() >= 16
            invariant
                self.reader.wf(),
                self.reader.bytes() == bytes,
                self.reader.limit() == limit,
                bytes == old(self).input().bytes(),
                limit == old(self).input().limit(),
                start.same_contexts(old(self)),
                self.same_contexts(&start),
                old(self).done() || old(self).ivl_offset() >= old(self).range() - 2,
                cabac_trailing_outcome(bytes, old(self).input().pos(), limit) == zero_words_outcome(bytes, q, limit, 0),
                old(self).wf() ==> start.wf(),
                start.wf() ==> self.wf(),
                0 <= q <= self.reader.pos(),
                self.reader.pos() == q + 16 * cabac_zero_word_count,
                zero_words_outcome(bytes, q, limit, 0) == zero_words_outcome(
                    bytes,
                    self.reader.pos(),
                    limit,
                    cabac_zero_word_count as nat,
                ),
            decreases self.reader.remaining(),
        {
            proof {
                lemma_bits_value_bound(bytes, self.reader.pos(), 16);
                vstd::arithmetic::power2::lemma2_to64();
            }
            let word = self.reader.read_bits(16)?;
            if word != 0 {
                return Err(SyntaxError::InvalidSyntaxValue("cabac_zero_word must equal 0x0000"));
            }
            cabac_zero_word_count += 1;
        }
        if self.reader.bits_remaining() != 0 {
            return Err(SyntaxError::InvalidSyntaxValue("trailing CABAC data is not a complete cabac_zero_word"));
        }
        Ok(cabac_zero_word_count)
    }

    /// Decodes a truncated-Rice value (§9.3.3.2) from bypass bins.
    pub fn read_truncated_rice(&mut self, c_max: u64, rice_parameter: u8) -> (r: Result<u64, SyntaxError>)
        requires
            old(self).input().wf(),
        ensures
            bypass_step(
                old(self),
                final(self),
                r,
                truncated_rice_outcome(
                    old(self).range(),
                    old(self).ivl_offset(),
                    old(self).input().bytes(),
                    old(self).input().pos(),
                    old(self).input().limit(),
                    c_max,
                    rice_parameter,
                ),
            ),
    {
        if rice_parameter >= 64 {
            return Err(SyntaxError::InvalidSyntaxValue("truncated-Rice parameter is too large"));
        }
        let ghost start = *self;
        let max_prefix = c_max >> rice_parameter;
        let prefix = self.read_unary_prefix(max_prefix)?;
        if prefix == max_prefix {
            return Ok(c_max);
        }
        let suffix = self.read_bypass_bits(rice_parameter as usize)?;
        let value = (prefix << rice_parameter) | suffix;
        if value <= c_max {
            Ok(value)
        } else {
            Err(SyntaxError::InvalidSyntaxValue("truncated-Rice value exceeds cMax"))
        }
    }

    /// Reads bypass bins while they are one, at most `max_prefix` of them.
    fn read_unary_prefix(&mut self, max_prefix: u64) -> (r: Result<u64, SyntaxError>)
        requires
            old(self).input().wf(),
        ensures
            bypass_step(
                old(self),
                final(self),
                r,
                unary_prefix_outcome(
                    old(self).range(),
                    old(self).ivl_offset(),
                    old(self).input().bytes(),
                    old(self).input().pos(),
                    old(self).input().limit(),
                    max_prefix,
                    0,
                ),
            ),
            r matches Ok(p) ==> p <= max_prefix,
    {
        let ghost start = *self;
        let ghost goal = unary_prefix_outcome(
            self.range(),
            self.ivl_offset(),
            self.input().bytes(),
            self.input().pos(),
            self.input().limit(),
            max_prefix,
            0,
        );
        let mut prefix: u64 = 0;
        let mut stop = false;
        while prefix < max_prefix && !stop
            invariant
                start == *old(self),
                self.input().wf(),
                self.input().same_input(&start.input()),
                self.same_contexts(&start),
                self.range() == start.range(),
                self.done() == start.done(),
                start.wf() ==> self.wf(),
                prefix <= max_prefix,
                goal == unary_prefix_outcome(
                    start.range(),
                    start.ivl_offset(),
                    start.input().bytes(),
                    start.input().pos(),
                    start.input().limit(),
                    max_prefix,
                    0,
                ),
                stop ==> goal == (Ok::<u64, SyntaxError>(prefix), self.ivl_offset(), self.input().pos()),
                !stop ==> goal == unary_prefix_outcome(
                    start.range(),
                    self.ivl_offset(),
                    start.input().bytes(),
                    self.input().pos(),
                    start.input().limit(),
                    max_prefix,
                    prefix,
                ),
            decreases max_prefix - prefix, if stop { 0int } else { 1int },
        {
            let bin = self.decode_bypass()?;
            if bin == 0 {
                stop = true;
            } else {
                prefix += 1;
            }
        }
        Ok(prefix)
    }

    /// Decodes a k-th order Exp-Golomb value (§9.3.3.3) from bypass bins.
    pub fn read_exp_golomb(&mut self, order: u8) -> (r: Result<u64, SyntaxError>)
        requires
            old(self).input().wf(),
        ensures
            bypass_step(
                old(self),
                final(self),
                r,
                exp_golomb_outcome(
                    old(self).range(),
                    old(self).ivl_offset(),
                    old(self).input().bytes(),
                    old(self).input().pos(),
                    old(self).input().limit(),
                    order as u32,
                    0,
                ),
            ),
    {
        let ghost start = *self;
        let ghost goal = exp_golomb_outcome(
            self.range(),
            self.ivl_offset(),
            self.input().bytes(),
            self.input().pos(),
            self.input().limit(),
            order as u32,
            0,
        );
        let mut k: u32 = order as u32;
        let mut value: u64 = 0;
        loop
            invariant
                start == *old(self),
                self.input().wf(),
                self.input().same_input(&start.input()),
                self.same_contexts(&start),
                self.range() == start.range(),
                self.done() == start.done(),
                start.wf() ==> self.wf(),
                goal == exp_golomb_outcome(
                    start.range(),
                    start.ivl_offset(),
                    start.input().bytes(),
                    start.input().pos(),
                    start.input().limit(),
                    order as u32,
                    0,
                ),
                goal == exp_golomb_outcome(
                    start.range(),
                    self.ivl_offset(),
                    start.input().bytes(),
                    self.input().pos(),
                    start.input().limit(),
                    k,
                    value,
                ),
            decreases 64 - k,
        {
            if k >= 64 {
                return Err(SyntaxError::ExpGolombOverflow);
            }
            proof {
                vstd::bits::lemma_u64_pow2_no_overflow(k as nat);
                vstd::bits::lemma_u64_shl_is_mul(1, k as u64);
            }
            let threshold = 1u64 << k;
            let bin = self.decode_bypass()?;
            if bin != 0 {
                value = match value.checked_add(threshold) {
                    Some(v) => v,
                    None => return Err(SyntaxError::ExpGolombOverflow),
                };
                k = k + 1;
            } else {
                let suffix = self.read_bypass_bits(k as usize)?;
                return match value.checked_add(suffix) {
                    Some(v) => Ok(v),
                    None => Err(SyntaxError::ExpGolombOverflow),
                };
            }
        }
    }

    /// Decodes a fixed-length value (§9.3.3.5) from bypass bins.
    pub fn read_fixed_bypass(&mut self, c_max: u64) -> (r: Result<u64, SyntaxError>)
        requires
            old(self).input().wf(),
        ensures
            bypass_step(
                old(self),
                final(self),
                r,
                fixed_bypass_outcome(
                    old(self).range(),
                    old(self).ivl_offset(),
                    old(self).input().bytes(),
                    old(self).input().pos(),
                    old(self).input().limit(),
                    c_max,
                ),
            ),
    {
        proof {
            vstd::std_specs::bits::axiom_u64_leading_zeros(c_max);
        }
        let width: usize = if c_max == 0 {
            0
        } else {
            (64 - c_max.leading_zeros()) as usize
        };
        let value = self.read_bypass_bits(width)?;
        if value <= c_max {
            Ok(value)
        } else {
            Err(SyntaxError::InvalidSyntaxValue("fixed-length value exceeds cMax"))
        }
    }

    /// Decodes a limited k-th order Exp-Golomb value (§9.3.3.12) from bypass bins.
    pub fn read_limited_exp_golomb(&mut self, rice_parameter: u8, log2_transform_range: u8) -> (r: Result<u64, SyntaxError>)
        requires
            old(self).input().wf(),
        ensures
            bypass_step(
                old(self),
                final(self),
                r,
                limited_exp_golomb_outcome(
                    old(self).range(),
                    old(self).ivl_offset(),
                    old(self).input().bytes(),
                    old(self).input().pos(),
                    old(self).input().limit(),
                    rice_parameter,
                    log2_transform_range,
                ),
            ),
    {
        if rice_parameter >= 32 || !(1 <= log2_transform_range && log2_transform_range <= 28) {
            return Err(SyntaxError::InvalidSyntaxValue("limited EGk parameters are out of range"));
        }
        let max_prefix_extension_length: u8 = 28 - log2_transform_range;
        let extension = self.read_unary_prefix(max_prefix_extension_length as u64)?;
        let prefix_extension_length = extension as u8;
        let escape_length: u8 = if prefix_extension_length == max_prefix_extension_length {
            log2_transform_range
        } else {
            prefix_extension_length + rice_parameter
        };
        let suffix = self.read_bypass_bits(escape_length as usize)?;
        proof {
            vstd::arithmetic::power2::lemma2_to64();
            vstd::arithmetic::power2::lemma2_to64_rest();
            vstd::arithmetic::power2::lemma_pow2_pos(prefix_extension_length as nat);
            vstd::arithmetic::power2::lemma_pow2_strictly_increases(prefix_extension_length as nat, 62);
            vstd::bits::lemma_u64_pow2_no_overflow(prefix_extension_length as nat);
            vstd::bits::lemma_u64_shl_is_mul(1, prefix_extension_length as u64);
            vstd::bits::lemma_u64_shl_is_mul(2, prefix_extension_length as u64);
        }
        let base = ((1u64 << prefix_extension_length) - 1) << rice_parameter;
        let value = match base.checked_add(suffix) {
            Some(v) => v,
            None => return Err(SyntaxError::ExpGolombOverflow),
        };
        if prefix_extension_length < max_prefix_extension_length && (value >> rice_parameter) > ((2u64
            << prefix_extension_length) - 2) {
            return Err(SyntaxError::InvalidSyntaxValue("limited EGk prefix and suffix are inconsistent"));
        }
        Ok(value)
    }

    /// Decodes `coeff_abs_level_remaining` with Rice parameter zero.
    pub fn read_coeff_abs_level_remaining(&mut self, base_level: u64) -> (r: Result<u64, SyntaxError>)
        requires
            old(self).input().wf(),
        ensures
            bypass_step(
                old(self),
                final(self),
                r,
                coeff_remaining_outcome(
                    old(self).range(),
                    old(self).ivl_offset(),
                    old(self).input().bytes(),
                    old(self).input().pos(),
                    old(self).input().limit(),
                    0,
                    false,
                    0,
                ),
            ),
    {
        self.read_coeff_abs_level_remaining_with_options(base_level, 0, false, 0)
    }

    /// Decodes `coeff_abs_level_remaining` with a Rice parameter of at most four.
    pub fn read_coeff_abs_level_remaining_with_parameters(&mut self, base_level: u64, rice_parameter: u8) -> (r: Result<
        u64,
        SyntaxError,
    >)
        requires
            old(self).input().wf(),
        ensures
            rice_parameter > 4 ==> r == Err::<u64, SyntaxError>(
                SyntaxError::InvalidSyntaxValue("coefficient Rice parameter is too large"),
            ) && *final(self) == *old(self),
            rice_parameter <= 4 ==> bypass_step(
                old(self),
                final(self),
                r,
                coeff_remaining_outcome(
                    old(self).range(),
                    old(self).ivl_offset(),
                    old(self).input().bytes(),
                    old(self).input().pos(),
                    old(self).input().limit(),
                    rice_parameter,
                    false,
                    0,
                ),
            ),
    {
        if rice_parameter > 4 {
            return Err(SyntaxError::InvalidSyntaxValue("coefficient Rice parameter is too large"));
        }
        self.read_coeff_abs_level_remaining_with_options(base_level, rice_parameter, false, 0)
    }

    /// Decodes `coeff_abs_level_remaining`, with the limited Exp-Golomb escape
    /// when extended precision processing is enabled.
    pub fn read_coeff_abs_level_remaining_with_options(
        &mut self,
        base_level: u64,
        rice_parameter: u8,
        extended_precision: bool,
        log2_transform_range: u8,
    ) -> (r: Result<u64, SyntaxError>)
        requires
            old(self).input().wf(),
        ensures
            rice_parameter >= 32 ==> r == Err::<u64, SyntaxError>(
                SyntaxError::InvalidSyntaxValue("coefficient Rice parameter is too large"),
            ) && *final(self) == *old(self),
            rice_parameter < 32 ==> bypass_step(
                old(self),
                final(self),
                r,
                coeff_remaining_outcome(
                    old(self).range(),
                    old(self).ivl_offset(),
                    old(self).input().bytes(),
                    old(self).input().pos(),
                    old(self).input().limit(),
                    rice_parameter,
                    extended_precision,
                    log2_transform_range,
                ),
            ),
    {
        if rice_parameter >= 32 {
            return Err(SyntaxError::InvalidSyntaxValue("coefficient Rice parameter is too large"));
        }
        proof {
            vstd::arithmetic::power2::lemma2_to64();
            vstd::arithmetic::power2::lemma2_to64_rest();
            if rice_parameter < 32 {
                vstd::arithmetic::power2::lemma_pow2_strictly_increases(rice_parameter as nat, 32);
            }
            vstd::bits::lemma_u64_shl_is_mul(4, rice_parameter as u64);
        }
        let c_max = 4u64 << rice_parameter;
        let prefix = self.read_truncated_rice(c_max, rice_parameter)?;
        if prefix != c_max {
            return Ok(prefix);
        }
        let suffix = if extended_precision {
            self.read_limited_exp_golomb(rice_parameter + 1, log2_transform_range)?
        } else {
            self.read_exp_golomb(rice_parameter + 1)?
        };
        match c_max.checked_add(suffix) {
            Some(v) => Ok(v),
            None => Err(SyntaxError::ExpGolombOverflow),
        }
    }

    /// Decodes `palette_escape_val`.
    pub fn read_palette_value(&mut self, bit_depth: usize, cu_transquant_bypass_flag: bool) -> (r: Result<u64, SyntaxError>)
        requires
            old(self).input().wf(),
        ensures
            bypass_step(
                old(self),
                final(self),
                r,
                palette_value_outcome(
                    old(self).range(),
                    old(self).ivl_offset(),
                    old(self).input().bytes(),
                    old(self).input().pos(),
                    old(self).input().limit(),
                    bit_depth,
                    cu_transquant_bypass_flag,
                ),
            ),
    {
        if cu_transquant_bypass_flag {
            if bit_depth >= 64 {
                return Err(SyntaxError::InvalidSyntaxValue("palette bit depth is too large"));
            }
            proof {
                vstd::bits::lemma_u64_pow2_no_overflow(bit_depth as nat);
                vstd::bits::lemma_u64_shl_is_mul(1, bit_depth as u64);
                vstd::arithmetic::power2::lemma_pow2_pos(bit_depth as nat);
            }
            let c_max = (1u64 << bit_depth as u64) - 1;
            self.read_fixed_bypass(c_max)
        } else {
            self.read_exp_golomb(3)
        }
    }

    /// Decodes `palette_num_indices` for a given maximum palette index.
    pub fn read_palette_num_indices(&mut self, max_palette_index: u64) -> (r: Result<u64, SyntaxError>)
        requires
            old(self).input().wf(),
        ensures
            bypass_step(
                old(self),
                final(self),
                r,
                palette_num_indices_outcome(
                    old(self).range(),
                    old(self).ivl_offset(),
                    old(self).input().bytes(),
                    old(self).input().pos(),
                    old(self).input().limit(),
                    max_palette_index,
                ),
            ),
    {
        let count = match max_palette_index.checked_add(1) {
            Some(v) => v,
            None => return Err(SyntaxError::InvalidSyntaxValue("palette index maximum overflows")),
        };
        assert(count >> 3u64 == count / 8) by (bit_vector);
        let rice_value = 3 + (count >> 3u64);
        if rice_value > 255 {
            return Err(SyntaxError::InvalidSyntaxValue("palette index Rice parameter is too large"));
        }
        let rice_parameter = rice_value as u8;
        if rice_parameter >= 64 {
            return Err(SyntaxError::InvalidSyntaxValue("palette index Rice range is too large"));
        }
        let c_max = 4u64 << rice_parameter;
        let prefix = self.read_truncated_rice(c_max, rice_parameter)?;
        if prefix != c_max {
            return Ok(prefix);
        }
        let suffix = self.read_exp_golomb(rice_parameter + 1)?;
        match suffix.checked_add(c_max) {
            Some(v) => Ok(v),
            None => Err(SyntaxError::ExpGolombOverflow),
        }
    }

    /// Decodes `palette_run_suffix` given `PaletteMaxRunMinus1` and the prefix.
    pub fn read_palette_run_suffix(&mut self, palette_max_run_minus1: u64, palette_run_prefix: u64) -> (r: Result<
        u64,
        SyntaxError,
    >)
        requires
            old(self).input().wf(),
            palette_run_prefix >= 1,
            palette_run_prefix != 64,
            palette_run_prefix <= 63 && pow2((palette_run_prefix - 1) as nat) * 2 > palette_max_run_minus1 ==> pow2(
                (palette_run_prefix - 1) as nat,
            ) <= palette_max_run_minus1,
        ensures
            palette_run_prefix > 64 ==> r == Err::<u64, SyntaxError>(
                SyntaxError::InvalidSyntaxValue("palette run prefix is too large"),
            ) && *final(self) == *old(self),
            palette_run_prefix <= 63 ==> bypass_step(
                old(self),
                final(self),
                r,
                truncated_binary_outcome(
                    old(self).range(),
                    old(self).ivl_offset(),
                    old(self).input().bytes(),
                    old(self).input().pos(),
                    old(self).input().limit(),
                    palette_suffix_max(palette_max_run_minus1, palette_run_prefix) as u64,
                ),
            ),
    {
        let shift = palette_run_prefix - 1;
        if shift >= 64 {
            return Err(SyntaxError::InvalidSyntaxValue("palette run prefix is too large"));
        }
        proof {
            vstd::bits::lemma_u64_pow2_no_overflow(shift as nat);
            vstd::bits::lemma_u64_shl_is_mul(1, shift);
            vstd::arithmetic::power2::lemma_pow2_pos(shift as nat);
            vstd::arithmetic::power2::lemma2_to64_rest();
            vstd::arithmetic::power2::lemma_pow2_strictly_increases(shift as nat, 63);
        }
        let prefix_offset = 1u64 << shift;
        let c_max = if prefix_offset * 2 > palette_max_run_minus1 {
            palette_max_run_minus1 - prefix_offset
        } else {
            prefix_offset - 1
        };
        self.read_truncated_binary_bypass(c_max)
    }

    /// Decodes `inter_pred_idc` for an `n_pb_w`x`n_pb_h` prediction block at
    /// coding-tree depth `ct_depth`.
    pub fn read_inter_pred_idc(&mut self, n_pb_w: u64, n_pb_h: u64, ct_depth: usize) -> (r: Result<u64, SyntaxError>)
        requires
            old(self).wf(),
            old(self).range() >= 256,
            n_pb_w + n_pb_h <= u64::MAX,
            ct_depth <= usize::MAX / 2,
        ensures
            inter_pred_idc_read(*old(self), *final(self), n_pb_w, n_pb_h, ct_depth, r),
    {
        let ghost start = *self;
        let first_ctx = if n_pb_w + n_pb_h != 12 { ct_depth } else { 4 };
        let first = self.decode_syntax_context(CabacContextTable::InterPredIdc, first_ctx);
        let ghost mid = *self;
        assert(first_ctx == inter_pred_first_inc(n_pb_w, n_pb_h, ct_depth));
        assert(context_bin(start, mid, CabacContextTable::InterPredIdc, inter_pred_first_inc(n_pb_w, n_pb_h, ct_depth), first));
        let bin = match first {
            Ok(b) => b,
            Err(e) => return Err(e),
        };
        if n_pb_w + n_pb_h == 12 {
            return Ok(if bin == 0 { 0 } else { 2 });
        }
        if bin != 0 {
            return Ok(2);
        }
        let second = self.decode_syntax_context(CabacContextTable::InterPredIdc, 4);
        assert(context_bin(mid, *self, CabacContextTable::InterPredIdc, 4, second));
        match second {
            Ok(b) => Ok(if b == 0 { 0 } else { 1 }),
            Err(e) => Err(e),
        }
    }

    /// Decodes `part_mode` for an intra or inter coding unit, with asymmetric
    /// partitions when `amp_enabled` and the unit is above the minimum size.
    pub fn read_part_mode_with_amp(&mut self, is_intra: bool, at_minimum_size: bool, amp_enabled: bool) -> (r: Result<
        u64,
        SyntaxError,
    >)
        requires
            old(self).wf(),
            old(self).range() >= 256,
        ensures
            part_mode_read(*old(self), *final(self), is_intra, at_minimum_size, amp_enabled, r),
    {
        let ghost d0 = *self;
        let first = self.decode_syntax_context(CabacContextTable::PartMode, 0);
        let ghost d1 = *self;
        assert(context_bin(d0, d1, CabacContextTable::PartMode, 0, first));
        let first = match first {
            Ok(b) => b,
            Err(e) => return Err(e),
        };
        if is_intra {
            return Ok(if first != 0 { 0 } else { 1 });
        }
        if first != 0 {
            return Ok(0);
        }
        let second = self.decode_syntax_context(CabacContextTable::PartMode, 1);
        let ghost d2 = *self;
        assert(context_bin(d1, d2, CabacContextTable::PartMode, 1, second));
        let second = match second {
            Ok(b) => b,
            Err(e) => {
                assert(part_mode_after_first(d1, *self, at_minimum_size, amp_enabled, Err(e)));
                return Err(e);
            },
        };
        if second != 0 {
            if at_minimum_size || !amp_enabled {
                assert(part_mode_after_first(d1, *self, at_minimum_size, amp_enabled, Ok(1)));
                return Ok(1);
            }
            let r = self.read_amp_tail(1, 4, 5);
            assert(part_mode_after_first(d1, *self, at_minimum_size, amp_enabled, r));
            return r;
        }
        if at_minimum_size {
            assert(part_mode_after_first(d1, *self, at_minimum_size, amp_enabled, Ok(2)));
            return Ok(2);
        }
        let third = self.decode_syntax_context(CabacContextTable::PartMode, 2);
        let ghost d3 = *self;
        assert(context_bin(d2, d3, CabacContextTable::PartMode, 2, third));
        let r = match third {
            Err(e) => Err(e),
            Ok(t) => if t != 0 {
                Ok(2)
            } else if !amp_enabled {
                Ok(3)
            } else {
                self.read_amp_tail(3, 6, 7)
            },
        };
        assert(part_mode_after_first(d1, *self, at_minimum_size, amp_enabled, r));
        r
    }

    /// Reads the bypass tail of an asymmetric `part_mode`.
    fn read_amp_tail(&mut self, symmetric: u64, first_amp: u64, second_amp: u64) -> (r: Result<u64, SyntaxError>)
        requires
            old(self).input().wf(),
        ensures
            part_mode_amp_tail(*old(self), *final(self), symmetric, first_amp, second_amp, r),
    {
        let ghost d0 = *self;
        let bin = self.decode_bypass();
        let ghost d1 = *self;
        assert(bypass_bin(d0, d1, bin));
        match bin {
            Err(e) => Err(e),
            Ok(x) => if x != 0 {
                Ok(symmetric)
            } else {
                let last = self.decode_bypass();
                assert(bypass_bin(d1, *self, last));
                match last {
                    Ok(y) => Ok(if y == 0 { first_amp } else { second_amp }),
                    Err(e) => Err(e),
                }
            },
        }
    }

    /// Decodes `cu_qp_delta_abs`.
    pub fn read_cu_qp_delta_abs(&mut self) -> (r: Result<u64, SyntaxError>)
        requires
            old(self).wf(),
            old(self).range() >= 256,
        ensures
            cu_qp_delta_abs_read(*old(self), *final(self), r),
    {
        let ghost start = *self;
        let prefix = self.read_qp_delta_prefix();
        let ghost mid = *self;
        let prefix = match prefix {
            Ok(p) => p,
            Err(e) => {
                assert(qp_delta_prefix_read(start, mid, 0, Err::<u64, SyntaxError>(e)));
                return Err(e);
            },
        };
        assert(qp_delta_prefix_read(start, mid, 0, Ok::<u64, SyntaxError>(prefix)));
        if prefix < 5 {
            return Ok(prefix);
        }
        let suffix = self.read_exp_golomb(0);
        match suffix {
            Ok(v) => match v.checked_add(5) {
                Some(total) => Ok(total),
                None => Err(SyntaxError::ExpGolombOverflow),
            },
            Err(e) => Err(e),
        }
    }

    /// Reads the context-coded unary prefix of `cu_qp_delta_abs`.
    #[verifier::spinoff_prover]
    fn read_qp_delta_prefix(&mut self) -> (r: Result<u64, SyntaxError>)
        requires
            old(self).wf(),
            old(self).range() >= 256,
        ensures
            qp_delta_prefix_read(*old(self), *final(self), 0, r),
            r matches Ok(p) ==> p <= 5,
            final(self).input().wf(),
    {
        let ghost start = *self;
        let mut prefix: u64 = 0;
        while prefix < 5
            invariant
                start == *old(self),
                prefix <= 5,
                self.wf(),
                self.range() >= 256,
                forall|fin: CabacDecoder, res: Result<u64, SyntaxError>| #[trigger] qp_delta_prefix_read(*self, fin, prefix as int, res)
                    ==> qp_delta_prefix_read(start, fin, 0, res),
            decreases 5 - prefix,
        {
            let ghost before = *self;
            let bin = if prefix == 0 {
                self.decode_syntax_context(CabacContextTable::CuQpDeltaAbs, 0)
            } else {
                self.decode_syntax_context(CabacContextTable::CuQpDeltaAbs, 1)
            };
            let ghost after = *self;
            assert(context_bin(before, after, CabacContextTable::CuQpDeltaAbs, qp_delta_inc(prefix as int), bin));
            match bin {
                Err(e) => {
                    assert(qp_delta_prefix_read(before, after, prefix as int, Err::<u64, SyntaxError>(e)));
                    return Err(e);
                },
                Ok(b) => {
                    if b == 0 {
                        assert(qp_delta_prefix_read(before, after, prefix as int, Ok::<u64, SyntaxError>(prefix)));
                        return Ok(prefix);
                    }
                },
            }
            assert forall|fin: CabacDecoder, res: Result<u64, SyntaxError>| #[trigger] qp_delta_prefix_read(after, fin, prefix + 1, res)
                implies qp_delta_prefix_read(start, fin, 0, res) by {
                assert(qp_delta_prefix_read(before, fin, prefix as int, res));
            }
            prefix += 1;
        }
        assert(qp_delta_prefix_read(*self, *self, 5, Ok::<u64, SyntaxError>(5)));
        Ok(prefix)
    }

    /// Reads a unary prefix of at most `max_prefix` bins whose first
    /// `context_bins` bins are context coded with increments from `ctx_idx`
    /// (the same increment for all when `repeated`), the rest bypass coded.
    #[verifier::spinoff_prover]
    fn read_context_prefix(
        &mut self,
        table: CabacContextTable,
        ctx_idx: usize,
        repeated: bool,
        context_bins: usize,
        max_prefix: u64,
    ) -> (r: Result<u64, SyntaxError>)
        requires
            old(self).wf(),
            old(self).range() >= 256,
            ctx_idx + context_bins <= usize::MAX / 2,
        ensures
            unary_bins_read(*old(self), *final(self), table, rice_context_source(ctx_idx, repeated, context_bins), max_prefix as int, 0, r),
            r matches Ok(p) ==> p <= max_prefix,
            final(self).wf(),
    {
        let ghost start = *self;
        let ghost source = rice_context_source(ctx_idx, repeated, context_bins);
        let mut prefix: u64 = 0;
        while prefix < max_prefix
            invariant
                start == *old(self),
                source == rice_context_source(ctx_idx, repeated, context_bins),
                ctx_idx + context_bins <= usize::MAX / 2,
                prefix <= max_prefix,
                self.wf(),
                self.range() >= 256,
                forall|fin: CabacDecoder, res: Result<u64, SyntaxError>| #[trigger] unary_bins_read(*self, fin, table, source, max_prefix as int, prefix as int, res)
                    ==> unary_bins_read(start, fin, table, source, max_prefix as int, 0, res),
            decreases max_prefix - prefix,
        {
            let ghost before = *self;
            let bin = if prefix as u128 >= context_bins as u128 {
                self.decode_bypass()
            } else if repeated {
                self.decode_syntax_context(table, ctx_idx)
            } else {
                self.decode_syntax_context(table, ctx_idx + prefix as usize)
            };
            let ghost after = *self;
            assert(bin_step(before, after, table, source(prefix as int), bin));
            match bin {
                Err(e) => {
                    assert(unary_bins_read(before, after, table, source, max_prefix as int, prefix as int, Err::<u64, SyntaxError>(e)));
                    return Err(e);
                },
                Ok(b) => {
                    if b == 0 {
                        assert(unary_bins_read(before, after, table, source, max_prefix as int, prefix as int, Ok::<u64, SyntaxError>(prefix)));
                        return Ok(prefix);
                    }
                },
            }
            assert forall|fin: CabacDecoder, res: Result<u64, SyntaxError>| #[trigger] unary_bins_read(after, fin, table, source, max_prefix as int, prefix + 1, res)
                implies unary_bins_read(start, fin, table, source, max_prefix as int, 0, res) by {
                assert(unary_bins_read(before, fin, table, source, max_prefix as int, prefix as int, res));
            }
            prefix += 1;
        }
        assert(unary_bins_read(*self, *self, table, source, max_prefix as int, prefix as int, Ok::<u64, SyntaxError>(prefix)));
        Ok(prefix)
    }

    /// Completes a truncated-Rice value after its prefix: `cMax` for a full
    /// prefix, else the prefix shifted over `rice` bypass suffix bits.
    fn finish_truncated_rice(&mut self, prefix: u64, max_prefix: u64, c_max: u64, rice_parameter: u8, too_large: &'static str) -> (r: Result<u64, SyntaxError>)
        requires
            old(self).input().wf(),
            rice_parameter < 64,
            max_prefix == c_max >> rice_parameter,
        ensures
            prefix == max_prefix ==> r == Ok::<u64, SyntaxError>(c_max) && *final(self) == *old(self),
            prefix != max_prefix ==> exists|suffix: Result<u64, SyntaxError>|
                bypass_step(
                    old(self),
                    final(self),
                    suffix,
                    bypass_run(
                        old(self).range(),
                        old(self).ivl_offset(),
                        old(self).input().bytes(),
                        old(self).input().pos(),
                        old(self).input().limit(),
                        rice_parameter as nat,
                        0,
                    ),
                ) && r == match suffix {
                    Ok(x) => if ((prefix << rice_parameter) | x) <= c_max {
                        Ok::<u64, SyntaxError>((prefix << rice_parameter) | x)
                    } else {
                        Err(SyntaxError::InvalidSyntaxValue(too_large))
                    },
                    Err(e) => Err(e),
                },
    {
        if prefix == max_prefix {
            return Ok(c_max);
        }
        let ghost start = *self;
        let suffix = self.read_bypass_bits(rice_parameter as usize);
        assert(bypass_step(
            &start,
            self,
            suffix,
            bypass_run(start.range(), start.ivl_offset(), start.input().bytes(), start.input().pos(), start.input().limit(), rice_parameter as nat, 0),
        ));
        match suffix {
            Ok(x) => {
                let value = (prefix << rice_parameter) | x;
                if value <= c_max {
                    Ok(value)
                } else {
                    Err(SyntaxError::InvalidSyntaxValue(too_large))
                }
            },
            Err(e) => Err(e),
        }
    }

    /// Decodes a truncated-Rice value whose first `context_bins` prefix bins
    /// use the consecutive context increments `ctx_idx`, `ctx_idx + 1`, ...
    pub fn read_truncated_rice_context(
        &mut self,
        table: CabacContextTable,
        ctx_idx: usize,
        context_bins: usize,
        c_max: u64,
        rice_parameter: u8,
    ) -> (r: Result<u64, SyntaxError>)
        requires
            old(self).wf(),
            old(self).range() >= 256,
            ctx_idx + context_bins <= usize::MAX / 2,
        ensures
            truncated_rice_bins_read(
                *old(self),
                *final(self),
                table,
                rice_context_source(ctx_idx, false, context_bins),
                c_max,
                rice_parameter,
                "context truncated-Rice value exceeds cMax",
                r,
            ),
    {
        if rice_parameter >= 64 {
            return Err(SyntaxError::InvalidSyntaxValue("truncated-Rice parameter is too large"));
        }
        let max_prefix = c_max >> rice_parameter;
        let ghost start = *self;
        let prefix = self.read_context_prefix(table, ctx_idx, false, context_bins, max_prefix);
        let ghost mid = *self;
        match prefix {
            Err(e) => {
                assert(unary_bins_read(start, mid, table, rice_context_source(ctx_idx, false, context_bins), max_prefix as int, 0, Err::<u64, SyntaxError>(e)));
                Err(e)
            },
            Ok(p) => {
                assert(unary_bins_read(start, mid, table, rice_context_source(ctx_idx, false, context_bins), max_prefix as int, 0, Ok::<u64, SyntaxError>(p)));
                self.finish_truncated_rice(p, max_prefix, c_max, rice_parameter, "context truncated-Rice value exceeds cMax")
            },
        }
    }

    /// Decodes a truncated-Rice value whose first `context_bins` prefix bins
    /// all use the context increment `ctx_inc`.
    pub fn read_truncated_rice_repeated_context(
        &mut self,
        table: CabacContextTable,
        ctx_inc: usize,
        context_bins: usize,
        c_max: u64,
        rice_parameter: u8,
    ) -> (r: Result<u64, SyntaxError>)
        requires
            old(self).wf(),
            old(self).range() >= 256,
            ctx_inc + context_bins <= usize::MAX / 2,
        ensures
            truncated_rice_bins_read(
                *old(self),
                *final(self),
                table,
                rice_context_source(ctx_inc, true, context_bins),
                c_max,
                rice_parameter,
                "repeated-context truncated-Rice value exceeds cMax",
                r,
            ),
    {
        if rice_parameter >= 64 {
            return Err(SyntaxError::InvalidSyntaxValue("truncated-Rice parameter is too large"));
        }
        let max_prefix = c_max >> rice_parameter;
        let ghost start = *self;
        let prefix = self.read_context_prefix(table, ctx_inc, true, context_bins, max_prefix);
        let ghost mid = *self;
        match prefix {
            Err(e) => {
                assert(unary_bins_read(start, mid, table, rice_context_source(ctx_inc, true, context_bins), max_prefix as int, 0, Err::<u64, SyntaxError>(e)));
                Err(e)
            },
            Ok(p) => {
                assert(unary_bins_read(start, mid, table, rice_context_source(ctx_inc, true, context_bins), max_prefix as int, 0, Ok::<u64, SyntaxError>(p)));
                self.finish_truncated_rice(p, max_prefix, c_max, rice_parameter, "repeated-context truncated-Rice value exceeds cMax")
            },
        }
    }

    /// Decodes `palette_run_prefix`: a unary prefix of at most
    /// `64 - leading_zeros(PaletteMaxRunMinus1)` bins.
    #[verifier::spinoff_prover]
    pub fn read_palette_run_prefix(&mut self, palette_max_run_minus1: u64, palette_index: u64, copy_above: bool) -> (r: Result<
        u64,
        SyntaxError,
    >)
        requires
            old(self).wf(),
            old(self).range() >= 256,
        ensures
            palette_max_run_minus1 == 0 ==> r == Ok::<u64, SyntaxError>(0) && *final(self) == *old(self),
            palette_max_run_minus1 != 0 ==> unary_bins_read(
                *old(self),
                *final(self),
                CabacContextTable::PaletteRunPrefix,
                palette_prefix_source(palette_index, copy_above),
                64 - vstd::std_specs::bits::u64_leading_zeros(palette_max_run_minus1),
                0,
                r,
            ),
    {
        if palette_max_run_minus1 == 0 {
            return Ok(0);
        }
        proof {
            vstd::std_specs::bits::axiom_u64_leading_zeros(palette_max_run_minus1);
        }
        let c_max: u64 = (64 - palette_max_run_minus1.leading_zeros()) as u64;
        assert(c_max as int == 64 - vstd::std_specs::bits::u64_leading_zeros(palette_max_run_minus1));
        let ghost start = *self;
        let ghost source = palette_prefix_source(palette_index, copy_above);
        let mut prefix: u64 = 0;
        while prefix < c_max
            invariant
                start == *old(self),
                source == palette_prefix_source(palette_index, copy_above),
                palette_max_run_minus1 != 0,
                c_max as int == 64 - vstd::std_specs::bits::u64_leading_zeros(palette_max_run_minus1),
                prefix <= c_max,
                self.wf(),
                self.range() >= 256,
                forall|fin: CabacDecoder, res: Result<u64, SyntaxError>| #[trigger] unary_bins_read(
                    *self,
                    fin,
                    CabacContextTable::PaletteRunPrefix,
                    source,
                    c_max as int,
                    prefix as int,
                    res,
                ) ==> unary_bins_read(start, fin, CabacContextTable::PaletteRunPrefix, source, c_max as int, 0, res),
            decreases c_max - prefix,
        {
            let ghost before = *self;
            let bin_idx = prefix;
            let context: Option<usize> = if bin_idx == 0 && !copy_above {
                Some(if palette_index < 1 { 0 } else if palette_index < 3 { 1 } else { 2 })
            } else if copy_above {
                if bin_idx == 0 {
                    Some(5)
                } else if bin_idx == 1 || bin_idx == 2 {
                    Some(6)
                } else if bin_idx == 3 || bin_idx == 4 {
                    Some(7)
                } else {
                    None
                }
            } else if bin_idx == 1 || bin_idx == 2 {
                Some(3)
            } else if bin_idx == 3 || bin_idx == 4 {
                Some(4)
            } else {
                None
            };
            assert(context == source(prefix as int));
            let bin = match context {
                Some(ctx_inc) => self.decode_syntax_context(CabacContextTable::PaletteRunPrefix, ctx_inc),
                None => self.decode_bypass(),
            };
            let ghost after = *self;
            assert(bin_step(before, after, CabacContextTable::PaletteRunPrefix, source(prefix as int), bin));
            match bin {
                Err(e) => {
                    assert(unary_bins_read(before, after, CabacContextTable::PaletteRunPrefix, source, c_max as int, prefix as int, Err::<u64, SyntaxError>(e)));
                    assert(unary_bins_read(start, after, CabacContextTable::PaletteRunPrefix, source, c_max as int, 0, Err::<u64, SyntaxError>(e)));
                    return Err(e);
                },
                Ok(b) => {
                    if b == 0 {
                        assert(unary_bins_read(before, after, CabacContextTable::PaletteRunPrefix, source, c_max as int, prefix as int, Ok::<u64, SyntaxError>(prefix)));
                        assert(unary_bins_read(start, after, CabacContextTable::PaletteRunPrefix, source, c_max as int, 0, Ok::<u64, SyntaxError>(prefix)));
                        return Ok(prefix);
                    }
                },
            }
            assert forall|fin: CabacDecoder, res: Result<u64, SyntaxError>| #[trigger] unary_bins_read(
                after,
                fin,
                CabacContextTable::PaletteRunPrefix,
                source,
                c_max as int,
                prefix + 1,
                res,
            ) implies unary_bins_read(start, fin, CabacContextTable::PaletteRunPrefix, source, c_max as int, 0, res) by {
                assert(unary_bins_read(before, fin, CabacContextTable::PaletteRunPrefix, source, c_max as int, prefix as int, res));
            }
            prefix += 1;
        }
        assert(unary_bins_read(*self, *self, CabacContextTable::PaletteRunPrefix, source, c_max as int, prefix as int, Ok::<u64, SyntaxError>(prefix)));
        assert(unary_bins_read(start, *self, CabacContextTable::PaletteRunPrefix, source, c_max as int, 0, Ok::<u64, SyntaxError>(prefix)));
        Ok(prefix)
    }

    /// Reads `pcm_sample()` inside CABAC-coded data and restarts the
    /// arithmetic engine after it.
    pub fn read_pcm_samples(
        &mut self,
        luma_sample_count: usize,
        chroma_sample_count: usize,
        bit_depth_luma: usize,
        bit_depth_chroma: usize,
    ) -> (r: Result<PcmSampleSyntax, SyntaxError>)
        requires
            old(self).input().wf(),
        ensures
            ({
                let (res, pos) = pcm_outcome(
                    old(self).input().bytes(),
                    old(self).input().pos(),
                    old(self).input().limit(),
                    luma_sample_count as nat,
                    chroma_sample_count as nat,
                    bit_depth_luma,
                    bit_depth_chroma,
                );
                &&& final(self).input().pos() == pos
                &&& (res matches Ok((l, c, v)) ==> (r matches Ok(s) && s.luma_samples@ == l && s.chroma_samples@ == c)
                    && final(self).range() == 510 && final(self).ivl_offset() == v && !final(self).done())
                &&& (res matches Err(e) ==> r == Err::<PcmSampleSyntax, SyntaxError>(e)
                    && final(self).range() == old(self).range()
                    && final(self).ivl_offset() == old(self).ivl_offset()
                    && final(self).done() == old(self).done())
            }),
            final(self).input().wf(),
            final(self).input().same_input(&old(self).input()),
            final(self).same_contexts(old(self)),
            old(self).wf() ==> final(self).wf(),
    {
        let (luma_samples, chroma_samples) = self.read_pcm_sample_values(
            luma_sample_count,
            chroma_sample_count,
            bit_depth_luma,
            bit_depth_chroma,
        )?;
        Ok(PcmSampleSyntax { luma_samples, chroma_samples })
    }

    /// Sets the arithmetic range to 256 before aligned bypass decoding.
    pub fn align_bypass(&mut self)
        ensures
            final(self).range() == 256,
            final(self).ivl_offset() == old(self).ivl_offset(),
            final(self).input().same_input(&old(self).input()),
            final(self).input().pos() == old(self).input().pos(),
            final(self).done() == old(self).done(),
            final(self).same_contexts(old(self)),
            old(self).wf() ==> final(self).wf(),
    {
        self.interval_range = 256;
    }
}

/// Appends the standard contexts of the table at position `k`.
fn push_table_contexts(contexts: &mut Vec<CabacContext>, k: usize, init_type: u8, slice_qp: i32)
    requires
        init_type <= 2,
        k < CABAC_TABLE_COUNT,
        old(contexts)@.len() == table_offset_spec(table_at_spec(k as int)),
        all_valid(old(contexts)@),
        forall|i: int| 0 <= i < old(contexts)@.len() ==>
            #[trigger] old(contexts)@[i] == standard_context_spec(i, init_type as int, slice_qp),
    ensures
        final(contexts)@.len() == table_offset_spec(table_at_spec(k as int)) + table_size_spec(table_at_spec(k as int)),
        all_valid(final(contexts)@),
        forall|i: int| 0 <= i < final(contexts)@.len() ==>
            #[trigger] final(contexts)@[i] == standard_context_spec(i, init_type as int, slice_qp),
{
    let table = CabacContextTable::at(k);
    let size = table.size();
    let (start, len) = table.layout(init_type);
    let extra = table.extra(init_type);
    let values = table.values();
    let ghost base = contexts@.len();
    let mut j: usize = 0;
    while j < size
        invariant
            init_type <= 2,
            k < CABAC_TABLE_COUNT,
            table == table_at_spec(k as int),
            size == table_size_spec(table),
            base == table_offset_spec(table),
            start as int == init_layout(table, init_type as int).0,
            len as int == init_layout(table, init_type as int).1,
            extra matches Some((s, l)) ==> extra_range(table, init_type as int) == Some((s as int, l as int)),
            extra is None ==> extra_range(table, init_type as int) is None,
            start + len <= size,
            extra matches Some((s, l)) ==> s + l <= size,
            values@ == init_table_spec(table),
            values@.len() == size,
            j <= size,
            contexts@.len() == base + j,
            all_valid(contexts@),
            forall|i: int| 0 <= i < contexts@.len() ==>
                #[trigger] contexts@[i] == standard_context_spec(i, init_type as int, slice_qp),
        decreases size - j,
    {
        let in_first = start <= j && j < start + len;
        let in_extra = match extra {
            Some((s, l)) => s <= j && j < s + l,
            None => false,
        };
        let ghost index = contexts@.len() as int;
        proof {
            lemma_table_containing(index, k as int, 0);
        }
        if in_first || in_extra {
            contexts.push(CabacContext::from_init_value(values[j], slice_qp));
        } else {
            contexts.push(CabacContext { state_index: 0, value_mps: 0 });
        }
        j += 1;
    }
}

/// The error, if any, with which a decoder cannot start on `data`.
pub open spec fn start_error(data: Seq<u8>) -> Option<SyntaxError> {
    if data.len() * 8 < 9 {
        Some(SyntaxError::UnexpectedEnd { requested: 9, remaining: (data.len() * 8) as usize })
    } else if bits_value(data, 0, 9) >= 510 {
        Some(SyntaxError::InvalidSyntaxValue("CABAC ivlOffset must not be 510 or 511"))
    } else {
        None
    }
}

/// A copy of the context variables.
fn copy_contexts(v: &Vec<CabacContext>) -> (r: Vec<CabacContext>)
    ensures
        r@ == v@,
{
    let mut r: Vec<CabacContext> = Vec::new();
    let mut i: usize = 0;
    while i < v.len()
        invariant
            i <= v@.len(),
            r@ =~= v@.subrange(0, i as int),
        decreases v@.len() - i,
    {
        r.push(v[i]);
        i += 1;
    }
    assert(r@ =~= v@);
    r
}

proof fn lemma_offsets_grow(m: int, k: int)
    requires
        0 <= m <= k < CABAC_TABLE_COUNT,
    ensures
        table_offset_spec(table_at_spec(m)) <= table_offset_spec(table_at_spec(k)),
        m < k ==> table_offset_spec(table_at_spec(m)) + table_size_spec(table_at_spec(m))
            <= table_offset_spec(table_at_spec(k)),
    decreases k - m,
{
    lemma_context_tables_are_contiguous();
    if m < k {
        lemma_offsets_grow(m + 1, k);
        assert(table_offset_spec(table_at_spec(m + 1))
            == table_offset_spec(table_at_spec(m)) + table_size_spec(table_at_spec(m)));
    }
}

proof fn lemma_table_containing(index: int, k: int, from: int)
    requires
        0 <= from <= k < CABAC_TABLE_COUNT,
        table_offset_spec(table_at_spec(k)) <= index
            < table_offset_spec(table_at_spec(k)) + table_size_spec(table_at_spec(k)),
    ensures
        table_containing(index, from) == table_at_spec(k),
    decreases k - from,
{
    if from < k {
        lemma_offsets_grow(from, k);
        lemma_table_containing(index, k, from + 1);
    }
}


/// The context at `index` may drive a decision: it is valid and its LPS
/// sub-range fits in the current range.
pub open spec fn decision_allowed(d: &CabacDecoder, index: int) -> bool {
    &&& context_valid(d.ctxs()[index])
    &&& lps_range(d.ctxs()[index].state_index, d.range()) <= d.range()
}

/// `after` is `before` after one context-coded decision on context `index`,
/// with `r` its result: the decision of §9.3.4.3.2 followed by
/// renormalization.
pub open spec fn decision_step(before: &CabacDecoder, after: &CabacDecoder, index: int, r: Result<u64, SyntaxError>) -> bool {
    let (bin, range1, offset1, ctx1) = decision_outcome(before.range(), before.ivl_offset(), before.ctxs()[index]);
    let (res, range2, offset2, pos2) = renorm_outcome(
        range1,
        offset1,
        before.input().bytes(),
        before.input().pos(),
        before.input().limit(),
    );
    &&& after.ctxs() == before.ctxs().update(index, ctx1)
    &&& after.range() == range2
    &&& after.ivl_offset() == offset2
    &&& after.input().pos() == pos2
    &&& after.input().same_input(&before.input())
    &&& r == match res {
        Ok(_) => Ok::<u64, SyntaxError>(bin as u64),
        Err(e) => Err(e),
    }
}

/// A context-coded decision returns the context's `valMps` or its opposite,
/// and updates the context as §9.3.4.3.2 does: after the MPS the state
/// moves up and `valMps` stays; after the LPS the state moves down and
/// `valMps` flips exactly when the state was 0.
pub proof fn lemma_decision_updates_mps(before: CabacDecoder, after: CabacDecoder, index: int, r: Result<u64, SyntaxError>)
    requires
        0 <= index < before.ctxs().len(),
        decision_allowed(&before, index),
        decision_step(&before, &after, index, r),
        r is Ok,
    ensures
        ({
            let c = before.ctxs()[index];
            let n = after.ctxs()[index];
            let bin = r->Ok_0;
            &&& bin <= 1
            &&& (bin == c.value_mps ==> n.value_mps == c.value_mps && n.state_index == TRANS_IDX_MPS@[c.state_index as int])
            &&& (bin != c.value_mps ==> n.state_index == TRANS_IDX_LPS@[c.state_index as int])
            &&& (bin != c.value_mps && c.state_index == 0 ==> n.value_mps == 1 - c.value_mps)
            &&& (bin != c.value_mps && c.state_index != 0 ==> n.value_mps == c.value_mps)
            &&& (bin != c.value_mps <==> before.ivl_offset() >= before.range() - lps_range(c.state_index, before.range()))
            &&& after.ctxs().len() == before.ctxs().len()
            &&& forall|j: int| 0 <= j < before.ctxs().len() && j != index ==> after.ctxs()[j] == before.ctxs()[j]
        }),
{
}

/// The probability-state tables of §9.3.4.3.2: after the MPS the state
/// steps up by one, saturating at 62 (63 is kept); after the LPS it never
/// rises; and the LPS sub-range `rangeTabLps` shrinks as the state rises and
/// grows with `qRangeIdx`.
pub proof fn lemma_state_tables()
    ensures
        forall|s: int| 0 <= s < 62 ==> #[trigger] TRANS_IDX_MPS@[s] == s + 1,
        TRANS_IDX_MPS@[62] == 62,
        TRANS_IDX_MPS@[63] == 63,
        forall|s: int| 0 <= s < 64 ==> #[trigger] TRANS_IDX_LPS@[s] <= s,
        forall|s: int, q: int| 0 <= s < 63 && 0 <= q < 4 ==> #[trigger] RANGE_TAB_LPS@[(s + 1) * 4 + q] <= RANGE_TAB_LPS@[s * 4 + q],
        forall|s: int, q: int| 0 <= s < 64 && 0 <= q < 3 ==> #[trigger] RANGE_TAB_LPS@[s * 4 + q] <= RANGE_TAB_LPS@[s * 4 + q + 1],
{
}

/// A decision on the valid flat context `index` of a well-formed decoder:
/// out-of-range indices fail and leave the decoder unchanged.
pub open spec fn decode_at(before: &CabacDecoder, after: &CabacDecoder, index: int, r: Result<u64, SyntaxError>) -> bool {
    &&& (index >= before.ctxs().len() ==> (r matches Err(SyntaxError::InvalidSyntaxValue(_))) && *after == *before)
    &&& (0 <= index < before.ctxs().len() ==> decision_step(before, after, index, r))
    &&& after.initial_ctxs() == before.initial_ctxs()
    &&& after.wpp_ctxs() == before.wpp_ctxs()
    &&& after.init_kind() == before.init_kind()
    &&& after.done() == before.done()
}

/// `after` is `before` with the arithmetic engine restarted by reading nine
/// bits of `ivlOffset` (§9.3.2.5), and `r` the outcome.
pub open spec fn engine_restart(before: &CabacDecoder, after: &CabacDecoder, r: Result<(), SyntaxError>) -> bool {
    let out = before.input().read_bits_outcome(9);
    &&& after.input().wf()
    &&& after.input().same_input(&before.input())
    &&& after.same_contexts(before)
    &&& after.input().pos() == if out is Ok { before.input().pos() + 9 } else { before.input().pos() }
    &&& (out matches Err(e) ==> r == Err::<(), SyntaxError>(e) && after.same_engine(before))
    &&& (out matches Ok(v) ==> (v >= 510 ==> r == Err::<(), SyntaxError>(
        SyntaxError::InvalidSyntaxValue("CABAC ivlOffset must not be 510 or 511"),
    )
        && after.range() == before.range() && after.ivl_offset() == before.ivl_offset()
        && after.done() == before.done()))
    &&& (out matches Ok(v) ==> (v < 510 ==> r is Ok && after.range() == 510 && after.ivl_offset() == v
        && !after.done()))
    &&& before.wf() ==> after.wf()
}

/// The flat context index selected by a Table 9-48 context increment, or
/// `None` when it lies outside the table.
pub open spec fn syntax_index_spec(init_kind: Option<u8>, table: CabacContextTable, ctx_inc: usize) -> Option<int> {
    let local: int = if table == CabacContextTable::CbfChroma && ctx_inc >= 12 {
        ctx_inc as int
    } else if table == CabacContextTable::SigCoeff && ctx_inc >= 42 {
        match init_kind {
            Some(t) => 126 + t * 2 + ctx_inc - 42,
            None => ctx_inc as int,
        }
    } else {
        match init_kind {
            Some(t) => if t <= 2 { init_layout(table, t as int).0 + ctx_inc } else { -1 },
            None => ctx_inc as int,
        }
    };
    if 0 <= local < table_size_spec(table) {
        Some(table_offset_spec(table) + local)
    } else {
        None
    }
}

/// One bypass bin of §9.3.4.3.4: the result, the new offset and the bit position.
pub open spec fn bypass_outcome(range: u16, offset: u32, bytes: Seq<u8>, pos: int, limit: int) -> (Result<u64, SyntaxError>, u32, int) {
    if pos >= limit {
        (Err(SyntaxError::UnexpectedEnd { requested: 1, remaining: 0 }), offset, pos)
    } else {
        let shifted = (offset << 1u32) | (bits_value(bytes, pos, 1) as u32);
        if shifted >= range {
            let reduced = (shifted - range) as u32;
            if reduced >= range {
                (Err(SyntaxError::InvalidSyntaxValue("CABAC offset is outside the arithmetic interval after bypass decoding")), reduced, pos + 1)
            } else {
                (Ok(1), reduced, pos + 1)
            }
        } else {
            (Ok(0), shifted, pos + 1)
        }
    }
}

/// `n` bypass bins decoded MSB first onto `acc`.
pub open spec fn bypass_run(range: u16, offset: u32, bytes: Seq<u8>, pos: int, limit: int, n: nat, acc: u64) -> (Result<u64, SyntaxError>, u32, int)
    decreases n,
{
    if n == 0 {
        (Ok(acc), offset, pos)
    } else {
        let (b, o, p) = bypass_outcome(range, offset, bytes, pos, limit);
        match b {
            Ok(bin) => bypass_run(range, o, bytes, p, limit, (n - 1) as nat, (acc << 1u64) | bin),
            Err(e) => (Err(e), o, p),
        }
    }
}

/// `k` of the truncated-binary binarization (§9.3.3.4): `Floor(Log2(cMax + 1))`.
pub open spec fn tb_k(c_max: u64) -> int {
    63 - vstd::std_specs::bits::u64_leading_zeros((c_max + 1) as u64)
}

/// `u = (1 << (k + 1)) - (cMax + 1)`.
pub open spec fn tb_u(c_max: u64) -> int {
    vstd::arithmetic::power2::pow2((tb_k(c_max) + 1) as nat) - (c_max + 1)
}

/// A truncated-binary value decoded from bypass bins.
pub open spec fn truncated_binary_outcome(range: u16, offset: u32, bytes: Seq<u8>, pos: int, limit: int, c_max: u64) -> (Result<u64, SyntaxError>, u32, int) {
    let (first, o1, p1) = bypass_run(range, offset, bytes, pos, limit, tb_k(c_max) as nat, 0);
    match first {
        Err(e) => (Err(e), o1, p1),
        Ok(v) => if v < tb_u(c_max) {
            (Ok(v), o1, p1)
        } else {
            let (b, o2, p2) = bypass_outcome(range, o1, bytes, p1, limit);
            match b {
                Err(e) => (Err(e), o2, p2),
                Ok(bin) => {
                    let w = ((v << 1u64) | bin) - tb_u(c_max);
                    if 0 <= w <= c_max {
                        (Ok(w as u64), o2, p2)
                    } else {
                        (Err(SyntaxError::InvalidSyntaxValue("truncated-binary value exceeds cMax")), o2, p2)
                    }
                },
            }
        },
    }
}

/// `after` is `before` after decoding bypass bins with outcome `out`: the
/// result, the arithmetic offset and the bit position come from `out`, and
/// nothing else changes.
pub open spec fn bypass_step(
    before: &CabacDecoder,
    after: &CabacDecoder,
    r: Result<u64, SyntaxError>,
    out: (Result<u64, SyntaxError>, u32, int),
) -> bool {
    &&& r == out.0
    &&& after.ivl_offset() == out.1
    &&& after.input().pos() == out.2
    &&& after.input().wf()
    &&& after.input().same_input(&before.input())
    &&& after.same_contexts(before)
    &&& after.range() == before.range()
    &&& after.done() == before.done()
    &&& before.wf() ==> after.wf()
}

/// `after` is `before` after one context-coded bin with the Table 9-48
/// increment `ctx_inc` of `table`, and `r` its result.
pub open spec fn context_bin(before: CabacDecoder, after: CabacDecoder, table: CabacContextTable, ctx_inc: usize, r: Result<u64, SyntaxError>) -> bool {
    &&& (syntax_index_spec(before.init_kind(), table, ctx_inc) matches Some(i) ==> decode_at(&before, &after, i, r))
    &&& (syntax_index_spec(before.init_kind(), table, ctx_inc) is None ==> r is Err && after == before)
    &&& after.wf()
    &&& (r is Ok ==> after.range() >= 256)
}

/// `after` is `before` after one bypass bin, and `r` its result.
pub open spec fn bypass_bin(before: CabacDecoder, after: CabacDecoder, r: Result<u64, SyntaxError>) -> bool {
    bypass_step(
        &before,
        &after,
        r,
        bypass_outcome(before.range(), before.ivl_offset(), before.input().bytes(), before.input().pos(), before.input().limit()),
    )
}

/// The context increment of the first `inter_pred_idc` bin (Table 9-48).
pub open spec fn inter_pred_first_inc(n_pb_w: u64, n_pb_h: u64, ct_depth: usize) -> usize {
    if n_pb_w + n_pb_h != 12 {
        ct_depth
    } else {
        4
    }
}

/// `inter_pred_idc` (Table 9-43) read from `before` to `after` with result `r`:
/// one bin for 8x4 and 4x8 blocks (`PRED_L0` or `PRED_BI`), otherwise up to two.
pub open spec fn inter_pred_idc_read(before: CabacDecoder, after: CabacDecoder, n_pb_w: u64, n_pb_h: u64, ct_depth: usize, r: Result<u64, SyntaxError>) -> bool {
    exists|mid: CabacDecoder, first: Result<u64, SyntaxError>|
        context_bin(before, mid, CabacContextTable::InterPredIdc, inter_pred_first_inc(n_pb_w, n_pb_h, ct_depth), first) && match first {
            Err(e) => r == Err::<u64, SyntaxError>(e) && after == mid,
            Ok(b) => if n_pb_w + n_pb_h == 12 {
                r == Ok::<u64, SyntaxError>(if b == 0 { 0 } else { 2 }) && after == mid
            } else if b != 0 {
                r == Ok::<u64, SyntaxError>(2) && after == mid
            } else {
                exists|second: Result<u64, SyntaxError>|
                    context_bin(mid, after, CabacContextTable::InterPredIdc, 4, second) && r == match second {
                        Ok(b2) => Ok::<u64, SyntaxError>(if b2 == 0 { 0 } else { 1 }),
                        Err(e) => Err(e),
                    }
            },
        }
}

/// The bypass-coded tail of an asymmetric `part_mode` (Table 9-43): a bin
/// selecting the symmetric mode, else a bin choosing between the two
/// asymmetric ones.
pub open spec fn part_mode_amp_tail(before: CabacDecoder, after: CabacDecoder, symmetric: u64, first_amp: u64, second_amp: u64, r: Result<u64, SyntaxError>) -> bool {
    exists|mid: CabacDecoder, bin: Result<u64, SyntaxError>|
        bypass_bin(before, mid, bin) && match bin {
            Err(e) => r == Err::<u64, SyntaxError>(e) && after == mid,
            Ok(x) => if x != 0 {
                r == Ok::<u64, SyntaxError>(symmetric) && after == mid
            } else {
                exists|last: Result<u64, SyntaxError>|
                    bypass_bin(mid, after, last) && r == match last {
                        Ok(y) => Ok::<u64, SyntaxError>(if y == 0 { first_amp } else { second_amp }),
                        Err(e) => Err(e),
                    }
            },
        }
}

/// `part_mode` of an inter coding unit after a first bin of zero.
pub open spec fn part_mode_after_first(before: CabacDecoder, after: CabacDecoder, at_minimum_size: bool, amp_enabled: bool, r: Result<u64, SyntaxError>) -> bool {
    exists|d2: CabacDecoder, second: Result<u64, SyntaxError>|
        context_bin(before, d2, CabacContextTable::PartMode, 1, second) && match second {
            Err(e) => r == Err::<u64, SyntaxError>(e) && after == d2,
            Ok(s) => if s != 0 {
                if at_minimum_size || !amp_enabled {
                    r == Ok::<u64, SyntaxError>(1) && after == d2
                } else {
                    part_mode_amp_tail(d2, after, 1, 4, 5, r)
                }
            } else if at_minimum_size {
                r == Ok::<u64, SyntaxError>(2) && after == d2
            } else {
                exists|d3: CabacDecoder, third: Result<u64, SyntaxError>|
                    context_bin(d2, d3, CabacContextTable::PartMode, 2, third) && match third {
                        Err(e) => r == Err::<u64, SyntaxError>(e) && after == d3,
                        Ok(t) => if t != 0 {
                            r == Ok::<u64, SyntaxError>(2) && after == d3
                        } else if !amp_enabled {
                            r == Ok::<u64, SyntaxError>(3) && after == d3
                        } else {
                            part_mode_amp_tail(d3, after, 3, 6, 7, r)
                        },
                    }
            },
        }
}

/// `part_mode` (Table 9-43) read from `before` to `after` with result `r`.
pub open spec fn part_mode_read(before: CabacDecoder, after: CabacDecoder, is_intra: bool, at_minimum_size: bool, amp_enabled: bool, r: Result<u64, SyntaxError>) -> bool {
    exists|d1: CabacDecoder, first: Result<u64, SyntaxError>|
        context_bin(before, d1, CabacContextTable::PartMode, 0, first) && match first {
            Err(e) => r == Err::<u64, SyntaxError>(e) && after == d1,
            Ok(f) => if is_intra {
                r == Ok::<u64, SyntaxError>(if f != 0 { 0 } else { 1 }) && after == d1
            } else if f != 0 {
                r == Ok::<u64, SyntaxError>(0) && after == d1
            } else {
                part_mode_after_first(d1, after, at_minimum_size, amp_enabled, r)
            },
        }
}

/// The context increment of `cu_qp_delta_abs` bin `count`.
pub open spec fn qp_delta_inc(count: int) -> usize {
    if count == 0 {
        0
    } else {
        1
    }
}

/// The unary prefix of `cu_qp_delta_abs` read from `before` to `after` with
/// result `r`, `count` bins of one having been read already: context-coded
/// bins (increment 0 for the first, 1 after it) while they are one, at most five.
pub open spec fn qp_delta_prefix_read(before: CabacDecoder, after: CabacDecoder, count: int, r: Result<u64, SyntaxError>) -> bool
    decreases 5 - count,
{
    if count >= 5 {
        r == Ok::<u64, SyntaxError>(5) && after == before
    } else {
        exists|mid: CabacDecoder, bin: Result<u64, SyntaxError>|
            context_bin(before, mid, CabacContextTable::CuQpDeltaAbs, qp_delta_inc(count), bin) && match bin {
                Err(e) => r == Err::<u64, SyntaxError>(e) && after == mid,
                Ok(b) => if b == 0 {
                    r == Ok::<u64, SyntaxError>(count as u64) && after == mid
                } else {
                    qp_delta_prefix_read(mid, after, count + 1, r)
                },
            }
    }
}

/// `cu_qp_delta_abs` (§9.3.3.10) read from `before` to `after` with result
/// `r`: the unary prefix, and for a prefix of five a zeroth-order
/// Exp-Golomb suffix added to it.
pub open spec fn cu_qp_delta_abs_read(before: CabacDecoder, after: CabacDecoder, r: Result<u64, SyntaxError>) -> bool {
    exists|mid: CabacDecoder, prefix: Result<u64, SyntaxError>|
        qp_delta_prefix_read(before, mid, 0, prefix) && match prefix {
            Err(e) => r == Err::<u64, SyntaxError>(e) && after == mid,
            Ok(p) => if p < 5 {
                r == Ok::<u64, SyntaxError>(p) && after == mid
            } else {
                exists|suffix: Result<u64, SyntaxError>|
                    bypass_step(
                        &mid,
                        &after,
                        suffix,
                        exp_golomb_outcome(
                            mid.range(),
                            mid.ivl_offset(),
                            mid.input().bytes(),
                            mid.input().pos(),
                            mid.input().limit(),
                            0,
                            0,
                        ),
                    ) && r == match suffix {
                        Ok(v) => if v + 5 > u64::MAX {
                            Err::<u64, SyntaxError>(SyntaxError::ExpGolombOverflow)
                        } else {
                            Ok((v + 5) as u64)
                        },
                        Err(e) => Err(e),
                    }
            },
        }
}

/// One bin from `before` to `after` with result `r`: context-coded with
/// increment `inc` of `table`, or bypass-coded for `None`.
pub open spec fn bin_step(before: CabacDecoder, after: CabacDecoder, table: CabacContextTable, source: Option<usize>, r: Result<u64, SyntaxError>) -> bool {
    match source {
        Some(inc) => context_bin(before, after, table, inc, r),
        None => bypass_bin(before, after, r),
    }
}

/// A unary prefix read from `before` to `after` with result `r`, `count`
/// bins of one having been read already: bins from `source` (by bin index)
/// while they are one, at most `max` of them.
pub open spec fn unary_bins_read(
    before: CabacDecoder,
    after: CabacDecoder,
    table: CabacContextTable,
    source: spec_fn(int) -> Option<usize>,
    max: int,
    count: int,
    r: Result<u64, SyntaxError>,
) -> bool
    decreases max - count,
{
    if count >= max {
        r == Ok::<u64, SyntaxError>(count as u64) && after == before
    } else {
        exists|mid: CabacDecoder, bin: Result<u64, SyntaxError>|
            #[trigger] bin_step(before, mid, table, source(count), bin) && match bin {
                Err(e) => r == Err::<u64, SyntaxError>(e) && after == mid,
                Ok(b) => if b == 0 {
                    r == Ok::<u64, SyntaxError>(count as u64) && after == mid
                } else {
                    unary_bins_read(mid, after, table, source, max, count + 1, r)
                },
            }
    }
}

/// A truncated-Rice value whose prefix bins come from `source`: after the
/// prefix, `cMax` for a full prefix, else `rice` bypass suffix bits.
pub open spec fn truncated_rice_bins_read(
    before: CabacDecoder,
    after: CabacDecoder,
    table: CabacContextTable,
    source: spec_fn(int) -> Option<usize>,
    c_max: u64,
    rice: u8,
    too_large: &'static str,
    r: Result<u64, SyntaxError>,
) -> bool {
    if rice >= 64 {
        r == Err::<u64, SyntaxError>(SyntaxError::InvalidSyntaxValue("truncated-Rice parameter is too large")) && after == before
    } else {
        let max_prefix = c_max >> rice;
        exists|mid: CabacDecoder, prefix: Result<u64, SyntaxError>|
            unary_bins_read(before, mid, table, source, max_prefix as int, 0, prefix) && match prefix {
                Err(e) => r == Err::<u64, SyntaxError>(e) && after == mid,
                Ok(p) => if p == max_prefix {
                    r == Ok::<u64, SyntaxError>(c_max) && after == mid
                } else {
                    exists|suffix: Result<u64, SyntaxError>|
                        bypass_step(
                            &mid,
                            &after,
                            suffix,
                            bypass_run(mid.range(), mid.ivl_offset(), mid.input().bytes(), mid.input().pos(), mid.input().limit(), rice as nat, 0),
                        ) && r == match suffix {
                            Ok(x) => if ((p << rice) | x) <= c_max {
                                Ok::<u64, SyntaxError>((p << rice) | x)
                            } else {
                                Err(SyntaxError::InvalidSyntaxValue(too_large))
                            },
                            Err(e) => Err(e),
                        }
                },
            }
    }
}

/// The bin sources of a truncated-Rice prefix whose first `context_bins`
/// bins use increments `ctx_idx`, `ctx_idx + 1`, ... (or `ctx_idx` for all of
/// them when `repeated`), the rest bypass bins.
pub open spec fn rice_context_source(ctx_idx: usize, repeated: bool, context_bins: usize) -> spec_fn(int) -> Option<usize> {
    |k: int| if k >= context_bins {
        None::<usize>
    } else if repeated {
        Some(ctx_idx)
    } else {
        Some((ctx_idx + k) as usize)
    }
}

/// The bin sources of `palette_run_prefix` (Table 9-48): context increments
/// chosen by bin index, the palette index and `copy_above`, bypass bins from
/// the sixth bin on.
pub open spec fn palette_prefix_source(palette_index: u64, copy_above: bool) -> spec_fn(int) -> Option<usize> {
    |k: int| if k == 0 && !copy_above {
        Some(if palette_index < 1 { 0usize } else if palette_index < 3 { 1usize } else { 2usize })
    } else if copy_above {
        if k == 0 {
            Some(5usize)
        } else if k == 1 || k == 2 {
            Some(6usize)
        } else if k == 3 || k == 4 {
            Some(7usize)
        } else {
            None::<usize>
        }
    } else if k == 1 || k == 2 {
        Some(3usize)
    } else if k == 3 || k == 4 {
        Some(4usize)
    } else {
        None::<usize>
    }
}

/// The unary prefix of a truncated-Rice or limited Exp-Golomb value: bypass
/// bins read while they are one, up to `max_prefix` of them.
pub open spec fn unary_prefix_outcome(
    range: u16,
    offset: u32,
    bytes: Seq<u8>,
    pos: int,
    limit: int,
    max_prefix: u64,
    prefix: u64,
) -> (Result<u64, SyntaxError>, u32, int)
    decreases max_prefix - prefix,
{
    if prefix >= max_prefix {
        (Ok(prefix), offset, pos)
    } else {
        let (b, o, p) = bypass_outcome(range, offset, bytes, pos, limit);
        match b {
            Err(e) => (Err(e), o, p),
            Ok(bin) => if bin == 0 {
                (Ok(prefix), o, p)
            } else {
                unary_prefix_outcome(range, o, bytes, p, limit, max_prefix, (prefix + 1) as u64)
            },
        }
    }
}

/// A truncated-Rice value (§9.3.3.2) decoded from bypass bins.
pub open spec fn truncated_rice_outcome(
    range: u16,
    offset: u32,
    bytes: Seq<u8>,
    pos: int,
    limit: int,
    c_max: u64,
    rice: u8,
) -> (Result<u64, SyntaxError>, u32, int) {
    if rice >= 64 {
        (Err(SyntaxError::InvalidSyntaxValue("truncated-Rice parameter is too large")), offset, pos)
    } else {
        let max_prefix = c_max >> rice;
        let (pr, o1, p1) = unary_prefix_outcome(range, offset, bytes, pos, limit, max_prefix, 0);
        match pr {
            Err(e) => (Err(e), o1, p1),
            Ok(prefix) => if prefix == max_prefix {
                (Ok(c_max), o1, p1)
            } else {
                let (sr, o2, p2) = bypass_run(range, o1, bytes, p1, limit, rice as nat, 0);
                match sr {
                    Err(e) => (Err(e), o2, p2),
                    Ok(suffix) => {
                        let value = (prefix << rice) | suffix;
                        if value <= c_max {
                            (Ok(value), o2, p2)
                        } else {
                            (Err(SyntaxError::InvalidSyntaxValue("truncated-Rice value exceeds cMax")), o2, p2)
                        }
                    },
                }
            },
        }
    }
}

/// A k-th order Exp-Golomb value (§9.3.3.3) decoded from bypass bins, with
/// `value` accumulated so far at order `order`.
pub open spec fn exp_golomb_outcome(
    range: u16,
    offset: u32,
    bytes: Seq<u8>,
    pos: int,
    limit: int,
    order: u32,
    value: u64,
) -> (Result<u64, SyntaxError>, u32, int)
    decreases 64 - order,
{
    if order >= 64 {
        (Err(SyntaxError::ExpGolombOverflow), offset, pos)
    } else {
        let threshold = pow2(order as nat);
        let (b, o, p) = bypass_outcome(range, offset, bytes, pos, limit);
        match b {
            Err(e) => (Err(e), o, p),
            Ok(bin) => if bin != 0 {
                if value + threshold > u64::MAX {
                    (Err(SyntaxError::ExpGolombOverflow), o, p)
                } else {
                    exp_golomb_outcome(range, o, bytes, p, limit, (order + 1) as u32, (value + threshold) as u64)
                }
            } else {
                let (sr, o2, p2) = bypass_run(range, o, bytes, p, limit, order as nat, 0);
                match sr {
                    Err(e) => (Err(e), o2, p2),
                    Ok(suffix) => if value + suffix > u64::MAX {
                        (Err(SyntaxError::ExpGolombOverflow), o2, p2)
                    } else {
                        (Ok((value + suffix) as u64), o2, p2)
                    },
                }
            },
        }
    }
}

/// Number of bits of the fixed-length binarization of values up to `c_max`.
pub open spec fn fixed_width(c_max: u64) -> nat {
    if c_max == 0 {
        0
    } else {
        (64 - vstd::std_specs::bits::u64_leading_zeros(c_max)) as nat
    }
}

/// A fixed-length value (§9.3.3.5) decoded from bypass bins.
pub open spec fn fixed_bypass_outcome(range: u16, offset: u32, bytes: Seq<u8>, pos: int, limit: int, c_max: u64) -> (
    Result<u64, SyntaxError>,
    u32,
    int,
) {
    let (r, o, p) = bypass_run(range, offset, bytes, pos, limit, fixed_width(c_max), 0);
    match r {
        Err(e) => (Err(e), o, p),
        Ok(v) => if v <= c_max {
            (Ok(v), o, p)
        } else {
            (Err(SyntaxError::InvalidSyntaxValue("fixed-length value exceeds cMax")), o, p)
        },
    }
}

/// A limited k-th order Exp-Golomb value (§9.3.3.12) decoded from bypass bins.
pub open spec fn limited_exp_golomb_outcome(
    range: u16,
    offset: u32,
    bytes: Seq<u8>,
    pos: int,
    limit: int,
    rice: u8,
    log2_range: u8,
) -> (Result<u64, SyntaxError>, u32, int) {
    if rice >= 32 || !(1 <= log2_range <= 28) {
        (Err(SyntaxError::InvalidSyntaxValue("limited EGk parameters are out of range")), offset, pos)
    } else {
        let max_ext = (28 - log2_range) as u64;
        let (pr, o1, p1) = unary_prefix_outcome(range, offset, bytes, pos, limit, max_ext, 0);
        match pr {
            Err(e) => (Err(e), o1, p1),
            Ok(ext) => {
                let escape: nat = if ext == max_ext { log2_range as nat } else { (ext + rice) as nat };
                let (sr, o2, p2) = bypass_run(range, o1, bytes, p1, limit, escape, 0);
                match sr {
                    Err(e) => (Err(e), o2, p2),
                    Ok(suffix) => {
                        let base = (((pow2(ext as nat) - 1) as u64) << rice) as u64;
                        if base + suffix > u64::MAX {
                            (Err(SyntaxError::ExpGolombOverflow), o2, p2)
                        } else if ext < max_ext && (((base + suffix) as u64) >> rice) > 2 * pow2(ext as nat) - 2 {
                            (Err(SyntaxError::InvalidSyntaxValue("limited EGk prefix and suffix are inconsistent")), o2, p2)
                        } else {
                            (Ok((base + suffix) as u64), o2, p2)
                        }
                    },
                }
            },
        }
    }
}

/// `coeff_abs_level_remaining` (§9.3.3.11) for a Rice parameter below 32: a
/// truncated-Rice prefix up to `4 << rice`, then an Exp-Golomb escape.
pub open spec fn coeff_remaining_outcome(
    range: u16,
    offset: u32,
    bytes: Seq<u8>,
    pos: int,
    limit: int,
    rice: u8,
    extended: bool,
    log2_range: u8,
) -> (Result<u64, SyntaxError>, u32, int) {
    let c_max = 4 * pow2(rice as nat);
    let (pr, o1, p1) = truncated_rice_outcome(range, offset, bytes, pos, limit, c_max as u64, rice);
    match pr {
        Err(e) => (Err(e), o1, p1),
        Ok(prefix) => if prefix != c_max {
            (Ok(prefix), o1, p1)
        } else {
            let (sr, o2, p2) = if extended {
                limited_exp_golomb_outcome(range, o1, bytes, p1, limit, (rice + 1) as u8, log2_range)
            } else {
                exp_golomb_outcome(range, o1, bytes, p1, limit, (rice + 1) as u32, 0)
            };
            match sr {
                Err(e) => (Err(e), o2, p2),
                Ok(suffix) => if c_max + suffix > u64::MAX {
                    (Err(SyntaxError::ExpGolombOverflow), o2, p2)
                } else {
                    (Ok((c_max + suffix) as u64), o2, p2)
                },
            }
        },
    }
}

/// `palette_escape_val`: fixed-length bins when the CU bypasses transform
/// and quantization, third-order Exp-Golomb bins otherwise.
pub open spec fn palette_value_outcome(
    range: u16,
    offset: u32,
    bytes: Seq<u8>,
    pos: int,
    limit: int,
    bit_depth: usize,
    bypass: bool,
) -> (Result<u64, SyntaxError>, u32, int) {
    if !bypass {
        exp_golomb_outcome(range, offset, bytes, pos, limit, 3, 0)
    } else if bit_depth >= 64 {
        (Err(SyntaxError::InvalidSyntaxValue("palette bit depth is too large")), offset, pos)
    } else {
        fixed_bypass_outcome(range, offset, bytes, pos, limit, (pow2(bit_depth as nat) - 1) as u64)
    }
}

/// `palette_num_indices` (§9.3.3.13): a truncated-Rice prefix with parameter
/// `3 + ((MaxPaletteIndex + 1) >> 3)`, then an Exp-Golomb escape.
pub open spec fn palette_num_indices_outcome(range: u16, offset: u32, bytes: Seq<u8>, pos: int, limit: int, max_index: u64) -> (
    Result<u64, SyntaxError>,
    u32,
    int,
) {
    if max_index == u64::MAX {
        (Err(SyntaxError::InvalidSyntaxValue("palette index maximum overflows")), offset, pos)
    } else if 3 + (max_index + 1) / 8 > 255 {
        (Err(SyntaxError::InvalidSyntaxValue("palette index Rice parameter is too large")), offset, pos)
    } else {
        let rice = (3 + (max_index + 1) / 8) as u8;
        if rice >= 64 {
            (Err(SyntaxError::InvalidSyntaxValue("palette index Rice range is too large")), offset, pos)
        } else {
            let c_max = (4u64 << rice) as u64;
            let (pr, o1, p1) = truncated_rice_outcome(range, offset, bytes, pos, limit, c_max, rice);
            match pr {
                Err(e) => (Err(e), o1, p1),
                Ok(prefix) => if prefix != c_max {
                    (Ok(prefix), o1, p1)
                } else {
                    let (sr, o2, p2) = exp_golomb_outcome(range, o1, bytes, p1, limit, (rice + 1) as u32, 0);
                    match sr {
                        Err(e) => (Err(e), o2, p2),
                        Ok(suffix) => if c_max + suffix > u64::MAX {
                            (Err(SyntaxError::ExpGolombOverflow), o2, p2)
                        } else {
                            (Ok((c_max + suffix) as u64), o2, p2)
                        },
                    }
                },
            }
        }
    }
}

/// The `cMax` of `palette_run_suffix` for a prefix of at least one.
pub open spec fn palette_suffix_max(max_run_minus1: u64, prefix: u64) -> int {
    let offset = pow2((prefix - 1) as nat);
    if offset * 2 > max_run_minus1 {
        max_run_minus1 - offset
    } else {
        offset - 1
    }
}

proof fn lemma_tables_bounded()
    ensures
        forall|i: int| 0 <= i < 256 ==> #[trigger] RANGE_TAB_LPS@[i] <= 240,
        forall|i: int| 0 <= i < 64 ==> #[trigger] TRANS_IDX_LPS@[i] <= 63,
        forall|i: int| 0 <= i < 64 ==> #[trigger] TRANS_IDX_MPS@[i] <= 63,
{
}

proof fn lemma_renorm_ok(range: u16, offset: u32, bytes: Seq<u8>, pos: int, limit: int)
    ensures
        renorm_outcome(range, offset, bytes, pos, limit).0 is Ok ==> renorm_outcome(range, offset, bytes, pos, limit).1 >= 256,
    decreases limit - pos,
{
    if range < 256 && pos < limit {
        lemma_renorm_ok((range * 2) as u16, (offset << 1u32) | (bits_value(bytes, pos, 1) as u32), bytes, pos + 1, limit);
    }
}

pub(crate) proof fn lemma_valid_decision(d: CabacDecoder, index: int)
    requires
        d.wf(),
        d.range() >= 256,
    ensures
        0 <= index < d.ctxs().len() ==> decision_allowed(&d, index),
{
    lemma_tables_bounded();
    if 0 <= index < d.ctxs().len() {
        let s = d.ctxs()[index].state_index;
        let rg = d.range();
        let q = ((rg >> 6u16) & 3u16);
        assert(((rg >> 6u16) & 3u16) < 4) by (bit_vector);
        assert(0 <= (s as int) * 4 + (q as int) < 256);
    }
}

pub(crate) proof fn lemma_decision_range(before: CabacDecoder, after: CabacDecoder, index: int, r: Result<u64, SyntaxError>)
    requires
        0 <= index < before.ctxs().len() ==> decision_step(&before, &after, index, r),
    ensures
        0 <= index < before.ctxs().len() && r is Ok ==> after.range() >= 256,
{
    if 0 <= index < before.ctxs().len() {
        let (bin, range1, offset1, ctx1) = decision_outcome(before.range(), before.ivl_offset(), before.ctxs()[index]);
        lemma_renorm_ok(range1, offset1, before.input().bytes(), before.input().pos(), before.input().limit());
    }
}

proof fn lemma_truncated_binary_bounds(n: u64)
    requires
        1 <= n <= 0x7fff_ffff_ffff_ffff,
    ensures
        0 <= 63 - vstd::std_specs::bits::u64_leading_zeros(n) <= 62,
        n <= vstd::arithmetic::power2::pow2((64 - vstd::std_specs::bits::u64_leading_zeros(n)) as nat),
{
    vstd::std_specs::bits::axiom_u64_leading_zeros(n);
    let lz = vstd::std_specs::bits::u64_leading_zeros(n);
    assert(lz >= 1) by {
        if lz == 0 {
            assert((n >> 63u64) & 1u64 == 0u64) by (bit_vector)
                requires n <= 0x7fff_ffff_ffff_ffff;
        }
    }
    let s = (64 - lz) as u64;
    assert(n >> s == 0);
    assert(n < (1u64 << s)) by (bit_vector)
        requires n >> s == 0, 1 <= s <= 63;
    vstd::bits::lemma_u64_pow2_no_overflow(s as nat);
    vstd::bits::lemma_u64_shl_is_mul(1, s);
    vstd::arithmetic::power2::lemma_pow2_pos(s as nat);
}


/// `read_bits(count)` at bit `pos` of `bytes` with reading stopping at `limit`.
pub open spec fn read_outcome(bytes: Seq<u8>, pos: int, limit: int, count: usize) -> Result<u64, SyntaxError> {
    let remaining = if limit > pos { limit - pos } else { 0 };
    if count > 64 {
        Err(SyntaxError::InvalidBitCount(count))
    } else if count > remaining {
        Err(SyntaxError::UnexpectedEnd { requested: count, remaining: remaining as usize })
    } else {
        Ok(bits_value(bytes, pos, count as nat) as u64)
    }
}

/// Skipping zero bits up to the next byte boundary: the error, if any, and
/// the position reached.
pub open spec fn align_outcome(bytes: Seq<u8>, pos: int, limit: int) -> (Option<SyntaxError>, int)
    decreases limit - pos,
{
    if pos % 8 == 0 {
        (None, pos)
    } else if pos >= limit {
        (Some(SyntaxError::UnexpectedEnd { requested: 1, remaining: 0 }), pos)
    } else if bits_value(bytes, pos, 1) != 0 {
        (Some(SyntaxError::InvalidAlignmentZero), pos + 1)
    } else {
        align_outcome(bytes, pos + 1, limit)
    }
}

/// The `cabac_zero_word`s from `q`, having counted `count` already: their
/// number, or the error for a non-zero word or an incomplete tail.
pub open spec fn zero_words_outcome(bytes: Seq<u8>, q: int, limit: int, count: nat) -> Result<usize, SyntaxError>
    decreases limit - q,
{
    if limit - q >= 16 {
        if bits_value(bytes, q, 16) != 0 {
            Err(SyntaxError::InvalidSyntaxValue("cabac_zero_word must equal 0x0000"))
        } else {
            zero_words_outcome(bytes, q + 16, limit, count + 1)
        }
    } else if limit > q {
        Err(SyntaxError::InvalidSyntaxValue("trailing CABAC data is not a complete cabac_zero_word"))
    } else {
        Ok(count as usize)
    }
}

/// Zero alignment bits from `pos`, then `cabac_zero_word`s to the end.
pub open spec fn cabac_trailing_outcome(bytes: Seq<u8>, pos: int, limit: int) -> Result<usize, SyntaxError> {
    let (aligned, q) = align_outcome(bytes, pos, limit);
    match aligned {
        Some(e) => Err(e),
        None => zero_words_outcome(bytes, q, limit, 0),
    }
}

/// Reading `n` fixed-length samples of `bit_depth` bits from `pos`.
pub open spec fn samples_outcome(bytes: Seq<u8>, pos: int, limit: int, n: nat, bit_depth: usize) -> (Result<Seq<u64>, SyntaxError>, int)
    decreases n,
{
    if n == 0 {
        (Ok(Seq::empty()), pos)
    } else {
        let (prev, p) = samples_outcome(bytes, pos, limit, (n - 1) as nat, bit_depth);
        match prev {
            Err(e) => (Err(e), p),
            Ok(s) => match read_outcome(bytes, p, limit, bit_depth) {
                Err(e) => (Err(e), p),
                Ok(v) => (Ok(s.push(v)), p + bit_depth),
            },
        }
    }
}

/// PCM samples after alignment, followed by the engine restart: the luma
/// and chroma samples with the new `ivlOffset`, and the position reached.
pub open spec fn pcm_outcome(
    bytes: Seq<u8>,
    pos: int,
    limit: int,
    luma_count: nat,
    chroma_count: nat,
    bit_depth_luma: usize,
    bit_depth_chroma: usize,
) -> (Result<(Seq<u64>, Seq<u64>, u32), SyntaxError>, int) {
    let (aligned, p1) = align_outcome(bytes, pos, limit);
    match aligned {
        Some(e) => (Err(e), p1),
        None => {
            let (luma, p2) = samples_outcome(bytes, p1, limit, luma_count, bit_depth_luma);
            match luma {
                Err(e) => (Err(e), p2),
                Ok(l) => {
                    let (chroma, p3) = samples_outcome(bytes, p2, limit, chroma_count, bit_depth_chroma);
                    match chroma {
                        Err(e) => (Err(e), p3),
                        Ok(c) => match read_outcome(bytes, p3, limit, 9) {
                            Err(e) => (Err(e), p3),
                            Ok(v) => if v >= 510 {
                                (Err(SyntaxError::InvalidSyntaxValue("CABAC ivlOffset must not be 510 or 511")), p3 + 9)
                            } else {
                                (Ok((l, c, v as u32)), p3 + 9)
                            },
                        },
                    }
                },
            }
        },
    }
}

/// Reads zero bits up to the next byte boundary.
fn skip_zero_alignment(reader: &mut BitReader<'_>) -> (r: Result<(), SyntaxError>)
    requires
        old(reader).wf(),
    ensures
        final(reader).wf(),
        final(reader).same_input(old(reader)),
        (match r {
            Ok(_) => None::<SyntaxError>,
            Err(e) => Some(e),
        }, final(reader).pos()) == align_outcome(old(reader).bytes(), old(reader).pos(), old(reader).limit()),
{
    let ghost bytes = reader.bytes();
    let ghost limit = reader.limit();
    let ghost goal = align_outcome(bytes, reader.pos(), limit);
    while !reader.byte_aligned()
        invariant
            bytes == old(reader).bytes(),
            limit == old(reader).limit(),
            goal == align_outcome(bytes, old(reader).pos(), limit),
            reader.wf(),
            reader.bytes() == bytes,
            reader.limit() == limit,
            align_outcome(bytes, reader.pos(), limit) == goal,
        decreases reader.remaining(),
    {
        proof {
            lemma_bits_value_bound(bytes, reader.pos(), 1);
            vstd::arithmetic::power2::lemma2_to64();
        }
        let bit = reader.read_bits(1)?;
        if bit != 0 {
            return Err(SyntaxError::InvalidAlignmentZero);
        }
    }
    Ok(())
}

/// Reads `count` raw samples of `bit_depth` bits each.
fn read_sample_run(reader: &mut BitReader<'_>, count: usize, bit_depth: usize) -> (r: Result<Vec<u64>, SyntaxError>)
    requires
        old(reader).wf(),
    ensures
        ({
            let (res, pos) = samples_outcome(old(reader).bytes(), old(reader).pos(), old(reader).limit(), count as nat, bit_depth);
            &&& final(reader).pos() == pos
            &&& (res matches Ok(v) ==> (r matches Ok(rv) && rv@ == v))
            &&& (res matches Err(e) ==> r == Err::<Vec<u64>, SyntaxError>(e))
        }),
        final(reader).wf(),
        final(reader).same_input(old(reader)),
{
    let ghost bytes = reader.bytes();
    let ghost limit = reader.limit();
    let ghost p0 = reader.pos();
    let mut samples: Vec<u64> = Vec::new();
    let mut i: usize = 0;
    while i < count
        invariant
            bytes == old(reader).bytes(),
            limit == old(reader).limit(),
            p0 == old(reader).pos(),
            i <= count,
            reader.wf(),
            reader.bytes() == bytes,
            reader.limit() == limit,
            samples_outcome(bytes, p0, limit, i as nat, bit_depth) == (Ok::<Seq<u64>, SyntaxError>(samples@), reader.pos()),
        decreases count - i,
    {
        let value = match reader.read_bits(bit_depth) {
            Ok(v) => v,
            Err(e) => {
                proof {
                    lemma_samples_stop(bytes, p0, limit, (i + 1) as nat, count as nat, bit_depth);
                }
                return Err(e);
            },
        };
        samples.push(value);
        i += 1;
    }
    Ok(samples)
}

/// PCM sample syntax from §7.3.8.7.
#[derive(Clone, Debug, Eq, PartialEq)]
pub struct PcmSampleSyntax {
    /// Luma PCM samples in raster order.
    pub luma_samples: Vec<u64>,
    /// Chroma PCM samples in component/raster order.
    pub chroma_samples: Vec<u64>,
}

/// Zero alignment bits from `pos`, then the luma and chroma PCM samples:
/// the samples, or the first error, and the position reached.
pub open spec fn pcm_sample_outcome(
    bytes: Seq<u8>,
    pos: int,
    limit: int,
    luma_count: nat,
    chroma_count: nat,
    bit_depth_luma: usize,
    bit_depth_chroma: usize,
) -> (Result<(Seq<u64>, Seq<u64>), SyntaxError>, int) {
    let (aligned, p1) = align_outcome(bytes, pos, limit);
    match aligned {
        Some(e) => (Err(e), p1),
        None => {
            let (luma, p2) = samples_outcome(bytes, p1, limit, luma_count, bit_depth_luma);
            match luma {
                Err(e) => (Err(e), p2),
                Ok(l) => {
                    let (chroma, p3) = samples_outcome(bytes, p2, limit, chroma_count, bit_depth_chroma);
                    match chroma {
                        Err(e) => (Err(e), p3),
                        Ok(c) => (Ok((l, c)), p3),
                    }
                },
            }
        },
    }
}

/// Parses the fixed-length `pcm_sample()` syntax after byte alignment.
pub fn parse_pcm_sample(
    reader: &mut BitReader<'_>,
    luma_sample_count: usize,
    chroma_sample_count: usize,
    bit_depth_luma: usize,
    bit_depth_chroma: usize,
) -> (r: Result<PcmSampleSyntax, SyntaxError>)
    requires
        old(reader).wf(),
    ensures
        final(reader).wf(),
        final(reader).same_input(old(reader)),
        ({
            let (res, pos) = pcm_sample_outcome(
                old(reader).bytes(),
                old(reader).pos(),
                old(reader).limit(),
                luma_sample_count as nat,
                chroma_sample_count as nat,
                bit_depth_luma,
                bit_depth_chroma,
            );
            &&& final(reader).pos() == pos
            &&& (res matches Ok((l, c)) ==> (r matches Ok(s) && s.luma_samples@ == l && s.chroma_samples@ == c))
            &&& (res matches Err(e) ==> r == Err::<PcmSampleSyntax, SyntaxError>(e))
        }),
{
    skip_zero_alignment(reader)?;
    let luma_samples = read_sample_run(reader, luma_sample_count, bit_depth_luma)?;
    let chroma_samples = read_sample_run(reader, chroma_sample_count, bit_depth_chroma)?;
    Ok(PcmSampleSyntax { luma_samples, chroma_samples })
}

proof fn lemma_samples_stop(bytes: Seq<u8>, pos: int, limit: int, m: nat, n: nat, bit_depth: usize)
    requires
        m <= n,
        samples_outcome(bytes, pos, limit, m, bit_depth).0 is Err,
    ensures
        samples_outcome(bytes, pos, limit, n, bit_depth) == samples_outcome(bytes, pos, limit, m, bit_depth),
    decreases n - m,
{
    if m < n {
        lemma_samples_stop(bytes, pos, limit, m, (n - 1) as nat, bit_depth);
    }
}

} // verus!

verus! {

proof fn lemma_run_keeps_stored<'a>(stored: Seq<CabacContext>, run: Seq<CabacDecoder<'a>>, k: int)
    requires
        0 <= k < run.len(),
        run[0].wpp_ctxs() == Some(stored),
        forall|i: int| 0 < i < run.len() ==> #[trigger] run[i].wpp_ctxs() == run[i - 1].wpp_ctxs(),
    ensures
        run[k].wpp_ctxs() == Some(stored),
    decreases k,
{
    if k > 0 {
        lemma_run_keeps_stored(stored, run, k - 1);
        assert(run[k].wpp_ctxs() == run[k - 1].wpp_ctxs());
    }
}

/// Law: once `store_wpp_contexts` has stored the contexts `stored`, every run
/// of decoder states in which each step keeps the stored contexts (as every
/// decoding, context and synchronization method but `store_wpp_contexts`
/// and `reset_contexts_to_initial` states) ends in a state from which
/// `synchronize_wpp_contexts` returns `true` and restores exactly `stored`.
/// `run[0]` is the state just after the store, and `result` and `restored`
/// are what `synchronize_wpp_contexts` states of its call on the last state.
pub proof fn lemma_wpp_round_trip<'a>(stored: Seq<CabacContext>, run: Seq<CabacDecoder<'a>>, restored: CabacDecoder<'a>, result: bool)
    requires
        run.len() > 0,
        run[0].wpp_ctxs() == Some(stored),
        forall|i: int| 0 < i < run.len() ==> #[trigger] run[i].wpp_ctxs() == run[i - 1].wpp_ctxs(),
        result == (run.last().wpp_ctxs() is Some),
        restored.ctxs() == match run.last().wpp_ctxs() {
            Some(w) => w,
            None => run.last().ctxs(),
        },
    ensures
        result,
        restored.ctxs() == stored,
{
    lemma_run_keeps_stored(stored, run, run.len() - 1);
}

} // verus!
