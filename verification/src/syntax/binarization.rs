//! Clause 9.3.3 bin-string construction and decoding primitives.
use vstd::prelude::*;
use vstd::arithmetic::power2::pow2;
use super::{map_signed_spec, SyntaxError};

verus! {

/// Generic Clause 9.3.3 binarization families.
#[derive(Clone, Copy, Debug, Eq, PartialEq)]
pub enum Binarization {
    /// Fixed-length binarization with values in `0..=c_max`.
    Fixed {
        /// Maximum representable syntax value.
        c_max: u32,
    },
    /// Truncated binary binarization.
    TruncatedBinary {
        /// Maximum representable syntax value.
        c_max: u32,
    },
    /// Truncated Rice binarization.
    TruncatedRice {
        /// Maximum representable syntax value.
        c_max: u32,
        /// Rice parameter `cRiceParam`.
        rice_parameter: u8,
    },
    /// k-th order Exp-Golomb binarization.
    ExpGolomb {
        /// Exp-Golomb order `k`.
        order: u8,
    },
    /// Limited k-th order Exp-Golomb binarization from §9.3.3.4.
    LimitedExpGolomb {
        /// Rice parameter.
        rice_parameter: u8,
        /// `log2TransformRange`.
        log2_transform_range: u8,
    },
}

/// Number of binary digits of `c` (zero for zero): the fixed-length width
/// `Ceil(Log2(cMax + 1))` of §9.3.3.5.
pub open spec fn bit_length(c: nat) -> nat
    decreases c,
{
    if c == 0 {
        0
    } else {
        1 + bit_length(c / 2)
    }
}

/// Bit `k` of `v`.
pub open spec fn bit_of(v: nat, k: nat) -> bool {
    (v / pow2(k)) % 2 == 1
}

/// The `w` low bits of `v`, most significant first.
pub open spec fn msb_bins(v: nat, w: nat) -> Seq<bool>
    decreases w,
{
    if w == 0 {
        Seq::empty()
    } else {
        msb_bins(v / 2, (w - 1) as nat).push(v % 2 == 1)
    }
}

/// The number a bin string denotes, most significant bin first.
pub open spec fn bins_value(s: Seq<bool>) -> nat
    decreases s.len(),
{
    if s.len() == 0 {
        0
    } else {
        2 * bins_value(s.drop_last()) + if s.last() { 1nat } else { 0nat }
    }
}

/// `n` bins equal to one.
pub open spec fn ones(n: nat) -> Seq<bool> {
    Seq::new(n, |i: int| true)
}

/// A bin string folded into a `u64` as `(v << 1) | bin`, MSB first.
pub open spec fn fold64(s: Seq<bool>) -> u64
    decreases s.len(),
{
    if s.len() == 0 {
        0
    } else {
        (fold64(s.drop_last()) << 1u64) | (if s.last() { 1u64 } else { 0u64 })
    }
}

/// `Ok(prefix + s)` for a successful result, the error otherwise.
pub open spec fn prepend(prefix: Seq<bool>, r: Result<Seq<bool>, SyntaxError>) -> Result<Seq<bool>, SyntaxError> {
    match r {
        Ok(s) => Ok(prefix + s),
        Err(e) => Err(e),
    }
}

/// `k` and `u` of the truncated-binary binarization (§9.3.3.4) for `cMax`.
pub open spec fn tb_params(c_max: u32) -> (nat, int) {
    let k = (bit_length(c_max as nat + 1) - 1) as nat;
    (k, pow2(k + 1) - (c_max + 1))
}

/// Fixed-length bins of §9.3.3.5.
pub open spec fn fixed_encoding(value: u32, c_max: u32) -> Result<Seq<bool>, SyntaxError> {
    if value > c_max {
        Err(SyntaxError::InvalidSyntaxValue("fixed binarization value exceeds cMax"))
    } else {
        Ok(msb_bins(value as nat, bit_length(c_max as nat)))
    }
}

/// Truncated-binary bins of §9.3.3.4.
pub open spec fn truncated_binary_encoding(value: u32, c_max: u32) -> Result<Seq<bool>, SyntaxError> {
    let (k, u) = tb_params(c_max);
    if value > c_max {
        Err(SyntaxError::InvalidSyntaxValue("truncated binary value exceeds cMax"))
    } else if (value as int) < u {
        Ok(msb_bins(value as nat, k))
    } else {
        Ok(msb_bins((value + u) as nat, k + 1))
    }
}

/// Truncated-Rice bins of §9.3.3.2.
pub open spec fn truncated_rice_encoding(value: u32, c_max: u32, rice: u8) -> Result<Seq<bool>, SyntaxError> {
    if value > c_max {
        Err(SyntaxError::InvalidSyntaxValue("truncated Rice value exceeds cMax"))
    } else if rice >= 32 {
        Err(SyntaxError::InvalidSyntaxValue("truncated-Rice parameter is too large"))
    } else {
        let prefix_len = if value as nat / pow2(rice as nat) <= c_max as nat / pow2(rice as nat) {
            value as nat / pow2(rice as nat)
        } else {
            c_max as nat / pow2(rice as nat)
        };
        Ok(ones(prefix_len as nat) + if c_max > value {
            seq![false] + msb_bins(value as nat, rice as nat)
        } else {
            Seq::empty()
        })
    }
}

/// k-th order Exp-Golomb bins of §9.3.3.3 for `value` at order `k`.
pub open spec fn exp_golomb_encoding(value: nat, k: nat) -> Result<Seq<bool>, SyntaxError>
    decreases 32 - k,
{
    if k >= 32 {
        Err(SyntaxError::ExpGolombOverflow)
    } else if value >= pow2(k) {
        prepend(seq![true], exp_golomb_encoding((value - pow2(k)) as nat, k + 1))
    } else {
        Ok(seq![false] + msb_bins(value, k))
    }
}

/// Length of the limited Exp-Golomb prefix extension for `code` (§9.3.3.4).
pub open spec fn limited_prefix_len(code: nat, p: nat, max_p: nat) -> nat
    decreases max_p - p,
{
    if p < max_p && code > pow2(p + 1) - 2 {
        limited_prefix_len(code, p + 1, max_p)
    } else {
        p
    }
}

/// Limited k-th order Exp-Golomb bins of §9.3.3.4.
pub open spec fn limited_exp_golomb_encoding(value: u32, rice: u8, log2_range: u8) -> Result<Seq<bool>, SyntaxError> {
    if rice >= 32 || !(1 <= log2_range <= 28) {
        Err(SyntaxError::InvalidSyntaxValue("limited EGk parameters are out of range"))
    } else {
        let max_p = (28 - log2_range) as nat;
        let pel = limited_prefix_len(value as nat / pow2(rice as nat), 0, max_p);
        let escape: nat = if pel == max_p { log2_range as nat } else { pel + rice as nat };
        let base = (pow2(pel) - 1) * pow2(rice as nat);
        if (value as int) < base {
            Err(SyntaxError::InvalidSyntaxValue("limited EGk value is below its prefix base"))
        } else if escape < 32 && value as int - base >= pow2(escape) {
            Err(SyntaxError::InvalidSyntaxValue("limited EGk suffix exceeds its coded width"))
        } else {
            Ok(ones(pel) + (if pel == max_p { Seq::empty() } else { seq![false] }) + msb_bins(
                (value as int - base) as nat,
                escape,
            ))
        }
    }
}

/// The bins of `value` under `b`.
pub open spec fn encoding(value: u32, b: Binarization) -> Result<Seq<bool>, SyntaxError> {
    match b {
        Binarization::Fixed { c_max } => fixed_encoding(value, c_max),
        Binarization::TruncatedBinary { c_max } => truncated_binary_encoding(value, c_max),
        Binarization::TruncatedRice { c_max, rice_parameter } => truncated_rice_encoding(value, c_max, rice_parameter),
        Binarization::ExpGolomb { order } => exp_golomb_encoding(value as nat, order as nat),
        Binarization::LimitedExpGolomb { rice_parameter, log2_transform_range } => limited_exp_golomb_encoding(
            value,
            rice_parameter,
            log2_transform_range,
        ),
    }
}


/// Index of the first zero bin of `s` at or after `from`, or its length.
pub open spec fn first_false(s: Seq<bool>, from: int) -> int
    decreases s.len() - from,
{
    if from >= s.len() {
        s.len() as int
    } else if !s[from] {
        from
    } else {
        first_false(s, from + 1)
    }
}

/// Decoding of fixed-length bins.
pub open spec fn fixed_decoding(bins: Seq<bool>, c_max: u32) -> Result<u32, SyntaxError> {
    if bins.len() != bit_length(c_max as nat) {
        Err(SyntaxError::InvalidSyntaxValue("fixed bin string has the wrong length"))
    } else if fold64(bins) as u32 <= c_max {
        Ok(fold64(bins) as u32)
    } else {
        Err(SyntaxError::InvalidSyntaxValue("fixed bin string exceeds cMax"))
    }
}

/// Decoding of truncated-binary bins.
pub open spec fn truncated_binary_decoding(bins: Seq<bool>, c_max: u32) -> Result<u32, SyntaxError> {
    let (k, u) = tb_params(c_max);
    if bins.len() == k && fold64(bins) < u {
        fixed_decoding(bins, (pow2(k) - 1) as u32)
    } else if bins.len() != k + 1 {
        Err(SyntaxError::InvalidSyntaxValue("truncated binary bin string has the wrong length"))
    } else {
        Ok((fold64(bins) - u) as u32)
    }
}

/// Decoding of truncated-Rice bins.
pub open spec fn truncated_rice_decoding(bins: Seq<bool>, c_max: u32, rice: u8) -> Result<u32, SyntaxError> {
    let zero = first_false(bins, 0);
    if zero == bins.len() {
        if bins.len() != c_max as nat / pow2(rice as nat) {
            Err(SyntaxError::InvalidSyntaxValue("truncated Rice bin string has the wrong length"))
        } else {
            Ok(c_max)
        }
    } else if bins.len() != zero + 1 + rice {
        Err(SyntaxError::InvalidSyntaxValue("truncated Rice bin string has the wrong length"))
    } else {
        let value = ((zero as u32) << (rice as u32)) + (fold64(bins.subrange(zero + 1, bins.len() as int)) as u32);
        if value > c_max {
            Err(SyntaxError::InvalidSyntaxValue("truncated Rice bin string exceeds cMax"))
        } else {
            Ok(value as u32)
        }
    }
}

/// Decoding of Exp-Golomb bins from index `idx` at order `k` with `acc`
/// already accumulated by the prefix.
pub open spec fn exp_golomb_decoding(bins: Seq<bool>, idx: int, k: nat, acc: nat) -> Result<u32, SyntaxError>
    decreases bins.len() - idx,
{
    if idx < 0 || idx >= bins.len() {
        Err(SyntaxError::UnexpectedEnd { requested: 1, remaining: 0 })
    } else if bins[idx] {
        if k >= 32 || acc + pow2(k) > u32::MAX {
            Err(SyntaxError::ExpGolombOverflow)
        } else {
            exp_golomb_decoding(bins, idx + 1, k + 1, acc + pow2(k))
        }
    } else if idx + 1 + k > bins.len() {
        Err(SyntaxError::UnexpectedEnd { requested: 1, remaining: 0 })
    } else if idx + 1 + k != bins.len() {
        Err(SyntaxError::InvalidSyntaxValue("Exp-Golomb bin string has trailing bins"))
    } else {
        let suffix = fold64(bins.subrange(idx + 1, bins.len() as int)) as u32;
        if acc + suffix > u32::MAX {
            Err(SyntaxError::ExpGolombOverflow)
        } else {
            Ok((acc + suffix) as u32)
        }
    }
}

/// The limited Exp-Golomb prefix read from `bins`: its extension length and
/// the index after it.
pub open spec fn limited_prefix_decoding(bins: Seq<bool>, p: nat, max_p: nat) -> Result<(nat, int), SyntaxError>
    decreases max_p - p,
{
    if p >= max_p {
        Ok((p, p as int))
    } else if p >= bins.len() {
        Err(SyntaxError::UnexpectedEnd { requested: 1, remaining: 0 })
    } else if !bins[p as int] {
        Ok((p, p as int + 1))
    } else {
        limited_prefix_decoding(bins, p + 1, max_p)
    }
}

/// Decoding of limited Exp-Golomb bins.
pub open spec fn limited_exp_golomb_decoding(bins: Seq<bool>, rice: u8, log2_range: u8) -> Result<u32, SyntaxError> {
    if rice >= 32 || !(1 <= log2_range <= 28) {
        Err(SyntaxError::InvalidSyntaxValue("limited EGk parameters are out of range"))
    } else {
        let max_p = (28 - log2_range) as nat;
        match limited_prefix_decoding(bins, 0, max_p) {
            Err(e) => Err(e),
            Ok((pel, idx)) => {
                let escape: nat = if pel == max_p { log2_range as nat } else { pel + rice as nat };
                if idx + escape > bins.len() {
                    Err(SyntaxError::UnexpectedEnd { requested: 1, remaining: 0 })
                } else if idx + escape != bins.len() {
                    Err(SyntaxError::InvalidSyntaxValue("limited EGk bin string has trailing bins"))
                } else {
                    let base = (pow2(pel) - 1) * pow2(rice as nat);
                    let value = base + fold64(bins.subrange(idx, bins.len() as int));
                    if value > u64::MAX {
                        Err(SyntaxError::ExpGolombOverflow)
                    } else if pel < max_p && value / (pow2(rice as nat) as int) > pow2(pel + 1) - 2 {
                        Err(SyntaxError::InvalidSyntaxValue("limited EGk prefix and suffix are inconsistent"))
                    } else if value > u32::MAX {
                        Err(SyntaxError::ExpGolombOverflow)
                    } else {
                        Ok(value as u32)
                    }
                }
            },
        }
    }
}

/// The value decoded from `bins` under `b`.
pub open spec fn decoding(bins: Seq<bool>, b: Binarization) -> Result<u32, SyntaxError> {
    match b {
        Binarization::Fixed { c_max } => fixed_decoding(bins, c_max),
        Binarization::TruncatedBinary { c_max } => truncated_binary_decoding(bins, c_max),
        Binarization::TruncatedRice { c_max, rice_parameter } => truncated_rice_decoding(bins, c_max, rice_parameter),
        Binarization::ExpGolomb { order } => exp_golomb_decoding(bins, 0, order as nat, 0),
        Binarization::LimitedExpGolomb { rice_parameter, log2_transform_range } => limited_exp_golomb_decoding(
            bins,
            rice_parameter,
            log2_transform_range,
        ),
    }
}

/// Bin strings on which decoding would leave the arithmetic of §9.3.3
/// (a truncated-binary code below `u`, or a Rice parameter of 32 or more).
pub open spec fn decoding_undefined(bins: Seq<bool>, b: Binarization) -> bool {
    match b {
        Binarization::TruncatedBinary { c_max } => {
            let (k, u) = tb_params(c_max);
            bins.len() == k + 1 && fold64(bins) < u
        },
        Binarization::TruncatedRice { rice_parameter, .. } => rice_parameter >= 32,
        _ => false,
    }
}

/// Builds a bin string for a syntax value.
pub fn encode_bins(value: u32, binarization: Binarization) -> (r: Result<Vec<bool>, SyntaxError>)
    ensures
        match encoding(value, binarization) {
            Ok(s) => r matches Ok(v) && v@ == s,
            Err(e) => r == Err::<Vec<bool>, SyntaxError>(e),
        },
{
    match binarization {
        Binarization::Fixed { c_max } => fixed(value, c_max),
        Binarization::TruncatedBinary { c_max } => truncated_binary(value, c_max),
        Binarization::TruncatedRice { c_max, rice_parameter } => truncated_rice(value, c_max, rice_parameter),
        Binarization::ExpGolomb { order } => exp_golomb(value, order),
        Binarization::LimitedExpGolomb { rice_parameter, log2_transform_range } => limited_exp_golomb(
            value,
            rice_parameter,
            log2_transform_range,
        ),
    }
}

/// Decodes a complete bin string for a syntax value.
pub fn decode_bins(bins: &[bool], binarization: Binarization) -> (r: Result<u32, SyntaxError>)
    requires
        !decoding_undefined(bins@, binarization),
    ensures
        r == decoding(bins@, binarization),
{
    match binarization {
        Binarization::Fixed { c_max } => decode_fixed(bins, c_max),
        Binarization::TruncatedBinary { c_max } => decode_truncated_binary(bins, c_max),
        Binarization::TruncatedRice { c_max, rice_parameter } => decode_truncated_rice(bins, c_max, rice_parameter),
        Binarization::ExpGolomb { order } => decode_exp_golomb(bins, order),
        Binarization::LimitedExpGolomb { rice_parameter, log2_transform_range } => decode_limited_exp_golomb(
            bins,
            rice_parameter,
            log2_transform_range,
        ),
    }
}


/// Clause 9.2.2 signed Exp-Golomb mapping.
pub fn map_signed_code_num(code_num: u64) -> (r: i64)
    ensures
        r == map_signed_spec(code_num as int) as i64,
        code_num < u64::MAX ==> r as int == map_signed_spec(code_num as int),
{
    assert(code_num & 1 == code_num % 2) by (bit_vector);
    if code_num & 1 == 1 {
        (code_num / 2 + 1) as i64
    } else {
        -((code_num / 2) as i64)
    }
}

/// The code number that the signed mapping sends to `value`.
pub open spec fn signed_code_spec(value: int) -> int {
    if value > 0 {
        2 * value - 1
    } else {
        -2 * value
    }
}

/// Inverse of the signed mapping process.
pub fn map_signed_value(value: i64) -> (r: u64)
    requires
        value != i64::MIN,
    ensures
        r as int == signed_code_spec(value as int),
{
    if value > 0 {
        (value as u64) * 2 - 1
    } else {
        ((-value) as u64) * 2
    }
}

/// The signed mapping and its inverse undo each other.
pub proof fn lemma_signed_mapping_inverse(code: int, value: int)
    requires
        code >= 0,
    ensures
        signed_code_spec(map_signed_spec(code)) == code,
        map_signed_spec(signed_code_spec(value)) == value,
{
}

/// `bit_length(c)` for a machine integer.
fn bit_width(c: u64) -> (r: u32)
    ensures
        r == bit_length(c as nat),
        r <= 64,
{
    proof {
        lemma_bit_length_bounds(c as nat);
        if bit_length(c as nat) > 64 {
            if bit_length(c as nat) - 1 > 64 {
                vstd::arithmetic::power2::lemma_pow2_strictly_increases(64, (bit_length(c as nat) - 1) as nat);
            }
            vstd::arithmetic::power2::lemma2_to64();
            vstd::arithmetic::power2::lemma2_to64_rest();
        }
    }
    let mut v = c;
    let mut w: u32 = 0;
    while v > 0
        invariant
            w + bit_length(v as nat) == bit_length(c as nat),
            bit_length(c as nat) <= 64,
        decreases v,
    {
        v = v / 2;
        w += 1;
    }
    w
}

/// Appends the `w` low bits of `v`, most significant first.
fn push_msb(bins: &mut Vec<bool>, v: u64, w: u32)
    requires
        w <= 64,
    ensures
        final(bins)@ == old(bins)@ + msb_bins(v as nat, w as nat),
{
    let ghost start = bins@;
    let mut i: u32 = 0;
    while i < w
        invariant
            i <= w <= 64,
            start == old(bins)@,
            bins@ == start + Seq::new(i as nat, |j: int| bit_of(v as nat, (w - 1 - j) as nat)),
        decreases w - i,
    {
        let shift = w - 1 - i;
        proof {
            vstd::bits::lemma_u64_shr_is_div(v, shift as u64);
        }
        let shifted = v >> shift as u64;
        assert(shifted & 1 == shifted % 2) by (bit_vector);
        bins.push((shifted & 1) != 0);
        proof {
            assert(bins@ =~= start + Seq::new((i + 1) as nat, |j: int| bit_of(v as nat, (w - 1 - j) as nat)));
        }
        i += 1;
    }
    proof {
        lemma_msb_index(v as nat, w as nat);
        assert(msb_bins(v as nat, w as nat) =~= Seq::new(w as nat, |j: int| bit_of(v as nat, (w - 1 - j) as nat)));
    }
}

/// Folds `bins[start..end]` MSB first.
fn fold_range(bins: &[bool], start: usize, end: usize) -> (r: u64)
    requires
        start <= end <= bins@.len(),
    ensures
        r == fold64(bins@.subrange(start as int, end as int)),
{
    let mut value: u64 = 0;
    let mut i = start;
    assert(bins@.subrange(start as int, start as int) =~= Seq::<bool>::empty());
    while i < end
        invariant
            start <= i <= end <= bins@.len(),
            value == fold64(bins@.subrange(start as int, i as int)),
        decreases end - i,
    {
        assert(bins@.subrange(start as int, i + 1).drop_last() =~= bins@.subrange(start as int, i as int));
        value = (value << 1u64) | (if bins[i] { 1u64 } else { 0u64 });
        i += 1;
    }
    value
}

fn fixed(value: u32, c_max: u32) -> (r: Result<Vec<bool>, SyntaxError>)
    ensures
        match fixed_encoding(value, c_max) {
            Ok(s) => r matches Ok(v) && v@ == s,
            Err(e) => r == Err::<Vec<bool>, SyntaxError>(e),
        },
{
    if value > c_max {
        return Err(SyntaxError::InvalidSyntaxValue("fixed binarization value exceeds cMax"));
    }
    let width = bit_width(c_max as u64);
    let mut bins: Vec<bool> = Vec::new();
    push_msb(&mut bins, value as u64, width);
    assert(bins@ =~= msb_bins(value as nat, bit_length(c_max as nat)));
    Ok(bins)
}

fn truncated_binary(value: u32, c_max: u32) -> (r: Result<Vec<bool>, SyntaxError>)
    ensures
        match truncated_binary_encoding(value, c_max) {
            Ok(s) => r matches Ok(v) && v@ == s,
            Err(e) => r == Err::<Vec<bool>, SyntaxError>(e),
        },
{
    if value > c_max {
        return Err(SyntaxError::InvalidSyntaxValue("truncated binary value exceeds cMax"));
    }
    let n = c_max as u64 + 1;
    proof {
        lemma_tb_params(c_max);
    }
    let k = bit_width(n) - 1;
    proof {
        vstd::bits::lemma_u64_pow2_no_overflow((k + 1) as nat);
        vstd::bits::lemma_u64_shl_is_mul(1, (k + 1) as u64);
        vstd::bits::lemma_u64_pow2_no_overflow(k as nat);
        vstd::bits::lemma_u64_shl_is_mul(1, k as u64);
        lemma_bit_length_mask(k as nat);
        lemma_bit_length_mask((k + 1) as nat);
        vstd::arithmetic::power2::lemma2_to64();
    }
    let u = (1u64 << (k + 1) as u64) - n;
    assert(k as nat == tb_params(c_max).0);
    assert(u as int == tb_params(c_max).1);
    if (value as u64) < u {
        assert(((1u64 << k as u64) - 1) as u32 as nat == (pow2(k as nat) - 1) as nat);
        fixed(value, ((1u64 << k as u64) - 1) as u32)
    } else {
        assert(k < 32) by {
            if k == 32 {
                vstd::arithmetic::power2::lemma2_to64_rest();
                assert(c_max == u32::MAX);
                assert(u == 0x1_0000_0000);
            }
        }
        assert(value as u64 + u < 0x1_0000_0000);
        assert(((1u64 << (k + 1) as u64) - 1) as u32 as nat == (pow2((k + 1) as nat) - 1) as nat);
        assert((value as u64 + u) as u32 as nat == value + u);
        fixed((value as u64 + u) as u32, ((1u64 << (k + 1) as u64) - 1) as u32)
    }
}

fn truncated_rice(value: u32, c_max: u32, rice: u8) -> (r: Result<Vec<bool>, SyntaxError>)
    ensures
        match truncated_rice_encoding(value, c_max, rice) {
            Ok(s) => r matches Ok(v) && v@ == s,
            Err(e) => r == Err::<Vec<bool>, SyntaxError>(e),
        },
{
    if value > c_max {
        return Err(SyntaxError::InvalidSyntaxValue("truncated Rice value exceeds cMax"));
    }
    if rice >= 32 {
        return Err(SyntaxError::InvalidSyntaxValue("truncated-Rice parameter is too large"));
    }
    proof {
        vstd::bits::lemma_u32_shr_is_div(value, rice as u32);
        vstd::bits::lemma_u32_shr_is_div(c_max, rice as u32);
    }
    let prefix = value >> rice as u32;
    let cap = c_max >> rice as u32;
    let count = if prefix < cap { prefix } else { cap };
    let mut bins: Vec<bool> = Vec::new();
    let mut i: u32 = 0;
    while i < count
        invariant
            i <= count,
            bins@ == ones(i as nat),
        decreases count - i,
    {
        bins.push(true);
        assert(bins@ =~= ones((i + 1) as nat));
        i += 1;
    }
    let ghost head = bins@;
    if c_max > value {
        bins.push(false);
    }
    if c_max > value && rice != 0 {
        push_msb(&mut bins, value as u64, rice as u32);
    }
    proof {
        if c_max > value {
            if rice == 0 {
                assert(msb_bins(value as nat, 0) =~= Seq::<bool>::empty());
            }
            assert(bins@ =~= head + (seq![false] + msb_bins(value as nat, rice as nat)));
        } else {
            assert(bins@ =~= head + Seq::<bool>::empty());
        }
    }
    Ok(bins)
}

fn exp_golomb(value: u32, order: u8) -> (r: Result<Vec<bool>, SyntaxError>)
    ensures
        match exp_golomb_encoding(value as nat, order as nat) {
            Ok(s) => r matches Ok(v) && v@ == s,
            Err(e) => r == Err::<Vec<bool>, SyntaxError>(e),
        },
{
    let mut bins: Vec<bool> = Vec::new();
    let mut v = value;
    let mut k = order;
    assert(bins@ + Seq::<bool>::empty() =~= Seq::<bool>::empty());
    loop
        invariant
            v <= value,
            exp_golomb_encoding(value as nat, order as nat) == prepend(bins@, exp_golomb_encoding(v as nat, k as nat)),
        decreases 32 - k as int,
    {
        if k >= 32 {
            return Err(SyntaxError::ExpGolombOverflow);
        }
        proof {
            vstd::bits::lemma_u32_pow2_no_overflow(k as nat);
            vstd::bits::lemma_u32_shl_is_mul(1, k as u32);
        }
        let threshold = 1u32 << k as u32;
        if v >= threshold {
            let ghost before = bins@;
            bins.push(true);
            v = v - threshold;
            k = k + 1;
            proof {
                let rest = exp_golomb_encoding(v as nat, k as nat);
                match rest {
                    Ok(t) => {
                        assert(before + (seq![true] + t) =~= bins@ + t);
                    },
                    Err(_) => {},
                }
            }
        } else {
            let ghost before = bins@;
            bins.push(false);
            push_msb(&mut bins, v as u64, k as u32);
            assert(bins@ =~= before + (seq![false] + msb_bins(v as nat, k as nat)));
            return Ok(bins);
        }
    }
}

fn limited_exp_golomb(value: u32, rice_parameter: u8, log2_transform_range: u8) -> (r: Result<Vec<bool>, SyntaxError>)
    ensures
        match limited_exp_golomb_encoding(value, rice_parameter, log2_transform_range) {
            Ok(s) => r matches Ok(v) && v@ == s,
            Err(e) => r == Err::<Vec<bool>, SyntaxError>(e),
        },
{
    if rice_parameter >= 32 || !(1 <= log2_transform_range && log2_transform_range <= 28) {
        return Err(SyntaxError::InvalidSyntaxValue("limited EGk parameters are out of range"));
    }
    let max_prefix_extension_length = 28 - log2_transform_range;
    proof {
        vstd::bits::lemma_u32_shr_is_div(value, rice_parameter as u32);
    }
    let code_value = value >> rice_parameter as u32;
    let mut prefix_extension_length: u8 = 0;
    let mut bins: Vec<bool> = Vec::new();
    loop
        invariant
            prefix_extension_length <= max_prefix_extension_length <= 27,
            code_value as nat == value as nat / pow2(rice_parameter as nat),
            limited_prefix_len(code_value as nat, prefix_extension_length as nat, max_prefix_extension_length as nat)
                == limited_prefix_len(code_value as nat, 0, max_prefix_extension_length as nat),
            bins@ == ones(prefix_extension_length as nat),
        ensures
            prefix_extension_length <= max_prefix_extension_length <= 27,
            limited_prefix_len(code_value as nat, prefix_extension_length as nat, max_prefix_extension_length as nat)
                == limited_prefix_len(code_value as nat, 0, max_prefix_extension_length as nat),
            limited_prefix_len(code_value as nat, prefix_extension_length as nat, max_prefix_extension_length as nat)
                == prefix_extension_length,
            bins@ == ones(prefix_extension_length as nat),
        decreases max_prefix_extension_length - prefix_extension_length,
    {
        proof {
            vstd::bits::lemma_u64_pow2_no_overflow((prefix_extension_length + 1) as nat);
            vstd::arithmetic::power2::lemma_pow2_unfold((prefix_extension_length + 1) as nat);
            vstd::arithmetic::power2::lemma_pow2_pos(prefix_extension_length as nat);
            vstd::bits::lemma_u64_shl_is_mul(2, prefix_extension_length as u64);
        }
        if !(prefix_extension_length < max_prefix_extension_length
            && (code_value as u64) > ((2u64 << prefix_extension_length as u64) - 2)) {
            break;
        }
        bins.push(true);
        prefix_extension_length += 1;
        assert(bins@ =~= ones(prefix_extension_length as nat));
    }
    let ghost pel = prefix_extension_length as nat;
    assert(limited_prefix_len(code_value as nat, pel, max_prefix_extension_length as nat) == pel);
    let escape_length = if prefix_extension_length == max_prefix_extension_length {
        log2_transform_range
    } else {
        bins.push(false);
        prefix_extension_length + rice_parameter
    };
    proof {
        vstd::bits::lemma_u64_pow2_no_overflow(pel);
        vstd::bits::lemma_u64_shl_is_mul(1, pel as u64);
        vstd::arithmetic::power2::lemma_pow2_pos(pel);
        vstd::arithmetic::power2::lemma_pow2_strictly_increases(pel, 32);
        vstd::arithmetic::power2::lemma_pow2_strictly_increases(rice_parameter as nat, 32);
        vstd::arithmetic::power2::lemma2_to64();
        vstd::arithmetic::power2::lemma2_to64_rest();
        assert((pow2(pel) - 1) * pow2(rice_parameter as nat) <= 0xffff_ffff_ffff_ffff) by (nonlinear_arith)
            requires pow2(pel) <= 0x1_0000_0000, pow2(rice_parameter as nat) <= 0x1_0000_0000;
        vstd::bits::lemma_u64_shl_is_mul(((1u64 << pel as u64) - 1) as u64, rice_parameter as u64);
    }
    let base = ((1u64 << prefix_extension_length as u64) - 1) << rice_parameter as u64;
    if (value as u64) < base {
        return Err(SyntaxError::InvalidSyntaxValue("limited EGk value is below its prefix base"));
    }
    let symbol_value = value as u64 - base;
    if escape_length < 32 {
        proof {
            vstd::bits::lemma_u64_pow2_no_overflow(escape_length as nat);
            vstd::bits::lemma_u64_shl_is_mul(1, escape_length as u64);
        }
        if symbol_value >= (1u64 << escape_length as u64) {
            return Err(SyntaxError::InvalidSyntaxValue("limited EGk suffix exceeds its coded width"));
        }
    }
    let ghost before = bins@;
    push_msb(&mut bins, symbol_value, escape_length as u32);
    proof {
        if prefix_extension_length == max_prefix_extension_length {
            assert(bins@ =~= ones(pel) + Seq::<bool>::empty() + msb_bins(symbol_value as nat, escape_length as nat));
        } else {
            assert(bins@ =~= ones(pel) + seq![false] + msb_bins(symbol_value as nat, escape_length as nat));
        }
    }
    Ok(bins)
}

proof fn lemma_bit_length_bounds(n: nat)
    ensures
        n < pow2(bit_length(n)),
        n >= 1 ==> pow2((bit_length(n) - 1) as nat) <= n,
        n >= 1 ==> bit_length(n) >= 1,
    decreases n,
{
    vstd::arithmetic::power2::lemma2_to64();
    if n > 0 {
        lemma_bit_length_bounds(n / 2);
        vstd::arithmetic::power2::lemma_pow2_unfold(bit_length(n));
        if n / 2 >= 1 {
            vstd::arithmetic::power2::lemma_pow2_unfold((bit_length(n) - 1) as nat);
        }
    }
}

proof fn lemma_bit_length_mask(k: nat)
    ensures
        bit_length((pow2(k) - 1) as nat) == k,
    decreases k,
{
    vstd::arithmetic::power2::lemma2_to64();
    if k > 0 {
        vstd::arithmetic::power2::lemma_pow2_unfold(k);
        vstd::arithmetic::power2::lemma_pow2_pos((k - 1) as nat);
        assert(((pow2(k) - 1) as nat) / 2 == (pow2((k - 1) as nat) - 1) as nat);
        lemma_bit_length_mask((k - 1) as nat);
    }
}

proof fn lemma_tb_params(c_max: u32)
    ensures
        ({
            let (k, u) = tb_params(c_max);
            &&& k <= 32
            &&& pow2(k) <= c_max + 1 < pow2(k + 1)
            &&& 1 <= u <= pow2(k)
            &&& (k == 32 ==> c_max == u32::MAX)
        }),
{
    let n = (c_max + 1) as nat;
    lemma_bit_length_bounds(n);
    let k = (bit_length(n) - 1) as nat;
    vstd::arithmetic::power2::lemma_pow2_unfold(k + 1);
    vstd::arithmetic::power2::lemma2_to64();
    vstd::arithmetic::power2::lemma2_to64_rest();
    if k > 32 {
        vstd::arithmetic::power2::lemma_pow2_strictly_increases(32, k);
    }
    if k == 32 {
        assert(pow2(32) == 0x1_0000_0000);
    }
}

proof fn lemma_msb_index(v: nat, w: nat)
    ensures
        msb_bins(v, w).len() == w,
        forall|j: int| 0 <= j < w ==> #[trigger] msb_bins(v, w)[j] == bit_of(v, (w - 1 - j) as nat),
    decreases w,
{
    if w > 0 {
        lemma_msb_index(v / 2, (w - 1) as nat);
        assert forall|j: int| 0 <= j < w implies #[trigger] msb_bins(v, w)[j] == bit_of(v, (w - 1 - j) as nat) by {
            if j < w - 1 {
                let e = (w - 2 - j) as nat;
                vstd::arithmetic::power2::lemma_pow2_unfold(e + 1);
                vstd::arithmetic::power2::lemma_pow2_pos(e);
                vstd::arithmetic::div_mod::lemma_div_denominator(v as int, 2, pow2(e) as int);
                assert(2 * pow2(e) == pow2(e + 1));
                assert(msb_bins(v / 2, (w - 1) as nat)[j] == bit_of(v / 2, e));
                assert(msb_bins(v, w)[j] == msb_bins(v / 2, (w - 1) as nat)[j]);
                assert((v / 2) / pow2(e) == v / pow2(e + 1));
            } else {
                assert(pow2(0) == 1) by {
                    vstd::arithmetic::power2::lemma2_to64();
                }
                assert(v / 1 == v);
                assert(msb_bins(v, w)[j] == (v % 2 == 1));
            }
        }
    }
}


fn decode_fixed(bins: &[bool], c_max: u32) -> (r: Result<u32, SyntaxError>)
    ensures
        r == fixed_decoding(bins@, c_max),
{
    let width = bit_width(c_max as u64);
    if bins.len() != width as usize {
        return Err(SyntaxError::InvalidSyntaxValue("fixed bin string has the wrong length"));
    }
    let ghost all = bins@.subrange(0, bins@.len() as int);
    assert(all =~= bins@);
    let value = fold_range(bins, 0, bins.len()) as u32;
    if value <= c_max {
        Ok(value)
    } else {
        Err(SyntaxError::InvalidSyntaxValue("fixed bin string exceeds cMax"))
    }
}

fn decode_truncated_binary(bins: &[bool], c_max: u32) -> (r: Result<u32, SyntaxError>)
    requires
        !decoding_undefined(bins@, Binarization::TruncatedBinary { c_max }),
    ensures
        r == truncated_binary_decoding(bins@, c_max),
{
    let n = c_max as u64 + 1;
    proof {
        lemma_tb_params(c_max);
    }
    let k = bit_width(n) - 1;
    proof {
        vstd::bits::lemma_u64_pow2_no_overflow((k + 1) as nat);
        vstd::bits::lemma_u64_shl_is_mul(1, (k + 1) as u64);
        vstd::bits::lemma_u64_pow2_no_overflow(k as nat);
        vstd::bits::lemma_u64_shl_is_mul(1, k as u64);
    }
    let u = (1u64 << (k + 1) as u64) - n;
    assert(bins@.subrange(0, bins@.len() as int) =~= bins@);
    let raw = fold_range(bins, 0, bins.len());
    if bins.len() == k as usize && raw < u {
        return decode_fixed(bins, ((1u64 << k as u64) - 1) as u32);
    }
    if bins.len() != (k + 1) as usize {
        return Err(SyntaxError::InvalidSyntaxValue("truncated binary bin string has the wrong length"));
    }
    Ok((raw - u) as u32)
}

fn decode_truncated_rice(bins: &[bool], c_max: u32, rice: u8) -> (r: Result<u32, SyntaxError>)
    requires
        rice < 32,
    ensures
        r == truncated_rice_decoding(bins@, c_max, rice),
{
    let mut zero: usize = 0;
    while zero < bins.len() && bins[zero]
        invariant
            zero <= bins@.len(),
            first_false(bins@, zero as int) == first_false(bins@, 0),
        decreases bins@.len() - zero,
    {
        zero += 1;
    }
    proof {
        vstd::bits::lemma_u32_shr_is_div(c_max, rice as u32);
    }
    if zero == bins.len() {
        let expected = (c_max >> rice as u32) as usize;
        if bins.len() != expected {
            return Err(SyntaxError::InvalidSyntaxValue("truncated Rice bin string has the wrong length"));
        }
        return Ok(c_max);
    }
    let prefix_value = (zero as u32) << rice as u32;
    let suffix_len = rice as usize;
    if bins.len() - zero - 1 != suffix_len {
        return Err(SyntaxError::InvalidSyntaxValue("truncated Rice bin string has the wrong length"));
    }
    let ghost tail = bins@.subrange(zero + 1, bins@.len() as int);
    let suffix = if suffix_len != 0 {
        fold_range(bins, zero + 1, bins.len()) as u32
    } else {
        0
    };
    proof {
        lemma_fold64_bound(tail);
        vstd::bits::lemma_u32_pow2_no_overflow(rice as nat);
        vstd::bits::lemma_u32_shl_is_mul(1, rice as u32);
        if suffix_len == 0 {
            assert(tail =~= Seq::<bool>::empty());
        }
        let rr = rice as u32;
        let x = zero as u32;
        assert((x << rr) as int + (suffix as int) <= 0xffff_ffff) by (bit_vector)
            requires rr < 32, suffix < (1u32 << rr);
    }
    let value = prefix_value + suffix;
    if value > c_max {
        return Err(SyntaxError::InvalidSyntaxValue("truncated Rice bin string exceeds cMax"));
    }
    Ok(value)
}

fn decode_exp_golomb(bins: &[bool], order: u8) -> (r: Result<u32, SyntaxError>)
    ensures
        r == exp_golomb_decoding(bins@, 0, order as nat, 0),
{
    let mut index: usize = 0;
    let mut value: u32 = 0;
    let mut k: u8 = order;
    loop
        invariant
            index <= bins@.len(),
            exp_golomb_decoding(bins@, index as int, k as nat, value as nat)
                == exp_golomb_decoding(bins@, 0, order as nat, 0),
        decreases bins@.len() - index,
    {
        if index >= bins.len() {
            return Err(SyntaxError::UnexpectedEnd { requested: 1, remaining: 0 });
        }
        let bit = bins[index];
        index += 1;
        if bit {
            if k >= 32 {
                return Err(SyntaxError::ExpGolombOverflow);
            }
            proof {
                vstd::bits::lemma_u32_pow2_no_overflow(k as nat);
                vstd::bits::lemma_u32_shl_is_mul(1, k as u32);
            }
            let threshold = 1u32 << k as u32;
            value = match value.checked_add(threshold) {
                Some(v) => v,
                None => return Err(SyntaxError::ExpGolombOverflow),
            };
            k = k + 1;
        } else {
            if bins.len() - index < k as usize {
                return Err(SyntaxError::UnexpectedEnd { requested: 1, remaining: 0 });
            }
            let end = index + k as usize;
            if end != bins.len() {
                return Err(SyntaxError::InvalidSyntaxValue("Exp-Golomb bin string has trailing bins"));
            }
            let suffix = fold_range(bins, index, end) as u32;
            return match value.checked_add(suffix) {
                Some(v) => Ok(v),
                None => Err(SyntaxError::ExpGolombOverflow),
            };
        }
    }
}

fn decode_limited_exp_golomb(bins: &[bool], rice_parameter: u8, log2_transform_range: u8) -> (r: Result<u32, SyntaxError>)
    ensures
        r == limited_exp_golomb_decoding(bins@, rice_parameter, log2_transform_range),
{
    if rice_parameter >= 32 || !(1 <= log2_transform_range && log2_transform_range <= 28) {
        return Err(SyntaxError::InvalidSyntaxValue("limited EGk parameters are out of range"));
    }
    let max_prefix_extension_length = 28 - log2_transform_range;
    let ghost max_p = max_prefix_extension_length as nat;
    let mut prefix_extension_length: u8 = 0;
    let mut index: usize = 0;
    let mut stopped = false;
    while prefix_extension_length < max_prefix_extension_length && !stopped
        invariant
            rice_parameter < 32,
            1 <= log2_transform_range <= 28,
            max_prefix_extension_length == 28 - log2_transform_range,
            max_p == max_prefix_extension_length as nat,
            prefix_extension_length <= max_prefix_extension_length <= 27,
            !stopped ==> index == prefix_extension_length
                && limited_prefix_decoding(bins@, prefix_extension_length as nat, max_p)
                    == limited_prefix_decoding(bins@, 0, max_p),
            stopped ==> limited_prefix_decoding(bins@, 0, max_p) == Ok::<(nat, int), SyntaxError>(
                (prefix_extension_length as nat, index as int),
            ) && prefix_extension_length < max_prefix_extension_length,
            index <= bins@.len(),
        decreases max_prefix_extension_length - prefix_extension_length, if stopped { 0int } else { 1int },
    {
        if index >= bins.len() {
            return Err(SyntaxError::UnexpectedEnd { requested: 1, remaining: 0 });
        }
        let bit = bins[index];
        index += 1;
        if !bit {
            stopped = true;
        } else {
            prefix_extension_length += 1;
        }
    }
    assert(limited_prefix_decoding(bins@, 0, max_p) == Ok::<(nat, int), SyntaxError>(
        (prefix_extension_length as nat, index as int),
    ));
    let escape_length = if prefix_extension_length == max_prefix_extension_length {
        log2_transform_range
    } else {
        prefix_extension_length + rice_parameter
    };
    if bins.len() - index < escape_length as usize {
        return Err(SyntaxError::UnexpectedEnd { requested: 1, remaining: 0 });
    }
    let end = index + escape_length as usize;
    let suffix = fold_range(bins, index, end);
    if end != bins.len() {
        return Err(SyntaxError::InvalidSyntaxValue("limited EGk bin string has trailing bins"));
    }
    let ghost pel = prefix_extension_length as nat;
    proof {
        vstd::bits::lemma_u64_pow2_no_overflow(pel);
        vstd::bits::lemma_u64_shl_is_mul(1, pel as u64);
        vstd::arithmetic::power2::lemma_pow2_pos(pel);
        vstd::arithmetic::power2::lemma_pow2_strictly_increases(pel, 32);
        vstd::arithmetic::power2::lemma_pow2_strictly_increases(rice_parameter as nat, 32);
        vstd::arithmetic::power2::lemma2_to64();
        vstd::arithmetic::power2::lemma2_to64_rest();
        assert((pow2(pel) - 1) * pow2(rice_parameter as nat) <= 0xffff_ffff_ffff_ffff) by (nonlinear_arith)
            requires pow2(pel) <= 0x1_0000_0000, pow2(rice_parameter as nat) <= 0x1_0000_0000;
        vstd::bits::lemma_u64_shl_is_mul(((1u64 << pel as u64) - 1) as u64, rice_parameter as u64);
        vstd::bits::lemma_u64_pow2_no_overflow((pel + 1) as nat);
        vstd::arithmetic::power2::lemma_pow2_unfold((pel + 1) as nat);
        vstd::bits::lemma_u64_shl_is_mul(2, pel as u64);
    }
    let base = ((1u64 << prefix_extension_length as u64) - 1) << rice_parameter as u64;
    let value = match base.checked_add(suffix) {
        Some(v) => v,
        None => return Err(SyntaxError::ExpGolombOverflow),
    };
    proof {
        vstd::bits::lemma_u64_shr_is_div(value, rice_parameter as u64);
    }
    if prefix_extension_length < max_prefix_extension_length
        && (value >> rice_parameter as u64) > ((2u64 << prefix_extension_length as u64) - 2) {
        return Err(SyntaxError::InvalidSyntaxValue("limited EGk prefix and suffix are inconsistent"));
    }
    if value > 0xffff_ffff {
        return Err(SyntaxError::ExpGolombOverflow);
    }
    Ok(value as u32)
}

proof fn lemma_fold64_bound(s: Seq<bool>)
    requires
        s.len() <= 63,
    ensures
        fold64(s) < pow2(s.len()),
        fold64(s) == bins_value(s),
    decreases s.len(),
{
    vstd::arithmetic::power2::lemma2_to64();
    if s.len() > 0 {
        lemma_fold64_bound(s.drop_last());
        let x = fold64(s.drop_last());
        let b: u64 = if s.last() { 1 } else { 0 };
        vstd::arithmetic::power2::lemma_pow2_unfold(s.len());
        vstd::arithmetic::power2::lemma_pow2_strictly_increases((s.len() - 1) as nat, 63);
        vstd::arithmetic::power2::lemma2_to64_rest();
        assert((x << 1u64) | b == 2 * x + b) by (bit_vector)
            requires x < 0x8000_0000_0000_0000, b <= 1;
    }
}


proof fn lemma_bins_value_msb(v: nat, w: nat)
    ensures
        bins_value(msb_bins(v, w)) == v % pow2(w),
        msb_bins(v, w).len() == w,
    decreases w,
{
    vstd::arithmetic::power2::lemma2_to64();
    if w > 0 {
        lemma_bins_value_msb(v / 2, (w - 1) as nat);
        let m = msb_bins(v, w);
        assert(m.drop_last() =~= msb_bins(v / 2, (w - 1) as nat));
        vstd::arithmetic::power2::lemma_pow2_unfold(w);
        vstd::arithmetic::power2::lemma_pow2_pos((w - 1) as nat);
        vstd::arithmetic::div_mod::lemma_breakdown(v as int, 2, pow2((w - 1) as nat) as int);
    }
}

proof fn lemma_fold_msb(v: nat, w: nat)
    requires
        w <= 63,
        v < pow2(w),
    ensures
        fold64(msb_bins(v, w)) == v,
        msb_bins(v, w).len() == w,
{
    lemma_bins_value_msb(v, w);
    lemma_fold64_bound(msb_bins(v, w));
    vstd::arithmetic::div_mod::lemma_small_mod(v, pow2(w));
}

proof fn lemma_first_false_after_ones(p: nat, rest: Seq<bool>, from: int)
    requires
        0 <= from <= p,
        rest.len() > 0 ==> !rest[0],
    ensures
        first_false(ones(p) + rest, from) == p as int,
    decreases p - from,
{
    if from < p {
        lemma_first_false_after_ones(p, rest, from + 1);
    }
}

proof fn lemma_exp_golomb_round_trip(pre: Seq<bool>, v: nat, k: nat, acc: nat)
    requires
        exp_golomb_encoding(v, k) is Ok,
        acc + v <= u32::MAX,
    ensures
        exp_golomb_decoding(pre + exp_golomb_encoding(v, k)->Ok_0, pre.len() as int, k, acc) == Ok::<u32, SyntaxError>(
            (acc + v) as u32,
        ),
    decreases 32 - k,
{
    vstd::arithmetic::power2::lemma2_to64();
    let s = exp_golomb_encoding(v, k)->Ok_0;
    let bins = pre + s;
    if v >= pow2(k) {
        let t = exp_golomb_encoding((v - pow2(k)) as nat, k + 1)->Ok_0;
        assert(s == seq![true] + t);
        assert(bins =~= (pre + seq![true]) + t);
        lemma_exp_golomb_round_trip(pre + seq![true], (v - pow2(k)) as nat, k + 1, acc + pow2(k));
        assert(bins[pre.len() as int]);
    } else {
        vstd::arithmetic::power2::lemma_pow2_strictly_increases(k, 63);
        lemma_fold_msb(v, k);
        assert(s == seq![false] + msb_bins(v, k));
        assert(bins.subrange(pre.len() as int + 1, bins.len() as int) =~= msb_bins(v, k));
        assert(!bins[pre.len() as int]);
        vstd::arithmetic::power2::lemma_pow2_strictly_increases(k, 32);
    }
}

proof fn lemma_limited_prefix_decoding(p: nat, max_p: nat, rest: Seq<bool>, from: nat)
    requires
        from <= p <= max_p,
        p < max_p ==> rest.len() > 0 && !rest[0],
    ensures
        limited_prefix_decoding(ones(p) + rest, from, max_p) == Ok::<(nat, int), SyntaxError>(
            (p, if p < max_p { p as int + 1 } else { p as int }),
        ),
    decreases p - from,
{
    let bins = ones(p) + rest;
    if from < p {
        assert(bins[from as int]);
        lemma_limited_prefix_decoding(p, max_p, rest, from + 1);
    } else if p < max_p {
        assert(bins[p as int] == rest[0]);
    }
}

proof fn lemma_limited_prefix_len(code: nat, p: nat, max_p: nat)
    requires
        p <= max_p,
    ensures
        p <= limited_prefix_len(code, p, max_p) <= max_p,
        limited_prefix_len(code, p, max_p) < max_p ==> code <= pow2(limited_prefix_len(code, p, max_p) + 1) - 2,
    decreases max_p - p,
{
    if p < max_p && code > pow2(p + 1) - 2 {
        lemma_limited_prefix_len(code, p + 1, max_p);
    }
}

proof fn lemma_limited_round_trip(value: u32, rice: u8, log2_range: u8)
    requires
        limited_exp_golomb_encoding(value, rice, log2_range) is Ok,
    ensures
        limited_exp_golomb_decoding(limited_exp_golomb_encoding(value, rice, log2_range)->Ok_0, rice, log2_range)
            == Ok::<u32, SyntaxError>(value),
{
    vstd::arithmetic::power2::lemma2_to64();
    vstd::arithmetic::power2::lemma2_to64_rest();
    let max_p = (28 - log2_range) as nat;
    let r = rice as nat;
    let pr = pow2(r);
    vstd::arithmetic::power2::lemma_pow2_pos(r);
    let code = value as nat / pr;
    lemma_limited_prefix_len(code, 0, max_p);
    let pel = limited_prefix_len(code, 0, max_p);
    let escape: nat = if pel == max_p { log2_range as nat } else { pel + r };
    let base = (pow2(pel) - 1) * pr;
    let d = (value as int - base) as nat;
    assert(escape <= 63);
    assert(d < pow2(escape)) by {
        if escape >= 32 {
            if escape > 32 {
                vstd::arithmetic::power2::lemma_pow2_strictly_increases(32, escape);
            }
            vstd::arithmetic::power2::lemma_pow2_pos(pel);
            assert(base >= 0) by (nonlinear_arith)
                requires base == (pow2(pel) - 1) * pr, pow2(pel) > 0, pr > 0;
        }
    }
    let mid: Seq<bool> = if pel == max_p { Seq::empty() } else { seq![false] };
    let tail = msb_bins(d, escape);
    lemma_fold_msb(d, escape);
    let s = limited_exp_golomb_encoding(value, rice, log2_range)->Ok_0;
    assert(s == ones(pel) + mid + tail);
    assert(ones(pel) + mid + tail =~= ones(pel) + (mid + tail));
    lemma_limited_prefix_decoding(pel, max_p, mid + tail, 0);
    let idx: int = if pel < max_p { pel as int + 1 } else { pel as int };
    assert(s.subrange(idx, s.len() as int) =~= tail);
    if pel < max_p {
        assert(value as int / (pr as int) == code);
    }
}

/// Decoding the bins that encoding produces gives the value back, for every
/// binarization; such bins are never ones that decoding cannot handle.
pub proof fn lemma_binarization_round_trip(value: u32, b: Binarization)
    requires
        encoding(value, b) is Ok,
    ensures
        !decoding_undefined(encoding(value, b)->Ok_0, b),
        decoding(encoding(value, b)->Ok_0, b) == Ok::<u32, SyntaxError>(value),
{
    vstd::arithmetic::power2::lemma2_to64();
    vstd::arithmetic::power2::lemma2_to64_rest();
    match b {
        Binarization::Fixed { c_max } => {
            let w = bit_length(c_max as nat);
            lemma_bit_length_bounds(c_max as nat);
            if w > 33 {
                vstd::arithmetic::power2::lemma_pow2_strictly_increases(32, (w - 1) as nat);
            }
            assert(w <= 32);
            vstd::arithmetic::power2::lemma_pow2_strictly_increases(w, 63);
            lemma_fold_msb(value as nat, w);
        },
        Binarization::TruncatedBinary { c_max } => {
            lemma_tb_params(c_max);
            let (k, u) = tb_params(c_max);
            lemma_bit_length_mask(k);
            if (value as int) < u {
                lemma_fold_msb(value as nat, k);
            } else {
                lemma_fold_msb((value + u) as nat, k + 1);
            }
        },
        Binarization::TruncatedRice { c_max, rice_parameter } => {
            let r = rice_parameter as nat;
            let pr = pow2(r);
            vstd::arithmetic::power2::lemma_pow2_pos(r);
            vstd::arithmetic::div_mod::lemma_div_is_ordered(value as int, c_max as int, pr as int);
            let s = encoding(value, b)->Ok_0;
            let p = (value as nat / pr) as nat;
            if c_max > value {
                let rest = seq![false] + msb_bins(value as nat, r);
                lemma_first_false_after_ones(p, rest, 0);
                lemma_bins_value_msb(value as nat, r);
                vstd::arithmetic::power2::lemma_pow2_strictly_increases(r, 32);
                lemma_fold64_bound(msb_bins(value as nat, r));
                assert(s.subrange(p as int + 1, s.len() as int) =~= msb_bins(value as nat, r));
                vstd::arithmetic::div_mod::lemma_fundamental_div_mod(value as int, pr as int);
                assert(p * pr <= value) by (nonlinear_arith)
                    requires p == value as nat / pr, pr > 0;
                vstd::bits::lemma_u32_shl_is_mul(p as u32, r as u32);
                assert(p * pr + value as nat % pr == value) by (nonlinear_arith)
                    requires p == value as nat / pr, pr > 0;
            } else {
                lemma_first_false_after_ones(p, Seq::<bool>::empty(), 0);
                assert(s =~= ones(p) + Seq::<bool>::empty());
            }
        },
        Binarization::ExpGolomb { order } => {
            lemma_exp_golomb_round_trip(Seq::empty(), value as nat, order as nat, 0);
            assert(Seq::<bool>::empty() + encoding(value, b)->Ok_0 =~= encoding(value, b)->Ok_0);
        },
        Binarization::LimitedExpGolomb { rice_parameter, log2_transform_range } => {
            lemma_limited_round_trip(value, rice_parameter, log2_transform_range);
        },
    }
}

} // verus!
