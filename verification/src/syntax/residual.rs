//! Position rules of `residual_coding()` (§7.3.8.11, §7.4.9.11).
use vstd::prelude::*;
use vstd::arithmetic::power2::pow2;
use crate::geometry::power_of_two_spec;
use crate::scan::{diagonal_scan, horizontal_scan, up_right_diagonal_scan, vertical_scan};
use super::SyntaxError;

verus! {

/// `LastSignificantCoeffX` (or `Y`) of (7-78)/(7-79) for a prefix and an
/// optional suffix: the prefix itself up to 3, otherwise
/// `(1 << ((prefix >> 1) - 1)) * (2 + (prefix & 1)) + suffix`.
pub open spec fn last_coeff_value(prefix: u64, suffix: Option<u64>) -> int {
    if prefix <= 3 {
        prefix as int
    } else {
        let s: int = match suffix {
            Some(v) => v as int,
            None => 0,
        };
        pow2((prefix / 2 - 1) as nat) * (2 + prefix % 2) + s
    }
}

/// The prefix and suffix decode to a coordinate inside a block of
/// `1 << log2_size` samples: the block size is representable, a prefix
/// above 3 has a suffix of at most `(prefix >> 1) - 1` bits, and the value
/// lies inside the block and fits `usize`.
pub open spec fn last_coeff_decodes(prefix: u64, suffix: Option<u64>, log2_size: u8) -> bool {
    &&& log2_size < 64
    &&& (prefix <= 3 || (suffix matches Some(s) && s < pow2((prefix / 2 - 1) as nat)))
    &&& last_coeff_value(prefix, suffix) < pow2(log2_size as nat)
    &&& last_coeff_value(prefix, suffix) <= usize::MAX
}

/// Decodes the last significant coefficient coordinate from its prefix and
/// suffix, rejecting values outside the transform block.
pub fn decode_last_coeff_coordinate(prefix: u64, suffix: Option<u64>, log2_trafo_size: u8) -> (r: Result<usize, SyntaxError>)
    ensures
        r is Ok <==> last_coeff_decodes(prefix, suffix, log2_trafo_size),
        r matches Ok(v) ==> v == last_coeff_value(prefix, suffix),
        r matches Err(e) ==> e is InvalidSyntaxValue,
{
    proof {
        vstd::arithmetic::power2::lemma2_to64();
        vstd::arithmetic::power2::lemma2_to64_rest();
    }
    if log2_trafo_size >= 64 {
        return Err(SyntaxError::InvalidSyntaxValue("transform size overflows"));
    }
    proof {
        vstd::bits::lemma_u64_pow2_no_overflow(log2_trafo_size as nat);
        vstd::bits::lemma_u64_shl_is_mul(1, log2_trafo_size as u64);
    }
    let size: u64 = 1u64 << (log2_trafo_size as u64);
    let coordinate: u64 = if prefix <= 3 {
        prefix
    } else {
        let shift: u64 = prefix / 2 - 1;
        if shift > usize::MAX as u64 {
            proof {
                vstd::arithmetic::power2::lemma_pow2_strictly_increases(64, shift as nat);
                vstd::arithmetic::power2::lemma_pow2_strictly_increases(log2_trafo_size as nat, 64);
                assert(last_coeff_value(prefix, suffix) >= pow2(shift as nat)) by (nonlinear_arith)
                    requires pow2(shift as nat) >= 0, last_coeff_value(prefix, suffix) == pow2(shift as nat) * (2 + prefix % 2) + match suffix {
                        Some(v) => v as int,
                        None => 0,
                    };
            }
            return Err(SyntaxError::InvalidSyntaxValue("coefficient suffix is too large"));
        }
        let s = match suffix {
            Some(v) => v,
            None => return Err(SyntaxError::InvalidSyntaxValue("coefficient suffix is missing")),
        };
        if shift >= 64 {
            proof {
                if shift > 64 {
                    vstd::arithmetic::power2::lemma_pow2_strictly_increases(64, shift as nat);
                }
                vstd::arithmetic::power2::lemma_pow2_strictly_increases(log2_trafo_size as nat, 64);
                assert(pow2(shift as nat) * (2 + prefix % 2) + s >= pow2(shift as nat)) by (nonlinear_arith)
                    requires pow2(shift as nat) >= 0, s >= 0, prefix % 2 >= 0;
            }
            return Err(SyntaxError::InvalidSyntaxValue("coefficient prefix overflows"));
        }
        proof {
            vstd::bits::lemma_u64_pow2_no_overflow(shift as nat);
            vstd::bits::lemma_u64_shl_is_mul(1, shift);
        }
        let base: u64 = 1u64 << shift;
        if s >= base {
            return Err(SyntaxError::InvalidSyntaxValue("coefficient suffix exceeds its coded width"));
        }
        let factor: u64 = 2 + prefix % 2;
        match base.checked_mul(factor) {
            None => {
                proof {
                    vstd::arithmetic::power2::lemma_pow2_strictly_increases(log2_trafo_size as nat, 64);
                }
                return Err(SyntaxError::InvalidSyntaxValue("last coefficient coordinate overflows"));
            },
            Some(m) => match m.checked_add(s) {
                None => {
                    proof {
                        vstd::arithmetic::power2::lemma_pow2_strictly_increases(log2_trafo_size as nat, 64);
                    }
                    return Err(SyntaxError::InvalidSyntaxValue("last coefficient coordinate overflows"));
                },
                Some(c) => c,
            },
        }
    };
    if coordinate >= size {
        return Err(SyntaxError::InvalidSyntaxValue("last coefficient coordinate exceeds transform block"));
    }
    if coordinate > usize::MAX as u64 {
        return Err(SyntaxError::InvalidSyntaxValue("last coefficient coordinate is too large"));
    }
    Ok(coordinate as usize)
}

/// The coefficient scan of `scanIdx` for a `size`x`size` block: up-right
/// diagonal (0), horizontal (1) or vertical (2), as `(x, y)` pairs.
pub open spec fn residual_scan_spec(size: int, scan_idx: u8) -> Seq<(u32, u32)> {
    if scan_idx == 0 {
        diagonal_scan(size, 2 * size - 1)
    } else if scan_idx == 1 {
        Seq::new((size * size) as nat, |i: int| ((i % size) as u32, (i / size) as u32))
    } else {
        Seq::new((size * size) as nat, |i: int| ((i / size) as u32, (i % size) as u32))
    }
}

/// Returns the residual coefficient scan selected by `scan_idx` for a square
/// block of side `size`.
pub fn residual_scan_order(size: usize, scan_idx: u8) -> (r: Result<Vec<(usize, usize)>, SyntaxError>)
    requires
        !(power_of_two_spec(size as u32) && size > 32768),
    ensures
        r is Ok <==> size <= u32::MAX && scan_idx <= 2 && power_of_two_spec(size as u32),
        r matches Ok(v) ==> v@.len() == residual_scan_spec(size as int, scan_idx).len() && forall|i: int|
            0 <= i < v@.len() ==> #[trigger] v@[i] == (
                residual_scan_spec(size as int, scan_idx)[i].0 as usize,
                residual_scan_spec(size as int, scan_idx)[i].1 as usize,
            ),
        r matches Err(e) ==> e is InvalidSyntaxValue,
{
    if size > u32::MAX as usize {
        return Err(SyntaxError::InvalidSyntaxValue("residual scan size is too large"));
    }
    let side = size as u32;
    let scanned = if scan_idx == 0 {
        up_right_diagonal_scan(side)
    } else if scan_idx == 1 {
        horizontal_scan(side)
    } else if scan_idx == 2 {
        vertical_scan(side)
    } else {
        return Err(SyntaxError::InvalidSyntaxValue("residual scan index must be zero, one, or two"));
    };
    let coordinates = match scanned {
        Ok(v) => v,
        Err(_) => return Err(SyntaxError::InvalidSyntaxValue("invalid residual scan size")),
    };
    proof {
        if scan_idx != 0 {
            assert(coordinates@ =~= residual_scan_spec(size as int, scan_idx));
        }
    }
    let mut out: Vec<(usize, usize)> = Vec::new();
    let mut i: usize = 0;
    while i < coordinates.len()
        invariant
            coordinates@ == residual_scan_spec(size as int, scan_idx),
            i <= coordinates@.len(),
            out@.len() == i,
            forall|k: int| 0 <= k < i ==> #[trigger] out@[k] == (coordinates@[k].0 as usize, coordinates@[k].1 as usize),
        decreases coordinates@.len() - i,
    {
        let (x, y) = coordinates[i];
        out.push((x as usize, y as usize));
        i += 1;
    }
    Ok(out)
}

} // verus!
