//! Scaling, inverse transform, residual modification and reconstruction (§8.6).
use vstd::prelude::*;
use vstd::arithmetic::power2::pow2;
use super::{clip_sample, clip_to_depth};
use super::picture::{lemma_flat_index, lemma_index_in_plane, lemma_index_injective};
use super::transform_basis::{lemma_entry_bounded, supported_transform_size, transform_entry, transform_entry_exec};
use crate::geometry::Block;

verus! {

/// Parameters used by §§8.6.2–8.6.4.
#[derive(Clone, Copy, Debug, Eq, PartialEq)]
pub struct TransformParameters {
    /// Component index (`0 = Y`, `1 = Cb`, `2 = Cr`).
    pub component: usize,
    /// Component bit depth.
    pub bit_depth: u8,
    /// Quantization parameter.
    pub qp: i32,
    /// Whether the 4x4 intra luma transform is used.
    pub intra_4x4: bool,
    /// Whether the transform is bypassed.
    pub transform_bypass: bool,
}

/// Output `i` of the one-dimensional inverse transform of §8.6.4.2 over the
/// first `n` inputs: `Σ_{j < n} transMatrix[j][i] * input[j]`.
pub open spec fn line_sum(size: int, dst: bool, i: int, input: Seq<i64>, n: int) -> int
    decreases n,
{
    if n <= 0 {
        0
    } else {
        line_sum(size, dst, i, input, n - 1) + transform_entry(size, dst, n - 1, i) * input[n - 1]
    }
}

/// The first-stage (vertical) value at row `r`, column `x` of a `size`x`size`
/// coefficient block.
pub open spec fn vertical_value(coefficients: Seq<i32>, size: int, dst: bool, r: int, x: int) -> int {
    line_sum(size, dst, r, Seq::new(size as nat, |c: int| coefficients[c * size + x] as i64), size)
}

/// The intermediate value `g = Clip3(coeffMin, coeffMax, (e + 64) >> 7)` of
/// §8.6.4.2, with the 16-bit coefficient range.
pub open spec fn intermediate_value(e: int) -> int {
    clip_signed_spec(((e + 64) as i64 >> 7u64) as int, 16)
}

/// The second-stage (horizontal) value at `(row, column)`, taken over the
/// intermediate values of the row.
pub open spec fn inverse_value(coefficients: Seq<i32>, size: int, dst: bool, row: int, column: int) -> int {
    line_sum(
        size,
        dst,
        column,
        Seq::new(size as nat, |k: int| intermediate_value(vertical_value(coefficients, size, dst, row, k)) as i64),
        size,
    )
}

/// `bdShift = Max(20 - bitDepth, 0)` of §8.6.2.
pub open spec fn residual_shift(bit_depth: u8) -> int {
    if bit_depth < 20 {
        20 - bit_depth
    } else {
        0
    }
}

/// The residual sample `(r + (1 << (bdShift - 1))) >> bdShift` of §8.6.2.
pub open spec fn residual_value(coefficients: Seq<i32>, size: int, dst: bool, bit_depth: u8, row: int, column: int) -> int {
    let s = residual_shift(bit_depth);
    let offset = if s == 0 { 0 } else { pow2((s - 1) as nat) };
    ((inverse_value(coefficients, size, dst, row, column) + offset) as i64 >> (s as u64)) as int
}

/// `Clip3(-2^(e), 2^(e) - 1, value)` with `e = Clip3(1, 30, range - 1)`.
pub open spec fn clip_signed_spec(value: int, range: int) -> int {
    let e = if range - 1 < 1 {
        1
    } else if range - 1 > 30 {
        30
    } else {
        range - 1
    };
    let max = pow2(e as nat) - 1;
    if value < -max - 1 {
        -max - 1
    } else if value > max {
        max
    } else {
        value
    }
}

fn clip_signed(value: i64, range: i32) -> (r: i32)
    ensures
        r == clip_signed_spec(value as int, range as int),
{
    let e: i64 = if range <= 2 {
        1
    } else if range >= 31 {
        30
    } else {
        (range - 1) as i64
    };
    proof {
        vstd::arithmetic::power2::lemma2_to64();
        vstd::bits::lemma_u64_pow2_no_overflow(e as nat);
        vstd::bits::lemma_u64_shl_is_mul(1, e as u64);
        vstd::arithmetic::power2::lemma_pow2_strictly_increases(e as nat, 31);
    }
    let max = (1u64 << e as u64) as i64 - 1;
    if value < -max - 1 {
        (-max - 1) as i32
    } else if value > max {
        max as i32
    } else {
        value as i32
    }
}

/// One line of the inverse transform: `output[r] = Σ_c entry(r, c) * input[c]`.
fn one_dimensional_transform(input: &Vec<i64>, size: usize, dst: bool) -> (output: Vec<i64>)
    requires
        supported_transform_size(size as int),
        dst ==> size == 4,
        input@.len() == size,
        forall|c: int| 0 <= c < size ==> -0x1000_0000_0000 <= #[trigger] input@[c] <= 0x1000_0000_0000,
    ensures
        output@.len() == size,
        forall|r: int| 0 <= r < size ==> #[trigger] output@[r] == line_sum(size as int, dst, r, input@, size as int),
        forall|r: int| 0 <= r < size ==> -0x100_0000_0000_0000 <= #[trigger] output@[r] <= 0x100_0000_0000_0000,
{
    let mut output: Vec<i64> = Vec::new();
    let mut row: usize = 0;
    while row < size
        invariant
            supported_transform_size(size as int),
            dst ==> size == 4,
            input@.len() == size,
            forall|c: int| 0 <= c < size ==> -0x1000_0000_0000 <= #[trigger] input@[c] <= 0x1000_0000_0000,
            row <= size,
            output@.len() == row,
            forall|r: int| 0 <= r < row ==> #[trigger] output@[r] == line_sum(size as int, dst, r, input@, size as int),
            forall|r: int| 0 <= r < row ==> -0x100_0000_0000_0000 <= #[trigger] output@[r] <= 0x100_0000_0000_0000,
        decreases size - row,
    {
        let mut sum: i64 = 0;
        let mut column: usize = 0;
        while column < size
            invariant
                supported_transform_size(size as int),
                dst ==> size == 4,
                input@.len() == size,
                forall|c: int| 0 <= c < size ==> -0x1000_0000_0000 <= #[trigger] input@[c] <= 0x1000_0000_0000,
                row < size,
                column <= size,
                sum == line_sum(size as int, dst, row as int, input@, column as int),
                -0x8_0000_0000_0000 * column <= sum <= 0x8_0000_0000_0000 * column,
            decreases size - column,
        {
            let entry = transform_entry_exec(size, dst, column, row);
            let value = input[column];
            assert(-0x8_0000_0000_0000 <= entry * value <= 0x8_0000_0000_0000) by (nonlinear_arith)
                requires -91 <= entry <= 91, -0x1000_0000_0000 <= value <= 0x1000_0000_0000;
            sum = sum + entry * value;
            column += 1;
        }
        output.push(sum);
        row += 1;
    }
    output
}

} // verus!

verus! {

fn coefficient_column(coefficients: &[i32], size: usize, x: usize) -> (column: Vec<i64>)
    requires
        coefficients@.len() == size * size,
        x < size,
    ensures
        column@ == Seq::new(size as nat, |c: int| coefficients@[c * size + x] as i64),
{
    let total = coefficients.len();
    let mut column: Vec<i64> = Vec::new();
    let mut row: usize = 0;
    while row < size
        invariant
            coefficients@.len() == size * size,
            total == size * size,
            x < size,
            row <= size,
            column@ == Seq::new(row as nat, |c: int| coefficients@[c * size + x] as i64),
        decreases size - row,
    {
        proof {
            lemma_index_in_plane(size as int, size as int, x as int, row as int);
        }
        column.push(coefficients[row * size + x] as i64);
        row += 1;
    }
    column
}

/// The first (vertical) stage: entry `r * size + x` is `vertical_value(r, x)`.
fn vertical_stage(coefficients: &[i32], size: usize, dst: bool) -> (stage: Vec<i64>)
    requires
        coefficients@.len() == size * size,
        supported_transform_size(size as int),
        dst ==> size == 4,
    ensures
        stage@.len() == size * size,
        forall|r: int, x: int| 0 <= r < size && 0 <= x < size ==> #[trigger] stage@[r * size + x] == vertical_value(coefficients@, size as int, dst, r, x),
        forall|i: int| 0 <= i < size * size ==> -0x1000_0000_0000 <= #[trigger] stage@[i] <= 0x1000_0000_0000,
{
    let total = coefficients.len();
    let mut stage: Vec<i64> = vec![0i64; size * size];
    let mut x: usize = 0;
    while x < size
        invariant
            supported_transform_size(size as int),
            dst ==> size == 4,
            coefficients@.len() == size * size,
            stage@.len() == size * size,
            x <= size,
            forall|r: int, xx: int| 0 <= r < size && 0 <= xx < x ==> #[trigger] stage@[r * size + xx] == vertical_value(coefficients@, size as int, dst, r, xx),
            forall|i: int| 0 <= i < size * size ==> -0x1000_0000_0000 <= #[trigger] stage@[i] <= 0x1000_0000_0000,
        decreases size - x,
    {
        let column = coefficient_column(coefficients, size, x);
        proof {
            assert forall|c: int| 0 <= c < size implies -0x1000_0000_0000 <= #[trigger] column@[c] <= 0x1000_0000_0000 by {
                assert(column@[c] == coefficients@[c * size + x] as i64);
            }
        }
        let transformed = one_dimensional_transform(&column, size, dst);
        let mut row: usize = 0;
        while row < size
            invariant
                supported_transform_size(size as int),
                stage@.len() == size * size,
                transformed@.len() == size,
                coefficients@.len() == size * size,
                dst ==> size == 4,
                forall|r: int| 0 <= r < size ==> #[trigger] transformed@[r] == vertical_value(coefficients@, size as int, dst, r, x as int),
                forall|r: int| 0 <= r < size ==> -0x100_0000_0000_0000 <= #[trigger] transformed@[r] <= 0x100_0000_0000_0000,
                x < size,
                row <= size,
                forall|r: int, xx: int| 0 <= r < size && 0 <= xx < size && #[trigger] stage@[r * size + xx] != 0 ==> true,
                forall|r: int, xx: int| 0 <= r < size && 0 <= xx < x ==> #[trigger] stage@[r * size + xx] == vertical_value(coefficients@, size as int, dst, r, xx),
                forall|r: int| 0 <= r < row ==> #[trigger] stage@[r * size + x] == vertical_value(coefficients@, size as int, dst, r, x as int),
                forall|i: int| 0 <= i < size * size ==> -0x1000_0000_0000 <= #[trigger] stage@[i] <= 0x1000_0000_0000,
            decreases size - row,
        {
            proof {
                lemma_index_in_plane(size as int, size as int, x as int, row as int);
                lemma_vertical_bound(coefficients@, size as int, dst, row as int, x as int);
            }
            let ghost prior = stage@;
            stage.set(row * size + x, transformed[row]);
            proof {
                assert forall|r: int, xx: int| 0 <= r < size && 0 <= xx < x implies #[trigger] stage@[r * size + xx] == vertical_value(coefficients@, size as int, dst, r, xx) by {
                    lemma_index_in_plane(size as int, size as int, xx, r);
                    lemma_index_injective(size as int, size as int, xx, r, x as int, row as int);
                    assert(stage@[r * size + xx] == prior[r * size + xx]);
                }
                assert forall|r: int| 0 <= r < row + 1 implies #[trigger] stage@[r * size + x] == vertical_value(coefficients@, size as int, dst, r, x as int) by {
                    lemma_index_in_plane(size as int, size as int, x as int, r);
                    lemma_index_injective(size as int, size as int, x as int, r, x as int, row as int);
                }
            }
            row += 1;
        }
        x += 1;
    }
    stage
}

proof fn lemma_line_sum_bound(size: int, dst: bool, r: int, input: Seq<i32>, n: int)
    requires
        supported_transform_size(size),
        dst ==> size == 4,
        0 <= r < size,
        0 <= n <= size,
        input.len() == size,
    ensures
        -91 * 0x8000_0000 * n <= line_sum(size, dst, r, Seq::new(size as nat, |c: int| input[c] as i64), n) <= 91 * 0x8000_0000 * n,
    decreases n,
{
    if n > 0 {
        lemma_line_sum_bound(size, dst, r, input, n - 1);
        lemma_entry_bounded(size, dst, n - 1, r);
        assert(Seq::new(size as nat, |c: int| input[c] as i64)[n - 1] == input[n - 1] as i64);
        let seq = Seq::new(size as nat, |c: int| input[c] as i64);
        let e = transform_entry(size, dst, n - 1, r) as int;
        let v = input[n - 1] as int;
        assert(-91 * 0x8000_0000 <= e * v <= 91 * 0x8000_0000) by (nonlinear_arith)
            requires -91 <= e <= 91, -0x8000_0000 <= v <= 0x7fff_ffff;
        assert(line_sum(size, dst, r, seq, n) == line_sum(size, dst, r, seq, n - 1) + e * v);
        let prev = line_sum(size, dst, r, seq, n - 1);
        assert(-91 * 0x8000_0000 * n <= prev + e * v <= 91 * 0x8000_0000 * n) by (nonlinear_arith)
            requires -91 * 0x8000_0000 * (n - 1) <= prev <= 91 * 0x8000_0000 * (n - 1), -91 * 0x8000_0000 <= e * v <= 91 * 0x8000_0000;
    }
}

proof fn lemma_vertical_bound(coefficients: Seq<i32>, size: int, dst: bool, r: int, x: int)
    requires
        supported_transform_size(size),
        dst ==> size == 4,
        coefficients.len() == size * size,
        0 <= r < size,
        0 <= x < size,
    ensures
        -0x1000_0000_0000 <= vertical_value(coefficients, size, dst, r, x) <= 0x1000_0000_0000,
{
    let column = Seq::new(size as nat, |c: int| coefficients[c * size + x]);
    assert forall|c: int| 0 <= c < size implies 0 <= #[trigger] (c * size + x) < size * size by {
        lemma_index_in_plane(size, size, x, c);
    }
    lemma_line_sum_bound(size, dst, r, column, size);
    assert(Seq::new(size as nat, |c: int| column[c] as i64) == Seq::new(size as nat, |c: int| coefficients[c * size + x] as i64));
    assert(91 * 0x8000_0000 * size <= 0x1000_0000_0000) by (nonlinear_arith)
        requires size <= 32;
}

/// Bound of a transform line over inputs within the 16-bit coefficient range.
proof fn lemma_line_sum_small(size: int, dst: bool, r: int, input: Seq<i64>, n: int)
    requires
        supported_transform_size(size),
        dst ==> size == 4,
        0 <= r < size,
        0 <= n <= size,
        input.len() == size,
        forall|c: int| 0 <= c < size ==> -0x8000 <= #[trigger] input[c] <= 0x8000,
    ensures
        -91 * 0x8000 * n <= line_sum(size, dst, r, input, n) <= 91 * 0x8000 * n,
    decreases n,
{
    if n > 0 {
        lemma_line_sum_small(size, dst, r, input, n - 1);
        lemma_entry_bounded(size, dst, n - 1, r);
        let e = transform_entry(size, dst, n - 1, r) as int;
        let v = input[n - 1] as int;
        assert(-91 * 0x8000 <= e * v <= 91 * 0x8000) by (nonlinear_arith)
            requires -91 <= e <= 91, -0x8000 <= v <= 0x8000;
        let prev = line_sum(size, dst, r, input, n - 1);
        assert(-91 * 0x8000 * n <= prev + e * v <= 91 * 0x8000 * n) by (nonlinear_arith)
            requires -91 * 0x8000 * (n - 1) <= prev <= 91 * 0x8000 * (n - 1), -91 * 0x8000 <= e * v <= 91 * 0x8000;
    }
}

/// An arithmetic right shift does not leave the range `±2^28`.
proof fn lemma_shift_stays_small(x: i64, s: u64)
    requires
        -0x1000_0000 <= x <= 0x1000_0000,
        0 <= s < 64,
    ensures
        -0x1000_0000 <= x >> s <= 0x1000_0000,
{
    assert(-0x1000_0000 <= x <= 0x1000_0000 && 0 <= s < 64 ==> -0x1000_0000 <= x >> s <= 0x1000_0000) by (bit_vector);
}

/// One row of the second (horizontal) stage over the intermediate values of
/// the row, followed by the final `bdShift` rounding.
fn horizontal_row(stage: &Vec<i64>, size: usize, dst: bool, row: usize, shift: u32, offset: i64) -> (out: Vec<i32>)
    requires
        supported_transform_size(size as int),
        dst ==> size == 4,
        stage@.len() == size * size,
        row < size,
        shift <= 20,
        0 <= offset <= 0x8_0000,
        forall|i: int| 0 <= i < size * size ==> -0x1000_0000_0000 <= #[trigger] stage@[i] <= 0x1000_0000_0000,
    ensures
        out@.len() == size,
        forall|c: int| 0 <= c < size ==> #[trigger] out@[c] == ((line_sum(
            size as int,
            dst,
            c,
            Seq::new(size as nat, |k: int| intermediate_value(stage@[row * size + k] as int) as i64),
            size as int,
        ) + offset) as i64 >> (shift as u64)) as int,
{
    let total = stage.len();
    let mut line_input: Vec<i64> = Vec::new();
    let mut k: usize = 0;
    while k < size
        invariant
            stage@.len() == size * size,
            total == size * size,
            row < size,
            k <= size,
            forall|i: int| 0 <= i < size * size ==> -0x1000_0000_0000 <= #[trigger] stage@[i] <= 0x1000_0000_0000,
            line_input@ == Seq::new(k as nat, |c: int| intermediate_value(stage@[row * size + c] as int) as i64),
        decreases size - k,
    {
        proof {
            lemma_index_in_plane(size as int, size as int, k as int, row as int);
        }
        let e = stage[row * size + k];
        let g = clip_signed((e + 64) >> 7u64, 16);
        line_input.push(g as i64);
        k += 1;
    }
    proof {
        assert forall|c: int| 0 <= c < size implies -0x8000 <= #[trigger] line_input@[c] <= 0x8000 by {
            vstd::arithmetic::power2::lemma2_to64();
        }
    }
    let line = one_dimensional_transform(&line_input, size, dst);
    let mut out: Vec<i32> = Vec::new();
    let mut column: usize = 0;
    while column < size
        invariant
            supported_transform_size(size as int),
            dst ==> size == 4,
            line@.len() == size,
            shift <= 20,
            0 <= offset <= 0x8_0000,
            forall|c: int| 0 <= c < size ==> -0x8000 <= #[trigger] line_input@[c] <= 0x8000,
            line_input@.len() == size,
            forall|c: int| 0 <= c < size ==> #[trigger] line@[c] == line_sum(size as int, dst, c, line_input@, size as int),
            line_input@ == Seq::new(size as nat, |k: int| intermediate_value(stage@[row * size + k] as int) as i64),
            column <= size,
            out@.len() == column,
            forall|c: int| 0 <= c < column ==> #[trigger] out@[c] == ((line_sum(
                size as int,
                dst,
                c,
                Seq::new(size as nat, |k: int| intermediate_value(stage@[row * size + k] as int) as i64),
                size as int,
            ) + offset) as i64 >> (shift as u64)) as int,
        decreases size - column,
    {
        proof {
            lemma_line_sum_small(size as int, dst, column as int, line_input@, size as int);
            assert(91 * 0x8000 * size <= 0x10_0000_0000) by (nonlinear_arith)
                requires size <= 32;
        }
        let v = line[column] + offset;
        proof {
            lemma_shift_stays_small(v, shift as u64);
        }
        let shifted = v >> (shift as u64);
        out.push(shifted as i32);
        column += 1;
    }
    out
}

/// Performs the separable inverse integer transform of §8.6.4.2 and the
/// residual rounding of §8.6.2: columns first, each result rounded by 7 bits
/// and clipped to 16 bits, then rows, each result rounded by
/// `bdShift = Max(20 - bitDepth, 0)` bits.
pub fn inverse_transform(coefficients: &[i32], size: usize, intra_4x4: bool, bit_depth: u8) -> (r: Vec<i32>)
    requires
        coefficients@.len() == size * size,
        size == 0 || supported_transform_size(size as int),
    ensures
        r@.len() == size * size,
        forall|row: int, column: int|
            0 <= row < size && 0 <= column < size ==> #[trigger] r@[row * size + column] == residual_value(
                coefficients@,
                size as int,
                intra_4x4 && size == 4,
                bit_depth,
                row,
                column,
            ),
        forall|i: int| 0 <= i < size * size ==> #[trigger] r@[i] == residual_value(
            coefficients@,
            size as int,
            intra_4x4 && size == 4,
            bit_depth,
            i / size as int,
            i % size as int,
        ),
{
    if size == 0 {
        return Vec::new();
    }
    let dst = intra_4x4 && size == 4;
    let shift: u32 = if bit_depth < 20 { 20 - bit_depth as u32 } else { 0 };
    let offset: i64 = if shift == 0 {
        0
    } else {
        proof {
            vstd::bits::lemma_u64_pow2_no_overflow((shift - 1) as nat);
            vstd::bits::lemma_u64_shl_is_mul(1, (shift - 1) as u64);
            if shift - 1 < 19 {
                vstd::arithmetic::power2::lemma_pow2_strictly_increases((shift - 1) as nat, 19);
            }
            vstd::arithmetic::power2::lemma2_to64();
        }
        (1u64 << (shift - 1) as u64) as i64
    };
    assert(shift == residual_shift(bit_depth));
    let stage = vertical_stage(coefficients, size, dst);
    let mut output: Vec<i32> = Vec::new();
    let mut row: usize = 0;
    while row < size
        invariant
            supported_transform_size(size as int),
            dst == (intra_4x4 && size == 4),
            coefficients@.len() == size * size,
            stage@.len() == size * size,
            shift == residual_shift(bit_depth),
            shift <= 20,
            offset == (if shift == 0 { 0 } else { pow2((shift - 1) as nat) }),
            0 <= offset <= 0x8_0000,
            forall|r: int, x: int| 0 <= r < size && 0 <= x < size ==> #[trigger] stage@[r * size + x] == vertical_value(coefficients@, size as int, dst, r, x),
            forall|i: int| 0 <= i < size * size ==> -0x1000_0000_0000 <= #[trigger] stage@[i] <= 0x1000_0000_0000,
            row <= size,
            output@.len() == row * size,
            forall|rr: int, c: int| 0 <= rr < row && 0 <= c < size ==> #[trigger] output@[rr * size + c] == residual_value(
                coefficients@,
                size as int,
                dst,
                bit_depth,
                rr,
                c,
            ),
        decreases size - row,
    {
        let line = horizontal_row(&stage, size, dst, row, shift, offset);
        proof {
            assert(Seq::new(size as nat, |k: int| intermediate_value(stage@[row * size + k] as int) as i64) == Seq::new(
                size as nat,
                |k: int| intermediate_value(vertical_value(coefficients@, size as int, dst, row as int, k)) as i64,
            ));
        }
        let ghost prior = output@;
        output.append(&mut line.clone());
        proof {
            assert forall|rr: int, c: int| 0 <= rr < row + 1 && 0 <= c < size implies #[trigger] output@[rr * size + c] == residual_value(
                coefficients@,
                size as int,
                dst,
                bit_depth,
                rr,
                c,
            ) by {
                lemma_index_in_plane(size as int, (row + 1) as int, c, rr);
                if rr < row {
                    assert(rr * size + c < row * size) by (nonlinear_arith)
                        requires 0 <= rr < row, 0 <= c < size;
                    assert(output@[rr * size + c] == prior[rr * size + c]);
                } else {
                    assert(output@[rr * size + c] == line@[c]);
                }
            }
        }
        assert(row * size + size == (row + 1) * size) by (nonlinear_arith);
        row += 1;
    }
    proof {
        assert forall|i: int| 0 <= i < size * size implies #[trigger] output@[i] == residual_value(
            coefficients@,
            size as int,
            dst,
            bit_depth,
            i / size as int,
            i % size as int,
        ) by {
            lemma_flat_index(i, size as int);
            assert(output@[(i / size as int) * size + i % size as int] == output@[i]);
        }
    }
    output
}

} // verus!

verus! {

/// Adds a prediction block and residual block, applying `Clip1Y`/`Clip1C`.
pub fn reconstruct_block(prediction: &[i32], residual: &[i32], block: Block, bit_depth: u8) -> (r: Vec<i32>)
    requires
        prediction@.len() == block.width * block.height,
        residual@.len() == prediction@.len(),
        bit_depth < 63,
    ensures
        r@.len() == prediction@.len(),
        forall|i: int| 0 <= i < r@.len() ==> #[trigger] r@[i] == clip_to_depth(prediction@[i] + residual@[i], bit_depth as nat) as i32,
{
    let mut output: Vec<i32> = Vec::new();
    let mut i: usize = 0;
    while i < prediction.len()
        invariant
            residual@.len() == prediction@.len(),
            bit_depth < 63,
            i <= prediction@.len(),
            output@.len() == i,
            forall|k: int| 0 <= k < i ==> #[trigger] output@[k] == clip_to_depth(prediction@[k] + residual@[k], bit_depth as nat) as i32,
        decreases prediction@.len() - i,
    {
        output.push(clip_sample(prediction[i] as i64 + residual[i] as i64, bit_depth));
        i += 1;
    }
    output
}

/// `a + b` saturated to the `i32` range.
pub open spec fn saturating_i32(a: int, b: int) -> int {
    if a + b > i32::MAX {
        i32::MAX as int
    } else if a + b < i32::MIN {
        i32::MIN as int
    } else {
        a + b
    }
}

/// Sample `(x, y)` after the horizontal bypass accumulation: each row is a
/// running (saturating) sum from its left end.
pub open spec fn bypass_horizontal(s: Seq<i32>, size: int, y: int, x: int) -> int
    decreases x,
{
    if x <= 0 {
        s[y * size] as int
    } else {
        saturating_i32(s[y * size + x] as int, bypass_horizontal(s, size, y, x - 1))
    }
}

/// Sample `(x, y)` after the vertical bypass accumulation: each column is a
/// running (saturating) sum from its top.
pub open spec fn bypass_vertical(s: Seq<i32>, size: int, y: int, x: int) -> int
    decreases y,
{
    if y <= 0 {
        s[x] as int
    } else {
        saturating_i32(s[y * size + x] as int, bypass_vertical(s, size, y - 1, x))
    }
}

fn saturating_add_i32(a: i32, b: i32) -> (r: i32)
    ensures
        r == saturating_i32(a as int, b as int),
{
    let sum = a as i64 + b as i64;
    if sum > i32::MAX as i64 {
        i32::MAX
    } else if sum < i32::MIN as i64 {
        i32::MIN
    } else {
        sum as i32
    }
}

/// Implements the residual modification process for transform bypass blocks.
pub fn residual_bypass(residual: &mut [i32], size: usize, horizontal: bool)
    requires
        old(residual)@.len() == size * size,
    ensures
        final(residual)@.len() == size * size,
        forall|y: int, x: int| 0 <= y < size && 0 <= x < size ==> #[trigger] final(residual)@[y * size + x] == if horizontal {
            bypass_horizontal(old(residual)@, size as int, y, x)
        } else {
            bypass_vertical(old(residual)@, size as int, y, x)
        },
        forall|i: int| 0 <= i < size * size ==> #[trigger] final(residual)@[i] == if horizontal {
            bypass_horizontal(old(residual)@, size as int, i / size as int, i % size as int)
        } else {
            bypass_vertical(old(residual)@, size as int, i / size as int, i % size as int)
        },
{
    let ghost incoming = residual@;
    let total = residual.len();
    let mut y: usize = 0;
    while y < size
        invariant
            residual@.len() == size * size,
            total == size * size,
            incoming == old(residual)@,
            y <= size,
            forall|yy: int, x: int| 0 <= yy < size && 0 <= x < size ==> #[trigger] residual@[yy * size + x] == if yy < y {
                if horizontal {
                    bypass_horizontal(incoming, size as int, yy, x)
                } else {
                    bypass_vertical(incoming, size as int, yy, x)
                }
            } else {
                incoming[yy * size + x] as int
            },
        decreases size - y,
    {
        let mut x: usize = 0;
        while x < size
            invariant
                residual@.len() == size * size,
                total == size * size,
                incoming == old(residual)@,
                y < size,
                x <= size,
                forall|yy: int, xx: int| 0 <= yy < size && 0 <= xx < size ==> #[trigger] residual@[yy * size + xx] == if yy < y || (yy == y
                    && xx < x) {
                    if horizontal {
                        bypass_horizontal(incoming, size as int, yy, xx)
                    } else {
                        bypass_vertical(incoming, size as int, yy, xx)
                    }
                } else {
                    incoming[yy * size + xx] as int
                },
            decreases size - x,
        {
            proof {
                lemma_index_in_plane(size as int, size as int, x as int, y as int);
            }
            let index = y * size + x;
            let ghost prior = residual@;
            if horizontal && x > 0 {
                proof {
                    lemma_index_in_plane(size as int, size as int, (x - 1) as int, y as int);
                }
                let value = saturating_add_i32(residual[index], residual[index - 1]);
                residual[index] = value;
            } else if !horizontal && y > 0 {
                proof {
                    lemma_index_in_plane(size as int, size as int, x as int, (y - 1) as int);
                    assert((y - 1) * size + x == index - size) by (nonlinear_arith)
                        requires index == y * size + x, y >= 1;
                }
                let value = saturating_add_i32(residual[index], residual[index - size]);
                residual[index] = value;
            }
            proof {
                assert forall|yy: int, xx: int| 0 <= yy < size && 0 <= xx < size implies #[trigger] residual@[yy * size + xx] == if yy < y || (yy
                    == y && xx < x + 1) {
                    if horizontal {
                        bypass_horizontal(incoming, size as int, yy, xx)
                    } else {
                        bypass_vertical(incoming, size as int, yy, xx)
                    }
                } else {
                    incoming[yy * size + xx] as int
                } by {
                    lemma_index_in_plane(size as int, size as int, xx, yy);
                    lemma_index_injective(size as int, size as int, xx, yy, x as int, y as int);
                    if !(yy == y && xx == x) {
                        assert(residual@[yy * size + xx] == prior[yy * size + xx]);
                    } else {
                        assert(prior[yy * size + xx] == incoming[yy * size + xx]);
                        if horizontal && x > 0 {
                            lemma_index_in_plane(size as int, size as int, xx - 1, yy);
                            assert(prior[yy * size + (xx - 1)] == bypass_horizontal(incoming, size as int, yy, xx - 1));
                        } else if !horizontal && y > 0 {
                            lemma_index_in_plane(size as int, size as int, xx, yy - 1);
                            assert(prior[(yy - 1) * size + xx] == bypass_vertical(incoming, size as int, yy - 1, xx));
                        } else if !horizontal {
                            assert(yy * size + xx == xx);
                        }
                    }
                }
            }
            x += 1;
        }
        y += 1;
    }
    proof {
        assert forall|i: int| 0 <= i < size * size implies #[trigger] residual@[i] == if horizontal {
            bypass_horizontal(incoming, size as int, i / size as int, i % size as int)
        } else {
            bypass_vertical(incoming, size as int, i / size as int, i % size as int)
        } by {
            lemma_flat_index(i, size as int);
            assert(residual@[(i / size as int) * size + i % size as int] == residual@[i]);
        }
    }
}

} // verus!

verus! {

/// The luma value of a cross-component prediction scaled to the chroma bit depth:
/// `(luma << chroma_bd) >> luma_bd` in `i64`.
pub open spec fn scaled_luma(luma: i32, luma_bit_depth: u8, chroma_bit_depth: u8) -> int {
    (((luma as i64) << (chroma_bit_depth as i64)) >> (luma_bit_depth as i64)) as int
}

/// The chroma residual after cross-component prediction (7-xx of §8.6.6).
pub open spec fn cross_component_value(chroma: i32, luma: i32, res_scale_val: i32, luma_bit_depth: u8, chroma_bit_depth: u8) -> int {
    saturating_i32(
        chroma as int,
        ((((res_scale_val * scaled_luma(luma, luma_bit_depth, chroma_bit_depth)) as i64) >> 3i64) as i32) as int,
    )
}

/// Applies the cross-component prediction modification from §8.6.6.
pub fn cross_component_residual(residual: &mut [i32], luma_residual: &[i32], res_scale_val: i32, luma_bit_depth: u8, chroma_bit_depth: u8)
    requires
        old(residual)@.len() == luma_residual@.len(),
        luma_bit_depth < 64,
        chroma_bit_depth < 64,
        forall|i: int| 0 <= i < luma_residual@.len() ==> i64::MIN <= res_scale_val * scaled_luma(
            #[trigger] luma_residual@[i],
            luma_bit_depth,
            chroma_bit_depth,
        ) <= i64::MAX,
    ensures
        final(residual)@.len() == old(residual)@.len(),
        forall|i: int| 0 <= i < luma_residual@.len() ==> #[trigger] final(residual)@[i] == cross_component_value(
            old(residual)@[i],
            luma_residual@[i],
            res_scale_val,
            luma_bit_depth,
            chroma_bit_depth,
        ),
{
    let ghost incoming = residual@;
    let mut i: usize = 0;
    while i < residual.len()
        invariant
            residual@.len() == incoming.len(),
            incoming == old(residual)@,
            incoming.len() == luma_residual@.len(),
            luma_bit_depth < 64,
            chroma_bit_depth < 64,
            forall|k: int| 0 <= k < luma_residual@.len() ==> i64::MIN <= res_scale_val * scaled_luma(
                #[trigger] luma_residual@[k],
                luma_bit_depth,
                chroma_bit_depth,
            ) <= i64::MAX,
            i <= residual@.len(),
            forall|k: int| 0 <= k < residual@.len() ==> #[trigger] residual@[k] == if k < i {
                cross_component_value(incoming[k], luma_residual@[k], res_scale_val, luma_bit_depth, chroma_bit_depth) as i32
            } else {
                incoming[k]
            },
        decreases residual@.len() - i,
    {
        let luma = luma_residual[i] as i64;
        let scaled = (luma << (chroma_bit_depth as i64)) >> (luma_bit_depth as i64);
        assert(scaled == scaled_luma(luma_residual@[i as int], luma_bit_depth, chroma_bit_depth));
        let product = res_scale_val as i64 * scaled;
        let value = saturating_add_i32(residual[i], (product >> 3i64) as i32);
        residual[i] = value;
        i += 1;
    }
}

} // verus!

verus! {

/// `levelScale[]` of §8.6.3.
pub const LEVEL_SCALE: [i64; 6] = [40, 45, 51, 57, 64, 72];

/// Number of trailing zero bits of `size` (the bit width for zero).
pub open spec fn trailing_zero_bits(size: usize) -> int {
    if size == 0 {
        usize::BITS as int
    } else {
        trailing_zeros_positive(size as int)
    }
}

/// Number of trailing zero bits of a positive integer.
pub open spec fn trailing_zeros_positive(v: int) -> int
    decreases v,
{
    if v <= 0 || v % 2 == 1 {
        0
    } else {
        1 + trailing_zeros_positive(v / 2)
    }
}

/// `log2TransformRange` of §8.6.3 without extended precision processing: the
/// scaled coefficients lie in `CoeffMin..=CoeffMax = -2^15..=2^15 - 1`.
pub open spec fn log2_transform_range() -> int {
    15
}

/// `bdShift` of §8.6.3, clamped at zero.
pub open spec fn scaling_shift(bit_depth: u8, size: usize) -> int {
    let shift = bit_depth + trailing_zero_bits(size) + 10 - log2_transform_range();
    if shift > 0 {
        shift
    } else {
        0
    }
}

/// The scaling-list factor `m` applied to coefficient `index`.
pub open spec fn scaling_factor(scaling: Option<&[i32]>, index: int) -> int {
    match scaling {
        Some(values) => if index < values@.len() {
            values@[index] as int
        } else {
            16
        },
        None => 16,
    }
}

/// The unrounded scaled coefficient `level * m * levelScale[qP % 6] << (qP / 6)`.
pub open spec fn scaled_product(level: i32, factor: int, qp: i32) -> int {
    level * factor * LEVEL_SCALE@[(qp as int) % 6] * pow2((if qp > 0 { qp / 6 } else { 0 }) as nat)
}

/// The scaled transform coefficient of §8.6.3 (8-xxx).
pub open spec fn scaled_coefficient(level: i32, factor: int, qp: i32, bit_depth: u8, size: usize) -> int {
    let shift = scaling_shift(bit_depth, size);
    let offset = if shift == 0 { 0 } else { pow2((shift - 1) as nat) };
    clip_signed_spec(((scaled_product(level, factor, qp) + offset) as i64 >> (shift as u64)) as int, log2_transform_range() + 1)
}

/// Every intermediate of the scaling of one coefficient stays within `i64`.
pub open spec fn scaling_element_defined(level: i32, factor: int, qp: i32, bit_depth: u8, size: usize) -> bool {
    let shift = scaling_shift(bit_depth, size);
    let offset = if shift == 0 { 0 } else { pow2((shift - 1) as nat) };
    &&& shift < 64
    &&& (if qp > 0 { qp / 6 } else { 0 }) < 63
    &&& i64::MIN <= level * factor * LEVEL_SCALE@[(qp as int) % 6] <= i64::MAX
    &&& i64::MIN <= scaled_product(level, factor, qp) <= i64::MAX
    &&& i64::MIN <= scaled_product(level, factor, qp) + offset <= i64::MAX
}

/// Every coefficient's scaling stays within `i64`.
pub open spec fn scaling_defined(levels: Seq<i32>, scaling: Option<&[i32]>, qp: i32, bit_depth: u8, size: usize) -> bool {
    forall|i: int| 0 <= i < levels.len() ==> #[trigger] scaling_element_defined(levels[i], scaling_factor(scaling, i), qp, bit_depth, size)
}

fn trailing_zeros(size: usize) -> (r: u32)
    ensures
        r == trailing_zero_bits(size),
{
    if size == 0 {
        return usize::BITS;
    }
    proof {
        lemma_trailing_zeros_bound(size as int);
    }
    let mut value = size;
    let mut count: u32 = 0;
    while value % 2 == 0
        invariant
            value > 0,
            count + trailing_zeros_positive(value as int) == trailing_zeros_positive(size as int),
            trailing_zeros_positive(size as int) <= 64,
        decreases value,
    {
        proof {
            lemma_trailing_zeros_power(value as int / 2);
        }
        value = value / 2;
        count += 1;
    }
    count
}

proof fn lemma_trailing_zeros_power(v: int)
    requires
        0 < v,
    ensures
        trailing_zeros_positive(v) >= 0,
        pow2(trailing_zeros_positive(v) as nat) <= v,
    decreases v,
{
    if v % 2 == 0 {
        lemma_trailing_zeros_power(v / 2);
        vstd::arithmetic::power2::lemma_pow2_unfold(trailing_zeros_positive(v) as nat);
    } else {
        vstd::arithmetic::power2::lemma2_to64();
    }
}

proof fn lemma_trailing_zeros_bound(v: int)
    requires
        0 < v <= usize::MAX,
    ensures
        trailing_zeros_positive(v) <= 64,
{
    lemma_trailing_zeros_power(v);
    vstd::arithmetic::power2::lemma2_to64_rest();
    if trailing_zeros_positive(v) > 64 {
        vstd::arithmetic::power2::lemma_pow2_strictly_increases(64, trailing_zeros_positive(v) as nat);
    }
}

} // verus!

verus! {

/// Scales transform coefficient levels using §8.6.3's level scale table.
pub fn scale_transform_coefficients(levels: &[i32], size: usize, qp: i32, bit_depth: u8, scaling: Option<&[i32]>) -> (r: Vec<i32>)
    requires
        levels@.len() == size * size,
        scaling_shift(bit_depth, size) <= 64,
        scaling_defined(levels@, scaling, qp, bit_depth, size),
    ensures
        r@.len() == levels@.len(),
        forall|i: int| 0 <= i < r@.len() ==> #[trigger] r@[i] == scaled_coefficient(levels@[i], scaling_factor(scaling, i), qp, bit_depth, size) as i32,
{
    let remainder = qp % 6;
    let scale_index: i32 = if remainder < 0 { remainder + 6 } else { remainder };
    assert(scale_index == (qp as int) % 6);
    let level_scale = LEVEL_SCALE[scale_index as usize];
    let log2_size = trailing_zeros(size) as i64;
    let bd_shift = bit_depth as i64 + log2_size + 10 - 15;
    let shift: u32 = if bd_shift > 0 { bd_shift as u32 } else { 0 };
    let offset: i64 = if shift == 0 {
        0
    } else {
        proof {
            vstd::bits::lemma_u64_pow2_no_overflow((shift - 1) as nat);
            vstd::bits::lemma_u64_shl_is_mul(1, (shift - 1) as u64);
        }
        (1u64 << (shift - 1) as u64) as i64
    };
    let exponent: u32 = if qp > 0 { (qp / 6) as u32 } else { 0 };
    proof {
        if levels@.len() > 0 {
            assert(scaling_element_defined(levels@[0], scaling_factor(scaling, 0), qp, bit_depth, size));
            if shift > 0 {
                vstd::arithmetic::power2::lemma_pow2_strictly_increases((shift - 1) as nat, 63);
                vstd::arithmetic::power2::lemma2_to64_rest();
            }
        }
    }
    let mut output: Vec<i32> = Vec::new();
    let mut i: usize = 0;
    while i < levels.len()
        invariant
            scaling_defined(levels@, scaling, qp, bit_depth, size),
            level_scale == LEVEL_SCALE@[(qp as int) % 6],
            shift == scaling_shift(bit_depth, size),
            levels@.len() > 0 ==> offset == if shift == 0 { 0 } else { pow2((shift - 1) as nat) },
            exponent == (if qp > 0 { qp / 6 } else { 0 }),
            i <= levels@.len(),
            output@.len() == i,
            forall|k: int| 0 <= k < i ==> #[trigger] output@[k] == scaled_coefficient(levels@[k], scaling_factor(scaling, k), qp, bit_depth, size) as i32,
        decreases levels@.len() - i,
    {
        let factor: i64 = match scaling {
            Some(values) => if i < values.len() {
                values[i] as i64
            } else {
                16
            },
            None => 16,
        };
        assert(scaling_element_defined(levels@[i as int], scaling_factor(scaling, i as int), qp, bit_depth, size));
        proof {
            vstd::bits::lemma_u64_pow2_no_overflow(exponent as nat);
            vstd::bits::lemma_u64_shl_is_mul(1, exponent as u64);
            vstd::arithmetic::power2::lemma_pow2_strictly_increases(exponent as nat, 63);
            vstd::arithmetic::power2::lemma2_to64_rest();
            assert(-0x8000_0000_0000_0000 <= levels@[i as int] * factor <= 0x4000_0000_0000_0000) by (nonlinear_arith)
                requires -0x8000_0000 <= levels@[i as int] <= 0x7fff_ffff, -0x8000_0000 <= factor <= 0x7fff_ffff;
        }
        let power = (1u64 << exponent as u64) as i64;
        let value = levels[i] as i64 * factor * level_scale * power;
        let scaled = (value + offset) >> (shift as u64);
        output.push(clip_signed(scaled, 16));
        i += 1;
    }
    output
}

} // verus!

verus! {

/// `value << shift` in `i64`, clamped to the `i32` range.
pub open spec fn widened_shift(value: i32, shift: int) -> int {
    let wide = ((value as i64) << (shift as i64)) as int;
    if wide > i32::MAX {
        i32::MAX as int
    } else if wide < i32::MIN {
        i32::MIN as int
    } else {
        wide
    }
}

/// The YCgCo-R inverse of §8.6.8.2 on one sample triple, before the final
/// down-shift: `tmp = Y - (Cb >> 1)`, `Y' = tmp + Cb`, `Cb' = tmp - (Cr >> 1)`,
/// `Cr' = Cr + Cb'`, with the inputs first scaled up unless bypassed.
pub open spec fn colour_transform_core(y: i32, b: i32, r: i32, delta_y: int, delta_c: int, bypass: bool) -> (int, int, int) {
    let y0 = if bypass { y as int } else { widened_shift(y, delta_y) };
    let b0 = if bypass { b as int } else { widened_shift(b, delta_c + 1) };
    let r0 = if bypass { r as int } else { widened_shift(r, delta_c + 1) };
    let tmp = y0 - ((b0 as i32) >> 1i32);
    let y1 = tmp + b0;
    let b1 = tmp - ((r0 as i32) >> 1i32);
    let r1 = r0 + b1;
    (y1, b1, r1)
}

/// `(value + offset) >> shift` in `i32`.
pub open spec fn rounded_down(value: int, offset: int, shift: int) -> int {
    (((value + offset) as i32) >> (shift as i32)) as int
}

/// The luma and chroma up/down shifts `(ΔY, ΔC)` of the colour transform.
pub open spec fn colour_shifts(bit_depth_luma: u8, bit_depth_chroma: u8) -> (int, int) {
    let max = if bit_depth_luma >= bit_depth_chroma { bit_depth_luma } else { bit_depth_chroma };
    (max - bit_depth_luma, max - bit_depth_chroma)
}

/// `1 << (shift - 1)`, or 0 for a zero shift.
pub open spec fn half_of(shift: int) -> int {
    if shift == 0 {
        0
    } else {
        pow2((shift - 1) as nat) as int
    }
}

/// The transformed sample triple (8-xxx of §8.6.8.2).
pub open spec fn colour_transformed(y: i32, b: i32, r: i32, bit_depth_luma: u8, bit_depth_chroma: u8, bypass: bool) -> (int, int, int) {
    let (dy, dc) = colour_shifts(bit_depth_luma, bit_depth_chroma);
    let (y1, b1, r1) = colour_transform_core(y, b, r, dy, dc, bypass);
    if bypass {
        (y1, b1, r1)
    } else {
        (rounded_down(y1, half_of(dy), dy), rounded_down(b1, half_of(dc), dc), rounded_down(r1, half_of(dc), dc))
    }
}

/// Every intermediate of the transform of one triple stays within `i32`.
pub open spec fn colour_transform_defined(y: i32, b: i32, r: i32, bit_depth_luma: u8, bit_depth_chroma: u8, bypass: bool) -> bool {
    let (dy, dc) = colour_shifts(bit_depth_luma, bit_depth_chroma);
    let y0 = if bypass { y as int } else { widened_shift(y, dy) };
    let b0 = if bypass { b as int } else { widened_shift(b, dc + 1) };
    let r0 = if bypass { r as int } else { widened_shift(r, dc + 1) };
    let tmp = y0 - ((b0 as i32) >> 1i32);
    let (y1, b1, r1) = colour_transform_core(y, b, r, dy, dc, bypass);
    &&& i32::MIN <= tmp <= i32::MAX
    &&& i32::MIN <= y1 <= i32::MAX
    &&& i32::MIN <= b1 <= i32::MAX
    &&& i32::MIN <= r1 <= i32::MAX
    &&& !bypass ==> i32::MIN <= y1 + half_of(dy) <= i32::MAX && i32::MIN <= b1 + half_of(dc) <= i32::MAX && i32::MIN <= r1
        + half_of(dc) <= i32::MAX
}

fn widened_shift_exec(value: i32, shift: u32) -> (r: i32)
    requires
        shift < 64,
    ensures
        r == widened_shift(value, shift as int),
{
    let wide = (value as i64) << (shift as i64);
    if wide > i32::MAX as i64 {
        i32::MAX
    } else if wide < i32::MIN as i64 {
        i32::MIN
    } else {
        wide as i32
    }
}

/// Applies the adaptive colour transform residual modification in §8.6.8.2.
#[verifier::spinoff_prover]
#[verifier::rlimit(40)]
pub fn adaptive_colour_transform(luma: &mut [i32], cb: &mut [i32], cr: &mut [i32], bit_depth_luma: u8, bit_depth_chroma: u8, transform_bypass: bool)
    requires
        old(luma)@.len() == old(cb)@.len(),
        old(luma)@.len() == old(cr)@.len(),
        colour_shifts(bit_depth_luma, bit_depth_chroma).0 <= 32,
        colour_shifts(bit_depth_luma, bit_depth_chroma).1 <= 32,
        !transform_bypass ==> colour_shifts(bit_depth_luma, bit_depth_chroma).0 < 32 && colour_shifts(
            bit_depth_luma,
            bit_depth_chroma,
        ).1 < 32,
        forall|i: int| 0 <= i < old(luma)@.len() ==> colour_transform_defined(
            #[trigger] old(luma)@[i],
            old(cb)@[i],
            old(cr)@[i],
            bit_depth_luma,
            bit_depth_chroma,
            transform_bypass,
        ),
    ensures
        final(luma)@.len() == old(luma)@.len(),
        final(cb)@.len() == old(cb)@.len(),
        final(cr)@.len() == old(cr)@.len(),
        forall|i: int| 0 <= i < old(luma)@.len() ==> {
            let t = colour_transformed(old(luma)@[i], old(cb)@[i], old(cr)@[i], bit_depth_luma, bit_depth_chroma, transform_bypass);
            &&& #[trigger] final(luma)@[i] == t.0
            &&& final(cb)@[i] == t.1
            &&& final(cr)@[i] == t.2
        },
{
    let max_depth = if bit_depth_luma >= bit_depth_chroma { bit_depth_luma } else { bit_depth_chroma };
    let delta_y = max_depth - bit_depth_luma;
    let delta_c = max_depth - bit_depth_chroma;
    proof {
        vstd::arithmetic::power2::lemma2_to64();
    }
    let offset_y: i32 = if delta_y == 0 {
        0
    } else {
        proof {
            vstd::bits::lemma_u32_pow2_no_overflow((delta_y - 1) as nat);
            vstd::bits::lemma_u32_shl_is_mul(1, (delta_y - 1) as u32);
        }
        (1u32 << (delta_y - 1) as u32) as i32
    };
    let offset_c: i32 = if delta_c == 0 {
        0
    } else {
        proof {
            vstd::bits::lemma_u32_pow2_no_overflow((delta_c - 1) as nat);
            vstd::bits::lemma_u32_shl_is_mul(1, (delta_c - 1) as u32);
        }
        (1u32 << (delta_c - 1) as u32) as i32
    };
    let ghost old_luma = luma@;
    let ghost old_cb = cb@;
    let ghost old_cr = cr@;
    let mut i: usize = 0;
    while i < luma.len()
        invariant
            old_luma == old(luma)@,
            old_cb == old(cb)@,
            old_cr == old(cr)@,
            luma@.len() == old_luma.len(),
            cb@.len() == old_cb.len(),
            cr@.len() == old_cr.len(),
            old_luma.len() == old_cb.len(),
            old_luma.len() == old_cr.len(),
            (delta_y as int, delta_c as int) == colour_shifts(bit_depth_luma, bit_depth_chroma),
            delta_y <= 32,
            delta_c <= 32,
            !transform_bypass ==> delta_y < 32 && delta_c < 32,
            !transform_bypass ==> offset_y == half_of(delta_y as int) && offset_c == half_of(delta_c as int),
            forall|k: int| 0 <= k < old_luma.len() ==> colour_transform_defined(
                #[trigger] old_luma[k],
                old_cb[k],
                old_cr[k],
                bit_depth_luma,
                bit_depth_chroma,
                transform_bypass,
            ),
            i <= luma@.len(),
            forall|k: int| 0 <= k < old_luma.len() ==> {
                let t = colour_transformed(old_luma[k], old_cb[k], old_cr[k], bit_depth_luma, bit_depth_chroma, transform_bypass);
                &&& #[trigger] luma@[k] == if k < i { t.0 } else { old_luma[k] as int }
                &&& cb@[k] == if k < i { t.1 } else { old_cb[k] as int }
                &&& cr@[k] == if k < i { t.2 } else { old_cr[k] as int }
            },
        decreases luma@.len() - i,
    {
        assert(colour_transform_defined(old_luma[i as int], old_cb[i as int], old_cr[i as int], bit_depth_luma, bit_depth_chroma, transform_bypass));
        let mut y = luma[i];
        let mut b = cb[i];
        let mut r = cr[i];
        if !transform_bypass {
            y = widened_shift_exec(y, delta_y as u32);
            b = widened_shift_exec(b, delta_c as u32 + 1);
            r = widened_shift_exec(r, delta_c as u32 + 1);
        }
        let tmp = y - (b >> 1i32);
        y = tmp + b;
        b = tmp - (r >> 1i32);
        r = r + b;
        if !transform_bypass {
            y = (y + offset_y) >> (delta_y as i32);
            b = (b + offset_c) >> (delta_c as i32);
            r = (r + offset_c) >> (delta_c as i32);
        }
        luma[i] = y;
        cb[i] = b;
        cr[i] = r;
        i += 1;
    }
}

} // verus!
