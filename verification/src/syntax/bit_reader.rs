use vstd::prelude::*;
use vstd::arithmetic::power2::pow2;
use super::SyntaxError;

verus! {

/// Bit `pos` of `data`, counting from the most significant bit of byte 0.
pub open spec fn bit_at_spec(data: Seq<u8>, pos: int) -> u8 {
    (data[pos / 8] >> ((7 - pos % 8) as u8)) & 1u8
}

/// The `n` bits of `data` starting at bit `pos`, read MSB first as an integer.
pub open spec fn bits_value(data: Seq<u8>, pos: int, n: nat) -> nat
    decreases n,
{
    if n == 0 {
        0
    } else {
        2 * bits_value(data, pos, (n - 1) as nat) + bit_at_spec(data, pos + n - 1) as nat
    }
}

/// Number of consecutive zero bits of `data` from `pos`, stopping at a one bit
/// or at `limit`.
pub open spec fn zero_run(data: Seq<u8>, pos: int, limit: int) -> nat
    decreases limit - pos,
{
    if pos >= limit || pos < 0 || bit_at_spec(data, pos) != 0 {
        0
    } else {
        1 + zero_run(data, pos + 1, limit)
    }
}

/// Clause 9.2.2 signed Exp-Golomb mapping of a code number.
pub open spec fn map_signed_spec(code: int) -> int {
    if code % 2 == 1 {
        (code + 1) / 2
    } else {
        -(code / 2)
    }
}

/// The two's-complement value of an `n`-bit unsigned field `v`.
pub open spec fn signed_field(v: int, n: nat) -> int {
    if n > 0 && v >= pow2((n - 1) as nat) {
        v - pow2(n)
    } else {
        v
    }
}

/// The outcome of `ue(v)` read at bit `pos` before `limit`, and the bit offset it leaves.
pub open spec fn ue_at(data: Seq<u8>, pos: int, limit: int) -> (Result<u64, SyntaxError>, int) {
    let z = zero_run(data, pos, limit);
    if z >= 64 {
        (Err(SyntaxError::ExpGolombOverflow), pos + 64)
    } else if pos + z >= limit {
        (Err(SyntaxError::UnexpectedEnd { requested: 1, remaining: 0 }), pos + z)
    } else {
        let s = pos + z + 1;
        if z > limit - s {
            (Err(SyntaxError::UnexpectedEnd { requested: z as usize, remaining: (limit - s) as usize }), s)
        } else {
            (Ok((pow2(z) - 1 + bits_value(data, s, z)) as u64), s + z)
        }
    }
}

/// The outcome of reading the zero alignment bits `pos..end`, one at a time,
/// before the limit.
pub open spec fn zero_bits_outcome(data: Seq<u8>, pos: int, limit: int, end: int) -> Result<(), SyntaxError>
    decreases end - pos,
{
    if pos >= end {
        Ok(())
    } else if pos >= limit {
        Err(SyntaxError::UnexpectedEnd { requested: 1, remaining: 0 })
    } else if bit_at_spec(data, pos) != 0 {
        Err(SyntaxError::InvalidAlignmentZero)
    } else {
        zero_bits_outcome(data, pos + 1, limit, end)
    }
}

/// The outcome of `rbsp_trailing_bits()` read at bit `pos`: a one bit, then
/// zero bits up to the next byte boundary.
pub open spec fn trailing_bits_outcome(data: Seq<u8>, pos: int, limit: int) -> Result<(), SyntaxError> {
    if pos >= limit {
        Err(SyntaxError::UnexpectedEnd { requested: 1, remaining: 0 })
    } else if bit_at_spec(data, pos) != 1 {
        Err(SyntaxError::InvalidAlignmentBit)
    } else {
        zero_bits_outcome(data, pos + 1, limit, pos + 1 + (7 - pos % 8))
    }
}

/// The bit offset after successful `rbsp_trailing_bits()` read at `pos`.
pub open spec fn trailing_bits_end(pos: int) -> int {
    pos + 1 + (7 - pos % 8)
}

/// The index of the first zero byte of `data` at or after `start`.
pub open spec fn first_zero_byte(data: Seq<u8>, start: int) -> Option<int>
    decreases data.len() - start,
{
    if start < 0 || start >= data.len() {
        None
    } else if data[start] == 0 {
        Some(start)
    } else {
        first_zero_byte(data, start + 1)
    }
}

pub(crate) proof fn lemma_bits_value_bound(data: Seq<u8>, pos: int, n: nat)
    ensures
        bits_value(data, pos, n) < pow2(n),
    decreases n,
{
    vstd::arithmetic::power2::lemma_pow2_pos(n);
    vstd::arithmetic::power2::lemma2_to64();
    if n > 0 {
        lemma_bits_value_bound(data, pos, (n - 1) as nat);
        lemma_low_bit(data[(pos + n - 1) / 8], ((7 - (pos + n - 1) % 8) as u8));
        vstd::arithmetic::power2::lemma_pow2_unfold(n);
    }
}

proof fn lemma_low_bit(b: u8, s: u8)
    ensures
        (b >> s) & 1u8 <= 1u8,
{
    assert((b >> s) & 1u8 <= 1u8) by (bit_vector);
}

proof fn lemma_first_zero_byte(data: Seq<u8>, start: int)
    ensures
        first_zero_byte(data, start) matches Some(e) ==> start <= e < data.len() && data[e] == 0,
    decreases data.len() - start,
{
    if 0 <= start < data.len() && data[start] != 0 {
        lemma_first_zero_byte(data, start + 1);
    }
}

/// Syntax descriptors listed in H.265 §7.2.
#[derive(Clone, Copy, Debug, Eq, PartialEq)]
pub enum SyntaxDescriptor {
    /// `ae(v)`, context-adaptive arithmetic coded syntax.
    Arithmetic,
    /// `b(8)`, an arbitrary byte at a byte-aligned position.
    Byte,
    /// `f(n)`, fixed-pattern bit string.
    Fixed(usize),
    /// `i(n)`, signed two's-complement integer.
    Signed(usize),
    /// `se(v)`, signed Exp-Golomb integer.
    SignedExpGolomb,
    /// `st(v)`, null-terminated UTF-8 string.
    String,
    /// `u(n)`, unsigned integer.
    Unsigned(usize),
    /// `ue(v)`, unsigned Exp-Golomb integer.
    UnsignedExpGolomb,
}

/// A value returned by a syntax descriptor.
#[derive(Clone, Debug, Eq, PartialEq)]
pub enum SyntaxValue {
    /// Fixed or unsigned bit-string/integer value.
    Unsigned(u64),
    /// Signed integer value.
    Signed(i64),
    /// Null-terminated UTF-8 string.
    String(String),
}

/// MSB-first bit reader implementing the basic functions in H.265 §7.2.
#[derive(Clone, Debug)]
pub struct BitReader<'a> {
    data: &'a [u8],
    bit_position: usize,
    bit_limit: usize,
}

/// Converts bytes to an owned string when they are valid UTF-8.
///
/// Calls `std::str::from_utf8`; the contract states what std documents: the
/// bytes are accepted exactly when they are valid UTF-8, and the string then
/// holds the decoded characters.
#[verifier::external_body]
fn utf8_str(bytes: &[u8]) -> (r: Option<&str>)
    ensures
        r is Some <==> vstd::utf8::valid_utf8(bytes@),
        r matches Some(s) ==> s@ == vstd::utf8::decode_utf8(bytes@),
{
    std::str::from_utf8(bytes).ok()
}

impl<'a> BitReader<'a> {
    /// The input bytes.
    pub closed spec fn bytes(&self) -> Seq<u8> {
        self.data@
    }

    /// The current bit offset.
    pub closed spec fn pos(&self) -> int {
        self.bit_position as int
    }

    /// The bit offset at which reading stops.
    pub closed spec fn limit(&self) -> int {
        self.bit_limit as int
    }

    /// The cursor and limit lie inside the input.
    pub open spec fn wf(&self) -> bool {
        &&& 0 <= self.pos() <= self.bytes().len() * 8
        &&& 0 <= self.limit() <= self.bytes().len() * 8
        &&& self.bytes().len() * 8 <= usize::MAX
    }

    /// Number of unread bits before the limit.
    pub open spec fn remaining(&self) -> int {
        if self.limit() > self.pos() {
            self.limit() - self.pos()
        } else {
            0
        }
    }

    /// The two readers hold the same input and limit.
    pub open spec fn same_input(&self, other: &Self) -> bool {
        self.bytes() == other.bytes() && self.limit() == other.limit()
    }

    /// The outcome of `read_bits(count)` on this reader.
    pub open spec fn read_bits_outcome(&self, count: usize) -> Result<u64, SyntaxError> {
        if count > 64 {
            Err(SyntaxError::InvalidBitCount(count))
        } else if count > self.remaining() {
            Err(SyntaxError::UnexpectedEnd { requested: count, remaining: self.remaining() as usize })
        } else {
            Ok(bits_value(self.bytes(), self.pos(), count as nat) as u64)
        }
    }

    /// The outcome of `ue(v)` on this reader, and the bit offset it leaves.
    pub open spec fn ue_outcome(&self) -> (Result<u64, SyntaxError>, int) {
        ue_at(self.bytes(), self.pos(), self.limit())
    }

    /// Creates a reader positioned at the first bit of `data`.
    pub fn new(data: &'a [u8]) -> (r: Self)
        requires
            data@.len() * 8 <= usize::MAX,
        ensures
            r.wf(),
            r.bytes() == data@,
            r.pos() == 0,
            r.limit() == data@.len() * 8,
    {
        Self { data, bit_position: 0, bit_limit: data.len() * 8 }
    }

    /// Returns the current bit offset from the beginning of the input.
    pub fn position(&self) -> (r: usize)
        ensures
            r == self.pos(),
    {
        self.bit_position
    }

    /// Returns the total input size in bits.
    pub fn bit_length(&self) -> (r: usize)
        requires
            self.wf(),
        ensures
            r == self.bytes().len() * 8,
    {
        self.data.len() * 8
    }

    /// Returns the number of unread bits.
    pub fn bits_remaining(&self) -> (r: usize)
        ensures
            r == self.remaining(),
    {
        self.bit_limit.saturating_sub(self.bit_position)
    }

    /// Restricts reading to bits `start_bit..end_bit` of the input.
    pub(crate) fn set_substream(&mut self, start_bit: usize, end_bit: usize) -> (r: Result<(), SyntaxError>)
        requires
            old(self).wf(),
        ensures
            final(self).wf(),
            final(self).bytes() == old(self).bytes(),
            r is Ok <==> start_bit <= end_bit && end_bit <= old(self).bytes().len() * 8,
            r is Ok ==> final(self).pos() == start_bit && final(self).limit() == end_bit,
            r is Err ==> *final(self) == *old(self),
    {
        if start_bit > end_bit || end_bit > self.data.len() * 8 {
            return Err(SyntaxError::InvalidSyntaxValue("bit-reader substream is outside its input"));
        }
        self.bit_position = start_bit;
        self.bit_limit = end_bit;
        Ok(())
    }

    /// Implements `byte_aligned()`.
    pub fn byte_aligned(&self) -> (r: bool)
        ensures
            r == (self.pos() % 8 == 0),
    {
        self.bit_position % 8 == 0
    }

    /// Implements `read_bits(n)`, reading MSB first and advancing the cursor.
    pub fn read_bits(&mut self, count: usize) -> (r: Result<u64, SyntaxError>)
        requires
            old(self).wf(),
        ensures
            final(self).wf(),
            final(self).same_input(old(self)),
            r == old(self).read_bits_outcome(count),
            final(self).pos() == if r is Ok { old(self).pos() + count } else { old(self).pos() },
    {
        if count > 64 {
            return Err(SyntaxError::InvalidBitCount(count));
        }
        if count > self.bits_remaining() {
            return Err(SyntaxError::UnexpectedEnd { requested: count, remaining: self.bits_remaining() });
        }
        let value = self.peek_bits(count)?;
        self.bit_position += count;
        Ok(value)
    }

    /// Implements `next_bits(n)` without advancing the cursor.
    pub fn next_bits(&self, count: usize) -> (r: Result<u64, SyntaxError>)
        requires
            self.wf(),
        ensures
            r == self.read_bits_outcome(count),
    {
        self.peek_bits(count)
    }

    /// Returns the next bits without advancing the cursor.
    pub fn peek_bits(&self, count: usize) -> (r: Result<u64, SyntaxError>)
        requires
            self.wf(),
        ensures
            r == self.read_bits_outcome(count),
    {
        if count > 64 {
            return Err(SyntaxError::InvalidBitCount(count));
        }
        if count > self.bits_remaining() {
            return Err(SyntaxError::UnexpectedEnd { requested: count, remaining: self.bits_remaining() });
        }
        let mut value: u64 = 0;
        let mut offset: usize = 0;
        proof {
            vstd::arithmetic::power2::lemma2_to64();
            vstd::arithmetic::power2::lemma2_to64_rest();
        }
        while offset < count
            invariant
                self.wf(),
                count <= 64,
                count <= self.remaining(),
                offset <= count,
                value == bits_value(self.bytes(), self.pos(), offset as nat),
                value < pow2(offset as nat),
                pow2(64) == 0x1_0000_0000_0000_0000,
            decreases count - offset,
        {
            let bit = self.bit_at(self.bit_position + offset);
            proof {
                vstd::arithmetic::power2::lemma_pow2_unfold((offset + 1) as nat);
                if offset + 1 < 64 {
                    vstd::arithmetic::power2::lemma_pow2_strictly_increases((offset + 1) as nat, 64);
                }
            }
            value = value * 2 + bit as u64;
            offset += 1;
        }
        Ok(value)
    }

    /// Returns `next_bits(n)`, or zero when fewer than `n` bits remain.
    pub fn next_bits_or_zero(&self, count: usize) -> (r: Result<u64, SyntaxError>)
        requires
            self.wf(),
        ensures
            r == if count > 64 {
                Err(SyntaxError::InvalidBitCount(count))
            } else if count > self.remaining() {
                Ok(0u64)
            } else {
                self.read_bits_outcome(count)
            },
    {
        if count > 64 {
            return Err(SyntaxError::InvalidBitCount(count));
        }
        if count > self.bits_remaining() {
            Ok(0)
        } else {
            self.peek_bits(count)
        }
    }

    /// Implements `u(n)`.
    pub fn read_u(&mut self, count: usize) -> (r: Result<u64, SyntaxError>)
        requires
            old(self).wf(),
        ensures
            final(self).wf(),
            final(self).same_input(old(self)),
            r == old(self).read_bits_outcome(count),
            final(self).pos() == if r is Ok { old(self).pos() + count } else { old(self).pos() },
            r matches Ok(v) ==> v < pow2(count as nat),
    {
        let r = self.read_bits(count);
        proof {
            lemma_bits_value_bound(old(self).bytes(), old(self).pos(), count as nat);
        }
        r
    }

    /// Implements `f(n)`.
    pub fn read_f(&mut self, count: usize) -> (r: Result<u64, SyntaxError>)
        requires
            old(self).wf(),
        ensures
            final(self).wf(),
            final(self).same_input(old(self)),
            r == old(self).read_bits_outcome(count),
            final(self).pos() == if r is Ok { old(self).pos() + count } else { old(self).pos() },
            r matches Ok(v) ==> v < pow2(count as nat),
    {
        self.read_u(count)
    }

    /// Implements `b(8)`.
    pub fn read_b(&mut self) -> (r: Result<u8, SyntaxError>)
        requires
            old(self).wf(),
        ensures
            final(self).wf(),
            final(self).same_input(old(self)),
            r == if old(self).pos() % 8 != 0 {
                Err(SyntaxError::NotByteAligned)
            } else {
                match old(self).read_bits_outcome(8) {
                    Ok(v) => Ok(v as u8),
                    Err(e) => Err(e),
                }
            },
            final(self).pos() == if r is Ok { old(self).pos() + 8 } else { old(self).pos() },
    {
        if !self.byte_aligned() {
            return Err(SyntaxError::NotByteAligned);
        }
        let v = self.read_u(8)?;
        proof {
            vstd::arithmetic::power2::lemma2_to64();
        }
        Ok(v as u8)
    }

    /// Implements `i(n)` as a two's-complement signed integer.
    pub fn read_i(&mut self, count: usize) -> (r: Result<i64, SyntaxError>)
        requires
            old(self).wf(),
        ensures
            final(self).wf(),
            final(self).same_input(old(self)),
            r == match old(self).read_bits_outcome(count) {
                Ok(v) => Ok(signed_field(v as int, count as nat) as i64),
                Err(e) => Err(e),
            },
            final(self).pos() == if r is Ok { old(self).pos() + count } else { old(self).pos() },
    {
        if count > 64 {
            return Err(SyntaxError::InvalidBitCount(count));
        }
        let value = self.read_u(count)?;
        if count == 0 {
            return Ok(0);
        }
        proof {
            vstd::arithmetic::power2::lemma2_to64();
            vstd::arithmetic::power2::lemma2_to64_rest();
            vstd::arithmetic::power2::lemma_pow2_unfold(count as nat);
            if count < 64 {
                vstd::arithmetic::power2::lemma_pow2_strictly_increases(count as nat, 64);
            }
            if count - 1 < 63 {
                vstd::arithmetic::power2::lemma_pow2_strictly_increases((count - 1) as nat, 63);
            }
            vstd::bits::lemma_u64_shl_is_mul(1, (count - 1) as u64);
        }
        let half: u64 = 1u64 << ((count - 1) as u64);
        if value < half {
            Ok(value as i64)
        } else {
            Ok((value as i128 - 2 * (half as i128)) as i64)
        }
    }

    /// Implements `ue(v)`, unsigned zero-th order Exp-Golomb coding.
    pub fn read_ue(&mut self) -> (r: Result<u64, SyntaxError>)
        requires
            old(self).wf(),
        ensures
            final(self).wf(),
            final(self).same_input(old(self)),
            r == old(self).ue_outcome().0,
            final(self).pos() == old(self).ue_outcome().1,
            r matches Ok(v) ==> v <= 0xffff_ffff_ffff_fffe,
    {
        let ghost p0 = self.pos();
        let ghost bytes = self.bytes();
        let ghost limit = self.limit();
        let mut leading_zero_bits: usize = 0;
        while self.bits_remaining() > 0 && self.bit_at(self.bit_position) == 0
            invariant
                self.wf(),
                self.bytes() == bytes,
                self.limit() == limit,
                bytes == old(self).bytes(),
                limit == old(self).limit(),
                p0 == old(self).pos(),
                self.pos() == p0 + leading_zero_bits,
                leading_zero_bits < 64,
                zero_run(bytes, p0, limit) == leading_zero_bits + zero_run(bytes, self.pos(), limit),
            decreases self.remaining(),
        {
            self.bit_position += 1;
            leading_zero_bits += 1;
            if leading_zero_bits >= 64 {
                return Err(SyntaxError::ExpGolombOverflow);
            }
        }
        if self.bits_remaining() == 0 {
            return Err(SyntaxError::UnexpectedEnd { requested: 1, remaining: 0 });
        }
        self.bit_position += 1;
        let suffix = self.read_bits(leading_zero_bits)?;
        proof {
            lemma_bits_value_bound(bytes, p0 + leading_zero_bits + 1, leading_zero_bits as nat);
            vstd::arithmetic::power2::lemma2_to64();
            vstd::arithmetic::power2::lemma2_to64_rest();
            vstd::bits::lemma_u64_shl_is_mul(1, leading_zero_bits as u64);
            if leading_zero_bits < 63 {
                vstd::arithmetic::power2::lemma_pow2_strictly_increases(leading_zero_bits as nat, 63);
            }
        }
        let base = (1u64 << (leading_zero_bits as u64)) - 1;
        Ok(base + suffix)
    }

    /// Implements `se(v)`, signed zero-th order Exp-Golomb coding.
    pub fn read_se(&mut self) -> (r: Result<i64, SyntaxError>)
        requires
            old(self).wf(),
        ensures
            final(self).wf(),
            final(self).same_input(old(self)),
            r == match old(self).ue_outcome().0 {
                Ok(v) => Ok(map_signed_spec(v as int) as i64),
                Err(e) => Err(e),
            },
            final(self).pos() == old(self).ue_outcome().1,
    {
        let code_num = self.read_ue()?;
        if code_num % 2 == 1 {
            Ok((code_num / 2 + 1) as i64)
        } else {
            Ok(-((code_num / 2) as i64))
        }
    }

    /// Implements `st(v)`, reading a byte-aligned null-terminated UTF-8 string.
    pub fn read_st(&mut self) -> (r: Result<String, SyntaxError>)
        requires
            old(self).wf(),
        ensures
            final(self).wf(),
            final(self).same_input(old(self)),
            old(self).pos() % 8 != 0 ==> r == Err::<String, SyntaxError>(SyntaxError::NotByteAligned),
            old(self).pos() % 8 == 0 && first_zero_byte(old(self).bytes(), old(self).pos() / 8) is None
                ==> r == Err::<String, SyntaxError>(SyntaxError::MissingStringTerminator),
            old(self).pos() % 8 == 0 ==> (first_zero_byte(old(self).bytes(), old(self).pos() / 8) matches Some(end)
                ==> {
                let text = old(self).bytes().subrange(old(self).pos() / 8, end);
                &&& vstd::utf8::valid_utf8(text) ==> r is Ok && r->Ok_0@ == vstd::utf8::decode_utf8(text)
                    && final(self).pos() == (end + 1) * 8
                &&& !vstd::utf8::valid_utf8(text) ==> r == Err::<String, SyntaxError>(SyntaxError::InvalidUtf8)
            }),
            r is Err ==> final(self).pos() == old(self).pos(),
    {
        if !self.byte_aligned() {
            return Err(SyntaxError::NotByteAligned);
        }
        let start = self.bit_position / 8;
        let mut end = start;
        while end < self.data.len() && self.data[end] != 0
            invariant
                self.wf(),
                start <= end <= self.bytes().len(),
                first_zero_byte(self.bytes(), start as int) == first_zero_byte(self.bytes(), end as int),
            decreases self.bytes().len() - end,
        {
            end += 1;
        }
        if end >= self.data.len() {
            return Err(SyntaxError::MissingStringTerminator);
        }
        let text = &self.data[start..end];
        let value = match utf8_str(text) {
            Some(s) => s.to_owned(),
            None => return Err(SyntaxError::InvalidUtf8),
        };
        assert(text@ == self.bytes().subrange(start as int, end as int));
        self.bit_position = (end + 1) * 8;
        Ok(value)
    }

    /// Implements `more_rbsp_data()` using the trailing-one-and-zero rule.
    pub fn more_rbsp_data(&self) -> (r: bool)
        requires
            self.wf(),
        ensures
            r == (self.remaining() > 0 && (bit_at_spec(self.bytes(), self.pos()) == 0 || exists|p: int|
                self.pos() < p < self.bytes().len() * 8 && #[trigger] bit_at_spec(self.bytes(), p) != 0)),
    {
        if self.bits_remaining() == 0 || self.bit_at(self.bit_position) == 0 {
            return self.bits_remaining() != 0;
        }
        let length = self.bit_length();
        let mut position = self.bit_position + 1;
        while position < length
            invariant
                self.wf(),
                self.remaining() > 0,
                bit_at_spec(self.bytes(), self.pos()) != 0,
                length == self.bytes().len() * 8,
                self.pos() < position <= length,
                forall|p: int| self.pos() < p < position ==> #[trigger] bit_at_spec(self.bytes(), p) == 0,
            decreases length - position,
        {
            if self.bit_at(position) != 0 {
                assert(bit_at_spec(self.bytes(), position as int) != 0);
                return true;
            }
            position += 1;
        }
        false
    }

    /// Implements `more_data_in_payload()` for a payload measured in bits.
    pub fn more_data_in_payload(&self, payload_bits: usize) -> (r: bool)
        ensures
            r == !(self.pos() % 8 == 0 && self.pos() == payload_bits),
    {
        !(self.byte_aligned() && self.bit_position == payload_bits)
    }

    /// Consumes `rbsp_trailing_bits()`: a one bit followed by zero bits up to
    /// the next byte boundary.
    pub fn read_rbsp_trailing_bits(&mut self) -> (r: Result<(), SyntaxError>)
        requires
            old(self).wf(),
        ensures
            final(self).wf(),
            final(self).same_input(old(self)),
            r is Ok <==> (old(self).remaining() >= 1 + (7 - old(self).pos() % 8) && bit_at_spec(
                old(self).bytes(),
                old(self).pos(),
            ) == 1 && forall|p: int|
                old(self).pos() < p <= old(self).pos() + (7 - old(self).pos() % 8) ==> #[trigger] bit_at_spec(
                    old(self).bytes(),
                    p,
                ) == 0),
            r is Ok ==> final(self).pos() == old(self).pos() + 1 + (7 - old(self).pos() % 8),
            r == trailing_bits_outcome(old(self).bytes(), old(self).pos(), old(self).limit()),
            old(self).remaining() == 0 ==> r == Err::<(), SyntaxError>(SyntaxError::UnexpectedEnd { requested: 1, remaining: 0 }),
            old(self).remaining() > 0 && bit_at_spec(old(self).bytes(), old(self).pos()) != 1 ==> r
                == Err::<(), SyntaxError>(SyntaxError::InvalidAlignmentBit),
    {
        let ghost p0 = self.pos();
        let ghost bytes = self.bytes();
        let stop = self.read_bits(1)?;
        proof {
            reveal_with_fuel(bits_value, 2);
        }
        if stop != 1 {
            return Err(SyntaxError::InvalidAlignmentBit);
        }
        while !self.byte_aligned()
            invariant
                self.wf(),
                self.bytes() == bytes,
                bytes == old(self).bytes(),
                p0 == old(self).pos(),
                self.limit() == old(self).limit(),
                bit_at_spec(bytes, p0) == 1,
                p0 < self.pos() <= p0 + 1 + (7 - p0 % 8),
                (self.pos() % 8 == 0) == (self.pos() == p0 + 1 + (7 - p0 % 8)),
                old(self).remaining() >= self.pos() - p0,
                forall|p: int| p0 < p < self.pos() ==> #[trigger] bit_at_spec(bytes, p) == 0,
                trailing_bits_outcome(bytes, p0, self.limit()) == zero_bits_outcome(bytes, self.pos(), self.limit(), p0 + 1 + (7 - p0 % 8)),
            decreases p0 + 1 + (7 - p0 % 8) - self.pos(),
        {
            let ghost here = self.pos();
            let bit = self.read_bits(1)?;
            proof {
                reveal_with_fuel(bits_value, 2);
            }
            if bit != 0 {
                return Err(SyntaxError::InvalidAlignmentZero);
            }
        }
        Ok(())
    }

    /// Consumes `byte_alignment()`.
    pub fn read_byte_alignment(&mut self) -> (r: Result<(), SyntaxError>)
        requires
            old(self).wf(),
        ensures
            final(self).wf(),
            final(self).same_input(old(self)),
            old(self).pos() % 8 == 0 ==> r is Ok && final(self).pos() == old(self).pos(),
            old(self).pos() % 8 != 0 ==> (r is Ok <==> (old(self).remaining() >= 1 + (7 - old(self).pos() % 8)
                && bit_at_spec(old(self).bytes(), old(self).pos()) == 1 && forall|p: int|
                old(self).pos() < p <= old(self).pos() + (7 - old(self).pos() % 8) ==> #[trigger] bit_at_spec(
                    old(self).bytes(),
                    p,
                ) == 0)),
            old(self).pos() % 8 != 0 && r is Ok ==> final(self).pos() == old(self).pos() + 1 + (7 - old(self).pos() % 8),
    {
        if self.byte_aligned() {
            return Ok(());
        }
        self.read_rbsp_trailing_bits()
    }

    /// Reads a syntax descriptor from the current position.
    pub fn read_descriptor(&mut self, descriptor: SyntaxDescriptor) -> (r: Result<SyntaxValue, SyntaxError>)
        requires
            old(self).wf(),
        ensures
            final(self).wf(),
            final(self).same_input(old(self)),
            descriptor == SyntaxDescriptor::Arithmetic ==> r == Err::<SyntaxValue, SyntaxError>(SyntaxError::ArithmeticCodingUnsupported),
            descriptor matches SyntaxDescriptor::Fixed(n) ==> r == match old(self).read_bits_outcome(n) {
                Ok(v) => Ok(SyntaxValue::Unsigned(v)),
                Err(e) => Err(e),
            },
            descriptor matches SyntaxDescriptor::Unsigned(n) ==> r == match old(self).read_bits_outcome(n) {
                Ok(v) => Ok(SyntaxValue::Unsigned(v)),
                Err(e) => Err(e),
            },
            descriptor matches SyntaxDescriptor::Signed(n) ==> r == match old(self).read_bits_outcome(n) {
                Ok(v) => Ok(SyntaxValue::Signed(signed_field(v as int, n as nat) as i64)),
                Err(e) => Err(e),
            },
            descriptor == SyntaxDescriptor::UnsignedExpGolomb ==> r == match old(self).ue_outcome().0 {
                Ok(v) => Ok(SyntaxValue::Unsigned(v)),
                Err(e) => Err(e),
            },
            descriptor == SyntaxDescriptor::SignedExpGolomb ==> r == match old(self).ue_outcome().0 {
                Ok(v) => Ok(SyntaxValue::Signed(map_signed_spec(v as int) as i64)),
                Err(e) => Err(e),
            },
            descriptor == SyntaxDescriptor::Byte ==> r == if old(self).pos() % 8 != 0 {
                Err(SyntaxError::NotByteAligned)
            } else {
                match old(self).read_bits_outcome(8) {
                    Ok(v) => Ok(SyntaxValue::Unsigned((v as u8) as u64)),
                    Err(e) => Err(e),
                }
            },
            descriptor == SyntaxDescriptor::String && old(self).pos() % 8 != 0 ==> r
                == Err::<SyntaxValue, SyntaxError>(SyntaxError::NotByteAligned),
    {
        match descriptor {
            SyntaxDescriptor::Arithmetic => Err(SyntaxError::ArithmeticCodingUnsupported),
            SyntaxDescriptor::Byte => Ok(SyntaxValue::Unsigned(self.read_b()? as u64)),
            SyntaxDescriptor::Fixed(count) => Ok(SyntaxValue::Unsigned(self.read_bits(count)?)),
            SyntaxDescriptor::Unsigned(count) => Ok(SyntaxValue::Unsigned(self.read_bits(count)?)),
            SyntaxDescriptor::Signed(count) => Ok(SyntaxValue::Signed(self.read_i(count)?)),
            SyntaxDescriptor::SignedExpGolomb => Ok(SyntaxValue::Signed(self.read_se()?)),
            SyntaxDescriptor::String => Ok(SyntaxValue::String(self.read_st()?)),
            SyntaxDescriptor::UnsignedExpGolomb => Ok(SyntaxValue::Unsigned(self.read_ue()?)),
        }
    }

    fn bit_at(&self, position: usize) -> (r: u8)
        requires
            self.wf(),
            position < self.bytes().len() * 8,
        ensures
            r == bit_at_spec(self.bytes(), position as int),
            r <= 1,
    {
        let byte = self.data[position / 8];
        let shift = (7 - position % 8) as u8;
        assert((byte >> shift) & 1u8 <= 1u8) by (bit_vector);
        (byte >> shift) & 1
    }
}

} // verus!
