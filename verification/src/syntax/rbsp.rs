//! Small RBSP syntax structures of §7.3.2: SEI, access-unit delimiter,
//! end of sequence and bitstream, filler data and slice trailing bits.
use vstd::prelude::*;
use super::bit_reader::{bit_at_spec, bits_value, lemma_bits_value_bound, trailing_bits_end, trailing_bits_outcome, BitReader};
use super::SyntaxError;

verus! {

/// One generic SEI message from §7.3.5.
#[derive(Clone, Debug, Eq, PartialEq)]
pub struct SeiMessage {
    /// Accumulated `payloadType` value.
    pub payload_type: u64,
    /// Accumulated `payloadSize` value.
    pub payload_size: usize,
    /// Raw payload bytes. Payload-specific parsing belongs to Annex D.
    pub payload: Vec<u8>,
}

/// Parsed SEI RBSP from §7.3.2.4.
#[derive(Clone, Debug, Eq, PartialEq)]
pub struct SeiRbsp {
    /// Messages in bitstream order.
    pub messages: Vec<SeiMessage>,
}

/// The error of reading `n` bits at `pos` when fewer than `n` remain before `limit`.
pub open spec fn short_read(n: usize, pos: int, limit: int) -> SyntaxError {
    SyntaxError::UnexpectedEnd { requested: n, remaining: (if limit > pos { limit - pos } else { 0 }) as usize }
}

/// The outcome of an `ff`-coded value (a run of 0xff bytes and a final byte,
/// all summed) read at `pos` on top of `acc`, with the bit offset it leaves.
pub open spec fn ff_coded_outcome(data: Seq<u8>, pos: int, limit: int, acc: int) -> (Result<u64, SyntaxError>, int)
    decreases limit - pos,
{
    if limit - pos < 8 {
        (Err(short_read(8, pos, limit)), pos)
    } else {
        let byte = bits_value(data, pos, 8);
        if acc + byte > u64::MAX {
            (Err(SyntaxError::InvalidSyntaxValue("SEI value overflows u64")), pos + 8)
        } else if byte != 0xff {
            (Ok((acc + byte) as u64), pos + 8)
        } else {
            ff_coded_outcome(data, pos + 8, limit, acc + byte)
        }
    }
}

fn read_ff_coded_value(reader: &mut BitReader<'_>) -> (r: Result<u64, SyntaxError>)
    requires
        old(reader).wf(),
    ensures
        final(reader).wf(),
        final(reader).same_input(old(reader)),
        r == ff_coded_outcome(old(reader).bytes(), old(reader).pos(), old(reader).limit(), 0).0,
        final(reader).pos() == ff_coded_outcome(old(reader).bytes(), old(reader).pos(), old(reader).limit(), 0).1,
{
    let ghost start = ff_coded_outcome(old(reader).bytes(), old(reader).pos(), old(reader).limit(), 0);
    let mut value: u64 = 0;
    loop
        invariant
            reader.wf(),
            reader.same_input(old(reader)),
            start == ff_coded_outcome(old(reader).bytes(), old(reader).pos(), old(reader).limit(), 0),
            start == ff_coded_outcome(reader.bytes(), reader.pos(), reader.limit(), value as int),
        decreases reader.limit() - reader.pos(),
    {
        let ghost here = reader.pos();
        let byte = match reader.read_u(8) {
            Ok(byte) => byte,
            Err(error) => {
                assert(ff_coded_outcome(reader.bytes(), here, reader.limit(), value as int) == (
                Err::<u64, SyntaxError>(short_read(8, here, reader.limit())), here));
                assert(error == short_read(8, here, reader.limit()));
                assert(start.0 == Err::<u64, SyntaxError>(error));
                assert(reader.pos() == start.1);
                return Err(error);
            },
        };
        proof {
            lemma_bits_value_bound(reader.bytes(), here, 8);
            vstd::arithmetic::power2::lemma2_to64();
        }
        value = match value.checked_add(byte) {
            Some(sum) => sum,
            None => {
                return Err(SyntaxError::InvalidSyntaxValue("SEI value overflows u64"));
            },
        };
        if byte != 0xff {
            return Ok(value);
        }
    }
}

/// The outcome of reading `n` payload bytes at `pos`, and the bytes read.
pub open spec fn payload_outcome(data: Seq<u8>, pos: int, limit: int, n: int) -> Result<Seq<u8>, SyntaxError> {
    let available = if limit > pos { limit - pos } else { 0 };
    if available >= 8 * n {
        Ok(Seq::new(n as nat, |i: int| bits_value(data, pos + 8 * i, 8) as u8))
    } else {
        Err(SyntaxError::UnexpectedEnd { requested: 8, remaining: (available % 8) as usize })
    }
}

/// The outcome of `sei_message()` read at `pos`, with the bit offset it leaves
/// when it succeeds.
pub open spec fn sei_message_outcome(data: Seq<u8>, pos: int, limit: int) -> (Result<(u64, usize, Seq<u8>), SyntaxError>, int) {
    let (kind, after_kind) = ff_coded_outcome(data, pos, limit, 0);
    let (size, after_size) = ff_coded_outcome(data, after_kind, limit, 0);
    match kind {
        Err(e) => (Err(e), after_kind),
        Ok(payload_type) => match size {
            Err(e) => (Err(e), after_size),
            Ok(payload_size) => if payload_size > usize::MAX {
                (Err(SyntaxError::InvalidSyntaxValue("SEI payload is too large")), after_size)
            } else {
                match payload_outcome(data, after_size, limit, payload_size as int) {
                    Err(e) => (Err(e), after_size),
                    Ok(bytes) => (Ok((payload_type, payload_size as usize, bytes)), after_size + 8 * payload_size),
                }
            },
        },
    }
}

impl SeiMessage {
    /// The message's fields as plain values.
    pub open spec fn fields(self) -> (u64, usize, Seq<u8>) {
        (self.payload_type, self.payload_size, self.payload@)
    }

    /// Parses one `sei_message()` header and its raw payload.
    pub fn parse(reader: &mut BitReader<'_>) -> (r: Result<Self, SyntaxError>)
        requires
            old(reader).wf(),
        ensures
            final(reader).wf(),
            final(reader).same_input(old(reader)),
            ({
                let (expected, end) = sei_message_outcome(old(reader).bytes(), old(reader).pos(), old(reader).limit());
                &&& r is Ok <==> expected is Ok
                &&& r matches Err(e) ==> expected == Err::<(u64, usize, Seq<u8>), SyntaxError>(e)
                &&& r matches Ok(m) ==> m.fields() == expected.unwrap() && final(reader).pos() == end
            }),
    {
        let ghost bytes = reader.bytes();
        let ghost limit = reader.limit();
        let payload_type = read_ff_coded_value(reader)?;
        let ghost kind_end = reader.pos();
        let payload_size_value = read_ff_coded_value(reader)?;
        if payload_size_value > usize::MAX as u64 {
            return Err(SyntaxError::InvalidSyntaxValue("SEI payload is too large"));
        }
        let payload_size = payload_size_value as usize;
        let ghost start = reader.pos();
        let mut payload: Vec<u8> = Vec::new();
        let mut i: usize = 0;
        while i < payload_size
            invariant
                reader.wf(),
                reader.bytes() == bytes,
                reader.limit() == limit,
                bytes == old(reader).bytes(),
                limit == old(reader).limit(),
                ff_coded_outcome(bytes, old(reader).pos(), limit, 0) == (Ok::<u64, SyntaxError>(payload_type), kind_end),
                ff_coded_outcome(bytes, kind_end, limit, 0) == (Ok::<u64, SyntaxError>(payload_size_value), start),
                payload_size == payload_size_value,
                i <= payload_size,
                reader.pos() == start + 8 * i,
                payload@ == Seq::new(i as nat, |k: int| bits_value(bytes, start + 8 * k, 8) as u8),
                i == 0 || reader.pos() <= limit,
            decreases payload_size - i,
        {
            let ghost here = reader.pos();
            let byte = match reader.read_u(8) {
                Ok(byte) => byte,
                Err(error) => {
                    proof {
                        if limit > start {
                            assert((limit - start) % 8 == limit - start - 8 * i) by (nonlinear_arith)
                                requires limit - start >= 8 * i, limit - start - 8 * i < 8, i >= 0;
                        }
                    }
                    return Err(error);
                },
            };
            proof {
                lemma_bits_value_bound(bytes, here, 8);
                vstd::arithmetic::power2::lemma2_to64();
            }
            payload.push(byte as u8);
            i += 1;
        }
        Ok(Self { payload_type, payload_size, payload })
    }
}

} // verus!

verus! {

/// `more_rbsp_data()` at bit `pos`: data remains, and some one bit follows
/// the next bit unless that bit is zero.
pub open spec fn more_rbsp_data_at(data: Seq<u8>, pos: int, limit: int) -> bool {
    (if limit > pos { limit - pos } else { 0 }) > 0 && (bit_at_spec(data, pos) == 0 || exists|p: int|
        pos < p < data.len() * 8 && #[trigger] bit_at_spec(data, p) != 0)
}

/// `outcome` with `done` placed before the messages it holds.
pub open spec fn after_messages(done: Seq<(u64, usize, Seq<u8>)>, outcome: Result<(Seq<(u64, usize, Seq<u8>)>, int), SyntaxError>) -> Result<(Seq<(u64, usize, Seq<u8>)>, int), SyntaxError> {
    match outcome {
        Ok((rest, end)) => Ok((done + rest, end)),
        Err(e) => Err(e),
    }
}

/// The SEI messages read from `pos` until `more_rbsp_data()` is false, and
/// the bit offset after the last one.
pub open spec fn sei_messages_outcome(data: Seq<u8>, pos: int, limit: int) -> Result<(Seq<(u64, usize, Seq<u8>)>, int), SyntaxError>
    decreases limit - pos,
{
    let (message, end) = sei_message_outcome(data, pos, limit);
    match message {
        Err(e) => Err(e),
        Ok(m) => if more_rbsp_data_at(data, end, limit) && pos < end < limit {
            after_messages(seq![m], sei_messages_outcome(data, end, limit))
        } else {
            Ok((seq![m], end))
        },
    }
}

/// The outcome of `sei_rbsp()` read at `pos`.
pub open spec fn sei_rbsp_outcome(data: Seq<u8>, pos: int, limit: int) -> Result<Seq<(u64, usize, Seq<u8>)>, SyntaxError> {
    match sei_messages_outcome(data, pos, limit) {
        Err(e) => Err(e),
        Ok((messages, end)) => match trailing_bits_outcome(data, end, limit) {
            Err(e) => Err(e),
            Ok(_) => Ok(messages),
        },
    }
}

proof fn lemma_ff_coded_advances(data: Seq<u8>, pos: int, limit: int, acc: int)
    ensures
        ff_coded_outcome(data, pos, limit, acc).1 >= pos,
        ff_coded_outcome(data, pos, limit, acc).0 is Ok ==> ff_coded_outcome(data, pos, limit, acc).1 >= pos + 8,
    decreases limit - pos,
{
    if limit - pos >= 8 && acc + bits_value(data, pos, 8) <= u64::MAX && bits_value(data, pos, 8) == 0xff {
        lemma_ff_coded_advances(data, pos + 8, limit, acc + bits_value(data, pos, 8));
    }
}

impl SeiRbsp {
    /// The messages' fields as plain values.
    pub open spec fn message_fields(self) -> Seq<(u64, usize, Seq<u8>)> {
        self.messages@.map_values(|m: SeiMessage| m.fields())
    }

    /// Parses `sei_rbsp()` and consumes `rbsp_trailing_bits()`.
    pub fn parse(reader: &mut BitReader<'_>) -> (r: Result<Self, SyntaxError>)
        requires
            old(reader).wf(),
        ensures
            final(reader).wf(),
            final(reader).same_input(old(reader)),
            ({
                let expected = sei_rbsp_outcome(old(reader).bytes(), old(reader).pos(), old(reader).limit());
                &&& r is Ok <==> expected is Ok
                &&& r matches Err(e) ==> expected == Err::<Seq<(u64, usize, Seq<u8>)>, SyntaxError>(e)
                &&& r matches Ok(s) ==> s.message_fields() == expected.unwrap()
            }),
    {
        let ghost bytes = reader.bytes();
        let ghost limit = reader.limit();
        let ghost whole = sei_messages_outcome(bytes, reader.pos(), limit);
        let mut messages: Vec<SeiMessage> = Vec::new();
        loop
            invariant_except_break
                reader.wf(),
                reader.bytes() == bytes,
                reader.limit() == limit,
                bytes == old(reader).bytes(),
                limit == old(reader).limit(),
                whole == sei_messages_outcome(bytes, old(reader).pos(), limit),
                whole == after_messages(messages@.map_values(|m: SeiMessage| m.fields()), sei_messages_outcome(bytes, reader.pos(), limit)),
            ensures
                reader.wf(),
                reader.bytes() == bytes,
                reader.limit() == limit,
                bytes == old(reader).bytes(),
                limit == old(reader).limit(),
                whole == sei_messages_outcome(bytes, old(reader).pos(), limit),
                whole == Ok::<(Seq<(u64, usize, Seq<u8>)>, int), SyntaxError>((messages@.map_values(|m: SeiMessage| m.fields()), reader.pos())),
            decreases limit - reader.pos(),
        {
            let ghost here = reader.pos();
            let ghost done = messages@.map_values(|m: SeiMessage| m.fields());
            proof {
                lemma_ff_coded_advances(bytes, here, limit, 0);
                let kind_end = ff_coded_outcome(bytes, here, limit, 0).1;
                lemma_ff_coded_advances(bytes, kind_end, limit, 0);
            }
            let message = SeiMessage::parse(reader)?;
            let ghost fields = message.fields();
            messages.push(message);
            proof {
                assert(messages@.map_values(|m: SeiMessage| m.fields()) == done.push(fields));
                assert(done + seq![fields] == done.push(fields));
            }
            if !reader.more_rbsp_data() {
                break;
            }
            proof {
                assert(after_messages(seq![fields], sei_messages_outcome(bytes, reader.pos(), limit)) == sei_messages_outcome(bytes, here, limit));
                assert(done + (seq![fields] + seq![]) == done.push(fields));
                match sei_messages_outcome(bytes, reader.pos(), limit) {
                    Ok((rest, end)) => {
                        assert(done + (seq![fields] + rest) == done.push(fields) + rest);
                    },
                    Err(_) => {},
                }
            }
        }
        reader.read_rbsp_trailing_bits()?;
        Ok(Self { messages })
    }
}

/// Parsed access-unit delimiter RBSP from §7.3.2.5.
#[derive(Clone, Copy, Debug, Eq, PartialEq)]
pub struct AccessUnitDelimiterRbsp {
    /// `pic_type`.
    pub pic_type: u8,
}

/// The outcome of `access_unit_delimiter_rbsp()` read at `pos`.
pub open spec fn access_unit_delimiter_outcome(data: Seq<u8>, pos: int, limit: int) -> Result<u8, SyntaxError> {
    if limit - pos < 3 {
        Err(short_read(3, pos, limit))
    } else {
        match trailing_bits_outcome(data, pos + 3, limit) {
            Err(e) => Err(e),
            Ok(_) => Ok(bits_value(data, pos, 3) as u8),
        }
    }
}

/// Parses `access_unit_delimiter_rbsp()`.
pub fn parse_access_unit_delimiter_rbsp(reader: &mut BitReader<'_>) -> (r: Result<AccessUnitDelimiterRbsp, SyntaxError>)
    requires
        old(reader).wf(),
    ensures
        final(reader).wf(),
        final(reader).same_input(old(reader)),
        r == match access_unit_delimiter_outcome(old(reader).bytes(), old(reader).pos(), old(reader).limit()) {
            Ok(pic_type) => Ok(AccessUnitDelimiterRbsp { pic_type }),
            Err(e) => Err(e),
        },
{
    proof {
        vstd::arithmetic::power2::lemma2_to64();
        lemma_bits_value_bound(reader.bytes(), reader.pos(), 3);
    }
    let value = reader.read_u(3)?;
    let pic_type = value as u8;
    assert(pic_type == bits_value(old(reader).bytes(), old(reader).pos(), 3) as u8);
    reader.read_rbsp_trailing_bits()?;
    Ok(AccessUnitDelimiterRbsp { pic_type })
}

/// The outcome of an empty RBSP named `name`: no bits may remain.
pub open spec fn empty_rbsp_outcome(pos: int, limit: int, name: &'static str) -> Result<(), SyntaxError> {
    if limit <= pos {
        Ok(())
    } else {
        Err(SyntaxError::InvalidSyntaxValue(name))
    }
}

/// Parses the empty `end_of_seq_rbsp()` syntax structure.
pub fn parse_end_of_sequence_rbsp(reader: &mut BitReader<'_>) -> (r: Result<(), SyntaxError>)
    ensures
        *final(reader) == *old(reader),
        r == empty_rbsp_outcome(old(reader).pos(), old(reader).limit(), "end-of-sequence RBSP"),
{
    parse_empty_rbsp(reader, "end-of-sequence RBSP")
}

/// Parses the empty `end_of_bitstream_rbsp()` syntax structure.
pub fn parse_end_of_bitstream_rbsp(reader: &mut BitReader<'_>) -> (r: Result<(), SyntaxError>)
    ensures
        *final(reader) == *old(reader),
        r == empty_rbsp_outcome(old(reader).pos(), old(reader).limit(), "end-of-bitstream RBSP"),
{
    parse_empty_rbsp(reader, "end-of-bitstream RBSP")
}

fn parse_empty_rbsp(reader: &BitReader<'_>, name: &'static str) -> (r: Result<(), SyntaxError>)
    ensures
        r == empty_rbsp_outcome(reader.pos(), reader.limit(), name),
{
    if reader.bits_remaining() == 0 {
        Ok(())
    } else {
        Err(SyntaxError::InvalidSyntaxValue(name))
    }
}

/// Parsed filler-data RBSP from §7.3.2.8.
#[derive(Clone, Debug, Eq, PartialEq)]
pub struct FillerDataRbsp {
    /// Number of `ff_byte` values consumed.
    pub filler_byte_count: usize,
}

/// Number of consecutive `0xff` bytes at bit `pos` with eight bits available.
pub open spec fn ff_byte_run(data: Seq<u8>, pos: int, limit: int) -> nat
    decreases limit - pos,
{
    if limit - pos >= 8 && bits_value(data, pos, 8) == 0xff {
        1 + ff_byte_run(data, pos + 8, limit)
    } else {
        0
    }
}

/// The outcome of `filler_data_rbsp()` read at `pos`: the filler byte count.
pub open spec fn filler_data_outcome(data: Seq<u8>, pos: int, limit: int) -> Result<nat, SyntaxError> {
    let n = ff_byte_run(data, pos, limit);
    match trailing_bits_outcome(data, pos + 8 * n, limit) {
        Err(e) => Err(e),
        Ok(_) => Ok(n),
    }
}

proof fn lemma_ff_byte_run_fits(data: Seq<u8>, pos: int, limit: int)
    requires
        pos >= 0,
    ensures
        8 * ff_byte_run(data, pos, limit) <= if limit > pos { limit - pos } else { 0 },
    decreases limit - pos,
{
    if limit - pos >= 8 && bits_value(data, pos, 8) == 0xff {
        lemma_ff_byte_run_fits(data, pos + 8, limit);
    }
}

/// Parses `filler_data_rbsp()` and consumes its trailing bits.
pub fn parse_filler_data_rbsp(reader: &mut BitReader<'_>) -> (r: Result<FillerDataRbsp, SyntaxError>)
    requires
        old(reader).wf(),
    ensures
        final(reader).wf(),
        final(reader).same_input(old(reader)),
        r == match filler_data_outcome(old(reader).bytes(), old(reader).pos(), old(reader).limit()) {
            Ok(n) => Ok(FillerDataRbsp { filler_byte_count: n as usize }),
            Err(e) => Err(e),
        },
{
    let ghost start = reader.pos();
    let mut filler_byte_count: usize = 0;
    proof {
        lemma_ff_byte_run_fits(reader.bytes(), start, reader.limit());
    }
    while reader.bits_remaining() >= 8 && matches!(reader.next_bits(8), Ok(0xff))
        invariant
            reader.wf(),
            reader.same_input(old(reader)),
            start == old(reader).pos(),
            reader.pos() == start + 8 * filler_byte_count,
            ff_byte_run(reader.bytes(), start, reader.limit()) == filler_byte_count + ff_byte_run(
                reader.bytes(),
                reader.pos(),
                reader.limit(),
            ),
            8 * ff_byte_run(reader.bytes(), start, reader.limit()) <= reader.bytes().len() * 8,
        decreases reader.limit() - reader.pos(),
    {
        proof {
            lemma_bits_value_bound(reader.bytes(), reader.pos(), 8);
            vstd::arithmetic::power2::lemma2_to64();
        }
        let _ = reader.read_u(8);
        filler_byte_count = filler_byte_count + 1;
    }
    proof {
        lemma_bits_value_bound(reader.bytes(), reader.pos(), 8);
        vstd::arithmetic::power2::lemma2_to64();
    }
    reader.read_rbsp_trailing_bits()?;
    Ok(FillerDataRbsp { filler_byte_count })
}

/// The outcome of the `cabac_zero_word` run read at `pos`: its length.
pub open spec fn cabac_zero_words_outcome(data: Seq<u8>, pos: int, limit: int) -> Result<nat, SyntaxError>
    decreases limit - pos,
{
    if limit - pos >= 16 {
        if bits_value(data, pos, 16) != 0 {
            Err(SyntaxError::InvalidSyntaxValue("cabac_zero_word must equal 0x0000"))
        } else {
            match cabac_zero_words_outcome(data, pos + 16, limit) {
                Ok(n) => Ok(n + 1),
                Err(e) => Err(e),
            }
        }
    } else if limit > pos {
        Err(SyntaxError::InvalidSyntaxValue("trailing CABAC data must be a whole number of words"))
    } else {
        Ok(0)
    }
}

/// The outcome of `rbsp_slice_segment_trailing_bits()` read at `pos`: the
/// number of `cabac_zero_word` values.
pub open spec fn slice_trailing_outcome(data: Seq<u8>, pos: int, limit: int) -> Result<nat, SyntaxError> {
    match trailing_bits_outcome(data, pos, limit) {
        Err(e) => Err(e),
        Ok(_) => cabac_zero_words_outcome(data, trailing_bits_end(pos), limit),
    }
}

proof fn lemma_zero_words_fit(data: Seq<u8>, pos: int, limit: int)
    ensures
        cabac_zero_words_outcome(data, pos, limit) matches Ok(n) ==> 16 * n <= if limit > pos { limit - pos } else { 0 },
    decreases limit - pos,
{
    if limit - pos >= 16 && bits_value(data, pos, 16) == 0 {
        lemma_zero_words_fit(data, pos + 16, limit);
    }
}

/// Consumes `rbsp_slice_segment_trailing_bits()` from §7.3.2.10.
///
/// Returns the number of 16-bit `cabac_zero_word` values consumed after the
/// ordinary RBSP trailing bits.
pub fn parse_rbsp_slice_segment_trailing_bits(reader: &mut BitReader<'_>) -> (r: Result<usize, SyntaxError>)
    requires
        old(reader).wf(),
    ensures
        final(reader).wf(),
        final(reader).same_input(old(reader)),
        r == match slice_trailing_outcome(old(reader).bytes(), old(reader).pos(), old(reader).limit()) {
            Ok(n) => Ok(n as usize),
            Err(e) => Err::<usize, SyntaxError>(e),
        },
{
    reader.read_rbsp_trailing_bits()?;
    let ghost words_start = reader.pos();
    let mut cabac_zero_word_count: usize = 0;
    while reader.bits_remaining() >= 16
        invariant
            reader.wf(),
            reader.same_input(old(reader)),
            reader.pos() == words_start + 16 * cabac_zero_word_count,
            words_start >= 0,
            trailing_bits_outcome(old(reader).bytes(), old(reader).pos(), old(reader).limit()) is Ok,
            words_start == trailing_bits_end(old(reader).pos()),
            cabac_zero_words_outcome(reader.bytes(), words_start, reader.limit()) == match cabac_zero_words_outcome(
                reader.bytes(),
                reader.pos(),
                reader.limit(),
            ) {
                Ok(n) => Ok((n + cabac_zero_word_count) as nat),
                Err(e) => Err::<nat, SyntaxError>(e),
            },
        decreases reader.limit() - reader.pos(),
    {
        proof {
            lemma_bits_value_bound(reader.bytes(), reader.pos(), 16);
            vstd::arithmetic::power2::lemma2_to64();
        }
        if !matches!(reader.next_bits(16), Ok(0)) {
            return Err(SyntaxError::InvalidSyntaxValue("cabac_zero_word must equal 0x0000"));
        }
        let _ = reader.read_u(16);
        cabac_zero_word_count = cabac_zero_word_count + 1;
    }
    if reader.bits_remaining() != 0 {
        return Err(SyntaxError::InvalidSyntaxValue("trailing CABAC data must be a whole number of words"));
    }
    proof {
        lemma_zero_words_fit(reader.bytes(), words_start, reader.limit());
    }
    Ok(cabac_zero_word_count)
}

} // verus!
