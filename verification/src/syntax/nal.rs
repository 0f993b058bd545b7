//! NAL unit header parsing and emulation-prevention removal (§7.3.1).
use vstd::prelude::*;
use vstd::arithmetic::power2::pow2;
use super::{bits_value, lemma_bits_value_bound, BitReader, SyntaxError};

verus! {

/// The two-byte H.265 NAL-unit header from §7.3.1.2.
#[derive(Clone, Copy, Debug, Eq, PartialEq, Structural)]
pub struct NalUnitHeader {
    /// The syntax-level forbidden-zero bit.
    pub forbidden_zero_bit: bool,
    /// NAL unit type in the range 0..=63.
    pub nal_unit_type: u8,
    /// Layer identifier in the range 0..=63.
    pub nuh_layer_id: u8,
    /// Temporal identifier plus one; zero is forbidden by semantics.
    pub nuh_temporal_id_plus1: u8,
}

/// The header fields read from the first two bytes `b`.
pub open spec fn header_fields(b: Seq<u8>) -> NalUnitHeader {
    NalUnitHeader {
        forbidden_zero_bit: bits_value(b, 0, 1) != 0,
        nal_unit_type: bits_value(b, 1, 6) as u8,
        nuh_layer_id: bits_value(b, 7, 6) as u8,
        nuh_temporal_id_plus1: bits_value(b, 13, 3) as u8,
    }
}

/// The outcome of parsing a NAL unit header from `bytes`.
pub open spec fn header_outcome(bytes: Seq<u8>) -> Result<NalUnitHeader, SyntaxError> {
    if bytes.len() < 2 {
        Err(SyntaxError::NalUnitTooShort)
    } else {
        let h = header_fields(bytes.subrange(0, 2));
        if h.forbidden_zero_bit {
            Err(SyntaxError::InvalidNalHeader("forbidden_zero_bit is not zero"))
        } else if h.nuh_temporal_id_plus1 == 0 {
            Err(SyntaxError::InvalidNalHeader("nuh_temporal_id_plus1 is not greater than zero"))
        } else {
            Ok(h)
        }
    }
}

impl NalUnitHeader {
    /// Parses and validates a two-byte NAL-unit header.
    pub fn parse(bytes: &[u8]) -> (r: Result<Self, SyntaxError>)
        ensures
            r == header_outcome(bytes@),
    {
        if bytes.len() < 2 {
            return Err(SyntaxError::NalUnitTooShort);
        }
        let head = vstd::slice::slice_subrange(bytes, 0, 2);
        let mut reader = BitReader::new(head);
        proof {
            vstd::arithmetic::power2::lemma2_to64();
            lemma_bits_value_bound(head@, 0, 1);
            lemma_bits_value_bound(head@, 1, 6);
            lemma_bits_value_bound(head@, 7, 6);
            lemma_bits_value_bound(head@, 13, 3);
        }
        let forbidden = reader.read_f(1);
        let nal_unit_type = reader.read_u(6);
        let nuh_layer_id = reader.read_u(6);
        let tid = reader.read_u(3);
        let (forbidden, nal_unit_type, nuh_layer_id, tid) = match (forbidden, nal_unit_type, nuh_layer_id, tid) {
            (Ok(a), Ok(b), Ok(c), Ok(d)) => (a, b, c, d),
            _ => {
                assert(false);
                return Err(SyntaxError::NalUnitTooShort);
            },
        };
        let header = Self {
            forbidden_zero_bit: forbidden != 0,
            nal_unit_type: nal_unit_type as u8,
            nuh_layer_id: nuh_layer_id as u8,
            nuh_temporal_id_plus1: tid as u8,
        };
        if header.forbidden_zero_bit {
            return Err(SyntaxError::InvalidNalHeader("forbidden_zero_bit is not zero"));
        }
        if header.nuh_temporal_id_plus1 == 0 {
            return Err(SyntaxError::InvalidNalHeader("nuh_temporal_id_plus1 is not greater than zero"));
        }
        Ok(header)
    }
}

/// A parsed NAL unit with its header and RBSP payload.
#[derive(Clone, Debug, Eq, PartialEq)]
pub struct ParsedNalUnit {
    /// Parsed two-byte header.
    pub header: NalUnitHeader,
    /// RBSP payload after emulation-prevention bytes are removed.
    pub rbsp: Vec<u8>,
}

impl ParsedNalUnit {
    /// Parses a complete NAL unit, including its two-byte header.
    pub fn parse(nal_unit: &[u8]) -> (r: Result<Self, SyntaxError>)
        ensures
            header_outcome(nal_unit@) matches Err(e) ==> r == Err::<Self, SyntaxError>(e),
            header_outcome(nal_unit@) matches Ok(h) ==> (r matches Ok(p) && p.header == h
                && p.rbsp@ == ebsp_strip(nal_unit@.subrange(2, nal_unit@.len() as int), 0)),
    {
        let header = NalUnitHeader::parse(nal_unit)?;
        let payload = vstd::slice::slice_subrange(nal_unit, 2, nal_unit.len());
        Ok(Self { header, rbsp: ebsp_to_rbsp(payload) })
    }
}

/// The RBSP bytes of `ebsp` with every `0x03` that follows two zero bytes
/// removed, `zeros` zero bytes having been seen just before it.
pub open spec fn ebsp_strip(ebsp: Seq<u8>, zeros: nat) -> Seq<u8>
    decreases ebsp.len(),
{
    if ebsp.len() == 0 {
        Seq::empty()
    } else if zeros >= 2 && ebsp[0] == 3 {
        ebsp_strip(ebsp.drop_first(), 0)
    } else {
        seq![ebsp[0]] + ebsp_strip(ebsp.drop_first(), if ebsp[0] == 0 { zeros + 1 } else { 0 })
    }
}

/// Removes `emulation_prevention_three_byte` values from an EBSP payload.
pub fn ebsp_to_rbsp(ebsp: &[u8]) -> (r: Vec<u8>)
    ensures
        r@ == ebsp_strip(ebsp@, 0),
{
    let mut rbsp: Vec<u8> = Vec::new();
    let mut zero_count: usize = 0;
    let mut i: usize = 0;
    assert(ebsp@.subrange(0, ebsp@.len() as int) =~= ebsp@);
    while i < ebsp.len()
        invariant
            i <= ebsp@.len(),
            zero_count <= i,
            rbsp@ + ebsp_strip(ebsp@.subrange(i as int, ebsp@.len() as int), zero_count as nat) == ebsp_strip(ebsp@, 0),
        decreases ebsp@.len() - i,
    {
        let byte = ebsp[i];
        let ghost rest = ebsp@.subrange(i as int, ebsp@.len() as int);
        assert(rest.drop_first() =~= ebsp@.subrange(i + 1, ebsp@.len() as int));
        if zero_count >= 2 && byte == 0x03 {
            zero_count = 0;
        } else {
            let ghost before = rbsp@;
            rbsp.push(byte);
            if byte == 0 {
                zero_count += 1;
            } else {
                zero_count = 0;
            }
            assert(before + (seq![byte] + ebsp_strip(rest.drop_first(), zero_count as nat))
                =~= rbsp@ + ebsp_strip(rest.drop_first(), zero_count as nat));
        }
        i += 1;
    }
    assert(ebsp@.subrange(i as int, ebsp@.len() as int) =~= Seq::<u8>::empty());
    assert(rbsp@ + Seq::<u8>::empty() =~= rbsp@);
    rbsp
}

} // verus!
