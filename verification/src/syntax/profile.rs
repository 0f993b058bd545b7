//! `profile_tier_level()` syntax of §7.3.3.
use vstd::prelude::*;
use super::bit_reader::{bit_at_spec, bits_value, lemma_bits_value_bound, BitReader};
use super::SyntaxError;

verus! {

/// Profile and constraint fields common to the general and sub-layer syntax.
#[derive(Clone, Debug, Eq, PartialEq)]
pub struct ProfileInfo {
    /// `profile_space`.
    pub profile_space: u8,
    /// `tier_flag`.
    pub tier_flag: bool,
    /// `profile_idc`.
    pub profile_idc: u8,
    /// The 32 compatibility flags in table order.
    pub compatibility_flags: [bool; 32],
    /// `progressive_source_flag`.
    pub progressive_source_flag: bool,
    /// `interlaced_source_flag`.
    pub interlaced_source_flag: bool,
    /// `non_packed_constraint_flag`.
    pub non_packed_constraint_flag: bool,
    /// `frame_only_constraint_flag`.
    pub frame_only_constraint_flag: bool,
    /// The branch-dependent 44-bit constraint payload preserved verbatim.
    pub constraint_flags: u64,
}

/// One sub-layer's optional profile and level fields.
#[derive(Clone, Debug, Eq, PartialEq)]
pub struct SubLayerProfileLevel {
    /// Whether profile fields are present for this sub-layer.
    pub profile_present_flag: bool,
    /// Whether a level field is present for this sub-layer.
    pub level_present_flag: bool,
    /// Profile fields when `profile_present_flag` is true.
    pub profile: Option<ProfileInfo>,
    /// Level IDC when `level_present_flag` is true.
    pub level_idc: Option<u8>,
}

/// Parsed `profile_tier_level()` syntax from §7.3.3.
#[derive(Clone, Debug, Eq, PartialEq)]
pub struct ProfileTierLevel {
    /// The `profilePresentFlag` function argument.
    pub profile_present_flag: bool,
    /// General profile and constraints, when present.
    pub general_profile: Option<ProfileInfo>,
    /// `general_level_idc`.
    pub general_level_idc: u8,
    /// Sub-layer syntax in ascending sub-layer order.
    pub sub_layers: Vec<SubLayerProfileLevel>,
    /// The reserved two-bit values between the sub-layer flags and profiles.
    pub reserved_zero_2bits: Vec<u8>,
}

/// The one-bit flag at bit `pos`.
pub open spec fn flag_at(data: Seq<u8>, pos: int) -> bool {
    bits_value(data, pos, 1) != 0
}

/// Number of bits of the profile fields (2 + 1 + 5 + 32 + 4 + 44).
pub open spec fn profile_bits() -> int {
    88
}

/// `info` holds the profile fields coded at bit `pos`.
pub open spec fn profile_info_at(info: ProfileInfo, data: Seq<u8>, pos: int) -> bool {
    &&& info.profile_space == bits_value(data, pos, 2)
    &&& info.tier_flag == flag_at(data, pos + 2)
    &&& info.profile_idc == bits_value(data, pos + 3, 5)
    &&& forall|j: int| 0 <= j < 32 ==> #[trigger] info.compatibility_flags@[j] == flag_at(data, pos + 8 + j)
    &&& info.progressive_source_flag == flag_at(data, pos + 40)
    &&& info.interlaced_source_flag == flag_at(data, pos + 41)
    &&& info.non_packed_constraint_flag == flag_at(data, pos + 42)
    &&& info.frame_only_constraint_flag == flag_at(data, pos + 43)
    &&& info.constraint_flags == bits_value(data, pos + 44, 44)
}

/// A read of `n` bits at `pos` succeeds.
pub open spec fn readable(pos: int, limit: int, n: int) -> bool {
    pos + n <= limit
}

impl ProfileInfo {
    fn parse(reader: &mut BitReader<'_>) -> (r: Result<Self, SyntaxError>)
        requires
            old(reader).wf(),
        ensures
            final(reader).wf(),
            final(reader).same_input(old(reader)),
            r is Ok <==> readable(old(reader).pos(), old(reader).limit(), profile_bits()),
            r matches Ok(info) ==> profile_info_at(info, old(reader).bytes(), old(reader).pos()) && final(reader).pos()
                == old(reader).pos() + profile_bits(),
            r matches Err(e) ==> e is UnexpectedEnd,
    {
        let ghost start = reader.pos();
        let ghost data = reader.bytes();
        proof {
            vstd::arithmetic::power2::lemma2_to64();
            lemma_bits_value_bound(data, start, 2);
            lemma_bits_value_bound(data, start + 3, 5);
            lemma_bits_value_bound(data, start + 2, 1);
            lemma_bits_value_bound(data, start + 40, 1);
            lemma_bits_value_bound(data, start + 41, 1);
            lemma_bits_value_bound(data, start + 42, 1);
            lemma_bits_value_bound(data, start + 43, 1);
            lemma_bits_value_bound(data, start + 44, 44);
        }
        let profile_space = reader.read_u(2)? as u8;
        let tier_flag = reader.read_u(1)? != 0;
        let profile_idc = reader.read_u(5)? as u8;
        let mut compatibility_flags = [false; 32];
        let mut j: usize = 0;
        while j < 32
            invariant
                reader.wf(),
                reader.same_input(old(reader)),
                data == old(reader).bytes(),
                start == old(reader).pos(),
                reader.pos() == start + 8 + j,
                j <= 32,
                profile_space == bits_value(data, start, 2),
                tier_flag == flag_at(data, start + 2),
                profile_idc == bits_value(data, start + 3, 5),
                forall|k: int| 0 <= k < j ==> #[trigger] compatibility_flags@[k] == flag_at(data, start + 8 + k),
            decreases 32 - j,
        {
            proof {
                lemma_bits_value_bound(data, start + 8 + j, 1);
                vstd::arithmetic::power2::lemma2_to64();
            }
            let bit = reader.read_u(1)?;
            compatibility_flags[j] = bit != 0;
            j += 1;
        }
        proof {
            vstd::arithmetic::power2::lemma2_to64();
            lemma_bits_value_bound(data, start + 40, 1);
            lemma_bits_value_bound(data, start + 41, 1);
            lemma_bits_value_bound(data, start + 42, 1);
            lemma_bits_value_bound(data, start + 43, 1);
            lemma_bits_value_bound(data, start + 44, 44);
            vstd::arithmetic::power2::lemma2_to64_rest();
        }
        let progressive_source_flag = reader.read_u(1)? != 0;
        let interlaced_source_flag = reader.read_u(1)? != 0;
        let non_packed_constraint_flag = reader.read_u(1)? != 0;
        let frame_only_constraint_flag = reader.read_u(1)? != 0;
        let constraint_flags = reader.read_u(44)?;
        assert(profile_space == bits_value(data, start, 2));
        assert(tier_flag == flag_at(data, start + 2));
        assert(profile_idc == bits_value(data, start + 3, 5));
        assert(progressive_source_flag == flag_at(data, start + 40));
        assert(constraint_flags == bits_value(data, start + 44, 44));
        assert(reader.pos() == start + 88);
        Ok(Self {
            profile_space,
            tier_flag,
            profile_idc,
            compatibility_flags,
            progressive_source_flag,
            interlaced_source_flag,
            non_packed_constraint_flag,
            frame_only_constraint_flag,
            constraint_flags,
        })
    }
}

} // verus!

verus! {

/// Bit offset of the sub-layer present flags.
pub open spec fn ptl_flags_pos(pos: int, profile_present_flag: bool) -> int {
    pos + (if profile_present_flag { profile_bits() } else { 0 }) + 8
}

/// Bit offset of the first sub-layer's optional fields.
pub open spec fn ptl_first_layer(pos: int, profile_present_flag: bool, n: int) -> int {
    ptl_flags_pos(pos, profile_present_flag) + 2 * n + (if n > 0 { 2 * (8 - n) } else { 0 })
}

/// Size in bits of sub-layer `i`'s optional fields, given the flags at `flags`.
pub open spec fn sub_layer_bits(data: Seq<u8>, flags: int, i: int) -> int {
    (if flag_at(data, flags + 2 * i) { profile_bits() } else { 0 }) + (if flag_at(data, flags + 2 * i + 1) { 8int } else { 0int })
}

/// Bit offset of sub-layer `i`'s optional fields.
pub open spec fn sub_layer_start(data: Seq<u8>, flags: int, first: int, i: int) -> int
    decreases i,
{
    if i <= 0 {
        first
    } else {
        sub_layer_start(data, flags, first, i - 1) + sub_layer_bits(data, flags, i - 1)
    }
}

/// Bit offset just after `profile_tier_level()` read at `pos`.
pub open spec fn ptl_end(data: Seq<u8>, pos: int, profile_present_flag: bool, n: int) -> int {
    let flags = ptl_flags_pos(pos, profile_present_flag);
    sub_layer_start(data, flags, ptl_first_layer(pos, profile_present_flag, n), n)
}

/// `sub` holds sub-layer `i`'s flags and optional fields.
pub open spec fn sub_layer_at(sub: SubLayerProfileLevel, data: Seq<u8>, flags: int, first: int, i: int) -> bool {
    let start = sub_layer_start(data, flags, first, i);
    let profile_flag = flag_at(data, flags + 2 * i);
    let level_flag = flag_at(data, flags + 2 * i + 1);
    &&& sub.profile_present_flag == profile_flag
    &&& sub.level_present_flag == level_flag
    &&& (sub.profile is Some <==> profile_flag)
    &&& (sub.profile matches Some(info) ==> profile_info_at(info, data, start))
    &&& sub.level_idc == if level_flag {
        Some(bits_value(data, start + (if profile_flag { profile_bits() } else { 0 }), 8) as u8)
    } else {
        None
    }
}

/// `ptl` holds the `profile_tier_level()` fields coded at `pos`.
pub open spec fn profile_tier_level_at(ptl: ProfileTierLevel, data: Seq<u8>, pos: int, profile_present_flag: bool, n: int) -> bool {
    let flags = ptl_flags_pos(pos, profile_present_flag);
    let first = ptl_first_layer(pos, profile_present_flag, n);
    &&& ptl.profile_present_flag == profile_present_flag
    &&& (ptl.general_profile is Some <==> profile_present_flag)
    &&& (ptl.general_profile matches Some(info) ==> profile_info_at(info, data, pos))
    &&& ptl.general_level_idc == bits_value(data, flags - 8, 8)
    &&& ptl.sub_layers@.len() == n
    &&& forall|i: int| 0 <= i < n ==> sub_layer_at(#[trigger] ptl.sub_layers@[i], data, flags, first, i)
    &&& ptl.reserved_zero_2bits@.len() == (if n > 0 { 8 - n } else { 0 })
    &&& forall|k: int| 0 <= k < ptl.reserved_zero_2bits@.len() ==> #[trigger] ptl.reserved_zero_2bits@[k] == bits_value(
        data,
        flags + 2 * n + 2 * k,
        2,
    )
}

proof fn lemma_sub_layer_start_grows(data: Seq<u8>, flags: int, first: int, i: int, j: int)
    requires
        0 <= i <= j,
    ensures
        sub_layer_start(data, flags, first, i) <= sub_layer_start(data, flags, first, j),
        i < j ==> sub_layer_start(data, flags, first, i) + sub_layer_bits(data, flags, i) <= sub_layer_start(data, flags, first, j),
    decreases j - i,
{
    if i < j {
        lemma_sub_layer_start_grows(data, flags, first, i + 1, j);
    }
}

fn read_level(reader: &mut BitReader<'_>) -> (r: Result<u8, SyntaxError>)
    requires
        old(reader).wf(),
    ensures
        final(reader).wf(),
        final(reader).same_input(old(reader)),
        r is Ok <==> readable(old(reader).pos(), old(reader).limit(), 8),
        r matches Ok(v) ==> v == bits_value(old(reader).bytes(), old(reader).pos(), 8) && final(reader).pos() == old(
            reader,
        ).pos() + 8,
        r matches Err(e) ==> e is UnexpectedEnd,
{
    proof {
        vstd::arithmetic::power2::lemma2_to64();
        lemma_bits_value_bound(reader.bytes(), reader.pos(), 8);
    }
    Ok(reader.read_u(8)? as u8)
}

fn read_flag(reader: &mut BitReader<'_>) -> (r: Result<bool, SyntaxError>)
    requires
        old(reader).wf(),
    ensures
        final(reader).wf(),
        final(reader).same_input(old(reader)),
        r is Ok <==> readable(old(reader).pos(), old(reader).limit(), 1),
        r matches Ok(v) ==> v == flag_at(old(reader).bytes(), old(reader).pos()) && final(reader).pos() == old(
            reader,
        ).pos() + 1,
        r matches Err(e) ==> e is UnexpectedEnd,
{
    proof {
        vstd::arithmetic::power2::lemma2_to64();
        lemma_bits_value_bound(reader.bytes(), reader.pos(), 1);
    }
    Ok(reader.read_u(1)? != 0)
}

/// Parses `profile_tier_level(profilePresentFlag, maxNumSubLayersMinus1)`.
pub fn parse_profile_tier_level(reader: &mut BitReader<'_>, profile_present_flag: bool, max_num_sub_layers_minus1: u8) -> (r: Result<ProfileTierLevel, SyntaxError>)
    requires
        old(reader).wf(),
    ensures
        final(reader).wf(),
        final(reader).same_input(old(reader)),
        max_num_sub_layers_minus1 > 7 ==> r == Err::<ProfileTierLevel, SyntaxError>(
            SyntaxError::InvalidSyntaxValue("maxNumSubLayersMinus1 must be at most 7"),
        ),
        max_num_sub_layers_minus1 <= 7 ==> (r is Ok <==> ptl_end(
            old(reader).bytes(),
            old(reader).pos(),
            profile_present_flag,
            max_num_sub_layers_minus1 as int,
        ) <= old(reader).limit()),
        max_num_sub_layers_minus1 <= 7 ==> (r matches Err(e) ==> e is UnexpectedEnd),
        r matches Ok(ptl) ==> profile_tier_level_at(
            ptl,
            old(reader).bytes(),
            old(reader).pos(),
            profile_present_flag,
            max_num_sub_layers_minus1 as int,
        ) && final(reader).pos() == ptl_end(
            old(reader).bytes(),
            old(reader).pos(),
            profile_present_flag,
            max_num_sub_layers_minus1 as int,
        ),
{
    if max_num_sub_layers_minus1 > 7 {
        return Err(SyntaxError::InvalidSyntaxValue("maxNumSubLayersMinus1 must be at most 7"));
    }
    let ghost data = reader.bytes();
    let ghost pos = reader.pos();
    let ghost limit = reader.limit();
    let n = max_num_sub_layers_minus1 as usize;
    let ghost flags = ptl_flags_pos(pos, profile_present_flag);
    let ghost first = ptl_first_layer(pos, profile_present_flag, n as int);
    let ghost end = ptl_end(data, pos, profile_present_flag, n as int);
    proof {
        lemma_sub_layer_start_grows(data, flags, first, 0, n as int);
    }
    let general_profile = if profile_present_flag {
        Some(ProfileInfo::parse(reader)?)
    } else {
        None
    };
    let general_level_idc = read_level(reader)?;
    let mut profile_flags: Vec<bool> = Vec::new();
    let mut level_flags: Vec<bool> = Vec::new();
    let mut j: usize = 0;
    while j < n
        invariant
            reader.wf(),
            reader.same_input(old(reader)),
            data == old(reader).bytes(),
            pos == old(reader).pos(),
            limit == old(reader).limit(),
            n <= 7,
            n == max_num_sub_layers_minus1,
            j <= n,
            flags == ptl_flags_pos(pos, profile_present_flag),
            first == ptl_first_layer(pos, profile_present_flag, n as int),
            end == ptl_end(data, pos, profile_present_flag, n as int),
            first <= end,
            reader.pos() == flags + 2 * j,
            reader.pos() <= limit,
            profile_flags@.len() == j,
            level_flags@.len() == j,
            forall|k: int| 0 <= k < j ==> #[trigger] profile_flags@[k] == flag_at(data, flags + 2 * k),
            forall|k: int| 0 <= k < j ==> #[trigger] level_flags@[k] == flag_at(data, flags + 2 * k + 1),
        decreases n - j,
    {
        profile_flags.push(read_flag(reader)?);
        level_flags.push(read_flag(reader)?);
        j += 1;
    }
    let mut reserved_zero_2bits: Vec<u8> = Vec::new();
    if n > 0 {
        let mut k: usize = n;
        while k < 8
            invariant
                reader.wf(),
                reader.same_input(old(reader)),
                data == old(reader).bytes(),
                limit == old(reader).limit(),
                0 < n <= 7,
                n == max_num_sub_layers_minus1,
                pos == old(reader).pos(),
                flags == ptl_flags_pos(pos, profile_present_flag),
                end == ptl_end(data, pos, profile_present_flag, n as int),
                n <= k <= 8,
                first == flags + 2 * n + 2 * (8 - n),
                first <= end,
                reader.pos() == flags + 2 * k,
                reader.pos() <= limit,
                reserved_zero_2bits@.len() == k - n,
                forall|i: int| 0 <= i < k - n ==> #[trigger] reserved_zero_2bits@[i] == bits_value(data, flags + 2 * n + 2 * i, 2),
            decreases 8 - k,
        {
            proof {
                vstd::arithmetic::power2::lemma2_to64();
                lemma_bits_value_bound(data, reader.pos(), 2);
            }
            reserved_zero_2bits.push(reader.read_u(2)? as u8);
            k += 1;
        }
    }
    let mut sub_layers: Vec<SubLayerProfileLevel> = Vec::new();
    let mut index: usize = 0;
    while index < n
        invariant
            reader.wf(),
            reader.same_input(old(reader)),
            data == old(reader).bytes(),
            limit == old(reader).limit(),
            n <= 7,
            n == max_num_sub_layers_minus1,
            pos == old(reader).pos(),
            flags == ptl_flags_pos(pos, profile_present_flag),
            first == ptl_first_layer(pos, profile_present_flag, n as int),
            end == ptl_end(data, pos, profile_present_flag, n as int),
            index <= n,
            end == sub_layer_start(data, flags, first, n as int),
            reader.pos() == sub_layer_start(data, flags, first, index as int),
            reader.pos() <= limit,
            profile_flags@.len() == n,
            level_flags@.len() == n,
            forall|k: int| 0 <= k < n ==> #[trigger] profile_flags@[k] == flag_at(data, flags + 2 * k),
            forall|k: int| 0 <= k < n ==> #[trigger] level_flags@[k] == flag_at(data, flags + 2 * k + 1),
            sub_layers@.len() == index,
            forall|i: int| 0 <= i < index ==> sub_layer_at(#[trigger] sub_layers@[i], data, flags, first, i),
        decreases n - index,
    {
        proof {
            lemma_sub_layer_start_grows(data, flags, first, index as int, n as int);
        }
        let profile = if profile_flags[index] {
            Some(ProfileInfo::parse(reader)?)
        } else {
            None
        };
        let level_idc = if level_flags[index] {
            Some(read_level(reader)?)
        } else {
            None
        };
        sub_layers.push(
            SubLayerProfileLevel {
                profile_present_flag: profile_flags[index],
                level_present_flag: level_flags[index],
                profile,
                level_idc,
            },
        );
        index += 1;
    }
    Ok(ProfileTierLevel { profile_present_flag, general_profile, general_level_idc, sub_layers, reserved_zero_2bits })
}

} // verus!
