//! Annex A profile constraints that depend on decoded stream data: the
//! per-CTU `read_bits(1)` limit and the one-picture rule of still-picture
//! profiles.
use vstd::prelude::*;

verus! {

/// The four 8-bit and 10-bit 4:2:0 profiles whose constraints are checked.
#[derive(Clone, Copy, Debug, Eq, PartialEq, Structural)]
pub enum HevcProfile {
    /// Main profile (profile 1).
    Main,
    /// Main Still Picture profile (profile 3).
    MainStillPicture,
    /// Main 10 profile (profile 2).
    Main10,
    /// Main 10 Still Picture profile (profile 2 plus the one-picture flag).
    Main10StillPicture,
}

/// The profile allows only one picture.
pub open spec fn still_picture(profile: HevcProfile) -> bool {
    profile == HevcProfile::MainStillPicture || profile == HevcProfile::Main10StillPicture
}

impl HevcProfile {
    fn is_still_picture(self) -> (r: bool)
        ensures
            r == still_picture(self),
    {
        match self {
            Self::MainStillPicture | Self::Main10StillPicture => true,
            _ => false,
        }
    }
}

/// A static or stream-level violation of the Annex A.3.2/A.3.3 constraints.
#[derive(Clone, Debug, Eq, PartialEq)]
pub enum ProfileConstraintError {
    /// The SPS does not indicate the requested profile or a compatible one.
    ProfileNotIndicated {
        /// Requested profile.
        profile: HevcProfile,
        /// Signalled `general_profile_idc`.
        profile_idc: u8,
    },
    /// `general_one_picture_only_constraint_flag` is required for Main 10
    /// Still Picture.
    OnePictureConstraintRequired,
    /// Both base-layer VPS flags must be one.
    BaseLayerFlags,
    /// `chroma_format_idc` must be 1.
    ChromaFormat(u64),
    /// `bit_depth_luma_minus8` is outside the profile range.
    LumaBitDepth(u64),
    /// `bit_depth_chroma_minus8` is outside the profile range.
    ChromaBitDepth(u64),
    /// A profile-forbidden syntax element was signalled.
    ForbiddenTool(&'static str),
    /// `CtbLog2SizeY` is outside 4..=6.
    CtbLog2Size(u64),
    /// The SPS dimensions cannot be converted into the required geometry.
    InvalidPictureDimensions,
    /// A tile PPS is missing or internally inconsistent.
    InvalidTileSyntax,
    /// WPP and tiles cannot both be enabled for these profiles.
    TilesWithEntropyCodingSync,
    /// A tile column is below the 256-luma-sample minimum.
    TileColumnTooNarrow {
        /// Tile-column index.
        index: usize,
        /// Column width in luma samples.
        samples: u64,
    },
    /// A tile row is below the 64-luma-sample minimum.
    TileRowTooShort {
        /// Tile-row index.
        index: usize,
        /// Row height in luma samples.
        samples: u64,
    },
    /// Still-picture profiles permit only one decoded picture in the base
    /// layer.
    StillPictureBuffering(u64),
    /// A CTU exceeded the `5 * RawCtuBits / 3` read-bits limit.
    CtuReadBits {
        /// CTU index in the supplied count array.
        ctu_index: usize,
        /// Number of `read_bits(1)` calls observed for the CTU.
        calls: u64,
        /// Annex A.3 RawCtuBits value.
        raw_ctu_bits: u64,
    },
    /// A still-picture stream contained more than one base-layer picture.
    PictureCount(u64),
}

/// The derived values that the decoder needs after Annex A profile checks.
#[derive(Clone, Debug, Eq, PartialEq)]
pub struct ProfileConstraintReport {
    /// Profile whose constraints were checked.
    pub profile: HevcProfile,
    /// Derived `CtbLog2SizeY`.
    pub ctb_log2_size_y: u8,
    /// Derived `RawCtuBits` from Annex A equation (A-1).
    pub raw_ctu_bits: u64,
    /// Tile column widths in luma samples.
    pub tile_column_widths_in_luma_samples: Vec<u64>,
    /// Tile row heights in luma samples.
    pub tile_row_heights_in_luma_samples: Vec<u64>,
}

/// `value * factor`, saturated at `u64::MAX`.
pub open spec fn saturating_product(value: u64, factor: int) -> int {
    if value * factor > u64::MAX {
        u64::MAX as int
    } else {
        value * factor
    }
}

/// A CTU with `calls` reads respects `3 * calls <= 5 * RawCtuBits` (saturating).
pub open spec fn ctu_reads_allowed(calls: u64, raw_ctu_bits: u64) -> bool {
    saturating_product(calls, 3) <= saturating_product(raw_ctu_bits, 5)
}

fn saturating_times(value: u64, factor: u64) -> (r: u64)
    ensures
        r == saturating_product(value, factor as int),
{
    match value.checked_mul(factor) {
        Some(product) => product,
        None => u64::MAX,
    }
}

impl ProfileConstraintReport {
    /// Checks the per-CTU `read_bits(1)` counter from §§9.3.4.3.3 and
    /// 9.3.4.3.4 against Annex A's `5 * RawCtuBits / 3` limit; the first CTU
    /// over the limit is reported.
    pub fn validate_ctu_read_bits(&self, calls_per_ctu: &[u64]) -> (r: Result<(), ProfileConstraintError>)
        ensures
            r is Ok <==> forall|i: int| 0 <= i < calls_per_ctu@.len() ==> ctu_reads_allowed(
                #[trigger] calls_per_ctu@[i],
                self.raw_ctu_bits,
            ),
            r matches Err(e) ==> exists|i: int|
                0 <= i < calls_per_ctu@.len() && !ctu_reads_allowed(#[trigger] calls_per_ctu@[i], self.raw_ctu_bits)
                    && (forall|j: int| 0 <= j < i ==> ctu_reads_allowed(#[trigger] calls_per_ctu@[j], self.raw_ctu_bits))
                    && e == (ProfileConstraintError::CtuReadBits {
                    ctu_index: i as usize,
                    calls: calls_per_ctu@[i],
                    raw_ctu_bits: self.raw_ctu_bits,
                }),
    {
        let limit = saturating_times(self.raw_ctu_bits, 5);
        let mut index: usize = 0;
        while index < calls_per_ctu.len()
            invariant
                limit == saturating_product(self.raw_ctu_bits, 5),
                index <= calls_per_ctu@.len(),
                forall|j: int| 0 <= j < index ==> ctu_reads_allowed(#[trigger] calls_per_ctu@[j], self.raw_ctu_bits),
            decreases calls_per_ctu@.len() - index,
        {
            let calls = calls_per_ctu[index];
            if saturating_times(calls, 3) > limit {
                return Err(ProfileConstraintError::CtuReadBits { ctu_index: index, calls, raw_ctu_bits: self.raw_ctu_bits });
            }
            index += 1;
        }
        Ok(())
    }

    /// Checks the one-picture restriction of a still-picture profile.
    pub fn validate_picture_count(&self, picture_count: u64) -> (r: Result<(), ProfileConstraintError>)
        ensures
            r == if still_picture(self.profile) && picture_count != 1 {
                Err(ProfileConstraintError::PictureCount(picture_count))
            } else {
                Ok(())
            },
    {
        if self.profile.is_still_picture() && picture_count != 1 {
            return Err(ProfileConstraintError::PictureCount(picture_count));
        }
        Ok(())
    }
}

} // verus!
