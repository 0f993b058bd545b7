use vstd::prelude::*;
use crate::error::GeometryError;

verus! {

/// A chroma sampling structure from H.265 Table 6-1.
#[derive(Clone, Copy, Debug, Eq, PartialEq, Hash)]
pub enum ChromaFormat {
    /// `chroma_format_idc == 0`.
    Monochrome,
    /// `chroma_format_idc == 1`.
    Yuv420,
    /// `chroma_format_idc == 2`.
    Yuv422,
    /// `chroma_format_idc == 3`.
    Yuv444,
}

/// `(SubWidthC, SubHeightC)` from Table 6-1.
pub open spec fn sub_factors(format: ChromaFormat) -> (u32, u32) {
    match format {
        ChromaFormat::Monochrome | ChromaFormat::Yuv444 => (1, 1),
        ChromaFormat::Yuv420 => (2, 2),
        ChromaFormat::Yuv422 => (2, 1),
    }
}

/// `chroma_format_idc` of a chroma format.
pub open spec fn format_idc(format: ChromaFormat) -> u8 {
    match format {
        ChromaFormat::Monochrome => 0,
        ChromaFormat::Yuv420 => 1,
        ChromaFormat::Yuv422 => 2,
        ChromaFormat::Yuv444 => 3,
    }
}

impl ChromaFormat {
    /// Returns `(SubWidthC, SubHeightC)` from Table 6-1.
    pub fn subsampling(self) -> (r: (u32, u32))
        ensures
            r == sub_factors(self),
    {
        match self {
            Self::Monochrome | Self::Yuv444 => (1, 1),
            Self::Yuv420 => (2, 2),
            Self::Yuv422 => (2, 1),
        }
    }

    /// Returns the `chroma_format_idc` value.
    pub fn idc(self) -> (r: u8)
        ensures
            r == format_idc(self),
    {
        match self {
            Self::Monochrome => 0,
            Self::Yuv420 => 1,
            Self::Yuv422 => 2,
            Self::Yuv444 => 3,
        }
    }
}

/// The dimensions of one component/sample array.
#[derive(Clone, Copy, Debug, Eq, PartialEq)]
pub struct PlaneDimension {
    /// Width in samples.
    pub width: u32,
    /// Height in samples.
    pub height: u32,
}

/// Source and decoded-picture format information from §6.2.
#[derive(Clone, Copy, Debug, Eq, PartialEq)]
pub struct PictureFormat {
    /// Luma/sample-array width.
    pub width: u32,
    /// Luma/sample-array height.
    pub height: u32,
    /// Number of bits used by luma samples.
    pub bit_depth_luma: u8,
    /// Number of bits used by chroma samples.
    pub bit_depth_chroma: u8,
    /// Chroma sampling structure.
    pub chroma_format: ChromaFormat,
    /// Whether the three 4:4:4 planes are processed independently.
    pub separate_colour_plane: bool,
}

/// The first §6.2 constraint that a set of format values violates.
pub open spec fn format_error(
    width: u32,
    height: u32,
    bit_depth_luma: u8,
    bit_depth_chroma: u8,
    chroma_format: ChromaFormat,
    separate_colour_plane: bool,
) -> Option<GeometryError> {
    if width == 0 || height == 0 {
        Some(GeometryError::ZeroDimension)
    } else if !(8 <= bit_depth_luma <= 16) {
        Some(GeometryError::InvalidBitDepth(bit_depth_luma))
    } else if !(8 <= bit_depth_chroma <= 16) {
        Some(GeometryError::InvalidBitDepth(bit_depth_chroma))
    } else if separate_colour_plane && chroma_format != ChromaFormat::Yuv444 {
        Some(GeometryError::SeparatePlanesRequire444)
    } else {
        None
    }
}

/// `Ceil(value / divisor)`.
pub open spec fn ceil_div_spec(value: int, divisor: int) -> int {
    (value + divisor - 1) / divisor
}

/// Number of component arrays of a format.
pub open spec fn component_count_spec(format: PictureFormat) -> usize {
    match format.chroma_format {
        ChromaFormat::Monochrome => 1,
        _ => 3,
    }
}

/// Dimensions of component `index` of a format (Table 6-1).
pub open spec fn component_dimension_spec(format: PictureFormat, index: int) -> Option<PlaneDimension> {
    if index < 0 || index >= component_count_spec(format) {
        None
    } else if index == 0 || format.separate_colour_plane {
        Some(PlaneDimension { width: format.width, height: format.height })
    } else {
        Some(PlaneDimension {
            width: ceil_div_spec(format.width as int, sub_factors(format.chroma_format).0 as int) as u32,
            height: ceil_div_spec(format.height as int, sub_factors(format.chroma_format).1 as int) as u32,
        })
    }
}

/// Number of prediction blocks in one prediction unit.
pub open spec fn prediction_block_count_spec(format: PictureFormat) -> usize {
    if format.chroma_format == ChromaFormat::Yuv422 && !format.separate_colour_plane {
        5
    } else if format.chroma_format == ChromaFormat::Monochrome || format.separate_colour_plane {
        1
    } else {
        3
    }
}

impl PictureFormat {
    /// Creates a validated picture format.
    pub fn new(
        width: u32,
        height: u32,
        bit_depth_luma: u8,
        bit_depth_chroma: u8,
        chroma_format: ChromaFormat,
        separate_colour_plane: bool,
    ) -> (r: Result<Self, GeometryError>)
        ensures
            r == match format_error(width, height, bit_depth_luma, bit_depth_chroma, chroma_format, separate_colour_plane) {
                Some(e) => Err(e),
                None => Ok(PictureFormat {
                    width,
                    height,
                    bit_depth_luma,
                    bit_depth_chroma,
                    chroma_format,
                    separate_colour_plane,
                }),
            },
    {
        if width == 0 || height == 0 {
            return Err(GeometryError::ZeroDimension);
        }
        if !(8 <= bit_depth_luma && bit_depth_luma <= 16) {
            return Err(GeometryError::InvalidBitDepth(bit_depth_luma));
        }
        if !(8 <= bit_depth_chroma && bit_depth_chroma <= 16) {
            return Err(GeometryError::InvalidBitDepth(bit_depth_chroma));
        }
        if separate_colour_plane && !matches!(chroma_format, ChromaFormat::Yuv444) {
            return Err(GeometryError::SeparatePlanesRequire444);
        }
        Ok(Self {
            width,
            height,
            bit_depth_luma,
            bit_depth_chroma,
            chroma_format,
            separate_colour_plane,
        })
    }

    /// Returns the number of component arrays represented by the picture.
    pub fn component_count(self) -> (r: usize)
        ensures
            r == component_count_spec(self),
    {
        match self.chroma_format {
            ChromaFormat::Monochrome => 1,
            ChromaFormat::Yuv420 | ChromaFormat::Yuv422 | ChromaFormat::Yuv444 => 3,
        }
    }

    /// Returns the dimensions of component `index` (`0 = Y`, `1 = Cb`, `2 = Cr`).
    pub fn component_dimension(self, index: usize) -> (r: Option<PlaneDimension>)
        ensures
            r == component_dimension_spec(self, index as int),
    {
        if index >= self.component_count() {
            return None;
        }
        if index == 0 || self.separate_colour_plane {
            return Some(PlaneDimension { width: self.width, height: self.height });
        }
        let (sub_width, sub_height) = self.chroma_format.subsampling();
        Some(PlaneDimension {
            width: ceil_div(self.width, sub_width),
            height: ceil_div(self.height, sub_height),
        })
    }

    /// Returns the number of prediction blocks for one prediction unit.
    pub fn prediction_block_count(self) -> (r: usize)
        ensures
            r == prediction_block_count_spec(self),
    {
        if matches!(self.chroma_format, ChromaFormat::Yuv422) && !self.separate_colour_plane {
            5
        } else if matches!(self.chroma_format, ChromaFormat::Monochrome) || self.separate_colour_plane {
            1
        } else {
            3
        }
    }

    /// Returns the number of transform blocks for one transform unit.
    pub fn transform_block_count(self) -> (r: usize)
        ensures
            r == prediction_block_count_spec(self),
    {
        self.prediction_block_count()
    }

    /// Returns the number of coding blocks for one coding unit.
    pub fn coding_block_count(self) -> (r: usize)
        ensures
            r == (if self.chroma_format == ChromaFormat::Monochrome || self.separate_colour_plane { 1usize } else { 3usize }),
    {
        if matches!(self.chroma_format, ChromaFormat::Monochrome) || self.separate_colour_plane {
            1
        } else {
            3
        }
    }
}

/// `Ceil(value / divisor)` without intermediate overflow.
fn ceil_div(value: u32, divisor: u32) -> (r: u32)
    requires
        divisor > 0,
    ensures
        r == ceil_div_spec(value as int, divisor as int),
{
    let q = value / divisor;
    let m = value % divisor;
    proof {
        assert(value == divisor * q + m) by (nonlinear_arith)
            requires divisor > 0, q == value / divisor, m == value % divisor;
        if m == 0 {
            assert((value + divisor - 1) / (divisor as int) == q) by (nonlinear_arith)
                requires value == divisor * q, divisor > 0;
        } else {
            assert((value + divisor - 1) / (divisor as int) == q + 1) by (nonlinear_arith)
                requires value == divisor * q + m, 0 < m < divisor;
            assert(q + 1 <= u32::MAX) by (nonlinear_arith)
                requires value == divisor * q + m, 0 < m < divisor, value <= u32::MAX;
        }
    }
    if m != 0 {
        q + 1
    } else {
        q
    }
}

} // verus!
