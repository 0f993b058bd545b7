//! Neighbour availability (§6.4).
use vstd::prelude::*;
use crate::error::GeometryError;
use crate::geometry::{min_int, Block, PictureGeometry};
use crate::scan::{min_tb_address_spec, min_tb_address_z_scan};
use crate::tiles::TileLayout;

verus! {

/// A prediction mode used by §6.4.2's availability process.
#[derive(Clone, Copy, Debug, Eq, PartialEq, Structural)]
pub enum PredictionMode {
    /// Intra prediction.
    Intra,
    /// Inter prediction.
    Inter,
}

/// Slice/tile information needed to answer neighbour-availability queries.
#[derive(Clone, Debug, Eq, PartialEq)]
pub struct AvailabilityContext {
    /// Picture geometry.
    pub geometry: PictureGeometry,
    /// Tile layout for the picture.
    pub tiles: TileLayout,
    /// Slice-segment raster address for each CTU.
    pub slice_segment_of_ctu: Vec<u32>,
}

/// The luma position `(x, y)` lies inside the picture of `g`.
pub open spec fn in_picture(g: PictureGeometry, x: u32, y: u32) -> bool {
    x < g.format.width && y < g.format.height
}

/// The minimum transform-block address of a position inside the picture can
/// be computed in `u32`.
pub open spec fn address_computable(g: PictureGeometry, x: u32, y: u32) -> bool {
    in_picture(g, x, y) ==> {
        &&& g.min_tb_size > 0
        &&& g.ctb_size / g.min_tb_size <= 65536
        &&& (y / g.ctb_size) * g.width_ctbs() + x / g.ctb_size <= u32::MAX
        &&& min_tb_address_spec(g, x as int, y as int) <= u32::MAX
        &&& ((y / g.ctb_size) * g.width_ctbs() + x / g.ctb_size) * (g.ctb_size / g.min_tb_size) * (g.ctb_size
            / g.min_tb_size) <= u32::MAX
    }
}

/// The CTB raster address of a position inside the picture.
pub open spec fn ctb_of(g: PictureGeometry, x: u32, y: u32) -> int {
    (y / g.ctb_size) * g.width_ctbs() + x / g.ctb_size
}

impl AvailabilityContext {
    /// The slice-segment table and the tile layout cover the CTBs of the geometry.
    pub open spec fn wf(&self) -> bool {
        &&& self.geometry.countable()
        &&& self.slice_segment_of_ctu@.len() == self.geometry.width_ctbs() * self.geometry.height_ctbs()
    }

    /// The tile ID of CTB `addr`, if the layout has one.
    pub open spec fn tile_of(&self, addr: int) -> Option<u32> {
        if 0 <= addr < self.tiles.ids().len() {
            Some(self.tiles.ids()[addr])
        } else {
            None
        }
    }

    /// §6.4.1: the neighbour at `n` is available to the block at `c`.
    pub open spec fn z_scan_available_spec(&self, c: (u32, u32), n: (u32, u32)) -> bool {
        let g = self.geometry;
        &&& in_picture(g, c.0, c.1)
        &&& in_picture(g, n.0, n.1)
        &&& min_tb_address_spec(g, n.0 as int, n.1 as int) <= min_tb_address_spec(g, c.0 as int, c.1 as int)
        &&& self.slice_segment_of_ctu@[ctb_of(g, c.0, c.1)] == self.slice_segment_of_ctu@[ctb_of(g, n.0, n.1)]
        &&& self.tile_of(ctb_of(g, c.0, c.1)) == self.tile_of(ctb_of(g, n.0, n.1))
    }

    /// Creates an availability context. A slice-segment entry is required for
    /// every CTU in raster order.
    pub fn new(geometry: PictureGeometry, tiles: TileLayout, slice_segment_of_ctu: Vec<u32>) -> (r: Result<Self, GeometryError>)
        requires
            geometry.countable(),
        ensures
            (tiles.width_spec() == geometry.width_ctbs() && tiles.height_spec() == geometry.height_ctbs()
                && slice_segment_of_ctu@.len() == geometry.width_ctbs() * geometry.height_ctbs()) ==> (r matches Ok(
                ctx,
            ) && ctx.geometry == geometry && ctx.tiles == tiles && ctx.slice_segment_of_ctu@ == slice_segment_of_ctu@
                && ctx.wf()),
            !(tiles.width_spec() == geometry.width_ctbs() && tiles.height_spec() == geometry.height_ctbs()
                && slice_segment_of_ctu@.len() == geometry.width_ctbs() * geometry.height_ctbs()) ==> r
                == Err::<Self, GeometryError>(GeometryError::TileDimensionsDoNotCoverPicture),
    {
        let (tw, th) = tiles.dimensions();
        if tw != geometry.width_in_ctbs() || th != geometry.height_in_ctbs()
            || slice_segment_of_ctu.len() != geometry.ctb_count() as usize {
            return Err(GeometryError::TileDimensionsDoNotCoverPicture);
        }
        Ok(Self { geometry, tiles, slice_segment_of_ctu })
    }

    fn block_min_tb_address(&self, x: u32, y: u32) -> (r: Option<u32>)
        requires
            self.geometry.ctb_size > 0,
            address_computable(self.geometry, x, y),
        ensures
            r is Some <==> in_picture(self.geometry, x, y),
            r matches Some(a) ==> a == min_tb_address_spec(self.geometry, x as int, y as int),
    {
        if x >= self.geometry.format.width || y >= self.geometry.format.height {
            return None;
        }
        Some(min_tb_address_z_scan(&self.geometry, x, y))
    }

    /// Implements §6.4.1 for a current block and candidate neighbour.
    pub fn z_scan_block_available(&self, current: (u32, u32), neighbour: (u32, u32)) -> (r: bool)
        requires
            self.wf(),
            address_computable(self.geometry, current.0, current.1),
            address_computable(self.geometry, neighbour.0, neighbour.1),
        ensures
            r == self.z_scan_available_spec(current, neighbour),
    {
        let current_addr = match self.block_min_tb_address(current.0, current.1) {
            Some(addr) => addr,
            None => return false,
        };
        let neighbour_addr = match self.block_min_tb_address(neighbour.0, neighbour.1) {
            Some(addr) => addr,
            None => return false,
        };
        if neighbour_addr > current_addr {
            return false;
        }
        let current_ctu = match self.geometry.ctb_addr_rs(current.0, current.1) {
            Some(addr) => addr,
            None => return false,
        };
        let neighbour_ctu = match self.geometry.ctb_addr_rs(neighbour.0, neighbour.1) {
            Some(addr) => addr,
            None => return false,
        };
        proof {
            let g = self.geometry;
            vstd::arithmetic::div_mod::lemma_div_pos_is_pos(g.format.width + g.ctb_size - 1, g.ctb_size as int);
            assert(ctb_of(g, current.0, current.1) >= 0) by (nonlinear_arith)
                requires g.width_ctbs() >= 0, current.1 / g.ctb_size >= 0, current.0 / g.ctb_size >= 0;
            assert(ctb_of(g, neighbour.0, neighbour.1) >= 0) by (nonlinear_arith)
                requires g.width_ctbs() >= 0, neighbour.1 / g.ctb_size >= 0, neighbour.0 / g.ctb_size >= 0;
            assert(current_ctu as int == ctb_of(g, current.0, current.1));
            assert(neighbour_ctu as int == ctb_of(g, neighbour.0, neighbour.1));
        }
        let current_tile = self.tiles.tile_id(current_ctu);
        let neighbour_tile = self.tiles.tile_id(neighbour_ctu);
        let same_tile = match (current_tile, neighbour_tile) {
            (Some(a), Some(b)) => a == b,
            (None, None) => true,
            _ => false,
        };
        self.slice_segment_of_ctu[current_ctu as usize] == self.slice_segment_of_ctu[neighbour_ctu as usize]
            && same_tile
    }

    /// Implements §6.4.2 for a candidate neighbouring prediction block.
    pub fn prediction_block_available(
        &self,
        coding_block: Block,
        prediction_block: Block,
        part_idx: u32,
        neighbour: (u32, u32),
        neighbour_mode: PredictionMode,
    ) -> (r: bool)
        requires
            self.wf(),
            address_computable(self.geometry, prediction_block.x, prediction_block.y),
            address_computable(self.geometry, neighbour.0, neighbour.1),
            prediction_block.width * 2 <= u32::MAX,
            prediction_block.height * 2 <= u32::MAX,
            coding_block.x + prediction_block.width <= u32::MAX,
            coding_block.y + prediction_block.height <= u32::MAX,
        ensures
            r == ({
                let same_cb = coding_block.x <= neighbour.0 && coding_block.y <= neighbour.1
                    && neighbour.0 < min_int(coding_block.x + coding_block.width, u32::MAX as int)
                    && neighbour.1 < min_int(coding_block.y + coding_block.height, u32::MAX as int);
                let available = if !same_cb {
                    self.z_scan_available_spec((prediction_block.x, prediction_block.y), neighbour)
                } else {
                    !(prediction_block.width * 2 == coding_block.width && prediction_block.height * 2
                        == coding_block.height && part_idx == 1 && coding_block.y + prediction_block.height
                        <= neighbour.1 && coding_block.x + prediction_block.width > neighbour.0)
                };
                available && neighbour_mode != PredictionMode::Intra
            }),
    {
        let same_cb = coding_block.contains(neighbour.0, neighbour.1);
        let mut available = if !same_cb {
            self.z_scan_block_available((prediction_block.x, prediction_block.y), neighbour)
        } else {
            let unavailable_same_partition = prediction_block.width * 2 == coding_block.width
                && prediction_block.height * 2 == coding_block.height && part_idx == 1
                && coding_block.y + prediction_block.height <= neighbour.1
                && coding_block.x + prediction_block.width > neighbour.0;
            !unavailable_same_partition
        };
        if available && neighbour_mode == PredictionMode::Intra {
            available = false;
        }
        available
    }
}

} // verus!
