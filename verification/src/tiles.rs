//! Tile layouts and CTB-address conversions (§6.5.1).
use vstd::prelude::*;
use crate::error::GeometryError;

verus! {

/// Sum of the first `k` lengths.
pub open spec fn prefix_sum(s: Seq<u32>, k: int) -> int
    decreases k,
{
    if k <= 0 || k > s.len() {
        0
    } else {
        prefix_sum(s, k - 1) + s[k - 1]
    }
}

/// The part (tile column or row) whose span of `lengths` contains `v`,
/// searching from part `i`.
pub open spec fn part_index(lengths: Seq<u32>, v: int, i: int) -> int
    decreases lengths.len() - i,
{
    if i + 1 >= lengths.len() || v < prefix_sum(lengths, i + 1) {
        i
    } else {
        part_index(lengths, v, i + 1)
    }
}

/// The layout errors of §6.5.1 for explicit dimensions, if any.
pub open spec fn tile_dimensions_error(width: u32, height: u32, columns: Seq<u32>, rows: Seq<u32>) -> Option<GeometryError> {
    let has_zero = columns.contains(0u32) || rows.contains(0u32);
    if width == 0 || height == 0 || columns.len() == 0 || rows.len() == 0 || has_zero
        || prefix_sum(columns, columns.len() as int) != width || prefix_sum(rows, rows.len() as int) != height {
        Some(if has_zero { GeometryError::ZeroSizedTile } else { GeometryError::TileDimensionsDoNotCoverPicture })
    } else {
        None
    }
}

/// The tile-scan address of raster address `rs` (`CtbAddrRsToTs`, 6-5).
pub open spec fn tile_scan_spec(columns: Seq<u32>, rows: Seq<u32>, width: int, rs: int) -> int {
    let x = rs % width;
    let y = rs / width;
    let c = part_index(columns, x, 0);
    let r = part_index(rows, y, 0);
    prefix_sum(rows, r) * width + prefix_sum(columns, c) * rows[r] + (y - prefix_sum(rows, r)) * columns[c]
        + (x - prefix_sum(columns, c))
}

/// The tile index of raster address `rs` (`TileId`, 6-9).
pub open spec fn tile_id_spec(columns: Seq<u32>, rows: Seq<u32>, width: int, rs: int) -> int {
    part_index(rows, rs / width, 0) * columns.len() + part_index(columns, rs % width, 0)
}

/// `rs` comes before the cursor `(r, c, y, x)` of the tile-scan traversal.
pub open spec fn scanned_before(columns: Seq<u32>, rows: Seq<u32>, width: int, rs: int, r: int, c: int, y: int, x: int) -> bool {
    let tx = part_index(columns, rs % width, 0);
    let ty = part_index(rows, rs / width, 0);
    ||| ty < r
    ||| (ty == r && tx < c)
    ||| (ty == r && tx == c && (rs / width < y || (rs / width == y && rs % width < x)))
}

/// Tile dimensions and CTB-address conversions from §6.5.1.
#[derive(Clone, Debug, Eq, PartialEq)]
pub struct TileLayout {
    picture_width_in_ctbs: u32,
    picture_height_in_ctbs: u32,
    column_widths: Vec<u32>,
    row_heights: Vec<u32>,
    raster_to_tile: Vec<u32>,
    tile_to_raster: Vec<u32>,
    tile_ids: Vec<u32>,
}

impl TileLayout {
    /// Picture width in CTBs.
    pub closed spec fn width_spec(&self) -> u32 {
        self.picture_width_in_ctbs
    }

    /// Picture height in CTBs.
    pub closed spec fn height_spec(&self) -> u32 {
        self.picture_height_in_ctbs
    }

    /// Tile-column widths.
    pub closed spec fn columns(&self) -> Seq<u32> {
        self.column_widths@
    }

    /// Tile-row heights.
    pub closed spec fn rows(&self) -> Seq<u32> {
        self.row_heights@
    }

    /// `CtbAddrRsToTs`.
    pub closed spec fn rs_to_ts(&self) -> Seq<u32> {
        self.raster_to_tile@
    }

    /// `CtbAddrTsToRs`.
    pub closed spec fn ts_to_rs(&self) -> Seq<u32> {
        self.tile_to_raster@
    }

    /// `TileId` per raster address.
    pub closed spec fn ids(&self) -> Seq<u32> {
        self.tile_ids@
    }

    /// The tables hold the §6.5.1 conversions for the layout's columns and rows.
    pub open spec fn wf(&self) -> bool {
        let n = self.width_spec() * self.height_spec();
        &&& tile_dimensions_error(self.width_spec(), self.height_spec(), self.columns(), self.rows()) is None
        &&& n <= u32::MAX
        &&& self.rs_to_ts().len() == n
        &&& self.ts_to_rs().len() == n
        &&& self.ids().len() == n
        &&& forall|rs: int| 0 <= rs < n ==> {
            &&& #[trigger] self.rs_to_ts()[rs] == tile_scan_spec(self.columns(), self.rows(), self.width_spec() as int, rs)
            &&& self.ids()[rs] == tile_id_spec(self.columns(), self.rows(), self.width_spec() as int, rs)
            &&& 0 <= tile_scan_spec(self.columns(), self.rows(), self.width_spec() as int, rs) < n
            &&& self.ts_to_rs()[tile_scan_spec(self.columns(), self.rows(), self.width_spec() as int, rs)] == rs
        }
        &&& forall|t: int| 0 <= t < n ==> {
            &&& #[trigger] self.ts_to_rs()[t] < n
            &&& tile_scan_spec(self.columns(), self.rows(), self.width_spec() as int, self.ts_to_rs()[t] as int) == t
        }
    }
}


impl TileLayout {
    /// Number of tile columns.
    pub fn tile_columns(&self) -> (r: usize)
        ensures
            r == self.columns().len(),
    {
        self.column_widths.len()
    }

    /// Number of tile rows.
    pub fn tile_rows(&self) -> (r: usize)
        ensures
            r == self.rows().len(),
    {
        self.row_heights.len()
    }

    /// Tile-column widths in CTBs.
    pub fn column_widths(&self) -> (r: &[u32])
        ensures
            r@ == self.columns(),
    {
        self.column_widths.as_slice()
    }

    /// Tile-row heights in CTBs.
    pub fn row_heights(&self) -> (r: &[u32])
        ensures
            r@ == self.rows(),
    {
        self.row_heights.as_slice()
    }

    /// Converts a CTB raster address to tile-scan address.
    pub fn raster_to_tile_scan(&self, addr_rs: u32) -> (r: Option<u32>)
        ensures
            addr_rs < self.rs_to_ts().len() ==> r == Some(self.rs_to_ts()[addr_rs as int]),
            addr_rs >= self.rs_to_ts().len() ==> r is None,
    {
        if (addr_rs as usize) < self.raster_to_tile.len() {
            Some(self.raster_to_tile[addr_rs as usize])
        } else {
            None
        }
    }

    /// Converts a CTB tile-scan address to raster address.
    pub fn tile_scan_to_raster(&self, addr_ts: u32) -> (r: Option<u32>)
        ensures
            addr_ts < self.ts_to_rs().len() ==> r == Some(self.ts_to_rs()[addr_ts as int]),
            addr_ts >= self.ts_to_rs().len() ==> r is None,
    {
        if (addr_ts as usize) < self.tile_to_raster.len() {
            Some(self.tile_to_raster[addr_ts as usize])
        } else {
            None
        }
    }

    /// Returns the tile ID containing a raster-addressed CTB.
    pub fn tile_id(&self, addr_rs: u32) -> (r: Option<u32>)
        ensures
            addr_rs < self.ids().len() ==> r == Some(self.ids()[addr_rs as int]),
            addr_rs >= self.ids().len() ==> r is None,
    {
        if (addr_rs as usize) < self.tile_ids.len() {
            Some(self.tile_ids[addr_rs as usize])
        } else {
            None
        }
    }

    /// Returns the CTB-grid dimensions.
    pub fn dimensions(&self) -> (r: (u32, u32))
        ensures
            r == (self.width_spec(), self.height_spec()),
    {
        (self.picture_width_in_ctbs, self.picture_height_in_ctbs)
    }
}

/// The raster-to-tile-scan and tile-scan-to-raster conversions of a layout
/// undo each other on every CTB address of the picture.
pub proof fn lemma_tile_scan_conversions_are_inverse(layout: TileLayout)
    requires
        layout.wf(),
    ensures
        forall|rs: int| 0 <= rs < layout.width_spec() * layout.height_spec() ==>
            layout.ts_to_rs()[#[trigger] layout.rs_to_ts()[rs] as int] == rs,
        forall|t: int| 0 <= t < layout.width_spec() * layout.height_spec() ==>
            layout.rs_to_ts()[#[trigger] layout.ts_to_rs()[t] as int] == t,
{
    assert forall|t: int| 0 <= t < layout.width_spec() * layout.height_spec() implies
        layout.rs_to_ts()[#[trigger] layout.ts_to_rs()[t] as int] == t by {
        let rs = layout.ts_to_rs()[t] as int;
        assert(layout.rs_to_ts()[rs] == tile_scan_spec(layout.columns(), layout.rows(), layout.width_spec() as int, rs));
    }
}

/// Every length is positive.
pub open spec fn all_positive(s: Seq<u32>) -> bool {
    forall|i: int| 0 <= i < s.len() ==> #[trigger] s[i] > 0
}

/// `bounds` holds the prefix sums `0, s[0], s[0] + s[1], ...` of `s`.
pub open spec fn bounds_of(s: Seq<u32>, bounds: Seq<u32>) -> bool {
    &&& bounds.len() == s.len() + 1
    &&& forall|i: int| 0 <= i <= s.len() ==> #[trigger] bounds[i] == prefix_sum(s, i)
}

/// The inputs of the traversal in `from_dimensions`.
pub open spec fn traversal_inputs(columns: Seq<u32>, rows: Seq<u32>, width: u32, height: u32) -> bool {
    &&& tile_dimensions_error(width, height, columns, rows) is None
    &&& width * height <= u32::MAX
}

/// The three tables after the traversal has reached the cursor `(r, c, y, x)`.
pub open spec fn tables_at(
    columns: Seq<u32>,
    rows: Seq<u32>,
    width: u32,
    height: u32,
    r2t: Seq<u32>,
    t2r: Seq<u32>,
    ids: Seq<u32>,
    r: int,
    c: int,
    y: int,
    x: int,
) -> bool {
    let n = width * height;
    let w = width as int;
    &&& r2t.len() == n
    &&& ids.len() == n
    &&& forall|rs: int| 0 <= rs < n ==> {
        &&& #[trigger] r2t[rs] == if scanned_before(columns, rows, w, rs, r, c, y, x) {
            tile_scan_spec(columns, rows, w, rs) as u32
        } else {
            0u32
        }
        &&& ids[rs] == if scanned_before(columns, rows, w, rs, r, c, y, x) {
            tile_id_spec(columns, rows, w, rs) as u32
        } else {
            0u32
        }
        &&& scanned_before(columns, rows, w, rs, r, c, y, x) ==> 0 <= tile_scan_spec(columns, rows, w, rs) < t2r.len()
            && t2r[tile_scan_spec(columns, rows, w, rs)] == rs
    }
    &&& forall|t: int| 0 <= t < t2r.len() ==> #[trigger] t2r[t] < n
        && tile_scan_spec(columns, rows, w, t2r[t] as int) == t
}

impl TileLayout {
    /// Creates uniformly spaced tile columns and rows.
    pub fn uniform(picture_width_in_ctbs: u32, picture_height_in_ctbs: u32, columns: u32, rows: u32) -> (r: Result<Self, GeometryError>)
        requires
            picture_width_in_ctbs * picture_height_in_ctbs <= u32::MAX,
            columns * picture_width_in_ctbs <= u32::MAX,
            rows * picture_height_in_ctbs <= u32::MAX,
        ensures
            (picture_width_in_ctbs == 0 || picture_height_in_ctbs == 0 || columns == 0 || rows == 0
                || columns > picture_width_in_ctbs || rows > picture_height_in_ctbs) ==> r == Err::<Self, GeometryError>(
                GeometryError::TileDimensionsDoNotCoverPicture,
            ),
            !(picture_width_in_ctbs == 0 || picture_height_in_ctbs == 0 || columns == 0 || rows == 0
                || columns > picture_width_in_ctbs || rows > picture_height_in_ctbs) ==> (r matches Ok(l) && {
                &&& l.wf()
                &&& l.width_spec() == picture_width_in_ctbs
                &&& l.height_spec() == picture_height_in_ctbs
                &&& l.columns() == uniform_spacing(picture_width_in_ctbs, columns)
                &&& l.rows() == uniform_spacing(picture_height_in_ctbs, rows)
            }),
    {
        if picture_width_in_ctbs == 0 || picture_height_in_ctbs == 0 || columns == 0 || rows == 0
            || columns > picture_width_in_ctbs || rows > picture_height_in_ctbs {
            return Err(GeometryError::TileDimensionsDoNotCoverPicture);
        }
        proof {
            lemma_uniform_spacing(picture_width_in_ctbs, columns);
            lemma_uniform_spacing(picture_height_in_ctbs, rows);
            assert(columns * picture_width_in_ctbs <= u32::MAX);
        }
        let column_widths = split_uniform(picture_width_in_ctbs, columns);
        let row_heights = split_uniform(picture_height_in_ctbs, rows);
        Self::from_dimensions(picture_width_in_ctbs, picture_height_in_ctbs, column_widths, row_heights)
    }

    /// Creates a tile layout using explicit CTB widths and heights.
    pub fn explicit(
        picture_width_in_ctbs: u32,
        picture_height_in_ctbs: u32,
        column_widths: Vec<u32>,
        row_heights: Vec<u32>,
    ) -> (r: Result<Self, GeometryError>)
        requires
            picture_width_in_ctbs * picture_height_in_ctbs <= u32::MAX,
        ensures
            tile_dimensions_error(picture_width_in_ctbs, picture_height_in_ctbs, column_widths@, row_heights@) matches Some(e)
                ==> r == Err::<Self, GeometryError>(e),
            tile_dimensions_error(picture_width_in_ctbs, picture_height_in_ctbs, column_widths@, row_heights@) is None
                ==> (r matches Ok(l) && l.wf() && l.width_spec() == picture_width_in_ctbs
                && l.height_spec() == picture_height_in_ctbs && l.columns() == column_widths@ && l.rows() == row_heights@),
    {
        Self::from_dimensions(picture_width_in_ctbs, picture_height_in_ctbs, column_widths, row_heights)
    }

    fn from_dimensions(
        picture_width_in_ctbs: u32,
        picture_height_in_ctbs: u32,
        column_widths: Vec<u32>,
        row_heights: Vec<u32>,
    ) -> (r: Result<Self, GeometryError>)
        requires
            picture_width_in_ctbs * picture_height_in_ctbs <= u32::MAX,
        ensures
            tile_dimensions_error(picture_width_in_ctbs, picture_height_in_ctbs, column_widths@, row_heights@) matches Some(e)
                ==> r == Err::<Self, GeometryError>(e),
            tile_dimensions_error(picture_width_in_ctbs, picture_height_in_ctbs, column_widths@, row_heights@) is None
                ==> (r matches Ok(l) && l.wf() && l.width_spec() == picture_width_in_ctbs
                && l.height_spec() == picture_height_in_ctbs && l.columns() == column_widths@ && l.rows() == row_heights@),
    {
        let zero_columns = has_zero(&column_widths);
        let zero_rows = has_zero(&row_heights);
        let column_sum = capped_sum(&column_widths);
        let row_sum = capped_sum(&row_heights);
        if picture_width_in_ctbs == 0 || picture_height_in_ctbs == 0 || column_widths.len() == 0
            || row_heights.len() == 0 || zero_columns || zero_rows || column_sum != picture_width_in_ctbs as u64
            || row_sum != picture_height_in_ctbs as u64 {
            return Err(
                if zero_columns || zero_rows {
                    GeometryError::ZeroSizedTile
                } else {
                    GeometryError::TileDimensionsDoNotCoverPicture
                },
            );
        }
        let ghost cw = column_widths@;
        let ghost rh = row_heights@;
        let width = picture_width_in_ctbs;
        let height = picture_height_in_ctbs;
        proof {
            lemma_positive_of_no_zero(cw);
            lemma_positive_of_no_zero(rh);
            lemma_count_le_sum(cw, cw.len() as int);
            lemma_count_le_sum(rh, rh.len() as int);
        }
        let ctb_count = width * height;
        let mut raster_to_tile: Vec<u32> = vec![0; ctb_count as usize];
        let mut tile_to_raster: Vec<u32> = Vec::new();
        let mut tile_ids: Vec<u32> = vec![0; ctb_count as usize];
        let column_bounds = cumulative_bounds(&column_widths);
        let row_bounds = cumulative_bounds(&row_heights);
        let ncols = column_widths.len();
        let nrows = row_heights.len();
        let mut tile_addr: u32 = 0;
        proof {
            assert forall|rs: int| 0 <= rs < ctb_count implies !scanned_before(cw, rh, width as int, rs, 0, 0, 0, 0) by {
                lemma_member_ranges(cw, rh, width, height, rs);
                lemma_prefix_nonneg(cw, part_index(cw, rs % width as int, 0));
                lemma_prefix_nonneg(rh, part_index(rh, rs / width as int, 0));
            }
        }
        let mut tile_row: usize = 0;
        while tile_row < nrows
            invariant
                traversal_inputs(cw, rh, width, height),
                all_positive(cw),
                all_positive(rh),
                ncols == cw.len(),
                nrows == rh.len(),
                ncols <= width,
                nrows <= height,
                ctb_count == width * height,
                bounds_of(cw, column_bounds@),
                bounds_of(rh, row_bounds@),
                tile_row <= nrows,
                tile_addr == prefix_sum(rh, tile_row as int) * width,
                tile_to_raster@.len() == tile_addr,
                tables_at(cw, rh, width, height, raster_to_tile@, tile_to_raster@, tile_ids@, tile_row as int, 0,
                    prefix_sum(rh, tile_row as int), 0),
            decreases nrows - tile_row,
        {
            let mut tile_col: usize = 0;
            while tile_col < ncols
                invariant
                    traversal_inputs(cw, rh, width, height),
                    all_positive(cw),
                    all_positive(rh),
                    ncols == cw.len(),
                    nrows == rh.len(),
                    ncols <= width,
                    nrows <= height,
                    ctb_count == width * height,
                    bounds_of(cw, column_bounds@),
                    bounds_of(rh, row_bounds@),
                    tile_row < nrows,
                    tile_col <= ncols,
                    tile_addr == prefix_sum(rh, tile_row as int) * width
                        + prefix_sum(cw, tile_col as int) * rh[tile_row as int],
                    tile_to_raster@.len() == tile_addr,
                    tables_at(cw, rh, width, height, raster_to_tile@, tile_to_raster@, tile_ids@, tile_row as int,
                        tile_col as int, prefix_sum(rh, tile_row as int), prefix_sum(cw, tile_col as int)),
                decreases ncols - tile_col,
            {
                proof {
                    assert(tile_row * ncols + tile_col < nrows * ncols) by (nonlinear_arith)
                        requires tile_row < nrows, tile_col < ncols;
                    assert(nrows * ncols <= height * width) by (nonlinear_arith)
                        requires nrows <= height, ncols <= width;
                }
                let tile_id = tile_row as u32 * ncols as u32 + tile_col as u32;
                let x0 = column_bounds[tile_col];
                let x1 = column_bounds[tile_col + 1];
                let y0 = row_bounds[tile_row];
                let y1 = row_bounds[tile_row + 1];
                let mut y = y0;
                while y < y1
                    invariant
                        traversal_inputs(cw, rh, width, height),
                        all_positive(cw),
                        all_positive(rh),
                        ncols == cw.len(),
                        nrows == rh.len(),
                        ctb_count == width * height,
                        bounds_of(cw, column_bounds@),
                        bounds_of(rh, row_bounds@),
                        tile_row < nrows,
                        tile_col < ncols,
                        tile_id == tile_row * ncols + tile_col,
                        x0 == prefix_sum(cw, tile_col as int),
                        x1 == prefix_sum(cw, tile_col + 1),
                        y0 == prefix_sum(rh, tile_row as int),
                        y1 == prefix_sum(rh, tile_row + 1),
                        y0 <= y <= y1,
                        tile_addr == prefix_sum(rh, tile_row as int) * width
                            + prefix_sum(cw, tile_col as int) * rh[tile_row as int] + (y - y0) * cw[tile_col as int],
                        tile_to_raster@.len() == tile_addr,
                        tables_at(cw, rh, width, height, raster_to_tile@, tile_to_raster@, tile_ids@, tile_row as int,
                            tile_col as int, y as int, x0 as int),
                    decreases y1 - y,
                {
                    let mut x = x0;
                    while x < x1
                        invariant
                            traversal_inputs(cw, rh, width, height),
                            all_positive(cw),
                            all_positive(rh),
                            ncols == cw.len(),
                            nrows == rh.len(),
                            ctb_count == width * height,
                            bounds_of(cw, column_bounds@),
                            bounds_of(rh, row_bounds@),
                            tile_row < nrows,
                            tile_col < ncols,
                            tile_id == tile_row * ncols + tile_col,
                            x0 == prefix_sum(cw, tile_col as int),
                            x1 == prefix_sum(cw, tile_col + 1),
                            y0 == prefix_sum(rh, tile_row as int),
                            y1 == prefix_sum(rh, tile_row + 1),
                            y0 <= y < y1,
                            x0 <= x <= x1,
                            tile_addr == prefix_sum(rh, tile_row as int) * width
                                + prefix_sum(cw, tile_col as int) * rh[tile_row as int] + (y - y0) * cw[tile_col as int]
                                + (x - x0),
                            tile_to_raster@.len() == tile_addr,
                            tables_at(cw, rh, width, height, raster_to_tile@, tile_to_raster@, tile_ids@,
                                tile_row as int, tile_col as int, y as int, x as int),
                        decreases x1 - x,
                    {
                        proof {
                            lemma_cell_facts(cw, rh, width, height, tile_row as int, tile_col as int, y as int, x as int);
                        }
                        let raster_addr = y * width + x;
                        let ghost before_r2t = raster_to_tile@;
                        let ghost before_t2r = tile_to_raster@;
                        let ghost before_ids = tile_ids@;
                        raster_to_tile.set(raster_addr as usize, tile_addr);
                        tile_to_raster.push(raster_addr);
                        tile_ids.set(raster_addr as usize, tile_id);
                        proof {
                            lemma_step(cw, rh, width, height, before_r2t, before_t2r, before_ids, raster_to_tile@,
                                tile_to_raster@, tile_ids@, tile_row as int, tile_col as int, y as int, x as int,
                                tile_addr, tile_id);
                        }
                        tile_addr += 1;
                        x += 1;
                    }
                    proof {
                        lemma_row_end(cw, rh, width, height, raster_to_tile@, tile_to_raster@, tile_ids@, tile_row as int,
                            tile_col as int, y as int);
                        assert((y - y0) * cw[tile_col as int] + (x1 - x0) == (y + 1 - y0) * cw[tile_col as int])
                            by (nonlinear_arith) requires x1 - x0 == cw[tile_col as int];
                    }
                    y += 1;
                }
                proof {
                    lemma_tile_end(cw, rh, width, height, raster_to_tile@, tile_to_raster@, tile_ids@, tile_row as int,
                        tile_col as int);
                    let a = prefix_sum(cw, tile_col as int);
                    let h = rh[tile_row as int];
                    let wd = cw[tile_col as int];
                    assert(a * h + (y1 - y0) * wd == (a + wd) * h) by (nonlinear_arith)
                        requires y1 - y0 == h;
                }
                tile_col += 1;
            }
            proof {
                lemma_tile_row_end(cw, rh, width, height, raster_to_tile@, tile_to_raster@, tile_ids@, tile_row as int);
                let b = prefix_sum(rh, tile_row as int);
                let h = rh[tile_row as int];
                assert(b * width + width * h == (b + h) * width) by (nonlinear_arith);
            }
            tile_row += 1;
        }
        proof {
            lemma_traversal_complete(cw, rh, width, height, raster_to_tile@, tile_to_raster@, tile_ids@);
        }
        let layout = Self {
            picture_width_in_ctbs: width,
            picture_height_in_ctbs: height,
            column_widths,
            row_heights,
            raster_to_tile,
            tile_to_raster,
            tile_ids,
        };
        assert(tile_dimensions_error(width, height, cw, rh) is None);
        assert(layout.rs_to_ts().len() == width * height);
        assert(layout.ts_to_rs().len() == width * height);
        assert(layout.ids().len() == width * height);
        Ok(layout)
    }
}


/// Uniform spacing of `total` CTBs into `parts` parts (6-3, 6-4).
pub open spec fn uniform_spacing(total: u32, parts: u32) -> Seq<u32> {
    Seq::new(parts as nat, |i: int| (((i + 1) * total) / (parts as int) - (i * total) / (parts as int)) as u32)
}

fn split_uniform(total: u32, parts: u32) -> (r: Vec<u32>)
    requires
        1 <= parts <= total,
        parts * total <= u32::MAX,
    ensures
        r@ == uniform_spacing(total, parts),
{
    let mut widths: Vec<u32> = Vec::new();
    let mut index: u32 = 0;
    while index < parts
        invariant
            1 <= parts <= total,
            parts * total <= u32::MAX,
            index <= parts,
            widths@ =~= uniform_spacing(total, parts).subrange(0, index as int),
        decreases parts - index,
    {
        proof {
            assert((index + 1) * total <= parts * total) by (nonlinear_arith)
                requires index < parts;
            assert(index * total <= (index + 1) * total) by (nonlinear_arith);
            vstd::arithmetic::div_mod::lemma_div_is_ordered((index * total) as int, ((index + 1) * total) as int, parts as int);
        }
        let high = ((index + 1) * total) / parts;
        let low = (index * total) / parts;
        widths.push(high - low);
        index += 1;
    }
    widths
}

fn cumulative_bounds(lengths: &Vec<u32>) -> (r: Vec<u32>)
    requires
        prefix_sum(lengths@, lengths@.len() as int) <= u32::MAX,
    ensures
        bounds_of(lengths@, r@),
{
    let mut bounds: Vec<u32> = Vec::new();
    bounds.push(0);
    let mut i: usize = 0;
    let mut total: u32 = 0;
    while i < lengths.len()
        invariant
            i <= lengths@.len(),
            prefix_sum(lengths@, lengths@.len() as int) <= u32::MAX,
            total == prefix_sum(lengths@, i as int),
            bounds@.len() == i + 1,
            forall|j: int| 0 <= j <= i ==> #[trigger] bounds@[j] == prefix_sum(lengths@, j),
        decreases lengths@.len() - i,
    {
        proof {
            lemma_prefix_le_total(lengths@, i + 1);
        }
        total = total + lengths[i];
        bounds.push(total);
        i += 1;
    }
    bounds
}

fn has_zero(values: &Vec<u32>) -> (r: bool)
    ensures
        r == values@.contains(0u32),
{
    let mut i: usize = 0;
    while i < values.len()
        invariant
            i <= values@.len(),
            forall|j: int| 0 <= j < i ==> values@[j] != 0,
        decreases values@.len() - i,
    {
        if values[i] == 0 {
            assert(values@[i as int] == 0u32);
            return true;
        }
        i += 1;
    }
    false
}

fn capped_sum(values: &Vec<u32>) -> (r: u64)
    ensures
        prefix_sum(values@, values@.len() as int) <= u32::MAX ==> r == prefix_sum(values@, values@.len() as int),
        prefix_sum(values@, values@.len() as int) > u32::MAX ==> r > u32::MAX,
{
    let mut i: usize = 0;
    let mut total: u64 = 0;
    while i < values.len()
        invariant
            i <= values@.len(),
            total == prefix_sum(values@, i as int),
            total <= u32::MAX,
        decreases values@.len() - i,
    {
        total = total + values[i] as u64;
        i += 1;
        if total > u32::MAX as u64 {
            proof {
                lemma_prefix_grows(values@, i as int, values@.len() as int);
            }
            return total;
        }
    }
    total
}

proof fn lemma_prefix_le_total(s: Seq<u32>, k: int)
    requires
        0 <= k <= s.len(),
    ensures
        prefix_sum(s, k) <= prefix_sum(s, s.len() as int),
        prefix_sum(s, k) >= 0,
    decreases s.len() - k,
{
    lemma_prefix_grows(s, k, s.len() as int);
}

proof fn lemma_prefix_grows(s: Seq<u32>, i: int, j: int)
    requires
        0 <= i <= j <= s.len(),
    ensures
        prefix_sum(s, i) <= prefix_sum(s, j),
        0 <= prefix_sum(s, i),
        all_positive(s) && i < j ==> prefix_sum(s, i) + s[i] <= prefix_sum(s, j),
    decreases j - i,
{
    if i < j {
        lemma_prefix_grows(s, i, j - 1);
    } else {
        lemma_prefix_nonneg(s, i);
    }
}

proof fn lemma_prefix_nonneg(s: Seq<u32>, k: int)
    ensures
        prefix_sum(s, k) >= 0,
    decreases k,
{
    if 0 < k <= s.len() {
        lemma_prefix_nonneg(s, k - 1);
    }
}

proof fn lemma_positive_of_no_zero(s: Seq<u32>)
    requires
        !s.contains(0u32),
    ensures
        all_positive(s),
{
    assert forall|i: int| 0 <= i < s.len() implies #[trigger] s[i] > 0 by {
        if s[i] == 0 {
            assert(s.contains(0u32));
        }
    }
}

proof fn lemma_count_le_sum(s: Seq<u32>, k: int)
    requires
        all_positive(s),
        0 <= k <= s.len(),
    ensures
        prefix_sum(s, k) >= k,
    decreases k,
{
    if k > 0 {
        lemma_count_le_sum(s, k - 1);
    }
}

proof fn lemma_part_index_unique(s: Seq<u32>, v: int, c: int, from: int)
    requires
        all_positive(s),
        0 <= from <= c < s.len(),
        prefix_sum(s, c) <= v < prefix_sum(s, c + 1),
    ensures
        part_index(s, v, from) == c,
    decreases c - from,
{
    if from < c {
        lemma_prefix_grows(s, from + 1, c);
        lemma_part_index_unique(s, v, c, from + 1);
    }
}

proof fn lemma_part_index_range(s: Seq<u32>, v: int)
    ensures
        all_positive(s) && s.len() > 0 && 0 <= v < prefix_sum(s, s.len() as int) ==> {
            let c = part_index(s, v, 0);
            &&& 0 <= c < s.len()
            &&& prefix_sum(s, c) <= v < prefix_sum(s, c + 1)
        },
{
    if all_positive(s) && s.len() > 0 && 0 <= v < prefix_sum(s, s.len() as int) {
        lemma_part_index_range_from(s, v, 0);
    }
}

proof fn lemma_part_index_range_from(s: Seq<u32>, v: int, i: int)
    requires
        all_positive(s),
        0 <= i < s.len(),
        prefix_sum(s, i) <= v < prefix_sum(s, s.len() as int),
    ensures
        i <= part_index(s, v, i) < s.len(),
        prefix_sum(s, part_index(s, v, i)) <= v < prefix_sum(s, part_index(s, v, i) + 1),
    decreases s.len() - i,
{
    if !(i + 1 >= s.len() || v < prefix_sum(s, i + 1)) {
        lemma_part_index_range_from(s, v, i + 1);
    }
}

proof fn lemma_div_mod_of_cell(w: int, y: int, x: int)
    requires
        0 <= x < w,
        0 <= y,
    ensures
        (y * w + x) % w == x,
        (y * w + x) / w == y,
{
    vstd::arithmetic::div_mod::lemma_fundamental_div_mod_converse(y * w + x, w, y, x);
}

proof fn lemma_cell_facts(cw: Seq<u32>, rh: Seq<u32>, width: u32, height: u32, r: int, c: int, y: int, x: int)
    requires
        traversal_inputs(cw, rh, width, height),
        all_positive(cw),
        all_positive(rh),
        0 <= r < rh.len(),
        0 <= c < cw.len(),
        prefix_sum(cw, c) <= x < prefix_sum(cw, c + 1),
        prefix_sum(rh, r) <= y < prefix_sum(rh, r + 1),
    ensures
        x < width,
        y < height,
        0 <= y * width + x < width * height,
        (y * width + x) % (width as int) == x,
        (y * width + x) / (width as int) == y,
        part_index(cw, x, 0) == c,
        part_index(rh, y, 0) == r,
        tile_scan_spec(cw, rh, width as int, y * width + x) == prefix_sum(rh, r) * width + prefix_sum(cw, c) * rh[r]
            + (y - prefix_sum(rh, r)) * cw[c] + (x - prefix_sum(cw, c)),
        tile_id_spec(cw, rh, width as int, y * width + x) == r * cw.len() + c,
        prefix_sum(rh, r) * width + prefix_sum(cw, c) * rh[r] + (y - prefix_sum(rh, r)) * cw[c] + (x - prefix_sum(cw, c))
            < width * height,
{
    lemma_prefix_grows(cw, c + 1, cw.len() as int);
    lemma_prefix_grows(rh, r + 1, rh.len() as int);
    lemma_prefix_grows(cw, c, c + 1);
    lemma_prefix_grows(rh, r, r + 1);
    lemma_div_mod_of_cell(width as int, y, x);
    lemma_part_index_unique(cw, x, c, 0);
    lemma_part_index_unique(rh, y, r, 0);
    assert(0 <= y * width + x < width * height) by (nonlinear_arith)
        requires 0 <= x < width, 0 <= y < height;
    let b = prefix_sum(rh, r);
    let a = prefix_sum(cw, c);
    let h = rh[r] as int;
    let wd = cw[c] as int;
    assert(b * width + a * h + (y - b) * wd + (x - a) < width * height) by (nonlinear_arith)
        requires
            0 <= a, a + wd <= width, 0 <= x - a < wd, 0 <= b, b + h <= height, 0 <= y - b < h;
}

proof fn lemma_step(
    cw: Seq<u32>,
    rh: Seq<u32>,
    width: u32,
    height: u32,
    r2t: Seq<u32>,
    t2r: Seq<u32>,
    ids: Seq<u32>,
    r2t2: Seq<u32>,
    t2r2: Seq<u32>,
    ids2: Seq<u32>,
    r: int,
    c: int,
    y: int,
    x: int,
    tile_addr: u32,
    tile_id: u32,
)
    requires
        traversal_inputs(cw, rh, width, height),
        all_positive(cw),
        all_positive(rh),
        0 <= r < rh.len(),
        0 <= c < cw.len(),
        prefix_sum(cw, c) <= x < prefix_sum(cw, c + 1),
        prefix_sum(rh, r) <= y < prefix_sum(rh, r + 1),
        tables_at(cw, rh, width, height, r2t, t2r, ids, r, c, y, x),
        tile_addr == t2r.len(),
        tile_addr == tile_scan_spec(cw, rh, width as int, y * width + x),
        tile_id == tile_id_spec(cw, rh, width as int, y * width + x),
        r2t2 == r2t.update(y * width + x, tile_addr),
        t2r2 == t2r.push((y * width + x) as u32),
        ids2 == ids.update(y * width + x, tile_id),
    ensures
        tables_at(cw, rh, width, height, r2t2, t2r2, ids2, r, c, y, x + 1),
{
    lemma_cell_facts(cw, rh, width, height, r, c, y, x);
    let n = width * height;
    let w = width as int;
    let rs0 = y * width + x;
    assert forall|rs: int| 0 <= rs < n implies scanned_before(cw, rh, w, rs, r, c, y, x + 1)
        == (scanned_before(cw, rh, w, rs, r, c, y, x) || rs == rs0) by {
        if rs / w == y && rs % w == x {
            vstd::arithmetic::div_mod::lemma_fundamental_div_mod(rs, w);
            assert(rs == y * w + x) by (nonlinear_arith)
                requires rs == w * (rs / w) + rs % w, rs / w == y, rs % w == x;
        }
    }
    assert forall|rs: int| 0 <= rs < n implies {
        &&& #[trigger] r2t2[rs] == if scanned_before(cw, rh, w, rs, r, c, y, x + 1) {
            tile_scan_spec(cw, rh, w, rs) as u32
        } else {
            0u32
        }
        &&& ids2[rs] == if scanned_before(cw, rh, w, rs, r, c, y, x + 1) {
            tile_id_spec(cw, rh, w, rs) as u32
        } else {
            0u32
        }
        &&& scanned_before(cw, rh, w, rs, r, c, y, x + 1) ==> 0 <= tile_scan_spec(cw, rh, w, rs) < t2r2.len()
            && t2r2[tile_scan_spec(cw, rh, w, rs)] == rs
    } by {
        if rs != rs0 {
            assert(r2t[rs] == if scanned_before(cw, rh, w, rs, r, c, y, x) {
                tile_scan_spec(cw, rh, w, rs) as u32
            } else {
                0u32
            });
        }
    }
    assert forall|t: int| 0 <= t < t2r2.len() implies #[trigger] t2r2[t] < n
        && tile_scan_spec(cw, rh, w, t2r2[t] as int) == t by {
        if t < t2r.len() {
            assert(t2r2[t] == t2r[t]);
        }
    }
}


proof fn lemma_transfer(
    cw: Seq<u32>,
    rh: Seq<u32>,
    width: u32,
    height: u32,
    r2t: Seq<u32>,
    t2r: Seq<u32>,
    ids: Seq<u32>,
    r1: int,
    c1: int,
    y1: int,
    x1: int,
    r2: int,
    c2: int,
    y2: int,
    x2: int,
)
    requires
        tables_at(cw, rh, width, height, r2t, t2r, ids, r1, c1, y1, x1),
        forall|rs: int| 0 <= rs < width * height ==> #[trigger] scanned_before(cw, rh, width as int, rs, r1, c1, y1, x1)
            == scanned_before(cw, rh, width as int, rs, r2, c2, y2, x2),
    ensures
        tables_at(cw, rh, width, height, r2t, t2r, ids, r2, c2, y2, x2),
{
    let w = width as int;
    assert forall|rs: int| 0 <= rs < width * height implies {
        &&& #[trigger] r2t[rs] == if scanned_before(cw, rh, w, rs, r2, c2, y2, x2) {
            tile_scan_spec(cw, rh, w, rs) as u32
        } else {
            0u32
        }
        &&& ids[rs] == if scanned_before(cw, rh, w, rs, r2, c2, y2, x2) {
            tile_id_spec(cw, rh, w, rs) as u32
        } else {
            0u32
        }
        &&& scanned_before(cw, rh, w, rs, r2, c2, y2, x2) ==> 0 <= tile_scan_spec(cw, rh, w, rs) < t2r.len()
            && t2r[tile_scan_spec(cw, rh, w, rs)] == rs
    } by {
        assert(scanned_before(cw, rh, w, rs, r1, c1, y1, x1) == scanned_before(cw, rh, w, rs, r2, c2, y2, x2));
        assert(r2t[rs] == if scanned_before(cw, rh, w, rs, r1, c1, y1, x1) {
            tile_scan_spec(cw, rh, w, rs) as u32
        } else {
            0u32
        });
    }
}

proof fn lemma_member_ranges(cw: Seq<u32>, rh: Seq<u32>, width: u32, height: u32, rs: int)
    requires
        traversal_inputs(cw, rh, width, height),
        all_positive(cw),
        all_positive(rh),
        0 <= rs < width * height,
    ensures
        ({
            let w = width as int;
            let tx = part_index(cw, rs % w, 0);
            let ty = part_index(rh, rs / w, 0);
            &&& 0 <= tx < cw.len()
            &&& 0 <= ty < rh.len()
            &&& prefix_sum(cw, tx) <= rs % w < prefix_sum(cw, tx + 1)
            &&& prefix_sum(rh, ty) <= rs / w < prefix_sum(rh, ty + 1)
        }),
{
    let w = width as int;
    assert(rs / w < height) by {
        vstd::arithmetic::div_mod::lemma_multiply_divide_lt(rs, w, height as int);
    }
    assert(0 <= rs / w) by {
        vstd::arithmetic::div_mod::lemma_div_pos_is_pos(rs, w);
    }
    vstd::arithmetic::div_mod::lemma_mod_bound(rs, w);
    lemma_part_index_range(cw, rs % w);
    lemma_part_index_range(rh, rs / w);
}

proof fn lemma_row_end(
    cw: Seq<u32>,
    rh: Seq<u32>,
    width: u32,
    height: u32,
    r2t: Seq<u32>,
    t2r: Seq<u32>,
    ids: Seq<u32>,
    r: int,
    c: int,
    y: int,
)
    requires
        traversal_inputs(cw, rh, width, height),
        all_positive(cw),
        all_positive(rh),
        0 <= r < rh.len(),
        0 <= c < cw.len(),
        tables_at(cw, rh, width, height, r2t, t2r, ids, r, c, y, prefix_sum(cw, c + 1)),
    ensures
        tables_at(cw, rh, width, height, r2t, t2r, ids, r, c, y + 1, prefix_sum(cw, c)),
{
    let w = width as int;
    assert forall|rs: int| 0 <= rs < width * height implies #[trigger] scanned_before(cw, rh, w, rs, r, c, y, prefix_sum(cw, c + 1))
        == scanned_before(cw, rh, w, rs, r, c, y + 1, prefix_sum(cw, c)) by {
        lemma_member_ranges(cw, rh, width, height, rs);
    }
    lemma_transfer(cw, rh, width, height, r2t, t2r, ids, r, c, y, prefix_sum(cw, c + 1), r, c, y + 1, prefix_sum(cw, c));
}

proof fn lemma_tile_end(
    cw: Seq<u32>,
    rh: Seq<u32>,
    width: u32,
    height: u32,
    r2t: Seq<u32>,
    t2r: Seq<u32>,
    ids: Seq<u32>,
    r: int,
    c: int,
)
    requires
        traversal_inputs(cw, rh, width, height),
        all_positive(cw),
        all_positive(rh),
        0 <= r < rh.len(),
        0 <= c < cw.len(),
        tables_at(cw, rh, width, height, r2t, t2r, ids, r, c, prefix_sum(rh, r + 1), prefix_sum(cw, c)),
    ensures
        tables_at(cw, rh, width, height, r2t, t2r, ids, r, c + 1, prefix_sum(rh, r), prefix_sum(cw, c + 1)),
{
    let w = width as int;
    assert forall|rs: int| 0 <= rs < width * height implies #[trigger] scanned_before(cw, rh, w, rs, r, c,
        prefix_sum(rh, r + 1), prefix_sum(cw, c)) == scanned_before(cw, rh, w, rs, r, c + 1, prefix_sum(rh, r),
        prefix_sum(cw, c + 1)) by {
        lemma_member_ranges(cw, rh, width, height, rs);
        let tx = part_index(cw, rs % w, 0);
        if tx > c {
            lemma_prefix_grows(cw, c + 1, tx);
        }
    }
    lemma_transfer(cw, rh, width, height, r2t, t2r, ids, r, c, prefix_sum(rh, r + 1), prefix_sum(cw, c), r, c + 1,
        prefix_sum(rh, r), prefix_sum(cw, c + 1));
}

proof fn lemma_tile_row_end(
    cw: Seq<u32>,
    rh: Seq<u32>,
    width: u32,
    height: u32,
    r2t: Seq<u32>,
    t2r: Seq<u32>,
    ids: Seq<u32>,
    r: int,
)
    requires
        traversal_inputs(cw, rh, width, height),
        all_positive(cw),
        all_positive(rh),
        0 <= r < rh.len(),
        tables_at(cw, rh, width, height, r2t, t2r, ids, r, cw.len() as int, prefix_sum(rh, r), prefix_sum(cw, cw.len() as int)),
    ensures
        tables_at(cw, rh, width, height, r2t, t2r, ids, r + 1, 0, prefix_sum(rh, r + 1), 0),
{
    let w = width as int;
    assert forall|rs: int| 0 <= rs < width * height implies #[trigger] scanned_before(cw, rh, w, rs, r, cw.len() as int,
        prefix_sum(rh, r), prefix_sum(cw, cw.len() as int)) == scanned_before(cw, rh, w, rs, r + 1, 0, prefix_sum(rh, r + 1), 0) by {
        lemma_member_ranges(cw, rh, width, height, rs);
        let ty = part_index(rh, rs / w, 0);
        if ty > r {
            lemma_prefix_grows(rh, r + 1, ty);
        }
    }
    lemma_transfer(cw, rh, width, height, r2t, t2r, ids, r, cw.len() as int, prefix_sum(rh, r),
        prefix_sum(cw, cw.len() as int), r + 1, 0, prefix_sum(rh, r + 1), 0);
}

proof fn lemma_traversal_complete(
    cw: Seq<u32>,
    rh: Seq<u32>,
    width: u32,
    height: u32,
    r2t: Seq<u32>,
    t2r: Seq<u32>,
    ids: Seq<u32>,
)
    requires
        traversal_inputs(cw, rh, width, height),
        all_positive(cw),
        all_positive(rh),
        t2r.len() == prefix_sum(rh, rh.len() as int) * width,
        tables_at(cw, rh, width, height, r2t, t2r, ids, rh.len() as int, 0, prefix_sum(rh, rh.len() as int), 0),
    ensures
        r2t.len() == width * height,
        t2r.len() == width * height,
        ids.len() == width * height,
        forall|rs: int| 0 <= rs < width * height ==> {
            &&& #[trigger] r2t[rs] == tile_scan_spec(cw, rh, width as int, rs)
            &&& ids[rs] == tile_id_spec(cw, rh, width as int, rs)
            &&& 0 <= tile_scan_spec(cw, rh, width as int, rs) < width * height
            &&& t2r[tile_scan_spec(cw, rh, width as int, rs)] == rs
        },
        forall|t: int| 0 <= t < width * height ==> {
            &&& #[trigger] t2r[t] < width * height
            &&& tile_scan_spec(cw, rh, width as int, t2r[t] as int) == t
        },
{
    let w = width as int;
    assert(t2r.len() == width * height) by (nonlinear_arith)
        requires t2r.len() == prefix_sum(rh, rh.len() as int) * width, prefix_sum(rh, rh.len() as int) == height;
    assert forall|rs: int| 0 <= rs < width * height implies {
        &&& #[trigger] r2t[rs] == tile_scan_spec(cw, rh, width as int, rs)
        &&& ids[rs] == tile_id_spec(cw, rh, width as int, rs)
        &&& 0 <= tile_scan_spec(cw, rh, width as int, rs) < width * height
        &&& t2r[tile_scan_spec(cw, rh, width as int, rs)] == rs
    } by {
        lemma_member_ranges(cw, rh, width, height, rs);
        assert(scanned_before(cw, rh, w, rs, rh.len() as int, 0, prefix_sum(rh, rh.len() as int), 0));
        let tx = part_index(cw, rs % w, 0);
        let ty = part_index(rh, rs / w, 0);
        lemma_count_le_sum(cw, cw.len() as int);
        lemma_count_le_sum(rh, rh.len() as int);
        assert(ty * cw.len() + tx < rh.len() * cw.len()) by (nonlinear_arith)
            requires 0 <= ty < rh.len(), 0 <= tx < cw.len();
        assert(rh.len() * cw.len() <= height * width) by (nonlinear_arith)
            requires rh.len() <= height, cw.len() <= width;
    }
}


proof fn lemma_uniform_prefix(total: u32, parts: u32, k: int)
    requires
        1 <= parts <= total,
        0 <= k <= parts,
    ensures
        prefix_sum(uniform_spacing(total, parts), k) == (k * total) / (parts as int),
    decreases k,
{
    let s = uniform_spacing(total, parts);
    if k > 0 {
        lemma_uniform_prefix(total, parts, k - 1);
        let i = k - 1;
        assert(i * total <= k * total <= parts * total) by (nonlinear_arith)
            requires 0 <= i, k == i + 1, k <= parts;
        vstd::arithmetic::div_mod::lemma_div_is_ordered(i * total, k * total, parts as int);
        vstd::arithmetic::div_mod::lemma_div_is_ordered(k * total, parts * total, parts as int);
        vstd::arithmetic::div_mod::lemma_div_multiples_vanish(total as int, parts as int);
        assert(parts * total == total * parts) by (nonlinear_arith);
        assert(k * total == (i + 1) * total);
        assert(s[i] == ((k * total) / (parts as int) - (i * total) / (parts as int)) as u32);
        let d = (k * total) / (parts as int) - (i * total) / (parts as int);
        assert((parts * total) / (parts as int) == total);
        assert(0 <= (i * total) / (parts as int)) by {
            vstd::arithmetic::div_mod::lemma_div_pos_is_pos(i * total, parts as int);
        }
        assert(0 <= d <= total);
        assert(s[i] as int == d);
        assert(prefix_sum(s, k) == prefix_sum(s, i) + s[i]);
    } else {
        vstd::arithmetic::div_mod::lemma_div_of0(parts as int);
        assert(k * total == 0);
    }
}

proof fn lemma_uniform_spacing(total: u32, parts: u32)
    requires
        1 <= parts <= total,
    ensures
        uniform_spacing(total, parts).len() == parts,
        prefix_sum(uniform_spacing(total, parts), parts as int) == total,
        !uniform_spacing(total, parts).contains(0u32),
        all_positive(uniform_spacing(total, parts)),
{
    let s = uniform_spacing(total, parts);
    lemma_uniform_prefix(total, parts, parts as int);
    vstd::arithmetic::div_mod::lemma_div_multiples_vanish(total as int, parts as int);
    assert(parts * total == total * parts) by (nonlinear_arith);
    assert forall|i: int| 0 <= i < parts implies #[trigger] s[i] > 0 by {
        assert(i * total + parts <= (i + 1) * total) by (nonlinear_arith)
            requires parts <= total;
        assert((i + 1) * total <= parts * total) by (nonlinear_arith)
            requires i < parts;
        assert(0 <= i * total) by (nonlinear_arith)
            requires 0 <= i;
        vstd::arithmetic::div_mod::lemma_div_plus_one(i * total, parts as int);
        vstd::arithmetic::div_mod::lemma_div_is_ordered(parts + i * total, (i + 1) * total, parts as int);
        vstd::arithmetic::div_mod::lemma_div_is_ordered((i + 1) * total, parts * total, parts as int);
        vstd::arithmetic::div_mod::lemma_div_pos_is_pos(i * total, parts as int);
    }
    assert(!s.contains(0u32)) by {
        if s.contains(0u32) {
            let j = choose|j: int| 0 <= j < s.len() && s[j] == 0u32;
            assert(s[j] > 0);
        }
    }
}

} // verus!
