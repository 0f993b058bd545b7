use vstd::prelude::*;
use crate::error::GeometryError;
use crate::format::ceil_div_spec;
use crate::geometry::{power_of_two_spec, PictureGeometry};
use vstd::arithmetic::power2::pow2;

verus! {

/// Morton (Z-order) rank of `(x, y)`, interleaving one bit of `x` and one bit
/// of `y` for every doubling of `p` below `size`, least significant first.
pub open spec fn z_rank(x: int, y: int, p: int, size: int) -> int
    decreases 2 * size - p,
{
    if p < 1 || p >= size {
        0
    } else {
        x % 2 + 2 * (y % 2) + 4 * z_rank(x / 2, y / 2, 2 * p, size)
    }
}

/// The coordinate whose Morton rank is `rank`: the inverse interleaving.
pub open spec fn z_coord(rank: int, p: int, size: int) -> (int, int)
    decreases 2 * size - p,
{
    if p < 1 || p >= size {
        (0, 0)
    } else {
        let rest = z_coord(rank / 4, 2 * p, size);
        (rank % 2 + 2 * rest.0, (rank / 2) % 2 + 2 * rest.1)
    }
}

/// How many times `p` doubles before reaching `size`, as the factor `2^n`.
pub open spec fn span_ratio(p: int, size: int) -> int
    decreases 2 * size - p,
{
    if p < 1 || p >= size {
        1
    } else {
        2 * span_ratio(2 * p, size)
    }
}

/// `MinTbAddrZs` for the luma sample `(x, y)` (§6.5.2).
pub open spec fn min_tb_address_spec(g: PictureGeometry, x: int, y: int) -> int {
    let m = g.ctb_size / g.min_tb_size;
    let ctb_addr = (y / g.ctb_size as int) * g.width_ctbs() + x / g.ctb_size as int;
    ctb_addr * m * m + z_rank((x % g.ctb_size as int) / g.min_tb_size as int, (y % g.ctb_size as int)
        / g.min_tb_size as int, 1, m as int)
}

proof fn lemma_z_rank_bounds(x: int, y: int, p: int, size: int)
    requires
        x >= 0,
        y >= 0,
    ensures
        0 <= z_rank(x, y, p, size) < span_ratio(p, size) * span_ratio(p, size),
    decreases 2 * size - p,
{
    if p >= 1 && p < size {
        lemma_z_rank_bounds(x / 2, y / 2, 2 * p, size);
        let r = z_rank(x / 2, y / 2, 2 * p, size);
        let q = span_ratio(2 * p, size);
        assert(x % 2 + 2 * (y % 2) + 4 * r < (2 * q) * (2 * q)) by (nonlinear_arith)
            requires r < q * q, 0 <= x % 2 <= 1, 0 <= y % 2 <= 1, r >= 0;
    }
}

proof fn lemma_span_ratio(p: int, size: int)
    requires
        p >= 1,
    ensures
        span_ratio(p, size) >= 1,
        p * span_ratio(p, size) >= size,
    decreases 2 * size - p,
{
    if p < size {
        lemma_span_ratio(2 * p, size);
        assert(p * (2 * span_ratio(2 * p, size)) == (2 * p) * span_ratio(2 * p, size)) by (nonlinear_arith);
    } else {
    }
}

proof fn lemma_coord_of_rank(x: int, y: int, p: int, size: int)
    requires
        0 <= x < span_ratio(p, size),
        0 <= y < span_ratio(p, size),
    ensures
        z_coord(z_rank(x, y, p, size), p, size) == (x, y),
    decreases 2 * size - p,
{
    if p >= 1 && p < size {
        let r = z_rank(x / 2, y / 2, 2 * p, size);
        lemma_coord_of_rank(x / 2, y / 2, 2 * p, size);
        lemma_z_rank_bounds(x / 2, y / 2, 2 * p, size);
        let rank = x % 2 + 2 * (y % 2) + 4 * r;
        assert(rank / 4 == r && rank % 2 == x % 2 && (rank / 2) % 2 == y % 2) by (nonlinear_arith)
            requires rank == x % 2 + 2 * (y % 2) + 4 * r, 0 <= x % 2 <= 1, 0 <= y % 2 <= 1, r >= 0;
    }
}

proof fn lemma_rank_of_coord(rank: int, p: int, size: int)
    requires
        0 <= rank < span_ratio(p, size) * span_ratio(p, size),
    ensures
        z_rank(z_coord(rank, p, size).0, z_coord(rank, p, size).1, p, size) == rank,
        0 <= z_coord(rank, p, size).0,
        0 <= z_coord(rank, p, size).1,
    decreases 2 * size - p,
{
    if p >= 1 && p < size {
        let q = span_ratio(2 * p, size);
        assert(rank / 4 < q * q) by (nonlinear_arith) requires rank < (2 * q) * (2 * q), rank >= 0;
        lemma_rank_of_coord(rank / 4, 2 * p, size);
        let t = z_coord(rank / 4, 2 * p, size);
        let cx = rank % 2 + 2 * t.0;
        let cy = (rank / 2) % 2 + 2 * t.1;
        assert(cx % 2 == rank % 2 && cx / 2 == t.0 && cy % 2 == (rank / 2) % 2 && cy / 2 == t.1)
            by (nonlinear_arith) requires cx == rank % 2 + 2 * t.0, cy == (rank / 2) % 2 + 2 * t.1,
            t.0 >= 0, t.1 >= 0;
        assert(rank == rank % 2 + 2 * ((rank / 2) % 2) + 4 * (rank / 4)) by (nonlinear_arith)
            requires rank >= 0;
    }
}

/// The Z-scan coordinate of the Z-scan rank of any coordinate inside a block
/// is that coordinate: the interleaving is undone by its inverse.
pub proof fn lemma_z_scan_coordinate_of_rank(x: int, y: int, size: int)
    requires
        0 <= x < size,
        0 <= y < size,
    ensures
        z_coord(z_rank(x, y, 1, size), 1, size) == (x, y),
{
    lemma_span_ratio(1, size);
    lemma_coord_of_rank(x, y, 1, size);
}

/// The Z-scan rank of the coordinate at any rank inside a block is that rank.
pub proof fn lemma_z_scan_rank_of_coordinate(rank: int, size: int)
    requires
        0 <= size,
        0 <= rank < size * size,
    ensures
        z_rank(z_coord(rank, 1, size).0, z_coord(rank, 1, size).1, 1, size) == rank,
{
    lemma_span_ratio(1, size);
    let q = span_ratio(1, size);
    assert(size * size <= q * q) by (nonlinear_arith) requires q >= size, size >= 0;
    lemma_rank_of_coord(rank, 1, size);
}

/// Doubling a power of two below `2^16` stays within `2^16`.
proof fn lemma_double_pow2(k: nat)
    requires
        pow2(k) < 65536,
    ensures
        pow2(k + 1) == 2 * pow2(k),
        pow2(k + 1) <= 65536,
{
    vstd::arithmetic::power2::lemma_pow2_unfold(k + 1);
    vstd::arithmetic::power2::lemma2_to64();
    if k >= 16 {
        if k > 16 {
            vstd::arithmetic::power2::lemma_pow2_strictly_increases(16, k);
        }
    }
}

/// The Z-scan address of `(x, y)` and its parts fit in `u32`.
pub open spec fn addresses_fit(g: PictureGeometry, x: int, y: int) -> bool {
    let m = g.ctb_size / g.min_tb_size;
    let ctb_addr = (y / g.ctb_size as int) * g.width_ctbs() + x / g.ctb_size as int;
    &&& min_tb_address_spec(g, x, y) <= u32::MAX
    &&& ctb_addr <= u32::MAX
    &&& ctb_addr * m * m <= u32::MAX
}

/// Returns the minimum transform-block address in Z-scan order for a luma
/// sample coordinate.
pub fn min_tb_address_z_scan(geometry: &PictureGeometry, x: u32, y: u32) -> (r: u32)
    requires
        geometry.ctb_size > 0,
        geometry.min_tb_size > 0,
        geometry.ctb_size / geometry.min_tb_size <= 65536,
        (y / geometry.ctb_size) * geometry.width_ctbs() + x / geometry.ctb_size <= u32::MAX,
        min_tb_address_spec(*geometry, x as int, y as int) <= u32::MAX,
        ((y / geometry.ctb_size) * geometry.width_ctbs() + x / geometry.ctb_size) * (geometry.ctb_size
            / geometry.min_tb_size) * (geometry.ctb_size / geometry.min_tb_size) <= u32::MAX,
    ensures
        r == min_tb_address_spec(*geometry, x as int, y as int),
{
    let min_per_ctb = geometry.ctb_size / geometry.min_tb_size;
    let ctb_x = x / geometry.ctb_size;
    let ctb_y = y / geometry.ctb_size;
    let local_x = (x % geometry.ctb_size) / geometry.min_tb_size;
    let local_y = (y % geometry.ctb_size) / geometry.min_tb_size;
    let w = geometry.width_in_ctbs();
    proof {
        assert(0 <= ctb_y * w <= ctb_y * w + ctb_x) by (nonlinear_arith) requires ctb_x >= 0, ctb_y >= 0, w >= 0;
        if min_per_ctb > 0 {
            assert(0 <= (ctb_y * w + ctb_x) * min_per_ctb <= (ctb_y * w + ctb_x) * min_per_ctb * min_per_ctb)
                by (nonlinear_arith) requires ctb_y * w + ctb_x >= 0, min_per_ctb >= 1;
        } else {
            assert((ctb_y * w + ctb_x) * min_per_ctb == 0) by (nonlinear_arith) requires min_per_ctb == 0;
        }
        lemma_z_rank_bounds(local_x as int, local_y as int, 1, min_per_ctb as int);
    }
    let ctb_addr = ctb_y * w + ctb_x;
    (ctb_addr * min_per_ctb * min_per_ctb) + z_scan_rank(min_per_ctb, local_x, local_y)
}

/// Returns the `(x, y)` coordinates of a square block in Z-scan order.
pub fn z_scan_order(size: u32) -> (r: Result<Vec<(u32, u32)>, GeometryError>)
    requires
        !(power_of_two_spec(size) && size > 32768),
    ensures
        r == if power_of_two_spec(size) { Ok(r->Ok_0) } else { Err(GeometryError::InvalidBlockSize) },
        r matches Ok(v) ==> v@.len() == size * size && forall|i: int|
            0 <= i < v@.len() ==> #[trigger] v@[i] == (z_coord(i, 1, size as int).0 as u32, z_coord(
                i,
                1,
                size as int,
            ).1 as u32),
{
    validate_scan_size(size)?;
    assert(size * size <= 32768 * 32768) by (nonlinear_arith) requires 1 <= size <= 32768;
    let total = size * size;
    let mut result: Vec<(u32, u32)> = Vec::new();
    let mut rank: u32 = 0;
    while rank < total
        invariant
            rank <= total,
            total == size * size,
            size <= 32768,
            result@.len() == rank,
            forall|i: int|
                0 <= i < rank ==> #[trigger] result@[i] == (z_coord(i, 1, size as int).0 as u32, z_coord(
                    i,
                    1,
                    size as int,
                ).1 as u32),
        decreases total - rank,
    {
        result.push(z_scan_coordinate(size, rank));
        rank = rank + 1;
    }
    Ok(result)
}

/// Returns an address table equivalent to `MinTbAddrZs[x][y]` in §6.5.2,
/// indexed by row then column of minimum transform blocks.
pub fn min_tb_address_table(geometry: &PictureGeometry) -> (r: Vec<Vec<u32>>)
    requires
        geometry.ctb_size > 0,
        geometry.min_tb_size > 0,
        geometry.ctb_size / geometry.min_tb_size <= 65536,
        geometry.width_ctbs() * geometry.ctb_size <= u32::MAX,
        geometry.height_ctbs() * geometry.ctb_size <= u32::MAX,
        forall|x: int, y: int| 0 <= x < geometry.width_ctbs() * geometry.ctb_size && 0 <= y < geometry.height_ctbs()                 * geometry.ctb_size ==> #[trigger] addresses_fit(*geometry, x, y),
    ensures
        r@.len() == geometry.height_ctbs() * geometry.ctb_size / geometry.min_tb_size as int,
        forall|row: int|
            0 <= row < r@.len() ==> #[trigger] r@[row]@.len() == geometry.width_ctbs()
                * geometry.ctb_size / geometry.min_tb_size as int && forall|col: int|
                0 <= col < r@[row]@.len() ==> #[trigger] r@[row]@[col] == min_tb_address_spec(
                    *geometry,
                    col * geometry.min_tb_size,
                    row * geometry.min_tb_size,
                ),
{
    let width = geometry.width_in_ctbs() * geometry.ctb_size / geometry.min_tb_size;
    let height = geometry.height_in_ctbs() * geometry.ctb_size / geometry.min_tb_size;
    let ghost wl = geometry.width_ctbs() * geometry.ctb_size;
    let ghost hl = geometry.height_ctbs() * geometry.ctb_size;
    let mut rows: Vec<Vec<u32>> = Vec::new();
    let mut y: u32 = 0;
    while y < height
        invariant
            height == hl / geometry.min_tb_size as int,
            width == wl / geometry.min_tb_size as int,
            wl == geometry.width_ctbs() * geometry.ctb_size,
            hl == geometry.height_ctbs() * geometry.ctb_size,
            wl <= u32::MAX,
            hl <= u32::MAX,
            geometry.ctb_size > 0,
            geometry.min_tb_size > 0,
            geometry.ctb_size / geometry.min_tb_size <= 65536,
            forall|x: int, y: int| 0 <= x < wl && 0 <= y < hl ==> #[trigger] addresses_fit(*geometry, x, y),
            y <= height,
            rows@.len() == y,
            forall|row: int|
                0 <= row < y ==> #[trigger] rows@[row]@.len() == width && forall|col: int|
                    0 <= col < width ==> #[trigger] rows@[row]@[col] == min_tb_address_spec(
                        *geometry,
                        col * geometry.min_tb_size,
                        row * geometry.min_tb_size,
                    ),
        decreases height - y,
    {
        let mut line: Vec<u32> = Vec::new();
        let mut x: u32 = 0;
        proof {
            assert(y * geometry.min_tb_size < hl) by (nonlinear_arith)
                requires y < hl / geometry.min_tb_size as int, geometry.min_tb_size > 0, hl >= 0;
        }
        while x < width
            invariant
                height == hl / geometry.min_tb_size as int,
                width == wl / geometry.min_tb_size as int,
                wl == geometry.width_ctbs() * geometry.ctb_size,
                hl == geometry.height_ctbs() * geometry.ctb_size,
                wl <= u32::MAX,
                hl <= u32::MAX,
                geometry.ctb_size > 0,
                geometry.min_tb_size > 0,
                geometry.ctb_size / geometry.min_tb_size <= 65536,
                forall|x: int, y: int| 0 <= x < wl && 0 <= y < hl ==> #[trigger] addresses_fit(*geometry, x, y),
                y < height,
                y * geometry.min_tb_size < hl,
                x <= width,
                line@.len() == x,
                forall|col: int|
                    0 <= col < x ==> #[trigger] line@[col] == min_tb_address_spec(
                        *geometry,
                        col * geometry.min_tb_size,
                        y * geometry.min_tb_size,
                    ),
            decreases width - x,
        {
            proof {
                assert(x * geometry.min_tb_size < wl) by (nonlinear_arith)
                    requires x < wl / geometry.min_tb_size as int, geometry.min_tb_size > 0, wl >= 0;
            }
            let sx = x * geometry.min_tb_size;
            let sy = y * geometry.min_tb_size;
            proof {
                assert(addresses_fit(*geometry, sx as int, sy as int));
            }
            line.push(min_tb_address_z_scan(geometry, sx, sy));
            x = x + 1;
        }
        rows.push(line);
        y = y + 1;
    }
    rows
}

/// The up-right diagonal of `size` with `x + y == d`, in increasing `x`.
pub open spec fn diagonal_points(size: int, d: int) -> Seq<(u32, u32)> {
    let first = if d - size + 1 > 0 { d - size + 1 } else { 0 };
    let last = if d < size - 1 { d } else { size - 1 };
    Seq::new(if last >= first { (last - first + 1) as nat } else { 0 }, |k: int| ((first + k) as u32, (d - first - k) as u32))
}

/// The first `d` diagonals of the up-right diagonal scan (§6.5.3).
pub open spec fn diagonal_scan(size: int, d: int) -> Seq<(u32, u32)>
    decreases d,
{
    if d <= 0 {
        Seq::empty()
    } else {
        diagonal_scan(size, d - 1) + diagonal_points(size, d - 1)
    }
}

/// Returns an up-right diagonal scan for a square block.
pub fn up_right_diagonal_scan(size: u32) -> (r: Result<Vec<(u32, u32)>, GeometryError>)
    requires
        !(power_of_two_spec(size) && size > 32768),
    ensures
        r == if power_of_two_spec(size) {
            Ok(r->Ok_0)
        } else {
            Err(GeometryError::InvalidBlockSize)
        },
        r matches Ok(v) ==> v@ == diagonal_scan(size as int, 2 * size - 1),
{
    validate_scan_size(size)?;
    let mut result: Vec<(u32, u32)> = Vec::new();
    let mut d: u32 = 0;
    while d < 2 * size - 1
        invariant
            1 <= size <= 32768,
            d <= 2 * size - 1,
            result@ == diagonal_scan(size as int, d as int),
        decreases 2 * size - 1 - d,
    {
        let first: u32 = if d + 1 > size { d + 1 - size } else { 0 };
        let last: u32 = if d < size - 1 { d } else { size - 1 };
        let mut x: u32 = first;
        let ghost start = result@;
        while x <= last
            invariant
                1 <= size <= 32768,
                d < 2 * size - 1,
                first == (if d - size + 1 > 0 { d - size + 1 } else { 0 }),
                last == (if d < size - 1 { d as int } else { size - 1 }),
                first <= x <= last + 1,
                first <= d + 1,
                result@ == start + diagonal_points(size as int, d as int).subrange(0, x - first),
            decreases last + 1 - x,
        {
            result.push((x, d - x));
            proof {
                assert(diagonal_points(size as int, d as int).subrange(0, x + 1 - first) =~= diagonal_points(
                    size as int,
                    d as int,
                ).subrange(0, x - first).push((x, (d - x) as u32)));
            }
            x = x + 1;
        }
        assert(diagonal_points(size as int, d as int).subrange(0, x - first) =~= diagonal_points(
            size as int,
            d as int,
        ));
        d = d + 1;
    }
    Ok(result)
}

/// Returns a row-major horizontal scan for a square block.
pub fn horizontal_scan(size: u32) -> (r: Result<Vec<(u32, u32)>, GeometryError>)
    requires
        !(power_of_two_spec(size) && size > 32768),
    ensures
        r == if power_of_two_spec(size) {
            Ok(r->Ok_0)
        } else {
            Err(GeometryError::InvalidBlockSize)
        },
        r matches Ok(v) ==> v@.len() == size * size && forall|i: int|
            0 <= i < v@.len() ==> #[trigger] v@[i] == ((i % size as int) as u32, (i / size as int) as u32),
{
    validate_scan_size(size)?;
    let v = grid_scan(size, false);
    Ok(v)
}

/// Returns a column-major vertical scan for a square block.
pub fn vertical_scan(size: u32) -> (r: Result<Vec<(u32, u32)>, GeometryError>)
    requires
        !(power_of_two_spec(size) && size > 32768),
    ensures
        r == if power_of_two_spec(size) {
            Ok(r->Ok_0)
        } else {
            Err(GeometryError::InvalidBlockSize)
        },
        r matches Ok(v) ==> v@.len() == size * size && forall|i: int|
            0 <= i < v@.len() ==> #[trigger] v@[i] == ((i / size as int) as u32, (i % size as int) as u32),
{
    validate_scan_size(size)?;
    let v = grid_scan(size, true);
    Ok(v)
}

/// Returns the alternating-row traverse scan for a square block.
pub fn traverse_scan(size: u32) -> (r: Result<Vec<(u32, u32)>, GeometryError>)
    requires
        !(power_of_two_spec(size) && size > 32768),
    ensures
        r == if power_of_two_spec(size) {
            Ok(r->Ok_0)
        } else {
            Err(GeometryError::InvalidBlockSize)
        },
        r matches Ok(v) ==> v@.len() == size * size && forall|i: int|
            0 <= i < v@.len() ==> #[trigger] v@[i] == (
                if (i / size as int) % 2 == 0 { i % size as int } else { size - 1 - i % size as int } as u32,
                (i / size as int) as u32,
            ),
{
    validate_scan_size(size)?;
    let mut result: Vec<(u32, u32)> = Vec::new();
    let mut y: u32 = 0;
    while y < size
        invariant
            1 <= size <= 32768,
            y <= size,
            result@.len() == y * size,
            forall|i: int|
                0 <= i < y * size ==> #[trigger] result@[i] == (
                    if (i / size as int) % 2 == 0 { i % size as int } else { size - 1 - i % size as int } as u32,
                    (i / size as int) as u32,
                ),
        decreases size - y,
    {
        let mut x: u32 = 0;
        while x < size
            invariant
                1 <= size <= 32768,
                y < size,
                x <= size,
                result@.len() == y * size + x,
                forall|i: int|
                    0 <= i < y * size + x ==> #[trigger] result@[i] == (
                        if (i / size as int) % 2 == 0 { i % size as int } else { size - 1 - i % size as int } as u32,
                        (i / size as int) as u32,
                    ),
            decreases size - x,
        {
            let column = if y % 2 == 0 { x } else { size - 1 - x };
            proof {
                lemma_grid_index(y as int, x as int, size as int);
            }
            result.push((column, y));
            x = x + 1;
        }
        proof {
            assert(y * size + size == (y + 1) * size) by (nonlinear_arith);
        }
        y = y + 1;
    }
    Ok(result)
}

proof fn lemma_grid_index(y: int, x: int, size: int)
    requires
        0 <= x < size,
        0 <= y,
    ensures
        (y * size + x) / size == y,
        (y * size + x) % size == x,
        y * size + x < (y + 1) * size,
{
    assert((y * size + x) / size == y && (y * size + x) % size == x) by (nonlinear_arith)
        requires 0 <= x < size, 0 <= y;
    assert(y * size + x < (y + 1) * size) by (nonlinear_arith) requires 0 <= x < size, 0 <= y;
}

/// Row-major (or, when `columns_first`, column-major) scan of a square grid.
fn grid_scan(size: u32, columns_first: bool) -> (r: Vec<(u32, u32)>)
    requires
        1 <= size <= 32768,
    ensures
        r@.len() == size * size,
        forall|i: int|
            0 <= i < r@.len() ==> #[trigger] r@[i] == if columns_first {
                ((i / size as int) as u32, (i % size as int) as u32)
            } else {
                ((i % size as int) as u32, (i / size as int) as u32)
            },
{
    let mut result: Vec<(u32, u32)> = Vec::new();
    let mut outer: u32 = 0;
    while outer < size
        invariant
            1 <= size <= 32768,
            outer <= size,
            result@.len() == outer * size,
            forall|i: int|
                0 <= i < outer * size ==> #[trigger] result@[i] == if columns_first {
                    ((i / size as int) as u32, (i % size as int) as u32)
                } else {
                    ((i % size as int) as u32, (i / size as int) as u32)
                },
        decreases size - outer,
    {
        let mut inner: u32 = 0;
        while inner < size
            invariant
                1 <= size <= 32768,
                outer < size,
                inner <= size,
                result@.len() == outer * size + inner,
                forall|i: int|
                    0 <= i < outer * size + inner ==> #[trigger] result@[i] == if columns_first {
                        ((i / size as int) as u32, (i % size as int) as u32)
                    } else {
                        ((i % size as int) as u32, (i / size as int) as u32)
                    },
            decreases size - inner,
        {
            proof {
                lemma_grid_index(outer as int, inner as int, size as int);
            }
            if columns_first {
                result.push((outer, inner));
            } else {
                result.push((inner, outer));
            }
            inner = inner + 1;
        }
        proof {
            assert(outer * size + size == (outer + 1) * size) by (nonlinear_arith);
        }
        outer = outer + 1;
    }
    result
}

fn validate_scan_size(size: u32) -> (r: Result<(), GeometryError>)
    ensures
        r == if power_of_two_spec(size) { Ok::<(), GeometryError>(()) } else { Err(GeometryError::InvalidBlockSize) },
        power_of_two_spec(size) ==> size >= 1,
{
    if !is_power_of_two(size) {
        Err(GeometryError::InvalidBlockSize)
    } else {
        Ok(())
    }
}

fn is_power_of_two(value: u32) -> (r: bool)
    ensures
        r == power_of_two_spec(value),
{
    value != 0 && (value & (value - 1)) == 0
}

/// Morton rank of `(x, y)` inside a block of `size`.
fn z_scan_rank(size: u32, x: u32, y: u32) -> (r: u32)
    requires
        size <= 65536,
    ensures
        r == z_rank(x as int, y as int, 1, size as int),
{
    let mut rank: u64 = 0;
    let mut xs: u32 = x;
    let mut ys: u32 = y;
    let mut p: u64 = 1;
    let mut w: u64 = 1;
    let ghost mut k: nat = 0;
    proof {
        vstd::arithmetic::power2::lemma2_to64();
    }
    while p < size as u64
        invariant
            size <= 65536,
            p == pow2(k),
            p <= 65536,
            w == p * p,
            rank < w,
            rank + w * z_rank(xs as int, ys as int, p as int, size as int) == z_rank(x as int, y as int, 1, size as int),
        decreases 2 * size - p,
    {
        let bits = (xs % 2) as u64 + 2 * (ys % 2) as u64;
        proof {
            lemma_double_pow2(k);
            let rest = z_rank(xs as int / 2, ys as int / 2, 2 * p as int, size as int);
            assert(rank + bits * w + (4 * w) * rest == rank + w * (bits + 4 * rest)) by (nonlinear_arith);
            assert(rank + bits * w < 4 * w) by (nonlinear_arith) requires rank < w, bits <= 3;
            assert(4 * w == (2 * p) * (2 * p)) by (nonlinear_arith) requires w == p * p;
            assert((2 * p) * (2 * p) <= 65536 * 65536) by (nonlinear_arith) requires 2 * p <= 65536, p >= 0;
        }
        rank = rank + bits * w;
        xs = xs / 2;
        ys = ys / 2;
        p = 2 * p;
        w = 4 * w;
        proof {
            k = k + 1;
        }
    }
    proof {
        assert(w <= 65536 * 65536) by (nonlinear_arith) requires w == p * p, p <= 65536, p >= 0;
    }
    rank as u32
}

/// The coordinate at Morton rank `rank` inside a block of `size`.
fn z_scan_coordinate(size: u32, rank: u32) -> (r: (u32, u32))
    requires
        size <= 65536,
    ensures
        r == (z_coord(rank as int, 1, size as int).0 as u32, z_coord(rank as int, 1, size as int).1 as u32),
{
    let mut x: u64 = 0;
    let mut y: u64 = 0;
    let mut rs: u32 = rank;
    let mut p: u64 = 1;
    let ghost mut k: nat = 0;
    proof {
        vstd::arithmetic::power2::lemma2_to64();
    }
    while p < size as u64
        invariant
            size <= 65536,
            p == pow2(k),
            p <= 65536,
            x < p,
            y < p,
            x + p * z_coord(rs as int, p as int, size as int).0 == z_coord(rank as int, 1, size as int).0,
            y + p * z_coord(rs as int, p as int, size as int).1 == z_coord(rank as int, 1, size as int).1,
        decreases 2 * size - p,
    {
        let bx = (rs % 2) as u64;
        let by = ((rs / 2) % 2) as u64;
        proof {
            lemma_double_pow2(k);
            let rest = z_coord(rs as int / 4, 2 * p as int, size as int);
            assert(x + bx * p + (2 * p) * rest.0 == x + p * (bx + 2 * rest.0)) by (nonlinear_arith);
            assert(y + by * p + (2 * p) * rest.1 == y + p * (by + 2 * rest.1)) by (nonlinear_arith);
            assert(x + bx * p < 2 * p) by (nonlinear_arith) requires x < p, bx <= 1;
            assert(y + by * p < 2 * p) by (nonlinear_arith) requires y < p, by <= 1;
        }
        x = x + bx * p;
        y = y + by * p;
        rs = rs / 4;
        p = 2 * p;
        proof {
            k = k + 1;
        }
    }
    (x as u32, y as u32)
}

} // verus!

verus! {

/// `p` comes before `q` in up-right diagonal order: on an earlier diagonal,
/// or on the same diagonal with a smaller `x`.
pub open spec fn diagonal_before(p: (u32, u32), q: (u32, u32)) -> bool {
    p.0 + p.1 < q.0 + q.1 || (p.0 + p.1 == q.0 + q.1 && p.0 < q.0)
}

proof fn lemma_diagonal_prefix(size: int, d: int)
    requires
        1 <= size <= 32768,
        0 <= d <= 2 * size - 1,
    ensures
        forall|i: int| 0 <= i < diagonal_scan(size, d).len() ==> {
            let e = #[trigger] diagonal_scan(size, d)[i];
            e.0 < size && e.1 < size && e.0 + e.1 < d
        },
        forall|i: int, j: int|
            0 <= i < j < diagonal_scan(size, d).len() ==> diagonal_before(
                #[trigger] diagonal_scan(size, d)[i],
                #[trigger] diagonal_scan(size, d)[j],
            ),
        forall|x: u32, y: u32| x < size && y < size && x + y < d ==> #[trigger] diagonal_scan(size, d).contains((x, y)),
    decreases d,
{
    if d > 0 {
        lemma_diagonal_prefix(size, d - 1);
        let prev = diagonal_scan(size, d - 1);
        let line = diagonal_points(size, d - 1);
        let all = diagonal_scan(size, d);
        assert(all == prev + line);
        let first = if d - 1 - size + 1 > 0 { d - 1 - size + 1 } else { 0 };
        assert forall|k: int| 0 <= k < line.len() implies {
            let e = #[trigger] line[k];
            e.0 == first + k && e.1 == d - 1 - first - k && e.0 < size && e.1 < size
        } by {}
        assert forall|i: int| 0 <= i < all.len() implies {
            let e = #[trigger] all[i];
            e.0 < size && e.1 < size && e.0 + e.1 < d
        } by {
            if i >= prev.len() {
                assert(all[i] == line[i - prev.len()]);
            }
        }
        assert forall|i: int, j: int| 0 <= i < j < all.len() implies diagonal_before(#[trigger] all[i], #[trigger] all[j]) by {
            if j < prev.len() {
                assert(all[i] == prev[i] && all[j] == prev[j]);
            } else if i < prev.len() {
                assert(all[i] == prev[i]);
                assert(all[j] == line[j - prev.len()]);
            } else {
                assert(all[i] == line[i - prev.len()]);
                assert(all[j] == line[j - prev.len()]);
            }
        }
        assert forall|x: u32, y: u32| x < size && y < size && x + y < d implies #[trigger] all.contains((x, y)) by {
            if x + y < d - 1 {
                assert(prev.contains((x, y)));
                let i = choose|i: int| 0 <= i < prev.len() && prev[i] == (x, y);
                assert(all[i] == (x, y));
            } else {
                let k = x - first;
                assert(line[k] == (x, y));
                assert(all[prev.len() + k] == (x, y));
            }
        }
    }
}

/// Law: the up-right diagonal scan of a block lists every coordinate of the
/// block exactly once, diagonal by diagonal (`x + y` increasing) and, within
/// a diagonal, with `x` increasing (§6.5.3).
pub proof fn lemma_diagonal_scan_is_ordered_permutation(size: u32)
    requires
        1 <= size <= 32768,
    ensures
        forall|i: int| 0 <= i < diagonal_scan(size as int, 2 * size - 1).len() ==> {
            let e = #[trigger] diagonal_scan(size as int, 2 * size - 1)[i];
            e.0 < size && e.1 < size
        },
        forall|i: int, j: int|
            0 <= i < j < diagonal_scan(size as int, 2 * size - 1).len() ==> diagonal_before(
                #[trigger] diagonal_scan(size as int, 2 * size - 1)[i],
                #[trigger] diagonal_scan(size as int, 2 * size - 1)[j],
            ),
        forall|x: u32, y: u32| x < size && y < size ==> #[trigger] diagonal_scan(size as int, 2 * size - 1).contains((x, y)),
{
    lemma_diagonal_prefix(size as int, 2 * size - 1);
}

} // verus!
