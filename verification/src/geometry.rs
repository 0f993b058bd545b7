use vstd::prelude::*;
use crate::error::GeometryError;
use crate::format::{ceil_div_spec, PictureFormat};

verus! {

/// `value` is a non-zero power of two.
pub open spec fn power_of_two_spec(value: u32) -> bool {
    value != 0 && value & ((value - 1) as u32) == 0
}

/// Picture-level CTB geometry.
#[derive(Clone, Copy, Debug, Eq, PartialEq)]
pub struct PictureGeometry {
    /// Luma picture format.
    pub format: PictureFormat,
    /// CTB width and height in luma samples.
    pub ctb_size: u32,
    /// Minimum transform-block width and height in luma samples.
    pub min_tb_size: u32,
}

/// A rectangular luma block.
#[derive(Clone, Copy, Debug, Eq, PartialEq, Hash)]
pub struct Block {
    /// Left coordinate in luma samples.
    pub x: u32,
    /// Top coordinate in luma samples.
    pub y: u32,
    /// Width in luma samples.
    pub width: u32,
    /// Height in luma samples.
    pub height: u32,
}

impl PictureGeometry {
    /// `PicWidthInCtbsY`.
    pub open spec fn width_ctbs(self) -> int {
        ceil_div_spec(self.format.width as int, self.ctb_size as int)
    }

    /// `PicHeightInCtbsY`.
    pub open spec fn height_ctbs(self) -> int {
        ceil_div_spec(self.format.height as int, self.ctb_size as int)
    }

    /// The geometry has a non-zero CTB size and a CTB count that fits in `u32`.
    pub open spec fn countable(self) -> bool {
        &&& self.ctb_size > 0
        &&& self.width_ctbs() * self.height_ctbs() <= u32::MAX
    }

    /// Creates a geometry after validating the CTB/minimum-TB relationship.
    pub fn new(format: PictureFormat, ctb_size: u32, min_tb_size: u32) -> (r: Result<Self, GeometryError>)
        ensures
            r == if power_of_two_spec(ctb_size) && power_of_two_spec(min_tb_size)
                && min_tb_size <= ctb_size && ctb_size % min_tb_size == 0 {
                Ok(PictureGeometry { format, ctb_size, min_tb_size })
            } else {
                Err(GeometryError::InvalidBlockSize)
            },
    {
        if !is_power_of_two(ctb_size) || !is_power_of_two(min_tb_size) || min_tb_size > ctb_size
            || ctb_size % min_tb_size != 0 {
            return Err(GeometryError::InvalidBlockSize);
        }
        Ok(Self { format, ctb_size, min_tb_size })
    }

    /// Number of CTBs across the luma picture.
    pub fn width_in_ctbs(self) -> (r: u32)
        requires
            self.ctb_size > 0,
        ensures
            r == self.width_ctbs(),
    {
        ceil_div(self.format.width, self.ctb_size)
    }

    /// Number of CTBs down the luma picture.
    pub fn height_in_ctbs(self) -> (r: u32)
        requires
            self.ctb_size > 0,
        ensures
            r == self.height_ctbs(),
    {
        ceil_div(self.format.height, self.ctb_size)
    }

    /// Number of CTBs in the picture.
    pub fn ctb_count(self) -> (r: u32)
        requires
            self.countable(),
        ensures
            r == self.width_ctbs() * self.height_ctbs(),
    {
        self.width_in_ctbs() * self.height_in_ctbs()
    }

    /// Returns the CTB raster address containing a luma sample.
    pub fn ctb_addr_rs(self, x: u32, y: u32) -> (r: Option<u32>)
        requires
            self.countable(),
        ensures
            r == if x >= self.format.width || y >= self.format.height {
                None
            } else {
                Some(((y / self.ctb_size) * self.width_ctbs() + x / self.ctb_size) as u32)
            },
            r matches Some(a) ==> a < self.width_ctbs() * self.height_ctbs(),
    {
        if x >= self.format.width || y >= self.format.height {
            return None;
        }
        let w = self.width_in_ctbs();
        let h = self.height_in_ctbs();
        proof {
            lemma_below_ceil_div(x as int, self.format.width as int, self.ctb_size as int);
            lemma_below_ceil_div(y as int, self.format.height as int, self.ctb_size as int);
            lemma_raster_bound((y / self.ctb_size) as int, (x / self.ctb_size) as int, w as int, h as int);
        }
        Some((y / self.ctb_size) * w + x / self.ctb_size)
    }

    /// Returns `(x, y)` CTB coordinates for a raster address.
    pub fn ctb_xy(self, addr_rs: u32) -> (r: Option<(u32, u32)>)
        requires
            self.countable(),
        ensures
            r == if addr_rs >= self.width_ctbs() * self.height_ctbs() {
                None
            } else {
                Some(((addr_rs as int % self.width_ctbs()) as u32, (addr_rs as int / self.width_ctbs()) as u32))
            },
    {
        if addr_rs >= self.ctb_count() {
            return None;
        }
        let w = self.width_in_ctbs();
        Some((addr_rs % w, addr_rs / w))
    }

    /// Returns the valid luma rectangle covered by a CTB.
    pub fn ctb_bounds(self, addr_rs: u32) -> (r: Option<Block>)
        requires
            self.countable(),
        ensures
            r == if addr_rs >= self.width_ctbs() * self.height_ctbs() {
                None
            } else {
                let x = (addr_rs as int % self.width_ctbs()) * self.ctb_size;
                let y = (addr_rs as int / self.width_ctbs()) * self.ctb_size;
                Some(Block {
                    x: x as u32,
                    y: y as u32,
                    width: min_int(self.format.width - x, self.ctb_size as int) as u32,
                    height: min_int(self.format.height - y, self.ctb_size as int) as u32,
                })
            },
    {
        let (ctb_x, ctb_y) = match self.ctb_xy(addr_rs) {
            Some(v) => v,
            None => return None,
        };
        let w = self.width_in_ctbs();
        let h = self.height_in_ctbs();
        proof {
            assert(ctb_x < w) by (nonlinear_arith) requires ctb_x == addr_rs % w, w > 0;
            assert(ctb_y < h) by (nonlinear_arith)
                requires ctb_y == addr_rs / w, w > 0, addr_rs < w * h;
            lemma_ceil_div_start(ctb_x as int, self.format.width as int, self.ctb_size as int);
            lemma_ceil_div_start(ctb_y as int, self.format.height as int, self.ctb_size as int);
        }
        let x = ctb_x * self.ctb_size;
        let y = ctb_y * self.ctb_size;
        let remaining_w = self.format.width - x;
        let remaining_h = self.format.height - y;
        Some(Block {
            x,
            y,
            width: if remaining_w < self.ctb_size { remaining_w } else { self.ctb_size },
            height: if remaining_h < self.ctb_size { remaining_h } else { self.ctb_size },
        })
    }
}

/// The smaller of two integers.
pub open spec fn min_int(a: int, b: int) -> int {
    if a < b { a } else { b }
}

/// A coordinate below `n` lies in a CTB column below `Ceil(n / size)`.
proof fn lemma_below_ceil_div(v: int, n: int, size: int)
    requires
        0 <= v < n,
        size > 0,
    ensures
        v / size < ceil_div_spec(n, size),
{
    assert(v / size < (n + size - 1) / size) by (nonlinear_arith)
        requires 0 <= v < n, size > 0;
}

/// A CTB index below `Ceil(n / size)` starts inside the picture.
proof fn lemma_ceil_div_start(c: int, n: int, size: int)
    requires
        0 <= c < ceil_div_spec(n, size),
        size > 0,
        n >= 0,
    ensures
        c * size < n,
{
    assert(c * size < n) by (nonlinear_arith)
        requires 0 <= c < (n + size - 1) / size, size > 0, n >= 0;
}

/// A raster address formed from in-range coordinates is below the CTB count.
proof fn lemma_raster_bound(row: int, col: int, w: int, h: int)
    requires
        0 <= row < h,
        0 <= col < w,
    ensures
        row * w + col < w * h,
{
    assert(row * w + col < w * h) by (nonlinear_arith)
        requires 0 <= row < h, 0 <= col < w;
}

/// The four quadtree children of an even square block, or `None`.
pub open spec fn split_spec(b: Block) -> Option<[Block; 4]> {
    if b.width != b.height || b.width < 2 || b.width % 2 != 0 {
        None
    } else {
        let half = (b.width / 2) as u32;
        Some([
            Block { x: b.x, y: b.y, width: half, height: half },
            Block { x: (b.x + half) as u32, y: b.y, width: half, height: half },
            Block { x: b.x, y: (b.y + half) as u32, width: half, height: half },
            Block { x: (b.x + half) as u32, y: (b.y + half) as u32, width: half, height: half },
        ])
    }
}

impl Block {
    /// Creates a square block.
    pub fn square(x: u32, y: u32, size: u32) -> (r: Self)
        ensures
            r == (Block { x, y, width: size, height: size }),
    {
        Self { x, y, width: size, height: size }
    }

    /// Returns whether a sample coordinate is inside this block.
    pub fn contains(self, x: u32, y: u32) -> (r: bool)
        ensures
            r == (self.x <= x && self.y <= y && x < min_int(self.x + self.width, u32::MAX as int)
                && y < min_int(self.y + self.height, u32::MAX as int)),
    {
        x >= self.x && y >= self.y && x < self.x.saturating_add(self.width) && y
            < self.y.saturating_add(self.height)
    }

    /// Splits an even square block into the four H.265 quadtree children.
    pub fn split(self) -> (r: Option<[Self; 4]>)
        requires
            self.width == self.height && self.width >= 2 && self.width % 2 == 0 ==> self.x + self.width / 2 <= u32::MAX
                && self.y + self.width / 2 <= u32::MAX,
        ensures
            r == split_spec(self),
    {
        if self.width != self.height || self.width < 2 || self.width % 2 != 0 {
            return None;
        }
        let half = self.width / 2;
        Some(
            [
                Self::square(self.x, self.y, half),
                Self::square(self.x + half, self.y, half),
                Self::square(self.x, self.y + half, half),
                Self::square(self.x + half, self.y + half, half),
            ],
        )
    }
}

/// A recursively partitioned coding-tree block.
#[derive(Debug, Eq, PartialEq)]
pub enum QuadTree {
    /// A leaf coding block.
    Leaf(Block),
    /// A split coding block and its four children in top-left, top-right,
    /// bottom-left, bottom-right order.
    Split {
        /// The block represented by this node.
        block: Block,
        /// The four child nodes in the order above.
        children: Box<(QuadTree, QuadTree, QuadTree, QuadTree)>,
    },
}

/// The leaf blocks of a tree in child order.
pub open spec fn leaves_spec(tree: QuadTree) -> Seq<Block>
    decreases tree,
{
    match tree {
        QuadTree::Leaf(b) => seq![b],
        QuadTree::Split { children, .. } => {
            leaves_spec(children.0) + leaves_spec(children.1) + leaves_spec(children.2)
                + leaves_spec(children.3)
        },
    }
}

/// The block represented by a tree node.
pub open spec fn node_block(tree: QuadTree) -> Block {
    match tree {
        QuadTree::Leaf(b) => b,
        QuadTree::Split { block, .. } => block,
    }
}

impl QuadTree {
    /// Creates an unsplit CTB.
    pub fn new(block: Block) -> (r: Self)
        ensures
            r == QuadTree::Leaf(block),
    {
        Self::Leaf(block)
    }

    /// Returns the block represented by this node.
    pub fn block(&self) -> (r: Block)
        ensures
            r == node_block(*self),
    {
        match self {
            Self::Leaf(block) => *block,
            Self::Split { block, .. } => *block,
        }
    }

    /// Splits a leaf into its four children; returns `false` when already
    /// split or when the block cannot be split evenly.
    pub fn split(&mut self) -> (r: bool)
        requires
            ({
                let b = node_block(*old(self));
                *old(self) is Leaf && b.width == b.height && b.width >= 2 && b.width % 2 == 0 ==> b.x + b.width / 2
                    <= u32::MAX && b.y + b.width / 2 <= u32::MAX
            }),
        ensures
            r == (*old(self) is Leaf && split_spec(node_block(*old(self))) is Some),
            r ==> *final(self) == (QuadTree::Split {
                block: node_block(*old(self)),
                children: Box::new(
                    (
                        QuadTree::Leaf(split_spec(node_block(*old(self)))->0[0]),
                        QuadTree::Leaf(split_spec(node_block(*old(self)))->0[1]),
                        QuadTree::Leaf(split_spec(node_block(*old(self)))->0[2]),
                        QuadTree::Leaf(split_spec(node_block(*old(self)))->0[3]),
                    ),
                ),
            }),
            !r ==> *final(self) == *old(self),
    {
        let block = match self {
            Self::Leaf(block) => *block,
            Self::Split { .. } => return false,
        };
        let children = match block.split() {
            Some(children) => children,
            None => return false,
        };
        *self = Self::Split {
            block,
            children: Box::new(
                (
                    Self::Leaf(children[0]),
                    Self::Leaf(children[1]),
                    Self::Leaf(children[2]),
                    Self::Leaf(children[3]),
                ),
            ),
        };
        true
    }

    /// Returns all leaf coding blocks in tree order.
    pub fn leaves(&self) -> (r: Vec<Block>)
        ensures
            r@ == leaves_spec(*self),
    {
        let mut result = Vec::new();
        self.collect_leaves(&mut result);
        assert(result@ =~= leaves_spec(*self));
        result
    }

    fn collect_leaves(&self, result: &mut Vec<Block>)
        ensures
            final(result)@ == old(result)@ + leaves_spec(*self),
        decreases *self,
    {
        match self {
            Self::Leaf(block) => {
                result.push(*block);
            },
            Self::Split { children, .. } => {
                let ghost start = result@;
                children.0.collect_leaves(result);
                children.1.collect_leaves(result);
                children.2.collect_leaves(result);
                children.3.collect_leaves(result);
                proof {
                    assert(result@ =~= start + (leaves_spec(children.0) + leaves_spec(children.1)
                        + leaves_spec(children.2) + leaves_spec(children.3)));
                }
            },
        }
    }
}

fn ceil_div(value: u32, divisor: u32) -> (r: u32)
    requires
        divisor > 0,
    ensures
        r == ceil_div_spec(value as int, divisor as int),
{
    let q = value / divisor;
    let m = value % divisor;
    proof {
        assert(value == divisor * q + m) by (nonlinear_arith)
            requires divisor > 0, q == value / divisor, m == value % divisor;
        if m == 0 {
            assert((value + divisor - 1) / (divisor as int) == q) by (nonlinear_arith)
                requires value == divisor * q, divisor > 0;
        } else {
            assert((value + divisor - 1) / (divisor as int) == q + 1) by (nonlinear_arith)
                requires value == divisor * q + m, 0 < m < divisor;
            assert(q + 1 <= u32::MAX) by (nonlinear_arith)
                requires value == divisor * q + m, 0 < m < divisor, value <= u32::MAX;
        }
    }
    if m != 0 {
        q + 1
    } else {
        q
    }
}

fn is_power_of_two(value: u32) -> (r: bool)
    ensures
        r == power_of_two_spec(value),
{
    value != 0 && (value & (value - 1)) == 0
}

} // verus!
