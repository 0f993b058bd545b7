//! Sample planes and decoded pictures.
use vstd::prelude::*;
use crate::format::{component_dimension_spec, sub_factors, ChromaFormat, PictureFormat};
use crate::geometry::Block;

verus! {

/// `width * height` saturated to `u32`, the sample count a plane is given.
pub open spec fn plane_len(width: u32, height: u32) -> nat {
    if width * height > u32::MAX {
        u32::MAX as nat
    } else {
        (width * height) as nat
    }
}

/// `value` clamped to `0..=max`.
pub open spec fn clamp_coord(value: int, max: int) -> int {
    if value < 0 {
        0
    } else if value > max {
        max
    } else {
        value
    }
}

/// A signed sample plane used by the reconstruction and in-loop filters.
///
/// Samples are signed internally so inverse transforms and filtering can be
/// performed without repeated conversions.  Values written through `set` are
/// not clipped; the process which owns the plane applies `clip_sample` at the
/// normative boundary.
#[derive(Clone, Debug, Eq, PartialEq)]
pub struct SamplePlane {
    width: u32,
    height: u32,
    samples: Vec<i32>,
}

impl SamplePlane {
    /// Plane width.
    pub closed spec fn w(&self) -> u32 {
        self.width
    }

    /// Plane height.
    pub closed spec fn h(&self) -> u32 {
        self.height
    }

    /// Row-major samples.
    pub closed spec fn data(&self) -> Seq<i32> {
        self.samples@
    }

    /// Every position of the plane has a sample.
    pub open spec fn wf(&self) -> bool {
        self.data().len() == self.w() * self.h()
    }

    /// Index of `(x, y)` in the row-major samples.
    pub open spec fn index_of(&self, x: int, y: int) -> int {
        y * self.w() + x
    }

    /// `(x, y)` lies inside the plane.
    pub open spec fn inside(&self, x: int, y: int) -> bool {
        0 <= x < self.w() && 0 <= y < self.h()
    }

    /// The sample at `(x, y)` clipped to the plane boundary.
    pub open spec fn clipped_at(&self, x: int, y: int) -> i32 {
        self.data()[self.index_of(clamp_coord(x, self.w() - 1), clamp_coord(y, self.h() - 1))]
    }

    /// The plane is non-empty and its coordinates fit `i32`, as clipped reads need.
    pub open spec fn clippable(&self) -> bool {
        &&& self.wf()
        &&& 0 < self.w() <= 0x8000_0000
        &&& 0 < self.h() <= 0x8000_0000
    }

    /// Creates a plane initialized to `value`.
    pub fn new(width: u32, height: u32, value: i32) -> (r: Self)
        ensures
            r.w() == width,
            r.h() == height,
            r.data() == Seq::new(plane_len(width, height), |i: int| value),
            width * height <= u32::MAX ==> r.wf(),
    {
        let len = saturating_area(width, height) as usize;
        let samples = vec![value; len];
        let r = Self { width, height, samples };
        assert(r.data() =~= Seq::new(plane_len(width, height), |i: int| value));
        r
    }

    /// Creates a plane from row-major samples.
    pub fn from_samples(width: u32, height: u32, samples: Vec<i32>) -> (r: Option<Self>)
        ensures
            r is Some <==> samples@.len() == plane_len(width, height),
            r matches Some(p) ==> p.w() == width && p.h() == height && p.data() == samples@,
    {
        if samples.len() == saturating_area(width, height) as usize {
            Some(Self { width, height, samples })
        } else {
            None
        }
    }

    /// A copy of the plane.
    pub(crate) fn duplicate(&self) -> (r: Self)
        ensures
            r.w() == self.w(),
            r.h() == self.h(),
            r.data() == self.data(),
    {
        let mut samples: Vec<i32> = Vec::new();
        let mut i: usize = 0;
        while i < self.samples.len()
            invariant
                i <= self.samples@.len(),
                samples@ =~= self.samples@.subrange(0, i as int),
            decreases self.samples@.len() - i,
        {
            samples.push(self.samples[i]);
            i += 1;
        }
        assert(samples@ =~= self.samples@);
        Self { width: self.width, height: self.height, samples }
    }

    /// Plane width in samples.
    pub fn width(&self) -> (r: u32)
        ensures
            r == self.w(),
    {
        self.width
    }

    /// Plane height in samples.
    pub fn height(&self) -> (r: u32)
        ensures
            r == self.h(),
    {
        self.height
    }

    /// Returns all row-major samples.
    pub fn samples(&self) -> (r: &[i32])
        ensures
            r@ == self.data(),
    {
        self.samples.as_slice()
    }

    /// Returns all row-major samples mutably.
    pub fn samples_mut(&mut self) -> (r: &mut [i32])
        ensures
            r@ == old(self).data(),
            final(self).data() == final(r)@,
            final(self).w() == old(self).w(),
            final(self).h() == old(self).h(),
    {
        self.samples.as_mut_slice()
    }

    /// Reads a sample, returning `None` outside the plane.
    pub fn get(&self, x: i32, y: i32) -> (r: Option<i32>)
        requires
            self.wf(),
        ensures
            r is Some <==> self.inside(x as int, y as int),
            r matches Some(v) ==> v == self.data()[self.index_of(x as int, y as int)],
    {
        if x < 0 || y < 0 || x as u32 >= self.width || y as u32 >= self.height {
            None
        } else {
            let n = self.samples.len();
            proof {
                lemma_index_in_plane(self.w() as int, self.h() as int, x as int, y as int);
            }
            Some(self.samples[y as usize * self.width as usize + x as usize])
        }
    }

    /// Reads with the coordinates clipped to the plane boundary.
    pub fn get_clipped(&self, x: i32, y: i32) -> (r: i32)
        requires
            self.clippable(),
        ensures
            r == self.clipped_at(x as int, y as int),
    {
        let max_x = (self.width - 1) as i32;
        let max_y = (self.height - 1) as i32;
        let cx = if x < 0 { 0 } else if x > max_x { max_x } else { x };
        let cy = if y < 0 { 0 } else if y > max_y { max_y } else { y };
        let n = self.samples.len();
        proof {
            lemma_index_in_plane(self.w() as int, self.h() as int, cx as int, cy as int);
        }
        self.samples[cy as usize * self.width as usize + cx as usize]
    }

    /// Writes a sample, ignoring out-of-range coordinates.
    pub fn set(&mut self, x: i32, y: i32, value: i32)
        requires
            old(self).wf(),
        ensures
            final(self).w() == old(self).w(),
            final(self).h() == old(self).h(),
            final(self).data() == if old(self).inside(x as int, y as int) {
                old(self).data().update(old(self).index_of(x as int, y as int), value)
            } else {
                old(self).data()
            },
            final(self).wf(),
    {
        if x >= 0 && y >= 0 && (x as u32) < self.width && (y as u32) < self.height {
            let n = self.samples.len();
            proof {
                lemma_index_in_plane(self.w() as int, self.h() as int, x as int, y as int);
            }
            let index = y as usize * self.width as usize + x as usize;
            self.samples.set(index, value);
        }
    }

    /// Copies a rectangular block into this plane, clipping the destination.
    pub fn write_block(&mut self, block: Block, values: &[i32])
        requires
            old(self).wf(),
            block.x + block.width <= i32::MAX,
            block.y + block.height <= i32::MAX,
            block.width * block.height <= usize::MAX,
        ensures
            final(self).w() == old(self).w(),
            final(self).h() == old(self).h(),
            final(self).wf(),
            forall|px: int, py: int| #![trigger final(self).index_of(px, py)] old(self).inside(px, py) ==>
                final(self).data()[final(self).index_of(px, py)] == if block_source(block, values@.len(), px, py) {
                    values@[(py - block.y) * block.width + (px - block.x)]
                } else {
                    old(self).data()[old(self).index_of(px, py)]
                },
    {
        let ghost original = self.data();
        let mut y: u32 = 0;
        while y < block.height
            invariant
                y <= block.height,
                self.wf(),
                self.w() == old(self).w(),
                self.h() == old(self).h(),
                original == old(self).data(),
                block.x + block.width <= i32::MAX,
                block.y + block.height <= i32::MAX,
                block.width * block.height <= usize::MAX,
                forall|px: int, py: int| #![trigger self.index_of(px, py)] self.inside(px, py) ==>
                    self.data()[self.index_of(px, py)] == if block_source(block, values@.len(), px, py) && py < block.y + y {
                        values@[(py - block.y) * block.width + (px - block.x)]
                    } else {
                        original[self.index_of(px, py)]
                    },
            decreases block.height - y,
        {
            let mut x: u32 = 0;
            while x < block.width
                invariant
                    y < block.height,
                    x <= block.width,
                    self.wf(),
                    self.w() == old(self).w(),
                    self.h() == old(self).h(),
                    original == old(self).data(),
                    block.x + block.width <= i32::MAX,
                    block.y + block.height <= i32::MAX,
                    block.width * block.height <= usize::MAX,
                    forall|px: int, py: int| #![trigger self.index_of(px, py)] self.inside(px, py) ==>
                        self.data()[self.index_of(px, py)] == if block_source(block, values@.len(), px, py)
                            && (py < block.y + y || (py == block.y + y && px < block.x + x)) {
                            values@[(py - block.y) * block.width + (px - block.x)]
                        } else {
                            original[self.index_of(px, py)]
                        },
                decreases block.width - x,
            {
                proof {
                    assert(y * block.width + x < block.width * block.height) by (nonlinear_arith)
                        requires y < block.height, x < block.width;
                }
                let source = y as usize * block.width as usize + x as usize;
                if source < values.len() {
                    let ghost before = self.data();
                    let ghost pre = *self;
                    let px = block.x as i32 + x as i32;
                    let py = block.y as i32 + y as i32;
                    self.set(px, py, values[source]);
                    assert(self.data() == if pre.inside(px as int, py as int) {
                        pre.data().update(pre.index_of(px as int, py as int), values@[source as int])
                    } else {
                        pre.data()
                    });
                    proof {
                        assert forall|qx: int, qy: int| #![trigger self.index_of(qx, qy)] self.inside(qx, qy) implies
                            self.data()[self.index_of(qx, qy)] == if block_source(block, values@.len(), qx, qy)
                                && (qy < block.y + y || (qy == block.y + y && qx < block.x + x + 1)) {
                                values@[(qy - block.y) * block.width + (qx - block.x)]
                            } else {
                                original[self.index_of(qx, qy)]
                            } by {
                            assert(pre.inside(qx, qy));
                            assert(pre.data()[pre.index_of(qx, qy)] == if block_source(block, values@.len(), qx, qy)
                                && (qy < block.y + y || (qy == block.y + y && qx < block.x + x)) {
                                values@[(qy - block.y) * block.width + (qx - block.x)]
                            } else {
                                original[pre.index_of(qx, qy)]
                            });
                            assert(px as int == block.x + x);
                            assert(py as int == block.y + y);
                            lemma_index_in_plane(self.w() as int, self.h() as int, qx, qy);
                            if pre.inside(px as int, py as int) {
                                lemma_index_injective(self.w() as int, self.h() as int, qx, qy, px as int, py as int);
                            }
                            if qx == px as int && qy == py as int {
                                assert((qy - block.y) * block.width + (qx - block.x) == source as int);
                                assert(block_source(block, values@.len(), qx, qy));
                                assert(self.data()[self.index_of(qx, qy)] == values@[source as int]);
                            } else {
                                assert(0 <= pre.index_of(qx, qy) < pre.data().len());
                                if pre.inside(px as int, py as int) {
                                    lemma_index_in_plane(self.w() as int, self.h() as int, px as int, py as int);
                                    assert(qy * self.w() + qx != (py as int) * self.w() + (px as int));
                                    assert(self.index_of(qx, qy) != pre.index_of(px as int, py as int));
                                    assert(self.data() == pre.data().update(pre.index_of(px as int, py as int), values@[source as int]));
                                    assert(self.index_of(qx, qy) == pre.index_of(qx, qy));
                                    assert(pre.data().update(pre.index_of(px as int, py as int), values@[source as int])[pre.index_of(qx, qy)]
                                        == pre.data()[pre.index_of(qx, qy)]);
                                } else {
                                    assert(self.data() == pre.data());
                                }
                                assert(self.data()[self.index_of(qx, qy)] == pre.data()[pre.index_of(qx, qy)]);
                            }
                        }
                    }
                } else {
                    proof {
                        assert forall|qx: int, qy: int| #![trigger self.index_of(qx, qy)] self.inside(qx, qy) implies
                            self.data()[self.index_of(qx, qy)] == if block_source(block, values@.len(), qx, qy)
                                && (qy < block.y + y || (qy == block.y + y && qx < block.x + x + 1)) {
                                values@[(qy - block.y) * block.width + (qx - block.x)]
                            } else {
                                original[self.index_of(qx, qy)]
                            } by {
                            if qy == block.y + y && qx == block.x + x {
                                assert(!block_source(block, values@.len(), qx, qy));
                            }
                        }
                    }
                }
                x += 1;
            }
            y += 1;
        }
    }

    /// Reads a rectangular block, clipping out-of-picture samples.
    pub fn read_block(&self, block: Block) -> (r: Vec<i32>)
        requires
            self.clippable(),
            block.x + block.width <= i32::MAX,
            block.y + block.height <= i32::MAX,
            block.width * block.height <= usize::MAX,
        ensures
            r@.len() == block.width * block.height,
            forall|i: int| 0 <= i < r@.len() ==> #[trigger] r@[i] == self.clipped_at(
                block.x + i % block.width as int,
                block.y + i / block.width as int,
            ),
    {
        let mut values: Vec<i32> = Vec::new();
        let mut y: u32 = 0;
        while y < block.height
            invariant
                y <= block.height,
                self.clippable(),
                block.x + block.width <= i32::MAX,
                block.y + block.height <= i32::MAX,
                values@.len() == y * block.width,
                forall|i: int| 0 <= i < values@.len() ==> #[trigger] values@[i] == self.clipped_at(
                    block.x + i % block.width as int,
                    block.y + i / block.width as int,
                ),
            decreases block.height - y,
        {
            let mut x: u32 = 0;
            while x < block.width
                invariant
                    y < block.height,
                    x <= block.width,
                    self.clippable(),
                    block.x + block.width <= i32::MAX,
                    block.y + block.height <= i32::MAX,
                    values@.len() == y * block.width + x,
                    forall|i: int| 0 <= i < values@.len() ==> #[trigger] values@[i] == self.clipped_at(
                        block.x + i % block.width as int,
                        block.y + i / block.width as int,
                    ),
                decreases block.width - x,
            {
                let v = self.get_clipped(block.x as i32 + x as i32, block.y as i32 + y as i32);
                proof {
                    let i = y * block.width + x;
                    assert(i % block.width as int == x && i / block.width as int == y) by (nonlinear_arith)
                        requires i == y * block.width + x, x < block.width;
                }
                values.push(v);
                x += 1;
            }
            proof {
                assert((y + 1) * block.width == y * block.width + block.width) by (nonlinear_arith);
            }
            y += 1;
        }
        assert(block.height * block.width == block.width * block.height) by (nonlinear_arith);
        values
    }
}

/// `width * height`, saturated to `u32::MAX`.
fn saturating_area(width: u32, height: u32) -> (r: u32)
    ensures
        r == plane_len(width, height),
{
    assert(width as int * height as int <= u64::MAX) by (nonlinear_arith);
    let area = width as u64 * height as u64;
    if area > u32::MAX as u64 {
        u32::MAX
    } else {
        area as u32
    }
}

/// Sample `(px, py)` of the plane is covered by `block` and has a source
/// value among `count` values laid out row by row.
pub open spec fn block_source(block: Block, count: nat, px: int, py: int) -> bool {
    &&& block.x <= px < block.x + block.width
    &&& block.y <= py < block.y + block.height
    &&& (py - block.y) * block.width + (px - block.x) < count
}

/// A flat index of a `size`x`size` block splits into its row `i / size` and
/// column `i % size`.
pub proof fn lemma_flat_index(i: int, size: int)
    requires
        0 < size,
        0 <= i < size * size,
    ensures
        0 <= i / size < size,
        0 <= i % size < size,
        i == (i / size) * size + i % size,
{
    assert(i == (i / size) * size + i % size && 0 <= i % size < size) by (nonlinear_arith)
        requires 0 < size;
    assert(0 <= i / size < size) by (nonlinear_arith)
        requires 0 < size, 0 <= i < size * size;
}

pub(crate) proof fn lemma_index_in_plane(w: int, h: int, x: int, y: int)
    requires
        0 <= x < w,
        0 <= y < h,
    ensures
        0 <= y * w + x < w * h,
        y * w + x <= y * w + w,
{
    assert(y * w + x < w * h) by (nonlinear_arith)
        requires 0 <= x < w, 0 <= y < h;
    assert(0 <= y * w) by (nonlinear_arith)
        requires 0 <= y, 0 <= w;
}

pub(crate) proof fn lemma_index_injective(w: int, h: int, ax: int, ay: int, bx: int, by: int)
    requires
        0 <= ax < w,
        0 <= bx < w,
        0 <= ay,
        0 <= by,
    ensures
        ay * w + ax == by * w + bx <==> (ax == bx && ay == by),
{
    if ay * w + ax == by * w + bx {
        assert(ax == bx && ay == by) by (nonlinear_arith)
            requires 0 <= ax < w, 0 <= bx < w, 0 <= ay, 0 <= by, ay * w + ax == by * w + bx;
    }
}


/// The zero-filled plane that a picture of `format` holds for component `index`.
pub open spec fn initial_plane_ok(format: PictureFormat, index: int, plane: Option<SamplePlane>) -> bool {
    match component_dimension_spec(format, index) {
        None => plane is None,
        Some(d) => plane matches Some(p) && p.w() == d.width && p.h() == d.height
            && p.data() == Seq::new(plane_len(d.width, d.height), |i: int| 0i32),
    }
}

/// The reconstructed picture consisting of one or three component planes.
#[derive(Clone, Debug, Eq, PartialEq)]
pub struct DecodedPicture {
    /// Picture format and component geometry.
    pub format: PictureFormat,
    planes: Vec<Option<SamplePlane>>,
}

impl DecodedPicture {
    /// The picture format.
    pub closed spec fn fmt(&self) -> PictureFormat {
        self.format
    }

    /// Returns the picture format, the value of the public `format` field.
    pub fn picture_format(&self) -> (r: PictureFormat)
        ensures
            r == self.fmt(),
    {
        self.format
    }

    /// The three component slots.
    pub closed spec fn planes_spec(&self) -> Seq<Option<SamplePlane>> {
        self.planes@
    }

    /// There are three component slots.
    pub open spec fn wf(&self) -> bool {
        self.planes_spec().len() == 3
    }

    /// Creates a zero-filled decoded picture.
    pub fn new(format: PictureFormat) -> (r: Self)
        ensures
            r.wf(),
            r.fmt() == format,
            forall|i: int| 0 <= i < 3 ==> initial_plane_ok(format, i, #[trigger] r.planes_spec()[i]),
    {
        let mut planes: Vec<Option<SamplePlane>> = Vec::new();
        let mut index: usize = 0;
        while index < 3
            invariant
                index <= 3,
                planes@.len() == index,
                forall|i: int| 0 <= i < index ==> initial_plane_ok(format, i, #[trigger] planes@[i]),
            decreases 3 - index,
        {
            let plane = match format.component_dimension(index) {
                Some(dimension) => Some(SamplePlane::new(dimension.width, dimension.height, 0)),
                None => None,
            };
            planes.push(plane);
            index += 1;
        }
        Self { format, planes }
    }

    /// Returns a component plane.
    pub fn plane(&self, component: usize) -> (r: Option<&SamplePlane>)
        requires
            self.wf(),
        ensures
            component >= 3 ==> r is None,
            component < 3 ==> match self.planes_spec()[component as int] {
                Some(p) => r == Some(&p),
                None => r is None,
            },
    {
        if component >= 3 {
            return None;
        }
        match &self.planes[component] {
            Some(plane) => Some(plane),
            None => None,
        }
    }

    /// Returns a mutable component plane.
    pub fn plane_mut(&mut self, component: usize) -> (r: Option<&mut SamplePlane>)
        requires
            old(self).wf(),
        ensures
            r is Some <==> component < 3 && old(self).planes_spec()[component as int] is Some,
            r is None ==> *final(self) == *old(self),
            r matches Some(p) ==> *p == old(self).planes_spec()[component as int]->Some_0
                && final(self).planes_spec() == old(self).planes_spec().update(component as int, Some(*final(p))),
            final(self).fmt() == old(self).fmt(),
            final(self).wf(),
    {
        if component >= 3 || self.planes[component].is_none() {
            return None;
        }
        match &mut self.planes[component] {
            Some(plane) => Some(plane),
            None => None,
        }
    }

    /// Replaces a component plane after checking its dimensions.
    pub fn set_plane(&mut self, component: usize, plane: SamplePlane) -> (r: bool)
        requires
            old(self).wf(),
        ensures
            r == (component_dimension_spec(old(self).fmt(), component as int) matches Some(d)
                && d.width == plane.w() && d.height == plane.h()),
            r ==> final(self).planes_spec() == old(self).planes_spec().update(component as int, Some(plane)),
            !r ==> final(self).planes_spec() == old(self).planes_spec(),
            final(self).fmt() == old(self).fmt(),
            final(self).wf(),
    {
        let expected = match self.format.component_dimension(component) {
            Some(d) => d,
            None => return false,
        };
        if expected.width != plane.width() || expected.height != plane.height() {
            return false;
        }
        self.planes.set(component, Some(plane));
        true
    }

    /// Returns the component's bit depth.
    pub fn bit_depth(&self, component: usize) -> (r: u8)
        ensures
            r == if component == 0 || self.fmt().separate_colour_plane {
                self.fmt().bit_depth_luma
            } else {
                self.fmt().bit_depth_chroma
            },
    {
        if component == 0 || self.format.separate_colour_plane {
            self.format.bit_depth_luma
        } else {
            self.format.bit_depth_chroma
        }
    }

    /// Returns chroma subsampling factors.
    pub fn subsampling(&self) -> (r: (u32, u32))
        ensures
            r == sub_factors(self.fmt().chroma_format),
    {
        self.format.chroma_format.subsampling()
    }

    /// Returns the chroma format, including the monochrome case.
    pub fn chroma_format(&self) -> (r: ChromaFormat)
        ensures
            r == self.fmt().chroma_format,
    {
        self.format.chroma_format
    }
}

} // verus!
