use vstd::prelude::*;

verus! {

/// Largest sample value a buffer may hold: 16 bits of sensor data.
pub const MAX_SAMPLE: u32 = 65535;

/// Widest frame edge the pipeline accepts, a machine limit that keeps the
/// flat-index arithmetic inside a 32-bit `usize`.
pub const MAX_DIM: usize = 23000;

/// A multi-band raster of integer samples.
///
/// Samples are stored band-major: band `b` occupies the index range
/// `b * width * height .. (b + 1) * width * height`, row-major inside a band.
/// Every sample is at most [`MAX_SAMPLE`].
#[derive(Debug, Clone)]
pub struct Image {
    pub width: usize,
    pub height: usize,
    pub num_bands: usize,
    pub data: Vec<u32>,
}

/// Flat position of band `b`, row `y`, column `x` in a `w` by `h` raster.
pub open spec fn cell_index(w: int, h: int, b: int, y: int, x: int) -> int {
    b * (w * h) + y * w + x
}

/// In-range cells map below the buffer's length.
pub proof fn lemma_cell_index_bound(w: int, h: int, nb: int, b: int, y: int, x: int)
    requires
        0 <= b < nb,
        0 <= y < h,
        0 <= x < w,
    ensures
        0 <= cell_index(w, h, b, y, x) < nb * (w * h),
{
    assert(0 <= b * (w * h) + y * w + x < nb * (w * h)) by (nonlinear_arith)
        requires
            0 <= b < nb,
            0 <= y < h,
            0 <= x < w,
    ;
}

/// Distinct in-range cells map to distinct positions.
pub proof fn lemma_cell_index_injective(
    w: int,
    h: int,
    nb: int,
    b1: int,
    y1: int,
    x1: int,
    b2: int,
    y2: int,
    x2: int,
)
    requires
        0 <= b1 < nb,
        0 <= y1 < h,
        0 <= x1 < w,
        0 <= b2 < nb,
        0 <= y2 < h,
        0 <= x2 < w,
        !(b1 == b2 && y1 == y2 && x1 == x2),
    ensures
        cell_index(w, h, b1, y1, x1) != cell_index(w, h, b2, y2, x2),
{
    assert(b1 * (w * h) + y1 * w + x1 != b2 * (w * h) + y2 * w + x2) by (nonlinear_arith)
        requires
            0 <= b1 < nb,
            0 <= y1 < h,
            0 <= x1 < w,
            0 <= b2 < nb,
            0 <= y2 < h,
            0 <= x2 < w,
            !(b1 == b2 && y1 == y2 && x1 == x2),
    ;
}

/// Bounds on the pieces of the flat index computation, so that the
/// machine-integer arithmetic cannot overflow.
pub proof fn lemma_index_arith_bounds(w: int, h: int, b: int, y: int, x: int)
    requires
        w <= 23000,
        h <= 23000,
        0 <= b <= 2,
        0 <= y < h,
        0 <= x < w,
    ensures
        0 <= w * h <= 0x2000_0000,
        0 <= b * (w * h) <= 0x4000_0000,
        0 <= y * w < 0x2000_0000,
{
    assert(0 <= w * h <= 0x2000_0000 && 0 <= b * (w * h) <= 0x4000_0000 && 0 <= y * w
        < 0x2000_0000) by (nonlinear_arith)
        requires
            w <= 23000,
            h <= 23000,
            0 <= b <= 2,
            0 <= y < h,
            0 <= x < w,
    ;
}

/// A vector of `n` copies of `v`.
pub fn filled(n: usize, v: u32) -> (r: Vec<u32>)
    ensures
        r@.len() == n,
        forall|i: int| 0 <= i < n ==> r@[i] == v,
{
    let mut r: Vec<u32> = Vec::new();
    let mut i: usize = 0;
    while i < n
        invariant
            i <= n,
            r@.len() == i,
            forall|j: int| 0 <= j < i ==> r@[j] == v,
        decreases n - i,
    {
        r.push(v);
        i += 1;
    }
    r
}

impl Image {
    /// The buffer is internally consistent: its data length matches its
    /// declared geometry, its edges respect the machine limit, and every
    /// sample fits in 16 bits.
    pub open spec fn wf(&self) -> bool {
        &&& self.data@.len() == self.num_bands * (self.width * self.height)
        &&& 1 <= self.num_bands <= 3
        &&& self.width <= MAX_DIM
        &&& self.height <= MAX_DIM
        &&& forall|i: int| 0 <= i < self.data@.len() ==> self.data@[i] <= MAX_SAMPLE
    }

    pub open spec fn spec_width(&self) -> int {
        self.width as int
    }

    pub open spec fn spec_height(&self) -> int {
        self.height as int
    }

    pub open spec fn spec_num_bands(&self) -> int {
        self.num_bands as int
    }

    /// The sample at band `b`, row `y`, column `x`.
    pub open spec fn spec_get(&self, b: int, y: int, x: int) -> u32 {
        self.data@[cell_index(self.width as int, self.height as int, b, y, x)]
    }

    /// Two buffers share width, height and band count.
    pub open spec fn same_shape(&self, other: &Image) -> bool {
        &&& self.width == other.width
        &&& self.height == other.height
        &&& self.num_bands == other.num_bands
    }

    /// A zero-filled buffer of the given geometry.
    pub fn new_with_bands(width: usize, height: usize, num_bands: usize) -> (r: Image)
        requires
            1 <= num_bands <= 3,
            width <= MAX_DIM,
            height <= MAX_DIM,
        ensures
            r.wf(),
            r.spec_width() == width,
            r.spec_height() == height,
            r.spec_num_bands() == num_bands,
            forall|b: int, y: int, x: int|
                0 <= b < num_bands && 0 <= y < height && 0 <= x < width ==> r.spec_get(b, y, x)
                    == 0,
    {
        proof {
            assert(width * height <= 0x2000_0000) by (nonlinear_arith)
                requires
                    width <= 23000,
                    height <= 23000,
            ;
            assert(num_bands * (width * height) <= 3 * 0x2000_0000) by (nonlinear_arith)
                requires
                    num_bands <= 3,
                    width * height <= 0x2000_0000,
            ;
        }
        let n: usize = num_bands * (width * height);
        let data = filled(n, 0);
        let r = Image { width, height, num_bands, data };
        proof {
            assert forall|b: int, y: int, x: int|
                0 <= b < num_bands && 0 <= y < height && 0 <= x < width implies r.spec_get(
                b,
                y,
                x,
            ) == 0 by {
                lemma_cell_index_bound(
                    width as int,
                    height as int,
                    num_bands as int,
                    b,
                    y,
                    x,
                );
            }
        }
        r
    }

    /// A single-band buffer whose row-major samples are exactly `values`.
    pub fn from_vec_single_band(values: Vec<u32>, width: usize, height: usize) -> (r: Image)
        requires
            values@.len() == width * height,
            width <= MAX_DIM,
            height <= MAX_DIM,
            forall|i: int| 0 <= i < values@.len() ==> values@[i] <= MAX_SAMPLE,
        ensures
            r.wf(),
            r.spec_width() == width,
            r.spec_height() == height,
            r.spec_num_bands() == 1,
            forall|y: int, x: int|
                0 <= y < height && 0 <= x < width ==> r.spec_get(0, y, x) == values@[y * width
                    + x],
    {
        let r = Image { width, height, num_bands: 1, data: values };
        proof {
            assert(r.data@.len() == 1 * (width * height));
            assert forall|y: int, x: int| 0 <= y < height && 0 <= x < width implies r.spec_get(
                0,
                y,
                x,
            ) == r.data@[y * width + x] by {
                assert(cell_index(width as int, height as int, 0, y, x) == y * width + x);
            }
        }
        r
    }

    pub fn width(&self) -> (r: usize)
        ensures
            r == self.spec_width(),
    {
        self.width
    }

    pub fn height(&self) -> (r: usize)
        ensures
            r == self.spec_height(),
    {
        self.height
    }

    pub fn num_bands(&self) -> (r: usize)
        ensures
            r == self.spec_num_bands(),
    {
        self.num_bands
    }

    /// Read one sample.
    pub fn get(&self, b: usize, y: usize, x: usize) -> (r: u32)
        requires
            self.wf(),
            b < self.spec_num_bands(),
            y < self.spec_height(),
            x < self.spec_width(),
        ensures
            r == self.spec_get(b as int, y as int, x as int),
            r <= MAX_SAMPLE,
    {
        proof {
            lemma_cell_index_bound(
                self.width as int,
                self.height as int,
                self.num_bands as int,
                b as int,
                y as int,
                x as int,
            );
            lemma_index_arith_bounds(
                self.width as int,
                self.height as int,
                b as int,
                y as int,
                x as int,
            );
        }
        let idx: usize = b * (self.width * self.height) + y * self.width + x;
        self.data[idx]
    }

    /// A copy of the buffer: same geometry, same samples.
    pub fn duplicate(&self) -> (r: Image)
        ensures
            r.width == self.width,
            r.height == self.height,
            r.num_bands == self.num_bands,
            r.data@ == self.data@,
    {
        let mut data: Vec<u32> = Vec::new();
        let mut i: usize = 0;
        let n = self.data.len();
        while i < n
            invariant
                i <= n,
                n == self.data@.len(),
                data@.len() == i,
                forall|j: int| 0 <= j < i ==> data@[j] == self.data@[j],
            decreases n - i,
        {
            data.push(self.data[i]);
            i += 1;
        }
        proof {
            assert(data@ =~= self.data@);
        }
        Image { width: self.width, height: self.height, num_bands: self.num_bands, data }
    }

    /// Replace one sample; every other cell keeps its value.
    pub fn put(&mut self, b: usize, y: usize, x: usize, v: u32)
        requires
            old(self).wf(),
            b < old(self).spec_num_bands(),
            y < old(self).spec_height(),
            x < old(self).spec_width(),
            v <= MAX_SAMPLE,
        ensures
            final(self).wf(),
            final(self).same_shape(old(self)),
            final(self).spec_get(b as int, y as int, x as int) == v,
            forall|b2: int, y2: int, x2: int|
                0 <= b2 < final(self).spec_num_bands() && 0 <= y2 < final(self).spec_height() && 0
                    <= x2 < final(self).spec_width() && !(b2 == b && y2 == y && x2 == x)
                    ==> final(self).spec_get(b2, y2, x2) == old(self).spec_get(b2, y2, x2),
    {
        proof {
            lemma_cell_index_bound(
                self.width as int,
                self.height as int,
                self.num_bands as int,
                b as int,
                y as int,
                x as int,
            );
            lemma_index_arith_bounds(
                self.width as int,
                self.height as int,
                b as int,
                y as int,
                x as int,
            );
        }
        let idx: usize = b * (self.width * self.height) + y * self.width + x;
        self.data[idx] = v;
        proof {
            assert forall|b2: int, y2: int, x2: int|
                0 <= b2 < self.spec_num_bands() && 0 <= y2 < self.spec_height() && 0 <= x2
                    < self.spec_width() && !(b2 == b && y2 == y && x2 == x) implies self.spec_get(
                b2,
                y2,
                x2,
            ) == old(self).spec_get(b2, y2, x2) by {
                lemma_cell_index_injective(
                    self.width as int,
                    self.height as int,
                    self.num_bands as int,
                    b2,
                    y2,
                    x2,
                    b as int,
                    y as int,
                    x as int,
                );
                lemma_cell_index_bound(
                    self.width as int,
                    self.height as int,
                    self.num_bands as int,
                    b2,
                    y2,
                    x2,
                );
            }
        }
    }
}

} // verus!
