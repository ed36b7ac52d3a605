//! The drizzle stacking engine: three interchangeable per-pixel accumulation
//! strategies (average, median, minimum) over an output-sized grid, and the
//! resampler that projects each registered frame onto that grid under a
//! fractional-pixel transform.
//!
//! Coordinates and offsets are Q16 fixed point: an `i64` carrying a pixel
//! position times 65536. A rotation is carried as its cosine and sine in the
//! same representation, computed by the caller.

use vstd::prelude::*;

use crate::error::SolhatError;
use crate::image::Image;
use crate::image::MAX_DIM;
use crate::image::MAX_SAMPLE;
use crate::image::cell_index;
use crate::image::lemma_cell_index_bound;
use crate::image::lemma_cell_index_injective;
use crate::image::lemma_index_arith_bounds;

verus! {

/// Most contributions any one accumulator cell may receive, a machine limit
/// that keeps running sums inside 64 bits.
pub const MAX_CONTRIBUTIONS: u64 = 0x4000_0000;

/// The accumulation strategy of a stacking run.
#[derive(Debug, Clone, Copy, PartialEq, Eq, Structural)]
pub enum StackAlgorithm {
    Average,
    Median,
    Minimum,
}

impl StackAlgorithm {
    /// Whether the strategy may run on the parallel chunked path: average and
    /// minimum merge cheaply, while a median merge concatenates every
    /// per-pixel sample list and would multiply memory use.
    pub fn allow_parallel(self) -> (r: bool)
        ensures
            r == (self != StackAlgorithm::Median),
    {
        match self {
            StackAlgorithm::Average | StackAlgorithm::Minimum => true,
            StackAlgorithm::Median => false,
        }
    }
}

/// Supported drizzle upscalings.
#[derive(Debug, Clone, Copy, PartialEq, Eq, Structural)]
pub enum Scale {
    Scale1_0,
    Scale1_5,
    Scale2_0,
    Scale3_0,
}

impl Scale {
    /// The scale factor as a percentage, the exact integer form of the
    /// factors one, one and a half, two and three.
    pub fn value(&self) -> (r: u32)
        ensures
            r == self.spec_percent(),
    {
        match *self {
            Scale::Scale1_0 => 100,
            Scale::Scale1_5 => 150,
            Scale::Scale2_0 => 200,
            Scale::Scale3_0 => 300,
        }
    }

    pub open spec fn spec_percent(&self) -> int {
        match *self {
            Scale::Scale1_0 => 100,
            Scale::Scale1_5 => 150,
            Scale::Scale2_0 => 200,
            Scale::Scale3_0 => 300,
        }
    }

    /// Parse the scale from its decimal spelling; anything but the four
    /// supported spellings is a configuration error.
    pub fn from(s: &str) -> (r: Result<Scale, SolhatError>)
        ensures
            s@ == "1.0"@ ==> r == Ok::<Scale, SolhatError>(Scale::Scale1_0),
            s@ == "1.5"@ ==> r == Ok::<Scale, SolhatError>(Scale::Scale1_5),
            s@ == "2.0"@ ==> r == Ok::<Scale, SolhatError>(Scale::Scale2_0),
            s@ == "3.0"@ ==> r == Ok::<Scale, SolhatError>(Scale::Scale3_0),
            s@ != "1.0"@ && s@ != "1.5"@ && s@ != "2.0"@ && s@ != "3.0"@ ==> r == Err::<
                Scale,
                SolhatError,
            >(SolhatError::InvalidDrizzleScale),
    {
        proof {
            reveal_strlit("1.0");
            reveal_strlit("1.5");
            reveal_strlit("2.0");
            reveal_strlit("3.0");
            assert("1.0"@[0] == '1' && "1.0"@[2] == '0' && "1.5"@[0] == '1' && "1.5"@[2] == '5'
                && "2.0"@[0] == '2' && "3.0"@[0] == '3');
        }
        if eq_str(s, "1.0") {
            Ok(Scale::Scale1_0)
        } else if eq_str(s, "1.5") {
            Ok(Scale::Scale1_5)
        } else if eq_str(s, "2.0") {
            Ok(Scale::Scale2_0)
        } else if eq_str(s, "3.0") {
            Ok(Scale::Scale3_0)
        } else {
            Err(SolhatError::InvalidDrizzleScale)
        }
    }
}

/// Whether two string slices hold the same characters.
pub fn eq_str(a: &str, b: &str) -> (r: bool)
    ensures
        r == (a@ == b@),
{
    let a_owned = a.to_owned();
    let b_owned = b.to_owned();
    a_owned == b_owned
}

/// A fractional translation in pixels, Q16 fixed point.
#[derive(Debug, Clone, Copy, PartialEq, Eq, Structural)]
pub struct Offset {
    pub h: i64,
    pub v: i64,
}

/// A rotation carried as its cosine and sine, Q16 fixed point. The caller
/// computes the pair from the frame's rotation angle.
#[derive(Debug, Clone, Copy, PartialEq, Eq, Structural)]
pub struct RotationTrig {
    pub cos: i64,
    pub sin: i64,
}

impl RotationTrig {
    /// The zero rotation.
    pub fn identity() -> (r: RotationTrig)
        ensures
            r.cos == 65536,
            r.sin == 0,
    {
        RotationTrig { cos: 65536, sin: 0 }
    }

    /// Both components lie inside the unit circle's bounding box.
    pub open spec fn bounded(&self) -> bool {
        &&& -65536 <= self.cos <= 65536
        &&& -65536 <= self.sin <= 65536
    }
}

/// What one accumulation step leaves in a minimum cell: zero means "no data
/// yet" on either side, so the first nonzero contribution seeds the cell and
/// later nonzero ones only lower it; a zero contribution never clears a
/// seeded cell. With that reading the operation is commutative and
/// associative, which is what makes the parallel merge order-independent.
pub open spec fn spec_min_put(cur: int, c: int) -> int {
    if c == 0 {
        cur
    } else if cur == 0 {
        c
    } else if c < cur {
        c
    } else {
        cur
    }
}

/// Flat position, checked against the machine limits.
pub fn grid_index(w: usize, h: usize, nb: usize, b: usize, y: usize, x: usize) -> (r: usize)
    requires
        w <= MAX_DIM,
        h <= MAX_DIM,
        1 <= nb <= 3,
        b < nb,
        y < h,
        x < w,
    ensures
        r as int == cell_index(w as int, h as int, b as int, y as int, x as int),
        (r as int) < (nb as int) * ((w as int) * (h as int)),
{
    proof {
        lemma_cell_index_bound(w as int, h as int, nb as int, b as int, y as int, x as int);
        lemma_index_arith_bounds(w as int, h as int, b as int, y as int, x as int);
    }
    b * (w * h) + y * w + x
}

/// Running per-pixel, per-band sums beside a per-pixel contribution count;
/// finalization divides.
#[derive(Debug, Clone)]
pub struct AverageStackBuffer {
    pub width: usize,
    pub height: usize,
    pub num_bands: usize,
    pub sums: Vec<u64>,
    pub divisor: Vec<u64>,
}

impl AverageStackBuffer {
    pub open spec fn sum_at(&self, b: int, y: int, x: int) -> int {
        self.sums@[cell_index(self.width as int, self.height as int, b, y, x)] as int
    }

    pub open spec fn div_at(&self, y: int, x: int) -> int {
        self.divisor@[y * self.width + x] as int
    }

    pub open spec fn cell_in_range(&self, b: int, y: int, x: int) -> bool {
        0 <= b < self.num_bands && 0 <= y < self.height && 0 <= x < self.width
    }

    pub open spec fn wf(&self) -> bool {
        &&& self.sums@.len() == self.num_bands * (self.width * self.height)
        &&& self.divisor@.len() == self.width * self.height
        &&& 1 <= self.num_bands <= 3
        &&& 1 <= self.width <= MAX_DIM
        &&& 1 <= self.height <= MAX_DIM
        &&& forall|b: int, y: int, x: int|
            self.cell_in_range(b, y, x) ==> #[trigger] self.sum_at(b, y, x) <= self.div_at(y, x)
                * (MAX_SAMPLE as int)
        &&& forall|y: int, x: int|
            0 <= y < self.height && 0 <= x < self.width ==> #[trigger] self.div_at(y, x)
                <= MAX_CONTRIBUTIONS
    }

    pub open spec fn same_shape(&self, other: &AverageStackBuffer) -> bool {
        &&& self.width == other.width
        &&& self.height == other.height
        &&& self.num_bands == other.num_bands
    }

    pub fn new(width: usize, height: usize, num_bands: usize) -> (r: AverageStackBuffer)
        requires
            1 <= num_bands <= 3,
            1 <= width <= MAX_DIM,
            1 <= height <= MAX_DIM,
        ensures
            r.wf(),
            r.width == width,
            r.height == height,
            r.num_bands == num_bands,
            forall|b: int, y: int, x: int|
                r.cell_in_range(b, y, x) ==> #[trigger] r.sum_at(b, y, x) == 0,
            forall|y: int, x: int|
                0 <= y < height && 0 <= x < width ==> #[trigger] r.div_at(y, x) == 0,
    {
        proof {
            lemma_index_arith_bounds(width as int, height as int, 0, 0, 0);
            assert(num_bands * (width * height) <= 3 * 0x2000_0000) by (nonlinear_arith)
                requires
                    num_bands <= 3,
                    width * height <= 0x2000_0000,
            ;
        }
        let n: usize = num_bands * (width * height);
        let sums = filled_u64(n, 0);
        let divisor = filled_u64(width * height, 0);
        let r = AverageStackBuffer { width, height, num_bands, sums, divisor };
        proof {
            assert forall|b: int, y: int, x: int| r.cell_in_range(b, y, x) implies #[trigger] r.sum_at(
                b,
                y,
                x,
            ) == 0 by {
                lemma_cell_index_bound(width as int, height as int, num_bands as int, b, y, x);
            }
            assert forall|y: int, x: int|
                0 <= y < height && 0 <= x < width implies #[trigger] r.div_at(y, x) == 0 by {
                lemma_cell_index_bound(width as int, height as int, 1, 0, y, x);
            }
        }
        r
    }

    /// Fold one resampled pixel in: add each band's value to the running sum
    /// and count one more contribution.
    #[verifier::loop_isolation(false)]
    pub fn put(&mut self, x: usize, y: usize, values: &[u32; 3])
        requires
            old(self).wf(),
            x < old(self).width,
            y < old(self).height,
            forall|i: int| 0 <= i < 3 ==> values@[i] <= MAX_SAMPLE,
            old(self).div_at(y as int, x as int) < MAX_CONTRIBUTIONS,
        ensures
            final(self).wf(),
            final(self).same_shape(old(self)),
            forall|b2: int, y2: int, x2: int|
                final(self).cell_in_range(b2, y2, x2) ==> #[trigger] final(self).sum_at(b2, y2, x2)
                    == old(self).sum_at(b2, y2, x2) + (if y2 == y && x2 == x {
                    values@[b2] as int
                } else {
                    0
                }),
            forall|y2: int, x2: int|
                0 <= y2 < final(self).height && 0 <= x2 < final(self).width
                    ==> #[trigger] final(self).div_at(y2, x2) == old(self).div_at(y2, x2) + (
                if y2 == y && x2 == x {
                    1int
                } else {
                    0int
                }),
    {
        let w = self.width;
        let h = self.height;
        let nb = self.num_bands;
        let didx = grid_index(w, h, 1, 0, y, x);
        let dv: u64 = self.divisor[didx] + 1;
        self.divisor[didx] = dv;
        let ghost dafter: Seq<u64> = self.divisor@;
        proof {
            assert forall|y2: int, x2: int| 0 <= y2 < h && 0 <= x2 < w implies #[trigger] dafter[
                cell_index(w as int, h as int, 0, y2, x2)
            ] as int == old(self).divisor@[cell_index(w as int, h as int, 0, y2, x2)] as int + (
            if y2 == y && x2 == x {
                1int
            } else {
                0int
            }) by {
                lemma_cell_index_bound(w as int, h as int, 1, 0, y2, x2);
                if !(y2 == y && x2 == x) {
                    lemma_cell_index_injective(
                        w as int,
                        h as int,
                        1,
                        0,
                        y2,
                        x2,
                        0,
                        y as int,
                        x as int,
                    );
                }
            }
        }
        let mut b: usize = 0;
        while b < nb
            invariant
                b <= nb,
                self.width == old(self).width,
                self.height == old(self).height,
                self.num_bands == old(self).num_bands,
                self.divisor@ == dafter,
                self.sums@.len() == old(self).sums@.len(),
                forall|b2: int, y2: int, x2: int|
                    old(self).cell_in_range(b2, y2, x2) ==> #[trigger] self.sums@[cell_index(
                        w as int,
                        h as int,
                        b2,
                        y2,
                        x2,
                    )] as int == old(self).sums@[cell_index(w as int, h as int, b2, y2, x2)] as int
                        + (if y2 == y && x2 == x && b2 < b {
                        values@[b2] as int
                    } else {
                        0
                    }),
            decreases nb - b,
        {
            let idx = grid_index(w, h, nb, b, y, x);
            proof {
                assert(old(self).cell_in_range(b as int, y as int, x as int));
                assert(old(self).sums@[cell_index(w as int, h as int, b as int, y as int, x as int)]
                    == old(self).sum_at(b as int, y as int, x as int));
                let dv0 = old(self).div_at(y as int, x as int);
                assert(old(self).sum_at(b as int, y as int, x as int) <= dv0 * (
                MAX_SAMPLE as int));
                assert(dv0 * (MAX_SAMPLE as int) < 0x4000_0000 * (MAX_SAMPLE as int))
                    by (nonlinear_arith)
                    requires
                        0 <= dv0 < 0x4000_0000,
                ;
            }
            let v: u64 = self.sums[idx] + values[b] as u64;
            self.sums[idx] = v;
            proof {
                assert forall|b2: int, y2: int, x2: int|
                    old(self).cell_in_range(b2, y2, x2) implies #[trigger] self.sums@[cell_index(
                        w as int,
                        h as int,
                        b2,
                        y2,
                        x2,
                    )] as int == old(self).sums@[cell_index(w as int, h as int, b2, y2, x2)] as int
                        + (if y2 == y && x2 == x && b2 < b + 1 {
                        values@[b2] as int
                    } else {
                        0
                    }) by {
                    lemma_cell_index_bound(w as int, h as int, nb as int, b2, y2, x2);
                    if !(b2 == b && y2 == y && x2 == x) {
                        lemma_cell_index_injective(
                            w as int,
                            h as int,
                            nb as int,
                            b2,
                            y2,
                            x2,
                            b as int,
                            y as int,
                            x as int,
                        );
                    }
                }
            }
            b += 1;
        }
        proof {
            assert forall|b2: int, y2: int, x2: int|
                self.cell_in_range(b2, y2, x2) implies #[trigger] self.sum_at(b2, y2, x2) == old(
                self,
            ).sum_at(b2, y2, x2) + (if y2 == y && x2 == x {
                values@[b2] as int
            } else {
                0
            }) by {
                lemma_cell_index_bound(w as int, h as int, nb as int, b2, y2, x2);
                assert(self.sums@[cell_index(w as int, h as int, b2, y2, x2)] as int == old(
                    self,
                ).sums@[cell_index(w as int, h as int, b2, y2, x2)] as int + (if y2 == y && x2 == x
                    && b2 < nb {
                    values@[b2] as int
                } else {
                    0
                }));
            }
            assert forall|y2: int, x2: int|
                0 <= y2 < self.height && 0 <= x2 < self.width implies #[trigger] self.div_at(
                y2,
                x2,
            ) == old(self).div_at(y2, x2) + (if y2 == y && x2 == x {
                1int
            } else {
                0int
            }) by {
                lemma_cell_index_bound(w as int, h as int, 1, 0, y2, x2);
                assert(dafter[cell_index(w as int, h as int, 0, y2, x2)] as int == old(
                    self,
                ).divisor@[cell_index(w as int, h as int, 0, y2, x2)] as int + (if y2 == y && x2
                    == x {
                    1int
                } else {
                    0int
                }));
            }
            assert forall|b2: int, y2: int, x2: int|
                self.cell_in_range(b2, y2, x2) implies #[trigger] self.sum_at(b2, y2, x2)
                <= self.div_at(y2, x2) * (MAX_SAMPLE as int) by {
                assert(self.sum_at(b2, y2, x2) == old(self).sum_at(b2, y2, x2) + (if y2 == y && x2
                    == x {
                    values@[b2] as int
                } else {
                    0
                }));
                assert(self.div_at(y2, x2) == old(self).div_at(y2, x2) + (if y2 == y && x2 == x {
                    1int
                } else {
                    0int
                }));
                assert(old(self).sum_at(b2, y2, x2) <= old(self).div_at(y2, x2) * (
                MAX_SAMPLE as int));
                if y2 == y && x2 == x {
                    let dv0 = old(self).div_at(y2, x2);
                    assert((dv0 + 1) * (MAX_SAMPLE as int) == dv0 * (MAX_SAMPLE as int)
                        + MAX_SAMPLE) by (nonlinear_arith);
                }
            }
        }
    }

    /// The running sum of one band of one pixel.
    pub fn get(&self, x: usize, y: usize, band: usize) -> (r: u64)
        requires
            self.wf(),
            x < self.width,
            y < self.height,
        ensures
            band < self.num_bands ==> r as int == self.sum_at(band as int, y as int, x as int),
            band >= self.num_bands ==> r == 0,
    {
        if band >= self.num_bands {
            0
        } else {
            let idx = grid_index(self.width, self.height, self.num_bands, band, y, x);
            self.sums[idx]
        }
    }

    /// Pairwise merge: sums and counts both add, so merging commutes.
    #[verifier::loop_isolation(false)]
    pub fn add_other(&mut self, other: &AverageStackBuffer)
        requires
            old(self).wf(),
            other.wf(),
            old(self).same_shape(other),
            forall|y: int, x: int|
                0 <= y < other.height && 0 <= x < other.width ==> #[trigger] old(self).div_at(y, x)
                    + other.div_at(y, x) <= MAX_CONTRIBUTIONS,
        ensures
            final(self).wf(),
            final(self).same_shape(old(self)),
            forall|b2: int, y2: int, x2: int|
                final(self).cell_in_range(b2, y2, x2) ==> #[trigger] final(self).sum_at(b2, y2, x2)
                    == old(self).sum_at(b2, y2, x2) + other.sum_at(b2, y2, x2),
            forall|y2: int, x2: int|
                0 <= y2 < final(self).height && 0 <= x2 < final(self).width
                    ==> #[trigger] final(self).div_at(y2, x2) == old(self).div_at(y2, x2)
                    + other.div_at(y2, x2),
    {
        let w = self.width;
        let h = self.height;
        let nb = self.num_bands;
        proof {
            lemma_index_arith_bounds(w as int, h as int, 0, 0, 0);
            assert(nb * (w * h) <= 3 * 0x2000_0000) by (nonlinear_arith)
                requires
                    nb <= 3,
                    w * h <= 0x2000_0000,
            ;
        }
        let cells: usize = w * h;
        let n: usize = nb * cells;
        let mut i: usize = 0;
        while i < n
            invariant
                i <= n,
                self.width == old(self).width,
                self.height == old(self).height,
                self.num_bands == old(self).num_bands,
                self.divisor == old(self).divisor,
                self.sums@.len() == old(self).sums@.len(),
                forall|j: int|
                    0 <= j < i ==> #[trigger] self.sums@[j] as int == old(self).sums@[j] as int
                        + other.sums@[j] as int,
                forall|j: int| i <= j < n ==> #[trigger] self.sums@[j] == old(self).sums@[j],
            decreases n - i,
        {
            proof {
                lemma_grid_index_inverse(w as int, h as int, nb as int, i as int);
                let b2 = i as int / ((w as int) * (h as int));
                let rem = i as int % ((w as int) * (h as int));
                let y2 = rem / (w as int);
                let x2 = rem % (w as int);
                assert(old(self).cell_in_range(b2, y2, x2));
                assert(old(self).sum_at(b2, y2, x2) <= old(self).div_at(y2, x2) * (
                MAX_SAMPLE as int));
                assert(other.sum_at(b2, y2, x2) <= other.div_at(y2, x2) * (MAX_SAMPLE as int));
                let da = old(self).div_at(y2, x2);
                let db = other.div_at(y2, x2);
                assert(da * (MAX_SAMPLE as int) + db * (MAX_SAMPLE as int) <= 0x4000_0000 * (
                MAX_SAMPLE as int)) by (nonlinear_arith)
                    requires
                        da + db <= 0x4000_0000,
                        da >= 0,
                        db >= 0,
                ;
            }
            let v: u64 = self.sums[i] + other.sums[i];
            self.sums[i] = v;
            i += 1;
        }
        let ghost sums_merged = self.sums@;
        let mut i: usize = 0;
        while i < cells
            invariant
                i <= cells,
                self.width == old(self).width,
                self.height == old(self).height,
                self.num_bands == old(self).num_bands,
                self.sums@ == sums_merged,
                self.divisor@.len() == old(self).divisor@.len(),
                forall|j: int|
                    0 <= j < i ==> #[trigger] self.divisor@[j] as int == old(
                        self,
                    ).divisor@[j] as int + other.divisor@[j] as int,
                forall|j: int| i <= j < cells ==> #[trigger] self.divisor@[j] == old(
                    self,
                ).divisor@[j],
            decreases cells - i,
        {
            proof {
                lemma_grid_index_inverse(w as int, h as int, 1, i as int);
                let rem = i as int % ((w as int) * (h as int));
                let y2 = rem / (w as int);
                let x2 = rem % (w as int);
                assert(old(self).div_at(y2, x2) + other.div_at(y2, x2) <= MAX_CONTRIBUTIONS);
                assert(old(self).divisor@[i as int] as int == old(self).div_at(y2, x2));
                assert(other.divisor@[i as int] as int == other.div_at(y2, x2));
            }
            let v: u64 = self.divisor[i] + other.divisor[i];
            self.divisor[i] = v;
            i += 1;
        }
        proof {
            assert forall|b2: int, y2: int, x2: int|
                self.cell_in_range(b2, y2, x2) implies #[trigger] self.sum_at(b2, y2, x2) == old(
                self,
            ).sum_at(b2, y2, x2) + other.sum_at(b2, y2, x2) by {
                lemma_cell_index_bound(w as int, h as int, nb as int, b2, y2, x2);
            }
            assert forall|y2: int, x2: int|
                0 <= y2 < self.height && 0 <= x2 < self.width implies #[trigger] self.div_at(
                y2,
                x2,
            ) == old(self).div_at(y2, x2) + other.div_at(y2, x2) by {
                lemma_cell_index_bound(w as int, h as int, 1, 0, y2, x2);
            }
            assert forall|b2: int, y2: int, x2: int|
                self.cell_in_range(b2, y2, x2) implies #[trigger] self.sum_at(b2, y2, x2)
                <= self.div_at(y2, x2) * (MAX_SAMPLE as int) by {
                assert(old(self).sum_at(b2, y2, x2) <= old(self).div_at(y2, x2) * (
                MAX_SAMPLE as int));
                assert(other.sum_at(b2, y2, x2) <= other.div_at(y2, x2) * (MAX_SAMPLE as int));
                let da = old(self).div_at(y2, x2);
                let db = other.div_at(y2, x2);
                assert((da + db) * (MAX_SAMPLE as int) == da * (MAX_SAMPLE as int) + db * (
                MAX_SAMPLE as int)) by (nonlinear_arith);
            }
        }
    }

    /// What finalization leaves at a cell: the mean of the contributions,
    /// rounded down, or zero where nothing contributed.
    pub open spec fn final_at(&self, b: int, y: int, x: int) -> int {
        if self.div_at(y, x) > 0 {
            self.sum_at(b, y, x) / self.div_at(y, x)
        } else {
            0
        }
    }

    /// Divide each cell's running sum by its contribution count. A pixel no
    /// frame reached stays zero.
    #[verifier::loop_isolation(false)]
    pub fn get_finalized(&self) -> (r: Image)
        requires
            self.wf(),
        ensures
            r.wf(),
            r.spec_width() == self.width,
            r.spec_height() == self.height,
            r.spec_num_bands() == self.num_bands,
            forall|b: int, y: int, x: int|
                self.cell_in_range(b, y, x) ==> #[trigger] r.spec_get(b, y, x) as int
                    == self.final_at(b, y, x),
    {
        let w = self.width;
        let h = self.height;
        let nb = self.num_bands;
        let mut img = Image::new_with_bands(w, h, nb);
        let mut b: usize = 0;
        while b < nb
            invariant
                self.wf(),
                w == self.width && h == self.height && nb == self.num_bands,
                b <= nb,
                img.wf(),
                img.spec_width() == w && img.spec_height() == h && img.spec_num_bands() == nb,
                forall|b2: int, y2: int, x2: int|
                    self.cell_in_range(b2, y2, x2) && (b2 < b) ==> #[trigger] img.spec_get(
                        b2,
                        y2,
                        x2,
                    ) as int == self.final_at(b2, y2, x2),
            decreases nb - b,
        {
            let mut y: usize = 0;
            while y < h
                invariant
                    self.wf(),
                    w == self.width && h == self.height && nb == self.num_bands,
                    b < nb,
                    y <= h,
                    img.wf(),
                    img.spec_width() == w && img.spec_height() == h && img.spec_num_bands() == nb,
                    forall|b2: int, y2: int, x2: int|
                        self.cell_in_range(b2, y2, x2) && (b2 < b || (b2 == b && y2 < y))
                            ==> #[trigger] img.spec_get(b2, y2, x2) as int == self.final_at(
                            b2,
                            y2,
                            x2,
                        ),
                decreases h - y,
            {
                let mut x: usize = 0;
                while x < w
                    invariant
                        self.wf(),
                        w == self.width && h == self.height && nb == self.num_bands,
                        b < nb,
                        y < h,
                        x <= w,
                        img.wf(),
                        img.spec_width() == w && img.spec_height() == h && img.spec_num_bands()
                            == nb,
                        forall|b2: int, y2: int, x2: int|
                            self.cell_in_range(b2, y2, x2) && (b2 < b || (b2 == b && y2 < y) || (b2
                                == b && y2 == y && x2 < x)) ==> #[trigger] img.spec_get(
                                b2,
                                y2,
                                x2,
                            ) as int == self.final_at(b2, y2, x2),
                    decreases w - x,
                {
                    let sidx = grid_index(w, h, nb, b, y, x);
                    let didx = grid_index(w, h, 1, 0, y, x);
                    let s: u64 = self.sums[sidx];
                    let d: u64 = self.divisor[didx];
                    let v: u64 = if d > 0 {
                        s / d
                    } else {
                        0
                    };
                    proof {
                        assert(self.cell_in_range(b as int, y as int, x as int));
                        assert(self.sum_at(b as int, y as int, x as int) <= self.div_at(
                            y as int,
                            x as int,
                        ) * (MAX_SAMPLE as int));
                        assert(s as int == self.sum_at(b as int, y as int, x as int));
                        assert(d as int == self.div_at(y as int, x as int));
                        if d > 0 {
                            assert(s as int / d as int <= MAX_SAMPLE as int) by (nonlinear_arith)
                                requires
                                    s as int <= d as int * (MAX_SAMPLE as int),
                                    d as int > 0,
                            ;
                        }
                    }
                    img.put(b, y, x, v as u32);
                    x += 1;
                }
                y += 1;
            }
            b += 1;
        }
        img
    }
}

/// A vector of `n` copies of `v`.
fn filled_u64(n: usize, v: u64) -> (r: Vec<u64>)
    ensures
        r@.len() == n,
        forall|i: int| 0 <= i < n ==> r@[i] == v,
{
    let mut r: Vec<u64> = Vec::new();
    let mut i: usize = 0;
    while i < n
        invariant
            i <= n,
            r@.len() == i,
            forall|j: int| 0 <= j < i ==> r@[j] == v,
        decreases n - i,
    {
        r.push(v);
        i += 1;
    }
    r
}

/// Every flat position below `nb * (w * h)` is some in-range cell.
pub proof fn lemma_grid_index_inverse(w: int, h: int, nb: int, i: int)
    requires
        1 <= w,
        1 <= h,
        1 <= nb,
        0 <= i < nb * (w * h),
    ensures
        ({
            let b = i / (w * h);
            let rem = i % (w * h);
            let y = rem / w;
            let x = rem % w;
            &&& 0 <= b < nb
            &&& 0 <= y < h
            &&& 0 <= x < w
            &&& cell_index(w, h, b, y, x) == i
        }),
{
    let b = i / (w * h);
    let rem = i % (w * h);
    let y = rem / w;
    let x = rem % w;
    assert(0 <= b < nb && 0 <= rem < w * h && i == b * (w * h) + rem) by (nonlinear_arith)
        requires
            1 <= w,
            1 <= h,
            1 <= nb,
            0 <= i < nb * (w * h),
            b == i / (w * h),
            rem == i % (w * h),
    ;
    assert(0 <= y < h && 0 <= x < w && rem == y * w + x) by (nonlinear_arith)
        requires
            1 <= w,
            1 <= h,
            0 <= rem < w * h,
            y == rem / w,
            x == rem % w,
    ;
}

} // verus!

verus! {

/// Retains the running per-pixel, per-band minimum, seeded by the first
/// nonzero contribution.
#[derive(Debug, Clone)]
pub struct MinimumStackBuffer {
    pub num_bands: usize,
    pub buffer: Image,
}

impl MinimumStackBuffer {
    pub open spec fn wf(&self) -> bool {
        &&& self.buffer.wf()
        &&& self.num_bands == self.buffer.num_bands
        &&& 1 <= self.buffer.width
        &&& 1 <= self.buffer.height
    }

    pub open spec fn min_at(&self, b: int, y: int, x: int) -> int {
        self.buffer.spec_get(b, y, x) as int
    }

    pub open spec fn cell_in_range(&self, b: int, y: int, x: int) -> bool {
        0 <= b < self.num_bands && 0 <= y < self.buffer.height && 0 <= x < self.buffer.width
    }

    pub open spec fn same_shape(&self, other: &MinimumStackBuffer) -> bool {
        &&& self.buffer.width == other.buffer.width
        &&& self.buffer.height == other.buffer.height
        &&& self.num_bands == other.num_bands
    }

    pub fn new(width: usize, height: usize, num_bands: usize) -> (r: MinimumStackBuffer)
        requires
            1 <= num_bands <= 3,
            1 <= width <= MAX_DIM,
            1 <= height <= MAX_DIM,
        ensures
            r.wf(),
            r.buffer.width == width,
            r.buffer.height == height,
            r.num_bands == num_bands,
            forall|b: int, y: int, x: int|
                r.cell_in_range(b, y, x) ==> #[trigger] r.min_at(b, y, x) == 0,
    {
        MinimumStackBuffer { num_bands, buffer: Image::new_with_bands(width, height, num_bands) }
    }

    /// Fold one resampled pixel in: a zero cell takes the value, a nonzero
    /// cell keeps the smaller of the two, and a zero value leaves a seeded
    /// cell alone.
    #[verifier::loop_isolation(false)]
    pub fn put(&mut self, x: usize, y: usize, values: &[u32; 3])
        requires
            old(self).wf(),
            x < old(self).buffer.width,
            y < old(self).buffer.height,
            forall|i: int| 0 <= i < 3 ==> values@[i] <= MAX_SAMPLE,
        ensures
            final(self).wf(),
            final(self).same_shape(old(self)),
            forall|b2: int, y2: int, x2: int|
                final(self).cell_in_range(b2, y2, x2) ==> #[trigger] final(self).min_at(b2, y2, x2)
                    == (if y2 == y && x2 == x {
                    spec_min_put(old(self).min_at(b2, y2, x2), values@[b2] as int)
                } else {
                    old(self).min_at(b2, y2, x2)
                }),
    {
        let nb = self.num_bands;
        let mut b: usize = 0;
        while b < nb
            invariant
                b <= nb,
                self.wf(),
                self.same_shape(old(self)),
                forall|b2: int, y2: int, x2: int|
                    old(self).cell_in_range(b2, y2, x2) ==> #[trigger] self.buffer.spec_get(
                        b2,
                        y2,
                        x2,
                    ) as int == (if y2 == y && x2 == x && b2 < b {
                        spec_min_put(old(self).min_at(b2, y2, x2), values@[b2] as int)
                    } else {
                        old(self).min_at(b2, y2, x2)
                    }),
            decreases nb - b,
        {
            let v: u32 = self.buffer.get(b, y, x);
            let c: u32 = values[b];
            let use_v: u32 = if c == 0 {
                v
            } else if v == 0 {
                c
            } else if c < v {
                c
            } else {
                v
            };
            self.buffer.put(b, y, x, use_v);
            b += 1;
        }
    }

    /// The current minimum of one band of one pixel; zero for a band the
    /// buffer does not carry.
    pub fn get(&self, x: usize, y: usize, band: usize) -> (r: u32)
        requires
            self.wf(),
            x < self.buffer.width,
            y < self.buffer.height,
        ensures
            band < self.num_bands ==> r as int == self.min_at(band as int, y as int, x as int),
            band >= self.num_bands ==> r == 0,
    {
        if band >= self.num_bands {
            0
        } else {
            self.buffer.get(band, y, x)
        }
    }

    /// Pairwise merge: cell by cell, an unseeded (zero) side yields to the
    /// other and two nonzero sides keep the smaller value, so merging
    /// commutes.
    #[verifier::loop_isolation(false)]
    pub fn add_other(&mut self, other: &MinimumStackBuffer)
        requires
            old(self).wf(),
            other.wf(),
            old(self).same_shape(other),
        ensures
            final(self).wf(),
            final(self).same_shape(old(self)),
            forall|b2: int, y2: int, x2: int|
                final(self).cell_in_range(b2, y2, x2) ==> #[trigger] final(self).min_at(b2, y2, x2)
                    == spec_min_put(old(self).min_at(b2, y2, x2), other.min_at(b2, y2, x2)),
    {
        let w = self.buffer.width;
        let h = self.buffer.height;
        let nb = self.num_bands;
        let mut b: usize = 0;
        while b < nb
            invariant
                b <= nb,
                self.wf(),
                self.same_shape(old(self)),
                forall|b2: int, y2: int, x2: int|
                    old(self).cell_in_range(b2, y2, x2) ==> #[trigger] self.buffer.spec_get(
                        b2,
                        y2,
                        x2,
                    ) as int == (if b2 < b {
                        spec_min_put(old(self).min_at(b2, y2, x2), other.min_at(b2, y2, x2))
                    } else {
                        old(self).min_at(b2, y2, x2)
                    }),
            decreases nb - b,
        {
            let mut y: usize = 0;
            while y < h
                invariant
                    b < nb,
                    y <= h,
                    self.wf(),
                    self.same_shape(old(self)),
                    forall|b2: int, y2: int, x2: int|
                        old(self).cell_in_range(b2, y2, x2) ==> #[trigger] self.buffer.spec_get(
                            b2,
                            y2,
                            x2,
                        ) as int == (if b2 < b || (b2 == b && y2 < y) {
                            spec_min_put(old(self).min_at(b2, y2, x2), other.min_at(b2, y2, x2))
                        } else {
                            old(self).min_at(b2, y2, x2)
                        }),
                decreases h - y,
            {
                let mut x: usize = 0;
                while x < w
                    invariant
                        b < nb,
                        y < h,
                        x <= w,
                        self.wf(),
                        self.same_shape(old(self)),
                        forall|b2: int, y2: int, x2: int|
                            old(self).cell_in_range(b2, y2, x2) ==> #[trigger] self.buffer.spec_get(
                                b2,
                                y2,
                                x2,
                            ) as int == (if b2 < b || (b2 == b && y2 < y) || (b2 == b && y2 == y
                                && x2 < x) {
                                spec_min_put(old(self).min_at(b2, y2, x2), other.min_at(b2, y2, x2))
                            } else {
                                old(self).min_at(b2, y2, x2)
                            }),
                    decreases w - x,
                {
                    let v: u32 = self.buffer.get(b, y, x);
                    let ov: u32 = other.buffer.get(b, y, x);
                    let fv: u32 = if ov == 0 {
                        v
                    } else if v == 0 {
                        ov
                    } else if ov < v {
                        ov
                    } else {
                        v
                    };
                    self.buffer.put(b, y, x, fv);
                    x += 1;
                }
                y += 1;
            }
            b += 1;
        }
    }

    /// The accumulated minima, returned directly.
    pub fn get_finalized(&self) -> (r: Image)
        requires
            self.wf(),
        ensures
            r.wf(),
            r.spec_width() == self.buffer.width,
            r.spec_height() == self.buffer.height,
            r.spec_num_bands() == self.num_bands,
            forall|b: int, y: int, x: int|
                self.cell_in_range(b, y, x) ==> #[trigger] r.spec_get(b, y, x) as int
                    == self.min_at(b, y, x),
    {
        self.buffer.duplicate()
    }
}

} // verus!

verus! {

/// `v` inserted into an ascending list: before the first strictly larger
/// element, after any equal ones.
pub open spec fn spec_insert_asc(s: Seq<u32>, v: u32) -> Seq<u32>
    decreases s.len(),
{
    if s.len() == 0 {
        seq![v]
    } else if v < s[0] {
        seq![v] + s
    } else {
        seq![s[0]] + spec_insert_asc(s.drop_first(), v)
    }
}

/// Ascending insertion sort, element by element from the left.
pub open spec fn spec_sort_asc(s: Seq<u32>) -> Seq<u32>
    decreases s.len(),
{
    if s.len() == 0 {
        Seq::empty()
    } else {
        spec_insert_asc(spec_sort_asc(s.drop_last()), s.last())
    }
}

/// The median of a sample list: the middle element of the sorted list, or for
/// an even length the mean of the two middle elements rounded down; an empty
/// list medians to zero.
pub open spec fn spec_median_of(s: Seq<u32>) -> int {
    if s.len() == 0 {
        0
    } else {
        let t = spec_sort_asc(s);
        if s.len() % 2 == 1 {
            t[s.len() as int / 2] as int
        } else {
            (t[s.len() as int / 2 - 1] as int + t[s.len() as int / 2] as int) / 2
        }
    }
}

/// Insertion keeps the length and any uniform upper bound.
pub proof fn lemma_insert_asc_ensures(s: Seq<u32>, v: u32, bound: u32)
    requires
        forall|k: int| 0 <= k < s.len() ==> s[k] <= bound,
        v <= bound,
    ensures
        spec_insert_asc(s, v).len() == s.len() + 1,
        forall|k: int|
            0 <= k < s.len() + 1 ==> #[trigger] spec_insert_asc(s, v)[k] <= bound,
    decreases s.len(),
{
    if s.len() == 0 {
    } else if v < s[0] {
    } else {
        lemma_insert_asc_ensures(s.drop_first(), v, bound);
    }
}

/// Sorting keeps the length and any uniform upper bound.
pub proof fn lemma_sort_asc_ensures(s: Seq<u32>, bound: u32)
    requires
        forall|k: int| 0 <= k < s.len() ==> s[k] <= bound,
    ensures
        spec_sort_asc(s).len() == s.len(),
        forall|k: int| 0 <= k < s.len() ==> #[trigger] spec_sort_asc(s)[k] <= bound,
    decreases s.len(),
{
    if s.len() == 0 {
    } else {
        lemma_sort_asc_ensures(s.drop_last(), bound);
        lemma_insert_asc_ensures(spec_sort_asc(s.drop_last()), s.last(), bound);
    }
}

/// A bounded list's median is bounded too.
pub proof fn lemma_median_bound(s: Seq<u32>, bound: u32)
    requires
        forall|k: int| 0 <= k < s.len() ==> s[k] <= bound,
    ensures
        0 <= spec_median_of(s) <= bound,
{
    if s.len() > 0 {
        lemma_sort_asc_ensures(s, bound);
    }
}

/// Inserting at the position the scan finds is the recursive insertion.
proof fn lemma_insert_asc_at_pos(s: Seq<u32>, v: u32, pos: int)
    requires
        0 <= pos <= s.len(),
        forall|k: int| 0 <= k < pos ==> s[k] <= v,
        pos == s.len() || v < s[pos],
    ensures
        spec_insert_asc(s, v) =~= s.insert(pos, v),
    decreases s.len(),
{
    if s.len() == 0 {
        assert(spec_insert_asc(s, v) =~= s.insert(0, v));
    } else if pos == 0 {
        assert(v < s[0]);
        assert(spec_insert_asc(s, v) =~= s.insert(0, v));
    } else {
        assert(s[0] <= v);
        lemma_insert_asc_at_pos(s.drop_first(), v, pos - 1);
        assert(spec_insert_asc(s, v) =~= seq![s[0]] + s.drop_first().insert(pos - 1, v));
        assert(seq![s[0]] + s.drop_first().insert(pos - 1, v) =~= s.insert(pos, v));
    }
}

/// Sort a sample list ascending.
#[verifier::loop_isolation(false)]
pub fn sort_asc_vec(v: &Vec<u32>) -> (r: Vec<u32>)
    ensures
        r@ == spec_sort_asc(v@),
{
    let n = v.len();
    let mut r: Vec<u32> = Vec::new();
    let mut i: usize = 0;
    while i < n
        invariant
            i <= n,
            r@ == spec_sort_asc(v@.subrange(0, i as int)),
            r@.len() == i,
        decreases n - i,
    {
        let x: u32 = v[i];
        let mut pos: usize = 0;
        while pos < r.len() && r[pos] <= x
            invariant
                pos <= r@.len(),
                forall|k: int| 0 <= k < pos ==> r@[k] <= x,
            decreases r@.len() - pos,
        {
            pos += 1;
        }
        proof {
            lemma_insert_asc_at_pos(r@, x, pos as int);
        }
        r.insert(pos, x);
        proof {
            let prefix = v@.subrange(0, i as int);
            let prefix1 = v@.subrange(0, i as int + 1);
            assert(prefix1.drop_last() =~= prefix);
            assert(prefix1.last() == v@[i as int]);
            assert(r@ =~= spec_insert_asc(spec_sort_asc(prefix), x));
            let ghost dummy = spec_sort_asc(prefix);
            lemma_insert_asc_ensures_len(dummy, x);
        }
        i += 1;
    }
    proof {
        assert(v@.subrange(0, n as int) =~= v@);
    }
    r
}

/// Insertion grows the length by one.
proof fn lemma_insert_asc_ensures_len(s: Seq<u32>, v: u32)
    ensures
        spec_insert_asc(s, v).len() == s.len() + 1,
    decreases s.len(),
{
    if s.len() == 0 {
    } else if v < s[0] {
    } else {
        lemma_insert_asc_ensures_len(s.drop_first(), v);
    }
}

/// The calibration reducer's median: the element at the middle position of
/// the sorted list (the upper middle for an even length); zero for an empty
/// list. The stacking median differs: it averages the two middles.
pub open spec fn spec_middle_of(s: Seq<u32>) -> int {
    if s.len() == 0 {
        0
    } else {
        spec_sort_asc(s)[s.len() as int / 2] as int
    }
}

/// Compute the sorted list's middle element.
pub fn middle_of_vec(v: &Vec<u32>) -> (r: u32)
    requires
        forall|k: int| 0 <= k < v@.len() ==> v@[k] <= MAX_SAMPLE,
    ensures
        r as int == spec_middle_of(v@),
        r <= MAX_SAMPLE,
{
    if v.len() == 0 {
        return 0;
    }
    let sorted = sort_asc_vec(v);
    proof {
        lemma_sort_asc_ensures(v@, MAX_SAMPLE);
    }
    sorted[v.len() / 2]
}

/// Compute the median of a sample list.
pub fn median_of_vec(v: &Vec<u32>) -> (r: u32)
    requires
        forall|k: int| 0 <= k < v@.len() ==> v@[k] <= MAX_SAMPLE,
    ensures
        r as int == spec_median_of(v@),
        r <= MAX_SAMPLE,
{
    proof {
        lemma_median_bound(v@, MAX_SAMPLE);
    }
    if v.len() == 0 {
        return 0;
    }
    let sorted = sort_asc_vec(v);
    proof {
        lemma_sort_asc_ensures(v@, MAX_SAMPLE);
    }
    let n = v.len();
    if n % 2 == 1 {
        sorted[n / 2]
    } else {
        (sorted[n / 2 - 1] + sorted[n / 2]) / 2
    }
}

} // verus!

verus! {

/// Retains every contributed sample per pixel and band; the median is
/// computed only at finalization. Memory grows with every frame, which is why
/// this variant is kept off the parallel chunked path.
#[derive(Debug, Clone)]
pub struct MedianStackBuffer {
    pub num_bands: usize,
    pub width: usize,
    pub height: usize,
    pub lists: Vec<Vec<u32>>,
}

impl MedianStackBuffer {
    pub open spec fn list_at(&self, b: int, y: int, x: int) -> Seq<u32> {
        self.lists@[cell_index(self.width as int, self.height as int, b, y, x)]@
    }

    pub open spec fn cell_in_range(&self, b: int, y: int, x: int) -> bool {
        0 <= b < self.num_bands && 0 <= y < self.height && 0 <= x < self.width
    }

    pub open spec fn wf(&self) -> bool {
        &&& self.lists@.len() == self.num_bands * (self.width * self.height)
        &&& 1 <= self.num_bands <= 3
        &&& 1 <= self.width <= MAX_DIM
        &&& 1 <= self.height <= MAX_DIM
        &&& forall|i: int, k: int|
            0 <= i < self.lists@.len() && 0 <= k < self.lists@[i]@.len()
                ==> #[trigger] self.lists@[i]@[k] <= MAX_SAMPLE
        &&& forall|i: int|
            0 <= i < self.lists@.len() ==> #[trigger] self.lists@[i]@.len() <= MAX_CONTRIBUTIONS
    }

    pub open spec fn same_shape(&self, other: &MedianStackBuffer) -> bool {
        &&& self.width == other.width
        &&& self.height == other.height
        &&& self.num_bands == other.num_bands
    }

    pub fn new(width: usize, height: usize, num_bands: usize) -> (r: MedianStackBuffer)
        requires
            1 <= num_bands <= 3,
            1 <= width <= MAX_DIM,
            1 <= height <= MAX_DIM,
        ensures
            r.wf(),
            r.width == width,
            r.height == height,
            r.num_bands == num_bands,
            forall|b: int, y: int, x: int|
                r.cell_in_range(b, y, x) ==> #[trigger] r.list_at(b, y, x) == Seq::<u32>::empty(),
    {
        proof {
            lemma_index_arith_bounds(width as int, height as int, 0, 0, 0);
            assert(num_bands * (width * height) <= 3 * 0x2000_0000) by (nonlinear_arith)
                requires
                    num_bands <= 3,
                    width * height <= 0x2000_0000,
            ;
        }
        let n: usize = num_bands * (width * height);
        let mut lists: Vec<Vec<u32>> = Vec::new();
        let mut i: usize = 0;
        while i < n
            invariant
                i <= n,
                lists@.len() == i,
                forall|j: int| 0 <= j < i ==> #[trigger] lists@[j]@ == Seq::<u32>::empty(),
            decreases n - i,
        {
            let inner: Vec<u32> = Vec::new();
            lists.push(inner);
            i += 1;
        }
        let r = MedianStackBuffer { num_bands, width, height, lists };
        proof {
            assert forall|b: int, y: int, x: int| r.cell_in_range(b, y, x) implies #[trigger] r.list_at(
                b,
                y,
                x,
            ) == Seq::<u32>::empty() by {
                lemma_cell_index_bound(width as int, height as int, num_bands as int, b, y, x);
            }
        }
        r
    }

    /// Fold one resampled pixel in: append each band's value to the cell's
    /// sample list.
    #[verifier::loop_isolation(false)]
    pub fn put(&mut self, x: usize, y: usize, values: &[u32; 3])
        requires
            old(self).wf(),
            x < old(self).width,
            y < old(self).height,
            forall|i: int| 0 <= i < 3 ==> values@[i] <= MAX_SAMPLE,
            forall|b: int|
                0 <= b < old(self).num_bands ==> #[trigger] old(self).list_at(
                    b,
                    y as int,
                    x as int,
                ).len() < MAX_CONTRIBUTIONS,
        ensures
            final(self).wf(),
            final(self).same_shape(old(self)),
            forall|b2: int, y2: int, x2: int|
                final(self).cell_in_range(b2, y2, x2) ==> #[trigger] final(self).list_at(b2, y2, x2)
                    == (if y2 == y && x2 == x {
                    old(self).list_at(b2, y2, x2).push(values@[b2])
                } else {
                    old(self).list_at(b2, y2, x2)
                }),
    {
        let w = self.width;
        let h = self.height;
        let nb = self.num_bands;
        let mut b: usize = 0;
        while b < nb
            invariant
                b <= nb,
                self.width == old(self).width,
                self.height == old(self).height,
                self.num_bands == old(self).num_bands,
                self.lists@.len() == old(self).lists@.len(),
                forall|b2: int, y2: int, x2: int|
                    old(self).cell_in_range(b2, y2, x2) ==> #[trigger] self.lists@[cell_index(
                        w as int,
                        h as int,
                        b2,
                        y2,
                        x2,
                    )]@ == (if y2 == y && x2 == x && b2 < b {
                        old(self).list_at(b2, y2, x2).push(values@[b2])
                    } else {
                        old(self).list_at(b2, y2, x2)
                    }),
            decreases nb - b,
        {
            let idx = grid_index(w, h, nb, b, y, x);
            self.lists[idx].push(values[b]);
            proof {
                assert forall|b2: int, y2: int, x2: int|
                    old(self).cell_in_range(b2, y2, x2) implies #[trigger] self.lists@[cell_index(
                        w as int,
                        h as int,
                        b2,
                        y2,
                        x2,
                    )]@ == (if y2 == y && x2 == x && b2 < b + 1 {
                        old(self).list_at(b2, y2, x2).push(values@[b2])
                    } else {
                        old(self).list_at(b2, y2, x2)
                    }) by {
                    lemma_cell_index_bound(w as int, h as int, nb as int, b2, y2, x2);
                    if !(b2 == b && y2 == y && x2 == x) {
                        lemma_cell_index_injective(
                            w as int,
                            h as int,
                            nb as int,
                            b2,
                            y2,
                            x2,
                            b as int,
                            y as int,
                            x as int,
                        );
                    }
                }
            }
            b += 1;
        }
        proof {
            assert forall|b2: int, y2: int, x2: int|
                self.cell_in_range(b2, y2, x2) implies #[trigger] self.list_at(b2, y2, x2) == (
            if y2 == y && x2 == x {
                old(self).list_at(b2, y2, x2).push(values@[b2])
            } else {
                old(self).list_at(b2, y2, x2)
            }) by {
                lemma_cell_index_bound(w as int, h as int, nb as int, b2, y2, x2);
            }
            assert forall|i: int, k: int|
                0 <= i < self.lists@.len() && 0 <= k
                    < self.lists@[i]@.len() implies #[trigger] self.lists@[i]@[k]
                <= MAX_SAMPLE by {
                lemma_grid_index_inverse(w as int, h as int, nb as int, i);
                let b2 = i / ((w as int) * (h as int));
                let rem = i % ((w as int) * (h as int));
                let y2 = rem / (w as int);
                let x2 = rem % (w as int);
                assert(self.list_at(b2, y2, x2) == self.lists@[i]@);
                assert(old(self).lists@[i]@ == old(self).list_at(b2, y2, x2));
            }
            assert forall|i: int|
                0 <= i < self.lists@.len() implies #[trigger] self.lists@[i]@.len()
                <= MAX_CONTRIBUTIONS by {
                lemma_grid_index_inverse(w as int, h as int, nb as int, i);
                let b2 = i / ((w as int) * (h as int));
                let rem = i % ((w as int) * (h as int));
                let y2 = rem / (w as int);
                let x2 = rem % (w as int);
                assert(self.list_at(b2, y2, x2) == self.lists@[i]@);
                assert(old(self).lists@[i]@ == old(self).list_at(b2, y2, x2));
                if y2 == y && x2 == x {
                    assert(old(self).list_at(b2, y as int, x as int).len() < MAX_CONTRIBUTIONS);
                }
            }
        }
    }

    /// The median so far of one band of one pixel.
    pub fn get(&self, x: usize, y: usize, band: usize) -> (r: u32)
        requires
            self.wf(),
            x < self.width,
            y < self.height,
            band < self.num_bands,
        ensures
            r as int == spec_median_of(self.list_at(band as int, y as int, x as int)),
            r <= MAX_SAMPLE,
    {
        let idx = grid_index(self.width, self.height, self.num_bands, band, y, x);
        median_of_vec(&self.lists[idx])
    }

    /// Pairwise merge: concatenate the sample lists cell by cell.
    #[verifier::loop_isolation(false)]
    pub fn add_other(&mut self, other: &MedianStackBuffer)
        requires
            old(self).wf(),
            other.wf(),
            old(self).same_shape(other),
            forall|i: int|
                0 <= i < old(self).lists@.len() ==> #[trigger] old(self).lists@[i]@.len()
                    + other.lists@[i]@.len() <= MAX_CONTRIBUTIONS,
        ensures
            final(self).wf(),
            final(self).same_shape(old(self)),
            forall|b2: int, y2: int, x2: int|
                final(self).cell_in_range(b2, y2, x2) ==> #[trigger] final(self).list_at(b2, y2, x2)
                    == old(self).list_at(b2, y2, x2) + other.list_at(b2, y2, x2),
    {
        let w = self.width;
        let h = self.height;
        let nb = self.num_bands;
        let n = self.lists.len();
        let mut i: usize = 0;
        while i < n
            invariant
                i <= n,
                n == old(self).lists@.len(),
                self.width == old(self).width,
                self.height == old(self).height,
                self.num_bands == old(self).num_bands,
                self.lists@.len() == n,
                forall|j: int|
                    0 <= j < i ==> #[trigger] self.lists@[j]@ == old(self).lists@[j]@
                        + other.lists@[j]@,
                forall|j: int| i <= j < n ==> #[trigger] self.lists@[j]@ == old(self).lists@[j]@,
            decreases n - i,
        {
            let olen = other.lists[i].len();
            let mut k: usize = 0;
            while k < olen
                invariant
                    k <= olen,
                    i < n,
                    olen == other.lists@[i as int]@.len(),
                    self.lists@.len() == n,
                    self.width == old(self).width,
                    self.height == old(self).height,
                    self.num_bands == old(self).num_bands,
                    forall|j: int|
                        0 <= j < i ==> #[trigger] self.lists@[j]@ == old(self).lists@[j]@
                            + other.lists@[j]@,
                    forall|j: int| i < j < n ==> #[trigger] self.lists@[j]@ == old(
                        self,
                    ).lists@[j]@,
                    self.lists@[i as int]@ == old(self).lists@[i as int]@
                        + other.lists@[i as int]@.subrange(0, k as int),
                decreases olen - k,
            {
                let v: u32 = other.lists[i][k];
                self.lists[i].push(v);
                proof {
                    assert(other.lists@[i as int]@.subrange(0, k as int + 1)
                        =~= other.lists@[i as int]@.subrange(0, k as int).push(v));
                }
                k += 1;
            }
            proof {
                assert(other.lists@[i as int]@.subrange(0, olen as int) =~= other.lists@[
                    i as int
                ]@);
            }
            i += 1;
        }
        proof {
            assert forall|b2: int, y2: int, x2: int|
                self.cell_in_range(b2, y2, x2) implies #[trigger] self.list_at(b2, y2, x2) == old(
                self,
            ).list_at(b2, y2, x2) + other.list_at(b2, y2, x2) by {
                lemma_cell_index_bound(w as int, h as int, nb as int, b2, y2, x2);
            }
        }
    }

    /// The exact per-pixel medians across all contributed samples. A cell no
    /// frame reached medians to zero.
    #[verifier::loop_isolation(false)]
    pub fn get_finalized(&self) -> (r: Image)
        requires
            self.wf(),
        ensures
            r.wf(),
            r.spec_width() == self.width,
            r.spec_height() == self.height,
            r.spec_num_bands() == self.num_bands,
            forall|b: int, y: int, x: int|
                self.cell_in_range(b, y, x) ==> #[trigger] r.spec_get(b, y, x) as int
                    == spec_median_of(self.list_at(b, y, x)),
    {
        let w = self.width;
        let h = self.height;
        let nb = self.num_bands;
        let mut img = Image::new_with_bands(w, h, nb);
        let mut b: usize = 0;
        while b < nb
            invariant
                b <= nb,
                img.wf(),
                img.spec_width() == w && img.spec_height() == h && img.spec_num_bands() == nb,
                forall|b2: int, y2: int, x2: int|
                    self.cell_in_range(b2, y2, x2) && b2 < b ==> #[trigger] img.spec_get(
                        b2,
                        y2,
                        x2,
                    ) as int == spec_median_of(self.list_at(b2, y2, x2)),
            decreases nb - b,
        {
            let mut y: usize = 0;
            while y < h
                invariant
                    b < nb,
                    y <= h,
                    img.wf(),
                    img.spec_width() == w && img.spec_height() == h && img.spec_num_bands() == nb,
                    forall|b2: int, y2: int, x2: int|
                        self.cell_in_range(b2, y2, x2) && (b2 < b || (b2 == b && y2 < y))
                            ==> #[trigger] img.spec_get(b2, y2, x2) as int == spec_median_of(
                            self.list_at(b2, y2, x2),
                        ),
                decreases h - y,
            {
                let mut x: usize = 0;
                while x < w
                    invariant
                        b < nb,
                        y < h,
                        x <= w,
                        img.wf(),
                        img.spec_width() == w && img.spec_height() == h && img.spec_num_bands()
                            == nb,
                        forall|b2: int, y2: int, x2: int|
                            self.cell_in_range(b2, y2, x2) && (b2 < b || (b2 == b && y2 < y) || (b2
                                == b && y2 == y && x2 < x)) ==> #[trigger] img.spec_get(
                                b2,
                                y2,
                                x2,
                            ) as int == spec_median_of(self.list_at(b2, y2, x2)),
                    decreases w - x,
                {
                    let m = self.get(x, y, b);
                    img.put(b, y, x, m);
                    x += 1;
                }
                y += 1;
            }
            b += 1;
        }
        img
    }
}

} // verus!

verus! {

/// Back-map an output coordinate to the input grid, Q16: the output position
/// scaled by `in_dim / out_dim`, rounded down.
pub open spec fn spec_back_map(out_c: int, out_dim: int, in_dim: int) -> int {
    (out_c * in_dim * 65536) / out_dim
}

/// The horizontal input position for a back-mapped point: rotated about the
/// frame center, recentered, then shifted against the frame's translation
/// offset. The rotation convention is the resampler's own: the new x picks up
/// `+sin` from y and the new y picks up `-sin` from x, i.e. a positive angle
/// turns the sampling grid clockwise in image coordinates (y down).
pub open spec fn spec_map_x(bx: int, by: int, fw: int, fh: int, trig: RotationTrig, off: Offset) -> int {
    let cx = bx - (fw / 2) * 65536;
    let cy = by - (fh / 2) * 65536;
    (cx * trig.cos + cy * trig.sin) / 65536 + (fw / 2) * 65536 - off.h
}

/// The vertical input position for a back-mapped point.
pub open spec fn spec_map_y(bx: int, by: int, fw: int, fh: int, trig: RotationTrig, off: Offset) -> int {
    let cx = bx - (fw / 2) * 65536;
    let cy = by - (fh / 2) * 65536;
    (cy * trig.cos - cx * trig.sin) / 65536 + (fh / 2) * 65536 - off.v
}

/// A Q16 position can be sampled from a `fw` by `fh` grid: nonnegative,
/// inside the grid, and where it has a fractional part the neighbor it blends
/// with exists too.
pub open spec fn spec_samplable_px(fw: int, fh: int, fx: int, fy: int) -> bool {
    &&& 0 <= fx
    &&& 0 <= fy
    &&& fx / 65536 < fw
    &&& fy / 65536 < fh
    &&& (fx % 65536 == 0 || fx / 65536 + 1 < fw)
    &&& (fy % 65536 == 0 || fy / 65536 + 1 < fh)
}

/// The same, read off a buffer's geometry.
pub open spec fn spec_samplable(img: &Image, fx: int, fy: int) -> bool {
    spec_samplable_px(img.width as int, img.height as int, fx, fy)
}

/// A buffer's samples as a band-indexed pixel function.
pub open spec fn spec_image_px(img: &Image) -> spec_fn(int, int, int) -> int {
    |b: int, y: int, x: int| img.spec_get(b, y, x) as int
}

/// Bilinear blend of the up-to-four neighbors of a samplable Q16 position,
/// rounded down, over a band-indexed pixel function.
pub open spec fn spec_bilinear_px(
    px: spec_fn(int, int, int) -> int,
    band: int,
    fx: int,
    fy: int,
) -> int {
    let xf = fx / 65536;
    let yf = fy / 65536;
    let xfrac = fx % 65536;
    let yfrac = fy % 65536;
    let xc = if xfrac > 0 { xf + 1 } else { xf };
    let yc = if yfrac > 0 { yf + 1 } else { yf };
    let v00 = px(band, yf, xf);
    let v01 = px(band, yf, xc);
    let v10 = px(band, yc, xf);
    let v11 = px(band, yc, xc);
    let v0 = v00 * (65536 - yfrac) + v10 * yfrac;
    let v1 = v01 * (65536 - yfrac) + v11 * yfrac;
    (v0 * (65536 - xfrac) + v1 * xfrac) / 0x1_0000_0000
}

/// The same, read off a buffer.
pub open spec fn spec_bilinear(img: &Image, band: int, fx: int, fy: int) -> int {
    spec_bilinear_px(spec_image_px(img), band, fx, fy)
}

/// What one band of a frame adds at a back-mapped output position: zero when
/// the mapping leaves the input grid or the transformed point cannot be
/// sampled. The frame is a pixel function with its geometry.
pub open spec fn spec_raw_sample_px(
    px: spec_fn(int, int, int) -> int,
    fw: int,
    fh: int,
    in_w: int,
    in_h: int,
    out_w: int,
    out_h: int,
    trig: RotationTrig,
    off: Offset,
    x: int,
    y: int,
    band: int,
) -> int {
    let bx = spec_back_map(x, out_w, in_w);
    let by = spec_back_map(y, out_h, in_h);
    if bx < in_w * 65536 && by < in_h * 65536 {
        let fx = spec_map_x(bx, by, fw, fh, trig, off);
        let fy = spec_map_y(bx, by, fw, fh, trig, off);
        if spec_samplable_px(fw, fh, fx, fy) {
            spec_bilinear_px(px, band, fx, fy)
        } else {
            0
        }
    } else {
        0
    }
}

/// The same, read off a buffer.
pub open spec fn spec_raw_sample(
    frame: &Image,
    in_w: int,
    in_h: int,
    out_w: int,
    out_h: int,
    trig: RotationTrig,
    off: Offset,
    x: int,
    y: int,
    band: int,
) -> int {
    spec_raw_sample_px(
        spec_image_px(frame),
        frame.width as int,
        frame.height as int,
        in_w,
        in_h,
        out_w,
        out_h,
        trig,
        off,
        x,
        y,
        band,
    )
}

/// The value accumulated into output band `b`: a monochrome frame replicates
/// its single band, a multi-band frame contributes band for band, and a band
/// the frame does not carry contributes zero. The frame is a pixel function
/// with its geometry and band count.
pub open spec fn spec_contribution_px(
    px: spec_fn(int, int, int) -> int,
    fw: int,
    fh: int,
    fnb: int,
    in_w: int,
    in_h: int,
    out_w: int,
    out_h: int,
    trig: RotationTrig,
    off: Offset,
    x: int,
    y: int,
    b: int,
) -> int {
    if fnb == 1 {
        spec_raw_sample_px(px, fw, fh, in_w, in_h, out_w, out_h, trig, off, x, y, 0)
    } else if b < fnb {
        spec_raw_sample_px(px, fw, fh, in_w, in_h, out_w, out_h, trig, off, x, y, b)
    } else {
        0
    }
}

/// The same, read off a buffer.
pub open spec fn spec_contribution(
    frame: &Image,
    in_w: int,
    in_h: int,
    out_w: int,
    out_h: int,
    trig: RotationTrig,
    off: Offset,
    x: int,
    y: int,
    b: int,
) -> int {
    spec_contribution_px(
        spec_image_px(frame),
        frame.width as int,
        frame.height as int,
        frame.num_bands as int,
        in_w,
        in_h,
        out_w,
        out_h,
        trig,
        off,
        x,
        y,
        b,
    )
}

/// A contribution reads only in-grid pixels: two pixel functions that agree
/// inside the geometry contribute identically.
pub proof fn lemma_contribution_px_congruence(
    px1: spec_fn(int, int, int) -> int,
    px2: spec_fn(int, int, int) -> int,
    fw: int,
    fh: int,
    fnb: int,
    in_w: int,
    in_h: int,
    out_w: int,
    out_h: int,
    trig: RotationTrig,
    off: Offset,
    x: int,
    y: int,
    b: int,
)
    requires
        1 <= fnb,
        0 <= b,
        forall|bb: int, yy: int, xx: int|
            0 <= bb < fnb && 0 <= yy < fh && 0 <= xx < fw ==> #[trigger] px1(bb, yy, xx) == px2(
                bb,
                yy,
                xx,
            ),
    ensures
        spec_contribution_px(px1, fw, fh, fnb, in_w, in_h, out_w, out_h, trig, off, x, y, b)
            == spec_contribution_px(px2, fw, fh, fnb, in_w, in_h, out_w, out_h, trig, off, x, y, b),
{
    let band: int = if fnb == 1 {
        0
    } else {
        b
    };
    if fnb == 1 || b < fnb {
        let bx = spec_back_map(x, out_w, in_w);
        let by = spec_back_map(y, out_h, in_h);
        let fx = spec_map_x(bx, by, fw, fh, trig, off);
        let fy = spec_map_y(bx, by, fw, fh, trig, off);
        if bx < in_w * 65536 && by < in_h * 65536 && spec_samplable_px(fw, fh, fx, fy) {
            vstd::arithmetic::div_mod::lemma_div_pos_is_pos(fx, 65536);
            vstd::arithmetic::div_mod::lemma_div_pos_is_pos(fy, 65536);
            vstd::arithmetic::div_mod::lemma_mod_pos_bound(fx, 65536);
            vstd::arithmetic::div_mod::lemma_mod_pos_bound(fy, 65536);
            let xf = fx / 65536;
            let yf = fy / 65536;
            let xc = if fx % 65536 > 0 {
                xf + 1
            } else {
                xf
            };
            let yc = if fy % 65536 > 0 {
                yf + 1
            } else {
                yf
            };
            assert(px1(band, yf, xf) == px2(band, yf, xf));
            assert(px1(band, yf, xc) == px2(band, yf, xc));
            assert(px1(band, yc, xf) == px2(band, yc, xf));
            assert(px1(band, yc, xc) == px2(band, yc, xc));
        }
    }
}

/// Whether output pixel (x, y) survives the global output shift: skipped when
/// its shifted position leaves the output grid, neither wrapped nor clamped.
pub open spec fn spec_written(x: int, y: int, hoff: int, voff: int, out_w: int, out_h: int) -> bool {
    &&& 0 <= x + hoff < out_w
    &&& 0 <= y + voff < out_h
}

/// Whatever a frame contributes at an output cell is a sample value: zero
/// for an unreachable position, otherwise a blend of samples.
pub proof fn lemma_contribution_bounds(
    frame: &Image,
    in_w: int,
    in_h: int,
    out_w: int,
    out_h: int,
    trig: RotationTrig,
    off: Offset,
    x: int,
    y: int,
    b: int,
)
    requires
        frame.wf(),
        0 <= b,
    ensures
        0 <= spec_contribution(frame, in_w, in_h, out_w, out_h, trig, off, x, y, b) <= MAX_SAMPLE,
{
    let bx = spec_back_map(x, out_w, in_w);
    let by = spec_back_map(y, out_h, in_h);
    let fx = spec_map_x(bx, by, frame.width as int, frame.height as int, trig, off);
    let fy = spec_map_y(bx, by, frame.width as int, frame.height as int, trig, off);
    if bx < in_w * 65536 && by < in_h * 65536 && spec_samplable(frame, fx, fy) {
        if frame.num_bands == 1 {
            lemma_bilinear_bounds(frame, 0, fx, fy);
        } else if b < frame.num_bands {
            lemma_bilinear_bounds(frame, b, fx, fy);
        }
    }
}

/// Floor division of a Q16 quantity, exact also for negative values.
pub fn floor_div_q16(n: i64) -> (r: i64)
    requires
        -0x1000_0000_0000_0000 <= n <= 0x1000_0000_0000_0000,
    ensures
        r as int == (n as int) / 65536,
{
    proof {
        vstd::arithmetic::div_mod::lemma_hoist_over_denominator(
            n as int,
            0x1000_0000_0000,
            65536nat,
        );
    }
    (n + 0x1000_0000_0000_0000) / 65536 - 0x1000_0000_0000
}

/// Back-map one output coordinate, Q16.
fn back_map_exec(out_c: usize, out_dim: usize, in_dim: usize) -> (r: i64)
    requires
        out_c < out_dim,
        1 <= in_dim <= MAX_DIM,
        out_dim <= 3 * MAX_DIM,
    ensures
        r as int == spec_back_map(out_c as int, out_dim as int, in_dim as int),
        0 <= r < (in_dim as int) * 65536,
{
    proof {
        assert((out_c as int) * (in_dim as int) * 65536 < 0x1000_0000_0000_0000 && (out_c as int)
            * (in_dim as int) * 65536 < (out_dim as int) * ((in_dim as int) * 65536))
            by (nonlinear_arith)
            requires
                out_c < out_dim,
                1 <= in_dim <= 23000,
                out_dim <= 69000,
        ;
    }
    let num: i64 = (out_c as i64) * (in_dim as i64) * 65536;
    let r = num / (out_dim as i64);
    proof {
        vstd::arithmetic::div_mod::lemma_multiply_divide_lt(
            num as int,
            out_dim as int,
            (in_dim as int) * 65536,
        );
        vstd::arithmetic::div_mod::lemma_div_pos_is_pos(num as int, out_dim as int);
    }
    r
}

/// Two blends of values at most `m`, by weights that sum to 65536, stay at
/// most `m * 65536`.
proof fn lemma_blend_bound(a: int, b: int, t: int, m: int)
    requires
        0 <= a <= m,
        0 <= b <= m,
        0 <= t <= 65536,
    ensures
        0 <= a * (65536 - t) + b * t <= m * 65536,
{
    assert(0 <= a * (65536 - t) + b * t <= m * 65536) by (nonlinear_arith)
        requires
            0 <= a <= m,
            0 <= b <= m,
            0 <= t <= 65536,
    ;
}

/// A samplable position blends to a value inside the sample range.
pub proof fn lemma_bilinear_bounds(img: &Image, band: int, fx: int, fy: int)
    requires
        img.wf(),
        0 <= band < img.num_bands,
        spec_samplable(img, fx, fy),
    ensures
        0 <= spec_bilinear(img, band, fx, fy) <= MAX_SAMPLE,
{
    let xf = fx / 65536;
    let yf = fy / 65536;
    let xfrac = fx % 65536;
    let yfrac = fy % 65536;
    let xc = if xfrac > 0 { xf + 1 } else { xf };
    let yc = if yfrac > 0 { yf + 1 } else { yf };
    vstd::arithmetic::div_mod::lemma_div_pos_is_pos(fx, 65536);
    vstd::arithmetic::div_mod::lemma_div_pos_is_pos(fy, 65536);
    vstd::arithmetic::div_mod::lemma_mod_pos_bound(fx, 65536);
    vstd::arithmetic::div_mod::lemma_mod_pos_bound(fy, 65536);
    let v00 = img.spec_get(band, yf, xf) as int;
    let v01 = img.spec_get(band, yf, xc) as int;
    let v10 = img.spec_get(band, yc, xf) as int;
    let v11 = img.spec_get(band, yc, xc) as int;
    lemma_cell_index_bound(img.width as int, img.height as int, img.num_bands as int, band, yf, xf);
    lemma_cell_index_bound(img.width as int, img.height as int, img.num_bands as int, band, yf, xc);
    lemma_cell_index_bound(img.width as int, img.height as int, img.num_bands as int, band, yc, xf);
    lemma_cell_index_bound(img.width as int, img.height as int, img.num_bands as int, band, yc, xc);
    lemma_blend_bound(v00, v10, yfrac, MAX_SAMPLE as int);
    lemma_blend_bound(v01, v11, yfrac, MAX_SAMPLE as int);
    let v0 = v00 * (65536 - yfrac) + v10 * yfrac;
    let v1 = v01 * (65536 - yfrac) + v11 * yfrac;
    lemma_blend_bound(v0, v1, xfrac, (MAX_SAMPLE as int) * 65536);
    assert((MAX_SAMPLE as int) * 65536 * 65536 == (MAX_SAMPLE as int) * 0x1_0000_0000)
        by (nonlinear_arith);
    assert(0 <= (v0 * (65536 - xfrac) + v1 * xfrac) / 0x1_0000_0000 <= MAX_SAMPLE)
        by (nonlinear_arith)
        requires
            0 <= v0 * (65536 - xfrac) + v1 * xfrac <= (MAX_SAMPLE as int) * 0x1_0000_0000,
    ;
}

/// Sample one band of a frame at a Q16 position; zero where the position
/// cannot be sampled.
fn sample_band(frame: &Image, band: usize, fx: i64, fy: i64) -> (r: u32)
    requires
        frame.wf(),
        band < frame.num_bands,
        -0x100_0000_0000 <= fx <= 0x100_0000_0000,
        -0x100_0000_0000 <= fy <= 0x100_0000_0000,
    ensures
        spec_samplable(frame, fx as int, fy as int) ==> r as int == spec_bilinear(
            frame,
            band as int,
            fx as int,
            fy as int,
        ),
        !spec_samplable(frame, fx as int, fy as int) ==> r == 0,
        r <= MAX_SAMPLE,
{
    if fx < 0 || fy < 0 {
        return 0;
    }
    let xf64: i64 = fx / 65536;
    let yf64: i64 = fy / 65536;
    let xfrac: i64 = fx % 65536;
    let yfrac: i64 = fy % 65536;
    proof {
        vstd::arithmetic::div_mod::lemma_div_pos_is_pos(fx as int, 65536);
        vstd::arithmetic::div_mod::lemma_div_pos_is_pos(fy as int, 65536);
        vstd::arithmetic::div_mod::lemma_mod_pos_bound(fx as int, 65536);
        vstd::arithmetic::div_mod::lemma_mod_pos_bound(fy as int, 65536);
    }
    if xf64 >= frame.width as i64 || yf64 >= frame.height as i64 {
        return 0;
    }
    if xfrac != 0 && xf64 + 1 >= frame.width as i64 {
        return 0;
    }
    if yfrac != 0 && yf64 + 1 >= frame.height as i64 {
        return 0;
    }
    let xf = xf64 as usize;
    let yf = yf64 as usize;
    let xc: usize = if xfrac > 0 {
        xf + 1
    } else {
        xf
    };
    let yc: usize = if yfrac > 0 {
        yf + 1
    } else {
        yf
    };
    let v00 = frame.get(band, yf, xf) as u64;
    let v01 = frame.get(band, yf, xc) as u64;
    let v10 = frame.get(band, yc, xf) as u64;
    let v11 = frame.get(band, yc, xc) as u64;
    let yfrac_u = yfrac as u64;
    let xfrac_u = xfrac as u64;
    proof {
        lemma_blend_bound(v00 as int, v10 as int, yfrac as int, MAX_SAMPLE as int);
        lemma_blend_bound(v01 as int, v11 as int, yfrac as int, MAX_SAMPLE as int);
    }
    let v0: u64 = v00 * (65536 - yfrac_u) + v10 * yfrac_u;
    let v1: u64 = v01 * (65536 - yfrac_u) + v11 * yfrac_u;
    proof {
        lemma_blend_bound(v0 as int, v1 as int, xfrac as int, (MAX_SAMPLE as int) * 65536);
        lemma_bilinear_bounds(frame, band as int, fx as int, fy as int);
        assert((MAX_SAMPLE as int) * 65536 * 65536 == (MAX_SAMPLE as int) * 0x1_0000_0000)
            by (nonlinear_arith);
    }
    let num: u64 = v0 * (65536 - xfrac_u) + v1 * xfrac_u;
    (num / 0x1_0000_0000) as u32
}

/// The resampled values for one output pixel, one slot per output band.
fn compute_contribution(
    frame: &Image,
    in_w: usize,
    in_h: usize,
    out_w: usize,
    out_h: usize,
    trig: &RotationTrig,
    off: &Offset,
    x: usize,
    y: usize,
) -> (r: [u32; 3])
    requires
        frame.wf(),
        trig.bounded(),
        -0x1_0000_0000 <= off.h <= 0x1_0000_0000,
        -0x1_0000_0000 <= off.v <= 0x1_0000_0000,
        1 <= in_w <= MAX_DIM,
        1 <= in_h <= MAX_DIM,
        x < out_w,
        y < out_h,
        out_w <= 3 * MAX_DIM,
        out_h <= 3 * MAX_DIM,
    ensures
        forall|b: int|
            0 <= b < 3 ==> #[trigger] r@[b] as int == spec_contribution(
                frame,
                in_w as int,
                in_h as int,
                out_w as int,
                out_h as int,
                *trig,
                *off,
                x as int,
                y as int,
                b,
            ),
        forall|b: int| 0 <= b < 3 ==> #[trigger] r@[b] <= MAX_SAMPLE,
{
    let bx = back_map_exec(x, out_w, in_w);
    let by = back_map_exec(y, out_h, in_h);
    // The back-mapped position always lies inside the input grid here; the
    // guard mirrors the mapping's stated domain.
    if bx >= (in_w as i64) * 65536 || by >= (in_h as i64) * 65536 {
        return [0, 0, 0];
    }
    let fw = frame.width();
    let fh = frame.height();
    let half_w: i64 = (fw as i64 / 2) * 65536;
    let half_h: i64 = (fh as i64 / 2) * 65536;
    let cx: i64 = bx - half_w;
    let cy: i64 = by - half_h;
    proof {
        assert(-0x1_0000_0000 <= cx <= 0x1_0000_0000 && -0x1_0000_0000 <= cy <= 0x1_0000_0000);
        let cxi = cx as int;
        let cyi = cy as int;
        assert(-0x1_0000_0000_0000 <= cxi * trig.cos <= 0x1_0000_0000_0000 && -0x1_0000_0000_0000
            <= cyi * trig.sin <= 0x1_0000_0000_0000 && -0x1_0000_0000_0000 <= cyi * trig.cos
            <= 0x1_0000_0000_0000 && -0x1_0000_0000_0000 <= cxi * trig.sin <= 0x1_0000_0000_0000)
            by (nonlinear_arith)
            requires
                -0x1_0000_0000 <= cxi <= 0x1_0000_0000,
                -0x1_0000_0000 <= cyi <= 0x1_0000_0000,
                -65536 <= trig.cos <= 65536,
                -65536 <= trig.sin <= 65536,
        ;
    }
    let rot_x: i64 = floor_div_q16(cx * trig.cos + cy * trig.sin);
    let rot_y: i64 = floor_div_q16(cy * trig.cos - cx * trig.sin);
    proof {
        vstd::arithmetic::div_mod::lemma_div_is_ordered(
            -0x2_0000_0000_0000,
            (cx as int) * trig.cos + (cy as int) * trig.sin,
            65536,
        );
        vstd::arithmetic::div_mod::lemma_div_is_ordered(
            (cx as int) * trig.cos + (cy as int) * trig.sin,
            0x2_0000_0000_0000,
            65536,
        );
        vstd::arithmetic::div_mod::lemma_div_is_ordered(
            -0x2_0000_0000_0000,
            (cy as int) * trig.cos - (cx as int) * trig.sin,
            65536,
        );
        vstd::arithmetic::div_mod::lemma_div_is_ordered(
            (cy as int) * trig.cos - (cx as int) * trig.sin,
            0x2_0000_0000_0000,
            65536,
        );
        assert(0x2_0000_0000_0000int / 65536int == 0x2_0000_0000int);
        assert((-0x2_0000_0000_0000int) / 65536int == -0x2_0000_0000int);
    }
    let fx: i64 = rot_x + half_w - off.h;
    let fy: i64 = rot_y + half_h - off.v;
    let s0 = sample_band(frame, 0, fx, fy);
    if frame.num_bands() == 1 {
        [s0, s0, s0]
    } else if frame.num_bands() == 2 {
        let s1 = sample_band(frame, 1, fx, fy);
        [s0, s1, 0]
    } else {
        let s1 = sample_band(frame, 1, fx, fy);
        let s2 = sample_band(frame, 2, fx, fy);
        [s0, s1, s2]
    }
}

} // verus!

verus! {

/// The tagged union over the three accumulation strategies: one call site for
/// put, merge and finalize, whichever strategy a run selected.
#[derive(Debug, Clone)]
pub enum StackAlgorithmImpl {
    Average(AverageStackBuffer),
    Median(MedianStackBuffer),
    Minimum(MinimumStackBuffer),
}

impl StackAlgorithmImpl {
    pub open spec fn kind(&self) -> StackAlgorithm {
        match self {
            StackAlgorithmImpl::Average(_) => StackAlgorithm::Average,
            StackAlgorithmImpl::Median(_) => StackAlgorithm::Median,
            StackAlgorithmImpl::Minimum(_) => StackAlgorithm::Minimum,
        }
    }

    pub open spec fn wf(&self) -> bool {
        match self {
            StackAlgorithmImpl::Average(a) => a.wf(),
            StackAlgorithmImpl::Median(m) => m.wf(),
            StackAlgorithmImpl::Minimum(m) => m.wf(),
        }
    }

    pub open spec fn spec_w(&self) -> int {
        match self {
            StackAlgorithmImpl::Average(a) => a.width as int,
            StackAlgorithmImpl::Median(m) => m.width as int,
            StackAlgorithmImpl::Minimum(m) => m.buffer.width as int,
        }
    }

    pub open spec fn spec_h(&self) -> int {
        match self {
            StackAlgorithmImpl::Average(a) => a.height as int,
            StackAlgorithmImpl::Median(m) => m.height as int,
            StackAlgorithmImpl::Minimum(m) => m.buffer.height as int,
        }
    }

    pub open spec fn spec_nb(&self) -> int {
        match self {
            StackAlgorithmImpl::Average(a) => a.num_bands as int,
            StackAlgorithmImpl::Median(m) => m.num_bands as int,
            StackAlgorithmImpl::Minimum(m) => m.num_bands as int,
        }
    }

    /// A freshly constructed accumulator: nothing contributed anywhere.
    pub open spec fn is_fresh(&self) -> bool {
        match self {
            StackAlgorithmImpl::Average(a) => {
                &&& forall|b: int, y: int, x: int|
                    a.cell_in_range(b, y, x) ==> #[trigger] a.sum_at(b, y, x) == 0
                &&& forall|y: int, x: int|
                    0 <= y < a.height && 0 <= x < a.width ==> #[trigger] a.div_at(y, x) == 0
            },
            StackAlgorithmImpl::Median(m) => {
                forall|b: int, y: int, x: int|
                    m.cell_in_range(b, y, x) ==> #[trigger] m.list_at(b, y, x)
                        == Seq::<u32>::empty()
            },
            StackAlgorithmImpl::Minimum(m) => {
                forall|b: int, y: int, x: int|
                    m.cell_in_range(b, y, x) ==> #[trigger] m.min_at(b, y, x) == 0
            },
        }
    }

    /// A fresh accumulator of the selected strategy.
    pub fn new_for(algorithm: StackAlgorithm, width: usize, height: usize, num_bands: usize) -> (r:
        StackAlgorithmImpl)
        requires
            1 <= num_bands <= 3,
            1 <= width <= MAX_DIM,
            1 <= height <= MAX_DIM,
        ensures
            r.wf(),
            r.is_fresh(),
            r.kind() == algorithm,
            r.spec_w() == width,
            r.spec_h() == height,
            r.spec_nb() == num_bands,
    {
        match algorithm {
            StackAlgorithm::Average => StackAlgorithmImpl::Average(
                AverageStackBuffer::new(width, height, num_bands),
            ),
            StackAlgorithm::Median => StackAlgorithmImpl::Median(
                MedianStackBuffer::new(width, height, num_bands),
            ),
            StackAlgorithm::Minimum => StackAlgorithmImpl::Minimum(
                MinimumStackBuffer::new(width, height, num_bands),
            ),
        }
    }

    pub fn num_bands(&self) -> (r: usize)
        ensures
            r == self.spec_nb(),
    {
        match self {
            StackAlgorithmImpl::Average(a) => a.num_bands,
            StackAlgorithmImpl::Median(m) => m.num_bands,
            StackAlgorithmImpl::Minimum(m) => m.num_bands,
        }
    }
}

/// Resample one frame onto an average accumulator: every surviving output
/// pixel receives one contribution per band.
#[verifier::loop_isolation(false)]
fn drizzle_add_average(
    acc: &mut AverageStackBuffer,
    frame: &Image,
    trig: &RotationTrig,
    off: &Offset,
    in_w: usize,
    in_h: usize,
    hoff: i64,
    voff: i64,
)
    requires
        old(acc).wf(),
        frame.wf(),
        trig.bounded(),
        -0x1_0000_0000 <= off.h <= 0x1_0000_0000,
        -0x1_0000_0000 <= off.v <= 0x1_0000_0000,
        -0x1_0000_0000 <= hoff <= 0x1_0000_0000,
        -0x1_0000_0000 <= voff <= 0x1_0000_0000,
        1 <= in_w <= MAX_DIM,
        1 <= in_h <= MAX_DIM,
        forall|y: int, x: int|
            0 <= y < old(acc).height && 0 <= x < old(acc).width ==> #[trigger] old(acc).div_at(y, x)
                < MAX_CONTRIBUTIONS,
    ensures
        final(acc).wf(),
        final(acc).same_shape(old(acc)),
        forall|b2: int, y2: int, x2: int|
            final(acc).cell_in_range(b2, y2, x2) ==> #[trigger] final(acc).sum_at(b2, y2, x2)
                == old(acc).sum_at(b2, y2, x2) + (if spec_written(
                x2,
                y2,
                hoff as int,
                voff as int,
                old(acc).width as int,
                old(acc).height as int,
            ) {
                spec_contribution(
                    frame,
                    in_w as int,
                    in_h as int,
                    old(acc).width as int,
                    old(acc).height as int,
                    *trig,
                    *off,
                    x2,
                    y2,
                    b2,
                )
            } else {
                0
            }),
        forall|y2: int, x2: int|
            0 <= y2 < final(acc).height && 0 <= x2 < final(acc).width ==> #[trigger] final(acc).div_at(y2, x2) == old(acc).div_at(y2, x2) + (if spec_written(
                x2,
                y2,
                hoff as int,
                voff as int,
                old(acc).width as int,
                old(acc).height as int,
            ) {
                1int
            } else {
                0int
            }),
{
    let out_w = acc.width;
    let out_h = acc.height;
    let mut y: usize = 0;
    while y < out_h
        invariant
            y <= out_h,
            acc.wf(),
            acc.same_shape(old(acc)),
            forall|b2: int, y2: int, x2: int|
                old(acc).cell_in_range(b2, y2, x2) ==> #[trigger] acc.sum_at(b2, y2, x2) == old(acc).sum_at(b2, y2, x2) + (if y2 < y && spec_written(
                    x2,
                    y2,
                    hoff as int,
                    voff as int,
                    out_w as int,
                    out_h as int,
                ) {
                    spec_contribution(
                        frame,
                        in_w as int,
                        in_h as int,
                        out_w as int,
                        out_h as int,
                        *trig,
                        *off,
                        x2,
                        y2,
                        b2,
                    )
                } else {
                    0
                }),
            forall|y2: int, x2: int|
                0 <= y2 < out_h && 0 <= x2 < out_w ==> #[trigger] acc.div_at(y2, x2) == old(acc).div_at(y2, x2) + (if y2 < y && spec_written(
                    x2,
                    y2,
                    hoff as int,
                    voff as int,
                    out_w as int,
                    out_h as int,
                ) {
                    1int
                } else {
                    0int
                }),
        decreases out_h - y,
    {
        let mut x: usize = 0;
        while x < out_w
            invariant
                y < out_h,
                x <= out_w,
                acc.wf(),
                acc.same_shape(old(acc)),
                forall|b2: int, y2: int, x2: int|
                    old(acc).cell_in_range(b2, y2, x2) ==> #[trigger] acc.sum_at(b2, y2, x2) == old(acc).sum_at(b2, y2, x2) + (if (y2 < y || (y2 == y && x2 < x)) && spec_written(
                        x2,
                        y2,
                        hoff as int,
                        voff as int,
                        out_w as int,
                        out_h as int,
                    ) {
                        spec_contribution(
                            frame,
                            in_w as int,
                            in_h as int,
                            out_w as int,
                            out_h as int,
                            *trig,
                            *off,
                            x2,
                            y2,
                            b2,
                        )
                    } else {
                        0
                    }),
                forall|y2: int, x2: int|
                    0 <= y2 < out_h && 0 <= x2 < out_w ==> #[trigger] acc.div_at(y2, x2) == old(acc).div_at(y2, x2) + (if (y2 < y || (y2 == y && x2 < x)) && spec_written(
                        x2,
                        y2,
                        hoff as int,
                        voff as int,
                        out_w as int,
                        out_h as int,
                    ) {
                        1int
                    } else {
                        0int
                    }),
            decreases out_w - x,
        {
            let vals = compute_contribution(frame, in_w, in_h, out_w, out_h, trig, off, x, y);
            let sx: i64 = x as i64 + hoff;
            let sy: i64 = y as i64 + voff;
            if 0 <= sx && sx < out_w as i64 && 0 <= sy && sy < out_h as i64 {
                acc.put(x, y, &vals);
            }
            x += 1;
        }
        y += 1;
    }
}

} // verus!

verus! {

/// Resample one frame onto a median accumulator: every surviving output pixel
/// appends one sample per band.
#[verifier::loop_isolation(false)]
fn drizzle_add_median(
    acc: &mut MedianStackBuffer,
    frame: &Image,
    trig: &RotationTrig,
    off: &Offset,
    in_w: usize,
    in_h: usize,
    hoff: i64,
    voff: i64,
)
    requires
        old(acc).wf(),
        frame.wf(),
        trig.bounded(),
        -0x1_0000_0000 <= off.h <= 0x1_0000_0000,
        -0x1_0000_0000 <= off.v <= 0x1_0000_0000,
        -0x1_0000_0000 <= hoff <= 0x1_0000_0000,
        -0x1_0000_0000 <= voff <= 0x1_0000_0000,
        1 <= in_w <= MAX_DIM,
        1 <= in_h <= MAX_DIM,
        forall|b2: int, y2: int, x2: int|
            old(acc).cell_in_range(b2, y2, x2) ==> #[trigger] old(acc).list_at(b2, y2, x2).len()
                < MAX_CONTRIBUTIONS,
    ensures
        final(acc).wf(),
        final(acc).same_shape(old(acc)),
        forall|b2: int, y2: int, x2: int|
            final(acc).cell_in_range(b2, y2, x2) ==> #[trigger] final(acc).list_at(b2, y2, x2)
                == (if spec_written(
                x2,
                y2,
                hoff as int,
                voff as int,
                old(acc).width as int,
                old(acc).height as int,
            ) {
                old(acc).list_at(b2, y2, x2).push(
                    spec_contribution(
                        frame,
                        in_w as int,
                        in_h as int,
                        old(acc).width as int,
                        old(acc).height as int,
                        *trig,
                        *off,
                        x2,
                        y2,
                        b2,
                    ) as u32,
                )
            } else {
                old(acc).list_at(b2, y2, x2)
            }),
{
    let out_w = acc.width;
    let out_h = acc.height;
    let mut y: usize = 0;
    while y < out_h
        invariant
            y <= out_h,
            acc.wf(),
            acc.same_shape(old(acc)),
            forall|b2: int, y2: int, x2: int|
                old(acc).cell_in_range(b2, y2, x2) ==> #[trigger] acc.list_at(b2, y2, x2) == (
                if y2 < y && spec_written(
                    x2,
                    y2,
                    hoff as int,
                    voff as int,
                    out_w as int,
                    out_h as int,
                ) {
                    old(acc).list_at(b2, y2, x2).push(
                        spec_contribution(
                            frame,
                            in_w as int,
                            in_h as int,
                            out_w as int,
                            out_h as int,
                            *trig,
                            *off,
                            x2,
                            y2,
                            b2,
                        ) as u32,
                    )
                } else {
                    old(acc).list_at(b2, y2, x2)
                }),
        decreases out_h - y,
    {
        let mut x: usize = 0;
        while x < out_w
            invariant
                y < out_h,
                x <= out_w,
                acc.wf(),
                acc.same_shape(old(acc)),
                forall|b2: int, y2: int, x2: int|
                    old(acc).cell_in_range(b2, y2, x2) ==> #[trigger] acc.list_at(b2, y2, x2) == (
                    if (y2 < y || (y2 == y && x2 < x)) && spec_written(
                        x2,
                        y2,
                        hoff as int,
                        voff as int,
                        out_w as int,
                        out_h as int,
                    ) {
                        old(acc).list_at(b2, y2, x2).push(
                            spec_contribution(
                                frame,
                                in_w as int,
                                in_h as int,
                                out_w as int,
                                out_h as int,
                                *trig,
                                *off,
                                x2,
                                y2,
                                b2,
                            ) as u32,
                        )
                    } else {
                        old(acc).list_at(b2, y2, x2)
                    }),
            decreases out_w - x,
        {
            let vals = compute_contribution(frame, in_w, in_h, out_w, out_h, trig, off, x, y);
            let sx: i64 = x as i64 + hoff;
            let sy: i64 = y as i64 + voff;
            if 0 <= sx && sx < out_w as i64 && 0 <= sy && sy < out_h as i64 {
                acc.put(x, y, &vals);
            }
            x += 1;
        }
        y += 1;
    }
}

/// Resample one frame onto a minimum accumulator: every surviving output
/// pixel folds in one value per band.
#[verifier::loop_isolation(false)]
fn drizzle_add_minimum(
    acc: &mut MinimumStackBuffer,
    frame: &Image,
    trig: &RotationTrig,
    off: &Offset,
    in_w: usize,
    in_h: usize,
    hoff: i64,
    voff: i64,
)
    requires
        old(acc).wf(),
        frame.wf(),
        trig.bounded(),
        -0x1_0000_0000 <= off.h <= 0x1_0000_0000,
        -0x1_0000_0000 <= off.v <= 0x1_0000_0000,
        -0x1_0000_0000 <= hoff <= 0x1_0000_0000,
        -0x1_0000_0000 <= voff <= 0x1_0000_0000,
        1 <= in_w <= MAX_DIM,
        1 <= in_h <= MAX_DIM,
    ensures
        final(acc).wf(),
        final(acc).same_shape(old(acc)),
        forall|b2: int, y2: int, x2: int|
            final(acc).cell_in_range(b2, y2, x2) ==> #[trigger] final(acc).min_at(b2, y2, x2) == (
            if spec_written(
                x2,
                y2,
                hoff as int,
                voff as int,
                old(acc).buffer.width as int,
                old(acc).buffer.height as int,
            ) {
                spec_min_put(
                    old(acc).min_at(b2, y2, x2),
                    spec_contribution(
                        frame,
                        in_w as int,
                        in_h as int,
                        old(acc).buffer.width as int,
                        old(acc).buffer.height as int,
                        *trig,
                        *off,
                        x2,
                        y2,
                        b2,
                    ),
                )
            } else {
                old(acc).min_at(b2, y2, x2)
            }),
{
    let out_w = acc.buffer.width();
    let out_h = acc.buffer.height();
    let mut y: usize = 0;
    while y < out_h
        invariant
            y <= out_h,
            acc.wf(),
            acc.same_shape(old(acc)),
            forall|b2: int, y2: int, x2: int|
                old(acc).cell_in_range(b2, y2, x2) ==> #[trigger] acc.min_at(b2, y2, x2) == (
                if y2 < y && spec_written(
                    x2,
                    y2,
                    hoff as int,
                    voff as int,
                    out_w as int,
                    out_h as int,
                ) {
                    spec_min_put(
                        old(acc).min_at(b2, y2, x2),
                        spec_contribution(
                            frame,
                            in_w as int,
                            in_h as int,
                            out_w as int,
                            out_h as int,
                            *trig,
                            *off,
                            x2,
                            y2,
                            b2,
                        ),
                    )
                } else {
                    old(acc).min_at(b2, y2, x2)
                }),
        decreases out_h - y,
    {
        let mut x: usize = 0;
        while x < out_w
            invariant
                y < out_h,
                x <= out_w,
                acc.wf(),
                acc.same_shape(old(acc)),
                forall|b2: int, y2: int, x2: int|
                    old(acc).cell_in_range(b2, y2, x2) ==> #[trigger] acc.min_at(b2, y2, x2) == (
                    if (y2 < y || (y2 == y && x2 < x)) && spec_written(
                        x2,
                        y2,
                        hoff as int,
                        voff as int,
                        out_w as int,
                        out_h as int,
                    ) {
                        spec_min_put(
                            old(acc).min_at(b2, y2, x2),
                            spec_contribution(
                                frame,
                                in_w as int,
                                in_h as int,
                                out_w as int,
                                out_h as int,
                                *trig,
                                *off,
                                x2,
                                y2,
                                b2,
                            ),
                        )
                    } else {
                        old(acc).min_at(b2, y2, x2)
                    }),
            decreases out_w - x,
        {
            let vals = compute_contribution(frame, in_w, in_h, out_w, out_h, trig, off, x, y);
            let sx: i64 = x as i64 + hoff;
            let sy: i64 = y as i64 + voff;
            if 0 <= sx && sx < out_w as i64 && 0 <= sy && sy < out_h as i64 {
                acc.put(x, y, &vals);
            }
            x += 1;
        }
        y += 1;
    }
}

} // verus!

verus! {

/// The scaled output edge an upscaling derives: the input edge times the
/// factor, rounded up.
pub open spec fn spec_scaled_dim(in_dim: int, scale: Scale) -> int {
    (in_dim * scale.spec_percent() + 99) / 100
}

/// The drizzle resampler: projects registered frames onto a possibly upscaled
/// output grid and folds each into the selected accumulator.
#[derive(Debug, Clone)]
pub struct BilinearDrizzle {
    pub in_width: usize,
    pub in_height: usize,
    pub out_width: usize,
    pub out_height: usize,
    pub buffer: StackAlgorithmImpl,
    pub frame_add_count: usize,
    pub horiz_offset: i64,
    pub vert_offset: i64,
}

impl BilinearDrizzle {
    /// No accumulator cell has received more contributions than frames were
    /// added.
    pub open spec fn count_ok(&self) -> bool {
        match self.buffer {
            StackAlgorithmImpl::Average(a) => forall|y: int, x: int|
                0 <= y < a.height && 0 <= x < a.width ==> #[trigger] a.div_at(y, x)
                    <= self.frame_add_count,
            StackAlgorithmImpl::Median(m) => forall|b: int, y: int, x: int|
                m.cell_in_range(b, y, x) ==> #[trigger] m.list_at(b, y, x).len()
                    <= self.frame_add_count,
            StackAlgorithmImpl::Minimum(_) => true,
        }
    }

    pub open spec fn wf(&self) -> bool {
        &&& self.buffer.wf()
        &&& self.buffer.spec_w() == self.out_width
        &&& self.buffer.spec_h() == self.out_height
        &&& 1 <= self.in_width <= MAX_DIM
        &&& 1 <= self.in_height <= MAX_DIM
        &&& self.frame_add_count <= MAX_CONTRIBUTIONS
        &&& -0x1_0000_0000 <= self.horiz_offset <= 0x1_0000_0000
        &&& -0x1_0000_0000 <= self.vert_offset <= 0x1_0000_0000
        &&& self.count_ok()
    }

    /// Wrap a fresh accumulator sized to the upscaled output grid.
    pub fn new(
        in_width: usize,
        in_height: usize,
        scale: Scale,
        horiz_offset: i64,
        vert_offset: i64,
        stack_buffer: StackAlgorithmImpl,
    ) -> (r: BilinearDrizzle)
        requires
            1 <= in_width <= MAX_DIM,
            1 <= in_height <= MAX_DIM,
            stack_buffer.wf(),
            stack_buffer.is_fresh(),
            stack_buffer.spec_w() == spec_scaled_dim(in_width as int, scale),
            stack_buffer.spec_h() == spec_scaled_dim(in_height as int, scale),
            -0x1_0000_0000 <= horiz_offset <= 0x1_0000_0000,
            -0x1_0000_0000 <= vert_offset <= 0x1_0000_0000,
        ensures
            r.wf(),
            r.in_width == in_width,
            r.in_height == in_height,
            r.out_width as int == spec_scaled_dim(in_width as int, scale),
            r.out_height as int == spec_scaled_dim(in_height as int, scale),
            r.frame_add_count == 0,
            r.horiz_offset == horiz_offset,
            r.vert_offset == vert_offset,
            r.buffer == stack_buffer,
    {
        let out_width: usize = (in_width * (scale.value() as usize) + 99) / 100;
        let out_height: usize = (in_height * (scale.value() as usize) + 99) / 100;
        BilinearDrizzle {
            in_width,
            in_height,
            out_width,
            out_height,
            buffer: stack_buffer,
            frame_add_count: 0,
            horiz_offset,
            vert_offset,
        }
    }

    /// Project one registered frame onto the output grid and fold every
    /// surviving pixel into the accumulator. The frame's rotation (about its
    /// own center) arrives as a cosine and sine pair, its translation as a
    /// Q16 offset.
    pub fn add_with_transform(
        &mut self,
        other: &Image,
        offset: &Offset,
        trig: &RotationTrig,
    ) -> (r: Result<(), SolhatError>)
        requires
            old(self).wf(),
            other.wf(),
            trig.bounded(),
            -0x1_0000_0000 <= offset.h <= 0x1_0000_0000,
            -0x1_0000_0000 <= offset.v <= 0x1_0000_0000,
            old(self).frame_add_count < MAX_CONTRIBUTIONS,
        ensures
            r is Ok,
            final(self).wf(),
            final(self).in_width == old(self).in_width,
            final(self).in_height == old(self).in_height,
            final(self).out_width == old(self).out_width,
            final(self).out_height == old(self).out_height,
            final(self).horiz_offset == old(self).horiz_offset,
            final(self).vert_offset == old(self).vert_offset,
            final(self).frame_add_count == old(self).frame_add_count + 1,
            final(self).buffer.kind() == old(self).buffer.kind(),
            final(self).buffer.spec_nb() == old(self).buffer.spec_nb(),
            old(self).buffer is Average ==> {
                let a1 = final(self).buffer->Average_0;
                let a0 = old(self).buffer->Average_0;
                &&& final(self).buffer is Average
                &&& forall|b2: int, y2: int, x2: int|
                    a1.cell_in_range(b2, y2, x2) ==> #[trigger] a1.sum_at(b2, y2, x2) == a0.sum_at(
                        b2,
                        y2,
                        x2,
                    ) + (if spec_written(
                        x2,
                        y2,
                        old(self).horiz_offset as int,
                        old(self).vert_offset as int,
                        old(self).out_width as int,
                        old(self).out_height as int,
                    ) {
                        spec_contribution(
                            other,
                            old(self).in_width as int,
                            old(self).in_height as int,
                            old(self).out_width as int,
                            old(self).out_height as int,
                            *trig,
                            *offset,
                            x2,
                            y2,
                            b2,
                        )
                    } else {
                        0
                    })
                &&& forall|y2: int, x2: int|
                    0 <= y2 < a1.height && 0 <= x2 < a1.width ==> #[trigger] a1.div_at(y2, x2)
                        == a0.div_at(y2, x2) + (if spec_written(
                        x2,
                        y2,
                        old(self).horiz_offset as int,
                        old(self).vert_offset as int,
                        old(self).out_width as int,
                        old(self).out_height as int,
                    ) {
                        1int
                    } else {
                        0int
                    })
            },
            old(self).buffer is Median ==> {
                let m1 = final(self).buffer->Median_0;
                let m0 = old(self).buffer->Median_0;
                &&& final(self).buffer is Median
                &&& forall|b2: int, y2: int, x2: int|
                    m1.cell_in_range(b2, y2, x2) ==> #[trigger] m1.list_at(b2, y2, x2) == (
                    if spec_written(
                        x2,
                        y2,
                        old(self).horiz_offset as int,
                        old(self).vert_offset as int,
                        old(self).out_width as int,
                        old(self).out_height as int,
                    ) {
                        m0.list_at(b2, y2, x2).push(
                            spec_contribution(
                                other,
                                old(self).in_width as int,
                                old(self).in_height as int,
                                old(self).out_width as int,
                                old(self).out_height as int,
                                *trig,
                                *offset,
                                x2,
                                y2,
                                b2,
                            ) as u32,
                        )
                    } else {
                        m0.list_at(b2, y2, x2)
                    })
            },
            old(self).buffer is Minimum ==> {
                let m1 = final(self).buffer->Minimum_0;
                let m0 = old(self).buffer->Minimum_0;
                &&& final(self).buffer is Minimum
                &&& forall|b2: int, y2: int, x2: int|
                    m1.cell_in_range(b2, y2, x2) ==> #[trigger] m1.min_at(b2, y2, x2) == (
                    if spec_written(
                        x2,
                        y2,
                        old(self).horiz_offset as int,
                        old(self).vert_offset as int,
                        old(self).out_width as int,
                        old(self).out_height as int,
                    ) {
                        spec_min_put(
                            m0.min_at(b2, y2, x2),
                            spec_contribution(
                                other,
                                old(self).in_width as int,
                                old(self).in_height as int,
                                old(self).out_width as int,
                                old(self).out_height as int,
                                *trig,
                                *offset,
                                x2,
                                y2,
                                b2,
                            ),
                        )
                    } else {
                        m0.min_at(b2, y2, x2)
                    })
            },
    {
        let in_w = self.in_width;
        let in_h = self.in_height;
        let hoff = self.horiz_offset;
        let voff = self.vert_offset;
        match &mut self.buffer {
            StackAlgorithmImpl::Average(a) => {
                drizzle_add_average(a, other, trig, offset, in_w, in_h, hoff, voff);
            },
            StackAlgorithmImpl::Median(m) => {
                drizzle_add_median(m, other, trig, offset, in_w, in_h, hoff, voff);
            },
            StackAlgorithmImpl::Minimum(m) => {
                drizzle_add_minimum(m, other, trig, offset, in_w, in_h, hoff, voff);
            },
        }
        self.frame_add_count = self.frame_add_count + 1;
        Ok(())
    }

    /// Merge another resampler's accumulator into this one. The two must
    /// share the output geometry and the accumulation strategy.
    pub fn add_drizzle(&mut self, other: &BilinearDrizzle) -> (r: Result<(), SolhatError>)
        requires
            old(self).wf(),
            other.wf(),
            old(self).frame_add_count + other.frame_add_count <= MAX_CONTRIBUTIONS,
        ensures
            final(self).wf(),
            !(old(self).out_width == other.out_width && old(self).out_height == other.out_height
                && old(self).buffer.spec_nb() == other.buffer.spec_nb()) ==> (r == Err::<
                (),
                SolhatError,
            >(SolhatError::DimensionMismatch) && *final(self) == *old(self)),
            (old(self).out_width == other.out_width && old(self).out_height == other.out_height
                && old(self).buffer.spec_nb() == other.buffer.spec_nb() && old(self).buffer.kind()
                != other.buffer.kind()) ==> (r == Err::<(), SolhatError>(
                SolhatError::AlgorithmMismatch,
            ) && *final(self) == *old(self)),
            (old(self).out_width == other.out_width && old(self).out_height == other.out_height
                && old(self).buffer.spec_nb() == other.buffer.spec_nb() && old(self).buffer.kind()
                == other.buffer.kind()) ==> {
                &&& r is Ok
                &&& final(self).in_width == old(self).in_width
                &&& final(self).in_height == old(self).in_height
                &&& final(self).out_width == old(self).out_width
                &&& final(self).out_height == old(self).out_height
                &&& final(self).horiz_offset == old(self).horiz_offset
                &&& final(self).vert_offset == old(self).vert_offset
                &&& final(self).frame_add_count == old(self).frame_add_count
                    + other.frame_add_count
                &&& final(self).buffer.kind() == old(self).buffer.kind()
                &&& final(self).buffer.spec_nb() == old(self).buffer.spec_nb()
                &&& old(self).buffer is Average ==> {
                    let a1 = final(self).buffer->Average_0;
                    let a0 = old(self).buffer->Average_0;
                    let ao = other.buffer->Average_0;
                    &&& final(self).buffer is Average
                    &&& forall|b2: int, y2: int, x2: int|
                        a1.cell_in_range(b2, y2, x2) ==> #[trigger] a1.sum_at(b2, y2, x2)
                            == a0.sum_at(b2, y2, x2) + ao.sum_at(b2, y2, x2)
                    &&& forall|y2: int, x2: int|
                        0 <= y2 < a1.height && 0 <= x2 < a1.width ==> #[trigger] a1.div_at(y2, x2)
                            == a0.div_at(y2, x2) + ao.div_at(y2, x2)
                }
                &&& old(self).buffer is Median ==> {
                    let m1 = final(self).buffer->Median_0;
                    let m0 = old(self).buffer->Median_0;
                    let mo = other.buffer->Median_0;
                    &&& final(self).buffer is Median
                    &&& forall|b2: int, y2: int, x2: int|
                        m1.cell_in_range(b2, y2, x2) ==> #[trigger] m1.list_at(b2, y2, x2)
                            == m0.list_at(b2, y2, x2) + mo.list_at(b2, y2, x2)
                }
                &&& old(self).buffer is Minimum ==> {
                    let m1 = final(self).buffer->Minimum_0;
                    let m0 = old(self).buffer->Minimum_0;
                    let mo = other.buffer->Minimum_0;
                    &&& final(self).buffer is Minimum
                    &&& forall|b2: int, y2: int, x2: int|
                        m1.cell_in_range(b2, y2, x2) ==> #[trigger] m1.min_at(b2, y2, x2)
                            == spec_min_put(m0.min_at(b2, y2, x2), mo.min_at(b2, y2, x2))
                }
            },
    {
        let nb_self = self.buffer.num_bands();
        let nb_other = other.buffer.num_bands();
        if !(self.out_width == other.out_width && self.out_height == other.out_height && nb_self
            == nb_other) {
            return Err(SolhatError::DimensionMismatch);
        }
        let count_sum = self.frame_add_count + other.frame_add_count;
        match &mut self.buffer {
            StackAlgorithmImpl::Average(a) => {
                match &other.buffer {
                    StackAlgorithmImpl::Average(ao) => {
                        proof {
                            assert forall|y2: int, x2: int|
                                0 <= y2 < ao.height && 0 <= x2 < ao.width implies #[trigger] a.div_at(
                                y2,
                                x2,
                            ) + ao.div_at(y2, x2) <= MAX_CONTRIBUTIONS by {}
                        }
                        a.add_other(ao);
                    },
                    _ => {
                        return Err(SolhatError::AlgorithmMismatch);
                    },
                }
            },
            StackAlgorithmImpl::Median(m) => {
                match &other.buffer {
                    StackAlgorithmImpl::Median(mo) => {
                        proof {
                            assert forall|i: int|
                                0 <= i < m.lists@.len() implies #[trigger] m.lists@[i]@.len()
                                + mo.lists@[i]@.len() <= MAX_CONTRIBUTIONS by {
                                lemma_grid_index_inverse(
                                    m.width as int,
                                    m.height as int,
                                    m.num_bands as int,
                                    i,
                                );
                                let b2 = i / ((m.width as int) * (m.height as int));
                                let rem = i % ((m.width as int) * (m.height as int));
                                let y2 = rem / (m.width as int);
                                let x2 = rem % (m.width as int);
                                assert(m.list_at(b2, y2, x2) == m.lists@[i]@);
                                assert(mo.list_at(b2, y2, x2) == mo.lists@[i]@);
                            }
                        }
                        m.add_other(mo);
                    },
                    _ => {
                        return Err(SolhatError::AlgorithmMismatch);
                    },
                }
            },
            StackAlgorithmImpl::Minimum(m) => {
                match &other.buffer {
                    StackAlgorithmImpl::Minimum(mo) => {
                        m.add_other(mo);
                    },
                    _ => {
                        return Err(SolhatError::AlgorithmMismatch);
                    },
                }
            },
        }
        self.frame_add_count = count_sum;
        Ok(())
    }

    /// Finalize the accumulator into an output image. Finalizing before any
    /// frame was added is an error, never a division by zero.
    pub fn get_finalized(&self) -> (r: Result<Image, SolhatError>)
        requires
            self.wf(),
        ensures
            r is Ok <==> self.frame_add_count > 0,
            self.frame_add_count == 0 ==> r == Err::<Image, SolhatError>(
                SolhatError::NoFramesAdded,
            ),
            r is Ok ==> {
                let img = r->Ok_0;
                &&& img.wf()
                &&& img.spec_width() == self.out_width
                &&& img.spec_height() == self.out_height
                &&& img.spec_num_bands() == self.buffer.spec_nb()
                &&& self.buffer is Average ==> {
                    let a = self.buffer->Average_0;
                    forall|b2: int, y2: int, x2: int|
                        a.cell_in_range(b2, y2, x2) ==> #[trigger] img.spec_get(b2, y2, x2) as int
                            == a.final_at(b2, y2, x2)
                }
                &&& self.buffer is Median ==> {
                    let m = self.buffer->Median_0;
                    forall|b2: int, y2: int, x2: int|
                        m.cell_in_range(b2, y2, x2) ==> #[trigger] img.spec_get(b2, y2, x2) as int
                            == spec_median_of(m.list_at(b2, y2, x2))
                }
                &&& self.buffer is Minimum ==> {
                    let m = self.buffer->Minimum_0;
                    forall|b2: int, y2: int, x2: int|
                        m.cell_in_range(b2, y2, x2) ==> #[trigger] img.spec_get(b2, y2, x2) as int
                            == m.min_at(b2, y2, x2)
                }
            },
    {
        if self.frame_add_count == 0 {
            return Err(SolhatError::NoFramesAdded);
        }
        match &self.buffer {
            StackAlgorithmImpl::Average(a) => Ok(a.get_finalized()),
            StackAlgorithmImpl::Median(m) => Ok(m.get_finalized()),
            StackAlgorithmImpl::Minimum(m) => Ok(m.get_finalized()),
        }
    }
}

} // verus!

verus! {

/// Sum of a cell's contributions, folded left to right.
pub open spec fn spec_sum_fold(cs: Seq<int>) -> int
    decreases cs.len(),
{
    if cs.len() == 0 {
        0
    } else {
        spec_sum_fold(cs.drop_last()) + cs.last()
    }
}

/// Minimum accumulation of a cell's contributions, folded left to right: the
/// first nonzero contribution seeds the cell, later nonzero ones only lower
/// it, and zero contributions ("no data") change nothing.
pub open spec fn spec_min_fold(cs: Seq<int>) -> int
    decreases cs.len(),
{
    if cs.len() == 0 {
        0
    } else {
        spec_min_put(spec_min_fold(cs.drop_last()), cs.last())
    }
}

/// Splitting a cell's contributions anywhere and summing the parts separately
/// sums to the same total: the average strategy is partition-independent.
pub proof fn lemma_sum_fold_append(cs1: Seq<int>, cs2: Seq<int>)
    ensures
        spec_sum_fold(cs1 + cs2) == spec_sum_fold(cs1) + spec_sum_fold(cs2),
    decreases cs2.len(),
{
    if cs2.len() == 0 {
        assert(cs1 + cs2 =~= cs1);
    } else {
        lemma_sum_fold_append(cs1, cs2.drop_last());
        assert((cs1 + cs2).drop_last() =~= cs1 + cs2.drop_last());
        assert((cs1 + cs2).last() == cs2.last());
    }
}

/// A nonnegative fold stays nonnegative.
pub proof fn lemma_min_fold_nonneg(cs: Seq<int>)
    requires
        forall|i: int| 0 <= i < cs.len() ==> #[trigger] cs[i] >= 0,
    ensures
        spec_min_fold(cs) >= 0,
    decreases cs.len(),
{
    if cs.len() > 0 {
        assert(forall|i: int| 0 <= i < cs.drop_last().len() ==> #[trigger] cs.drop_last()[i] >= 0);
        lemma_min_fold_nonneg(cs.drop_last());
    }
}

/// The minimum strategy's output is positive and at most each frame's nonzero
/// resampled value: a zero contribution means "no data" and never raises nor
/// clears the running minimum.
pub proof fn lemma_minimum_le_contributions(cs: Seq<int>, k: int)
    requires
        0 <= k < cs.len(),
        cs[k] > 0,
        forall|i: int| 0 <= i < cs.len() ==> #[trigger] cs[i] >= 0,
    ensures
        0 < spec_min_fold(cs) <= cs[k],
    decreases cs.len(),
{
    assert(forall|i: int| 0 <= i < cs.drop_last().len() ==> #[trigger] cs.drop_last()[i] >= 0);
    if k == cs.len() - 1 {
        lemma_min_fold_nonneg(cs.drop_last());
    } else {
        lemma_minimum_le_contributions(cs.drop_last(), k);
    }
}

/// Folding a split list part by part and merging the two folds equals
/// folding the whole: chunk boundaries do not change a minimum stack.
#[verifier::rlimit(60)]
#[verifier::spinoff_prover]
pub proof fn lemma_min_fold_append(cs1: Seq<int>, cs2: Seq<int>)
    requires
        forall|i: int| 0 <= i < cs1.len() ==> #[trigger] cs1[i] >= 0,
        forall|i: int| 0 <= i < cs2.len() ==> #[trigger] cs2[i] >= 0,
    ensures
        spec_min_fold(cs1 + cs2) == spec_min_put(spec_min_fold(cs1), spec_min_fold(cs2)),
    decreases cs2.len(),
{
    if cs2.len() == 0 {
        assert(cs1 + cs2 =~= cs1);
    } else {
        assert(forall|i: int|
            0 <= i < cs2.drop_last().len() ==> #[trigger] cs2.drop_last()[i] >= 0);
        lemma_min_fold_append(cs1, cs2.drop_last());
        assert((cs1 + cs2).drop_last() =~= cs1 + cs2.drop_last());
        assert((cs1 + cs2).last() == cs2.last());
        lemma_min_fold_nonneg(cs1);
        lemma_min_fold_nonneg(cs2.drop_last());
        lemma_minimum_merge_associative(
            spec_min_fold(cs1),
            spec_min_fold(cs2.drop_last()),
            cs2.last(),
        );
    }
}

/// Two average accumulators stand in the merged relation when the third holds
/// exactly the pointwise sums of contributions and counts of the other two.
pub open spec fn spec_is_avg_merge(
    m: &AverageStackBuffer,
    a: &AverageStackBuffer,
    b: &AverageStackBuffer,
) -> bool {
    &&& m.same_shape(a)
    &&& a.same_shape(b)
    &&& forall|b2: int, y2: int, x2: int|
        m.cell_in_range(b2, y2, x2) ==> #[trigger] m.sum_at(b2, y2, x2) == a.sum_at(b2, y2, x2)
            + b.sum_at(b2, y2, x2)
    &&& forall|y2: int, x2: int|
        0 <= y2 < m.height && 0 <= x2 < m.width ==> #[trigger] m.div_at(y2, x2) == a.div_at(y2, x2)
            + b.div_at(y2, x2)
}

/// Merging two average accumulators in either order leaves identical sums and
/// contribution counts at every cell: merge order cannot change the final
/// average.
pub proof fn lemma_average_merge_commutative(
    m1: &AverageStackBuffer,
    m2: &AverageStackBuffer,
    a: &AverageStackBuffer,
    b: &AverageStackBuffer,
)
    requires
        spec_is_avg_merge(m1, a, b),
        spec_is_avg_merge(m2, b, a),
    ensures
        forall|b2: int, y2: int, x2: int|
            m1.cell_in_range(b2, y2, x2) ==> #[trigger] m1.sum_at(b2, y2, x2) == m2.sum_at(
                b2,
                y2,
                x2,
            ),
        forall|y2: int, x2: int|
            0 <= y2 < m1.height && 0 <= x2 < m1.width ==> #[trigger] m1.div_at(y2, x2) == m2.div_at(
                y2,
                x2,
            ),
{
}

/// Merging three average accumulators in either grouping leaves identical
/// sums and contribution counts at every cell: merges associate.
pub proof fn lemma_average_merge_associative(
    ab: &AverageStackBuffer,
    abc1: &AverageStackBuffer,
    bc: &AverageStackBuffer,
    abc2: &AverageStackBuffer,
    a: &AverageStackBuffer,
    b: &AverageStackBuffer,
    c: &AverageStackBuffer,
)
    requires
        spec_is_avg_merge(ab, a, b),
        spec_is_avg_merge(abc1, ab, c),
        spec_is_avg_merge(bc, b, c),
        spec_is_avg_merge(abc2, a, bc),
    ensures
        forall|b2: int, y2: int, x2: int|
            abc1.cell_in_range(b2, y2, x2) ==> #[trigger] abc1.sum_at(b2, y2, x2) == abc2.sum_at(
                b2,
                y2,
                x2,
            ),
        forall|y2: int, x2: int|
            0 <= y2 < abc1.height && 0 <= x2 < abc1.width ==> #[trigger] abc1.div_at(y2, x2)
                == abc2.div_at(y2, x2),
{
}

/// Folding a cell from either side agrees: zero is an identity and two
/// nonzero sides take the smaller, so the merge commutes.
pub proof fn lemma_minimum_merge_commutative(v: int, w: int)
    requires
        v >= 0,
        w >= 0,
    ensures
        spec_min_put(v, w) == spec_min_put(w, v),
{
}

/// The minimum merge associates on cell states.
pub proof fn lemma_minimum_merge_associative(u: int, v: int, w: int)
    requires
        u >= 0,
        v >= 0,
        w >= 0,
    ensures
        spec_min_put(spec_min_put(u, v), w) == spec_min_put(u, spec_min_put(v, w)),
{
}

} // verus!
