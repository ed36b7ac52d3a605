//! Calibration by exact median: collect every frame's sample per pixel,
//! sort, and take the middle element. Memory grows with frame count times
//! pixel count, so this path serves the typically small calibration inputs.

use vstd::prelude::*;

use crate::datasource::DataSource;
use crate::error::SolhatError;
use crate::image::Image;
use crate::image::MAX_SAMPLE;
use crate::image::cell_index;
use crate::image::lemma_cell_index_bound;
use crate::image::lemma_cell_index_injective;
use crate::image::lemma_index_arith_bounds;
use crate::drizzle::grid_index;
use crate::drizzle::middle_of_vec;
use crate::drizzle::spec_middle_of;

verus! {

/// Per-pixel sample collections, one list per flat pixel position.
#[derive(Debug)]
pub struct MedianBuffer {
    pub buffer: Vec<Vec<u32>>,
}

impl MedianBuffer {
    /// Every collected sample fits in 16 bits.
    pub open spec fn wf(&self) -> bool {
        forall|i: int, k: int|
            0 <= i < self.buffer@.len() && 0 <= k < self.buffer@[i]@.len()
                ==> #[trigger] self.buffer@[i]@[k] <= MAX_SAMPLE
    }

    /// `length` empty sample lists.
    pub fn new(length: usize) -> (r: MedianBuffer)
        ensures
            r.wf(),
            r.buffer@.len() == length,
            forall|i: int| 0 <= i < length ==> #[trigger] r.buffer@[i]@ == Seq::<u32>::empty(),
    {
        let mut v: Vec<Vec<u32>> = Vec::new();
        let mut i: usize = 0;
        while i < length
            invariant
                i <= length,
                v@.len() == i,
                forall|j: int| 0 <= j < i ==> #[trigger] v@[j]@ == Seq::<u32>::empty(),
            decreases length - i,
        {
            let inner: Vec<u32> = Vec::new();
            v.push(inner);
            i += 1;
        }
        MedianBuffer { buffer: v }
    }

    /// Append one flat buffer of samples, one sample per pixel position;
    /// fails on a length that does not match.
    #[verifier::loop_isolation(false)]
    pub fn add_buffer(&mut self, other: &Vec<u32>) -> (r: Result<(), SolhatError>)
        requires
            old(self).wf(),
            forall|k: int| 0 <= k < other@.len() ==> other@[k] <= MAX_SAMPLE,
        ensures
            final(self).wf(),
            r is Ok <==> other@.len() == old(self).buffer@.len(),
            r is Err ==> r == Err::<(), SolhatError>(SolhatError::DimensionMismatch) && *final(self)
                == *old(self),
            r is Ok ==> final(self).buffer@.len() == old(self).buffer@.len() && forall|i: int|
                0 <= i < old(self).buffer@.len() ==> #[trigger] final(self).buffer@[i]@ == old(
                    self,
                ).buffer@[i]@.push(other@[i]),
    {
        if other.len() != self.buffer.len() {
            return Err(SolhatError::DimensionMismatch);
        }
        let n = self.buffer.len();
        let mut i: usize = 0;
        while i < n
            invariant
                i <= n,
                self.buffer@.len() == n,
                forall|j: int|
                    0 <= j < i ==> #[trigger] self.buffer@[j]@ == old(self).buffer@[j]@.push(
                        other@[j],
                    ),
                forall|j: int| i <= j < n ==> #[trigger] self.buffer@[j]@ == old(
                    self,
                ).buffer@[j]@,
            decreases n - i,
        {
            let v = other[i];
            self.buffer[i].push(v);
            i += 1;
        }
        Ok(())
    }

    /// The per-pixel medians across every collected sample: the sorted
    /// middle element, per the calibration reducer's selection rule.
    #[verifier::loop_isolation(false)]
    pub fn get_median_vector(&self) -> (r: Vec<u32>)
        requires
            self.wf(),
        ensures
            r@.len() == self.buffer@.len(),
            forall|i: int|
                0 <= i < r@.len() ==> #[trigger] r@[i] as int == spec_middle_of(self.buffer@[i]@)
                    && r@[i] <= MAX_SAMPLE,
    {
        let n = self.buffer.len();
        let mut r: Vec<u32> = Vec::new();
        let mut i: usize = 0;
        while i < n
            invariant
                i <= n,
                r@.len() == i,
                forall|j: int|
                    0 <= j < i ==> #[trigger] r@[j] as int == spec_middle_of(self.buffer@[j]@)
                        && r@[j] <= MAX_SAMPLE,
            decreases n - i,
        {
            let m = middle_of_vec(&self.buffer[i]);
            r.push(m);
            i += 1;
        }
        r
    }
}

/// A pixel's samples across every frame of a source.
pub open spec fn spec_samples_at<F: DataSource>(src: &F, y: int, x: int) -> Seq<u32> {
    Seq::new(
        src.spec_frame_count() as nat,
        |k: int| src.spec_frame_sample(k, y, x) as u32,
    )
}

/// The exact median stack of every frame of a source: per pixel, the sorted
/// middle element of that pixel's samples across all frames.
#[verifier::loop_isolation(false)]
pub fn compute_mean<F: DataSource>(source: &F) -> (r: Result<Image, SolhatError>)
    requires
        source.inv(),
        source.spec_frame_count() < 0x8000_0000,
        forall|i: int|
            0 <= i < source.spec_frame_count() ==> #[trigger] source.spec_frame_ok(i)
                && source.spec_frame_ts_ok(i),
    ensures
        r is Ok <==> source.spec_frame_count() > 0,
        source.spec_frame_count() == 0 ==> r == Err::<Image, SolhatError>(SolhatError::EmptySource),
        r is Ok ==> {
            let img = r->Ok_0;
            &&& img.wf()
            &&& img.spec_width() == source.spec_width()
            &&& img.spec_height() == source.spec_height()
            &&& img.spec_num_bands() == 1
            &&& forall|y: int, x: int|
                0 <= y < source.spec_height() && 0 <= x < source.spec_width()
                    ==> #[trigger] img.spec_get(0, y, x) as int == spec_middle_of(
                    spec_samples_at(source, y, x),
                )
        },
{
    proof {
        source.lemma_inv_bounds();
    }
    let count = source.frame_count();
    if count == 0 {
        return Err(SolhatError::EmptySource);
    }
    let w = source.image_width();
    let h = source.image_height();
    proof {
        if w >= 1 && h >= 1 {
            lemma_index_arith_bounds(w as int, h as int, 0, 0, 0);
        } else {
            assert((w as int) * (h as int) == 0) by (nonlinear_arith)
                requires
                    w == 0 || h == 0,
            ;
        }
    }
    let cells: usize = w * h;
    let mut mb = MedianBuffer::new(cells);
    proof {
        assert forall|y: int, x: int| 0 <= y < h && 0 <= x < w implies #[trigger] mb.buffer@[
            cell_index(w as int, h as int, 0, y, x)
        ]@ == spec_samples_at(source, y, x).subrange(0, 0) by {
            lemma_cell_index_bound(w as int, h as int, 1, 0, y, x);
            assert(spec_samples_at(source, y, x).subrange(0, 0) =~= Seq::<u32>::empty());
        }
    }
    let mut i: usize = 0;
    while i < count
        invariant
            i <= count,
            mb.wf(),
            mb.buffer@.len() == cells,
            forall|y: int, x: int|
                0 <= y < h && 0 <= x < w ==> #[trigger] mb.buffer@[cell_index(
                    w as int,
                    h as int,
                    0,
                    y,
                    x,
                )]@ == spec_samples_at(source, y, x).subrange(0, i as int),
        decreases count - i,
    {
        let frame = match source.get_frame(i) {
            Ok(f) => f,
            Err(e) => {
                return Err(e);
            },
        };
        // flatten the frame row-major
        let mut flat: Vec<u32> = Vec::new();
        let mut y: usize = 0;
        while y < h
            invariant
                y <= h,
                i < count,
                frame.buffer.wf(),
                frame.buffer.spec_width() == w,
                frame.buffer.spec_height() == h,
                frame.buffer.spec_num_bands() == 1,
                forall|y2: int, x2: int|
                    0 <= y2 < h && 0 <= x2 < w ==> #[trigger] frame.buffer.spec_get(
                        0,
                        y2,
                        x2,
                    ) as int == source.spec_frame_sample(i as int, y2, x2),
                flat@.len() == y * w,
                forall|y2: int, x2: int|
                    0 <= y2 < y && 0 <= x2 < w ==> #[trigger] flat@[cell_index(
                        w as int,
                        h as int,
                        0,
                        y2,
                        x2,
                    )] == frame.buffer.spec_get(0, y2, x2),
                forall|k: int| 0 <= k < flat@.len() ==> flat@[k] <= MAX_SAMPLE,
            decreases h - y,
        {
            let mut x: usize = 0;
            while x < w
                invariant
                    y < h,
                    x <= w,
                    i < count,
                    frame.buffer.wf(),
                    frame.buffer.spec_width() == w,
                    frame.buffer.spec_height() == h,
                    frame.buffer.spec_num_bands() == 1,
                    forall|y2: int, x2: int|
                        0 <= y2 < h && 0 <= x2 < w ==> #[trigger] frame.buffer.spec_get(
                            0,
                            y2,
                            x2,
                        ) as int == source.spec_frame_sample(i as int, y2, x2),
                    flat@.len() == y * w + x,
                    forall|y2: int, x2: int|
                        0 <= y2 < h && 0 <= x2 < w && (y2 < y || (y2 == y && x2 < x))
                            ==> #[trigger] flat@[cell_index(w as int, h as int, 0, y2, x2)]
                            == frame.buffer.spec_get(0, y2, x2),
                    forall|k: int| 0 <= k < flat@.len() ==> flat@[k] <= MAX_SAMPLE,
                decreases w - x,
            {
                let v = frame.buffer.get(0, y, x);
                flat.push(v);
                proof {
                    assert(0int * ((w as int) * (h as int)) == 0) by (nonlinear_arith);
                    assert(cell_index(w as int, h as int, 0, y as int, x as int) == y * w + x);
                    assert forall|y2: int, x2: int|
                        0 <= y2 < h && 0 <= x2 < w && (y2 < y || (y2 == y && x2 < x
                            + 1)) implies #[trigger] flat@[cell_index(w as int, h as int, 0, y2, x2)]
                        == frame.buffer.spec_get(0, y2, x2) by {
                        lemma_cell_index_bound(w as int, h as int, 1, 0, y2, x2);
                        assert(0int * ((w as int) * (h as int)) == 0) by (nonlinear_arith);
                        if y2 < y as int {
                            assert(y2 * (w as int) + x2 < (y as int) * (w as int) + (x as int))
                                by (nonlinear_arith)
                                requires
                                    0 <= y2,
                                    y2 < y as int,
                                    0 <= x2 < w as int,
                                    0 <= x as int,
                            ;
                        }
                    }
                }
                x += 1;
            }
            proof {
                assert((y + 1) * w == y * w + w) by (nonlinear_arith);
            }
            y += 1;
        }
        proof {
            assert(flat@.len() == h * w);
            assert(h * w == w * h) by (nonlinear_arith);
        }
        let res = mb.add_buffer(&flat);
        proof {
            assert(res is Ok);
            assert forall|y2: int, x2: int|
                0 <= y2 < h && 0 <= x2 < w implies #[trigger] mb.buffer@[cell_index(
                w as int,
                h as int,
                0,
                y2,
                x2,
            )]@ == spec_samples_at(source, y2, x2).subrange(0, i as int + 1) by {
                lemma_cell_index_bound(w as int, h as int, 1, 0, y2, x2);
                assert(spec_samples_at(source, y2, x2).subrange(0, i as int + 1) =~= spec_samples_at(
                    source,
                    y2,
                    x2,
                ).subrange(0, i as int).push(source.spec_frame_sample(i as int, y2, x2) as u32));
            }
        }
        i += 1;
    }
    let medians = mb.get_median_vector();
    proof {
        assert forall|y2: int, x2: int| 0 <= y2 < h && 0 <= x2 < w implies #[trigger] medians@[
            cell_index(w as int, h as int, 0, y2, x2)
        ] as int == spec_middle_of(spec_samples_at(source, y2, x2)) by {
            lemma_cell_index_bound(w as int, h as int, 1, 0, y2, x2);
            assert(spec_samples_at(source, y2, x2).subrange(0, count as int) =~= spec_samples_at(
                source,
                y2,
                x2,
            ));
        }
        assert forall|y2: int, x2: int| 0 <= y2 < h && 0 <= x2 < w implies #[trigger] medians@[y2
            * w + x2] as int == spec_middle_of(spec_samples_at(source, y2, x2)) by {
            assert(0int * ((w as int) * (h as int)) == 0) by (nonlinear_arith);
            assert(cell_index(w as int, h as int, 0, y2, x2) == y2 * w + x2);
            assert(medians@[cell_index(w as int, h as int, 0, y2, x2)] as int == spec_middle_of(
                spec_samples_at(source, y2, x2),
            ));
        }
    }
    let out = Image::from_vec_single_band(medians, w, h);
    Ok(out)
}

} // verus!
