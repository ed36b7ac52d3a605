//! Calibration by streaming mean: accumulate per-pixel sums across all of a
//! source's frames and divide by the count. Constant memory per pixel.

use vstd::prelude::*;

use crate::datasource::DataSource;
use crate::error::SolhatError;
use crate::image::Image;
use crate::image::MAX_SAMPLE;
use crate::image::cell_index;
use crate::image::lemma_cell_index_bound;
use crate::image::lemma_cell_index_injective;
use crate::image::lemma_index_arith_bounds;
use crate::drizzle::grid_index;

verus! {

/// The sum of a pixel's samples over a source's first `k` frames.
pub open spec fn spec_frame_sample_sum<F: DataSource>(src: &F, k: int, y: int, x: int) -> int
    decreases k,
{
    if k <= 0 {
        0
    } else {
        spec_frame_sample_sum(src, k - 1, y, x) + src.spec_frame_sample(k - 1, y, x)
    }
}

/// The streaming mean of a pixel over every frame of a source.
pub open spec fn spec_mean_sample<F: DataSource>(src: &F, y: int, x: int) -> int {
    spec_frame_sample_sum(src, src.spec_frame_count(), y, x) / src.spec_frame_count()
}

/// Prefix sums of bounded samples stay inside `k` times the sample bound.
pub proof fn lemma_frame_sample_sum_bound<F: DataSource>(src: &F, k: int, y: int, x: int)
    requires
        src.inv(),
        0 <= k <= src.spec_frame_count(),
        0 <= y < src.spec_height(),
        0 <= x < src.spec_width(),
        forall|i: int|
            0 <= i < src.spec_frame_count() ==> #[trigger] src.spec_frame_ok(i),
    ensures
        0 <= spec_frame_sample_sum(src, k, y, x) <= k * (MAX_SAMPLE as int),
    decreases k,
{
    if k > 0 {
        lemma_frame_sample_sum_bound(src, k - 1, y, x);
        src.lemma_inv_bounds();
        assert((k - 1) * (MAX_SAMPLE as int) + MAX_SAMPLE == k * (MAX_SAMPLE as int))
            by (nonlinear_arith);
    }
}

/// A zeroed single-band buffer shaped like the source's frames.
pub fn build_mean_buffer<F: DataSource>(source: &F) -> (r: Image)
    requires
        source.inv(),
    ensures
        r.wf(),
        r.spec_width() == source.spec_width(),
        r.spec_height() == source.spec_height(),
        r.spec_num_bands() == 1,
{
    proof {
        source.lemma_inv_bounds();
    }
    Image::new_with_bands(source.image_width(), source.image_height(), 1)
}

/// The mean stack of every frame of a source; fails only when the source has
/// no frames at all.
#[verifier::loop_isolation(false)]
pub fn compute_mean<F: DataSource>(source: &F) -> (r: Result<Image, SolhatError>)
    requires
        source.inv(),
        source.spec_frame_count() < 0x8000_0000,
        forall|i: int|
            0 <= i < source.spec_frame_count() ==> #[trigger] source.spec_frame_ok(i)
                && source.spec_frame_ts_ok(i),
    ensures
        r is Ok <==> source.spec_frame_count() > 0,
        source.spec_frame_count() == 0 ==> r == Err::<Image, SolhatError>(SolhatError::EmptySource),
        r is Ok ==> {
            let img = r->Ok_0;
            &&& img.wf()
            &&& img.spec_width() == source.spec_width()
            &&& img.spec_height() == source.spec_height()
            &&& img.spec_num_bands() == 1
            &&& forall|y: int, x: int|
                0 <= y < source.spec_height() && 0 <= x < source.spec_width()
                    ==> #[trigger] img.spec_get(0, y, x) as int == spec_mean_sample(source, y, x)
        },
{
    proof {
        source.lemma_inv_bounds();
    }
    let count = source.frame_count();
    if count == 0 {
        return Err(SolhatError::EmptySource);
    }
    let w = source.image_width();
    let h = source.image_height();
    proof {
        if w >= 1 && h >= 1 {
            lemma_index_arith_bounds(w as int, h as int, 0, 0, 0);
        } else {
            assert((w as int) * (h as int) == 0) by (nonlinear_arith)
                requires
                    w == 0 || h == 0,
            ;
        }
    }
    let cells: usize = w * h;
    let mut sums: Vec<u64> = Vec::new();
    let mut j: usize = 0;
    while j < cells
        invariant
            j <= cells,
            sums@.len() == j,
            forall|k: int| 0 <= k < j ==> sums@[k] == 0,
        decreases cells - j,
    {
        sums.push(0);
        j += 1;
    }
    proof {
        assert forall|y: int, x: int| 0 <= y < h && 0 <= x < w implies #[trigger] sums@[cell_index(
            w as int,
            h as int,
            0,
            y,
            x,
        )] as int == spec_frame_sample_sum(source, 0, y, x) by {
            lemma_cell_index_bound(w as int, h as int, 1, 0, y, x);
        }
    }
    let mut i: usize = 0;
    while i < count
        invariant
            i <= count,
            sums@.len() == cells,
            forall|y: int, x: int|
                0 <= y < h && 0 <= x < w ==> #[trigger] sums@[cell_index(
                    w as int,
                    h as int,
                    0,
                    y,
                    x,
                )] as int == spec_frame_sample_sum(source, i as int, y, x),
        decreases count - i,
    {
        let frame = match source.get_frame(i) {
            Ok(f) => f,
            Err(e) => {
                return Err(e);
            },
        };
        let ghost pre = sums@;
        let mut y: usize = 0;
        while y < h
            invariant
                y <= h,
                i < count,
                sums@.len() == cells,
                frame.buffer.wf(),
                frame.buffer.spec_width() == w,
                frame.buffer.spec_height() == h,
                frame.buffer.spec_num_bands() == 1,
                forall|y2: int, x2: int|
                    0 <= y2 < h && 0 <= x2 < w ==> #[trigger] frame.buffer.spec_get(
                        0,
                        y2,
                        x2,
                    ) as int == source.spec_frame_sample(i as int, y2, x2),
                forall|y2: int, x2: int|
                    0 <= y2 < h && 0 <= x2 < w ==> #[trigger] sums@[cell_index(
                        w as int,
                        h as int,
                        0,
                        y2,
                        x2,
                    )] as int == spec_frame_sample_sum(
                        source,
                        i as int + (if y2 < y {
                            1int
                        } else {
                            0int
                        }),
                        y2,
                        x2,
                    ),
            decreases h - y,
        {
            let mut x: usize = 0;
            while x < w
                invariant
                    y < h,
                    x <= w,
                    i < count,
                    sums@.len() == cells,
                    frame.buffer.wf(),
                    frame.buffer.spec_width() == w,
                    frame.buffer.spec_height() == h,
                    frame.buffer.spec_num_bands() == 1,
                    forall|y2: int, x2: int|
                        0 <= y2 < h && 0 <= x2 < w ==> #[trigger] frame.buffer.spec_get(
                            0,
                            y2,
                            x2,
                        ) as int == source.spec_frame_sample(i as int, y2, x2),
                    forall|y2: int, x2: int|
                        0 <= y2 < h && 0 <= x2 < w ==> #[trigger] sums@[cell_index(
                            w as int,
                            h as int,
                            0,
                            y2,
                            x2,
                        )] as int == spec_frame_sample_sum(
                            source,
                            i as int + (if y2 < y || (y2 == y && x2 < x) {
                                1int
                            } else {
                                0int
                            }),
                            y2,
                            x2,
                        ),
                decreases w - x,
            {
                let idx = grid_index(w, h, 1, 0, y, x);
                proof {
                    lemma_frame_sample_sum_bound(source, i as int, y as int, x as int);
                    assert((i as int) * (MAX_SAMPLE as int) < 0x8000_0000 * (MAX_SAMPLE as int))
                        by (nonlinear_arith)
                        requires
                            0 <= (i as int) && (i as int) < 0x8000_0000,
                    ;
                }
                let s: u64 = sums[idx] + frame.buffer.get(0, y, x) as u64;
                sums[idx] = s;
                proof {
                    assert forall|y2: int, x2: int|
                        0 <= y2 < h && 0 <= x2 < w implies #[trigger] sums@[cell_index(
                        w as int,
                        h as int,
                        0,
                        y2,
                        x2,
                    )] as int == spec_frame_sample_sum(
                        source,
                        i as int + (if y2 < y || (y2 == y && x2 < x + 1) {
                            1int
                        } else {
                            0int
                        }),
                        y2,
                        x2,
                    ) by {
                        lemma_cell_index_bound(w as int, h as int, 1, 0, y2, x2);
                        if !(y2 == y && x2 == x) {
                            lemma_cell_index_injective(
                                w as int,
                                h as int,
                                1,
                                0,
                                y2,
                                x2,
                                0,
                                y as int,
                                x as int,
                            );
                        }
                    }
                }
                x += 1;
            }
            y += 1;
        }
        i += 1;
    }
    let mut out = Image::new_with_bands(w, h, 1);
    let mut y: usize = 0;
    while y < h
        invariant
            y <= h,
            sums@.len() == cells,
            count == source.spec_frame_count(),
            count > 0,
            forall|y2: int, x2: int|
                0 <= y2 < h && 0 <= x2 < w ==> #[trigger] sums@[cell_index(
                    w as int,
                    h as int,
                    0,
                    y2,
                    x2,
                )] as int == spec_frame_sample_sum(source, count as int, y2, x2),
            out.wf(),
            out.spec_width() == w && out.spec_height() == h && out.spec_num_bands() == 1,
            forall|y2: int, x2: int|
                0 <= y2 < h && 0 <= x2 < w && y2 < y ==> #[trigger] out.spec_get(0, y2, x2) as int
                    == spec_mean_sample(source, y2, x2),
        decreases h - y,
    {
        let mut x: usize = 0;
        while x < w
            invariant
                y < h,
                x <= w,
                sums@.len() == cells,
                count == source.spec_frame_count(),
                count > 0,
                forall|y2: int, x2: int|
                    0 <= y2 < h && 0 <= x2 < w ==> #[trigger] sums@[cell_index(
                        w as int,
                        h as int,
                        0,
                        y2,
                        x2,
                    )] as int == spec_frame_sample_sum(source, count as int, y2, x2),
                out.wf(),
                out.spec_width() == w && out.spec_height() == h && out.spec_num_bands() == 1,
                forall|y2: int, x2: int|
                    0 <= y2 < h && 0 <= x2 < w && (y2 < y || (y2 == y && x2 < x))
                        ==> #[trigger] out.spec_get(0, y2, x2) as int == spec_mean_sample(
                        source,
                        y2,
                        x2,
                    ),
            decreases w - x,
        {
            let idx = grid_index(w, h, 1, 0, y, x);
            let s: u64 = sums[idx];
            proof {
                lemma_frame_sample_sum_bound(source, count as int, y as int, x as int);
                assert(s as int / count as int <= MAX_SAMPLE as int) by (nonlinear_arith)
                    requires
                        0 < count as int,
                        0 <= s as int <= (count as int) * (MAX_SAMPLE as int),
                ;
            }
            let v: u64 = s / (count as u64);
            out.put(0, y, x, v as u32);
            x += 1;
        }
        y += 1;
    }
    Ok(out)
}

} // verus!
