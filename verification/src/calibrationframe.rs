//! Master calibration frames: an optional reference buffer (flat, dark,
//! dark-flat or bias) reduced from a container's frames by streaming mean or
//! exact median, or an explicit empty calibration meaning "no correction".

use vstd::prelude::*;

use crate::datasource::DataSource;
use crate::error::SolhatError;
use crate::image::Image;
use crate::image::MAX_DIM;
use crate::image::MAX_SAMPLE;
use crate::image::cell_index;
use crate::image::filled;
use crate::image::lemma_cell_index_bound;
use crate::image::lemma_index_arith_bounds;
use crate::mean::compute_mean;
use crate::mean::spec_mean_sample;
use crate::median::compute_mean as compute_median;
use crate::median::spec_samples_at;
use crate::drizzle::spec_middle_of;

verus! {

/// How a multi-frame calibration input is reduced to one reference buffer.
#[derive(Debug, Clone, Copy, PartialEq, Eq, Structural)]
pub enum ComputeMethod {
    Mean,
    Median,
}

/// An optional reference buffer; `None` stands for "no correction" so that
/// downstream code skips the step with one branch rather than a sentinel
/// image.
#[derive(Debug, Clone)]
pub struct CalibrationImage {
    pub image: Option<Image>,
}

/// Sum of the first `k` samples of a buffer's first band.
pub open spec fn spec_band0_sum(img: &Image, k: int) -> int
    decreases k,
{
    if k <= 0 {
        0
    } else {
        spec_band0_sum(img, k - 1) + img.data@[k - 1]
    }
}

/// The mean of a buffer's first band, rounded down; zero for an empty buffer.
pub open spec fn spec_band0_mean(img: &Image) -> int {
    let cells = img.width as int * img.height as int;
    if cells > 0 {
        spec_band0_sum(img, cells) / cells
    } else {
        0
    }
}

/// Prefix sums of bounded samples stay inside `k` times the sample bound.
pub proof fn lemma_band0_sum_bound(img: &Image, k: int)
    requires
        img.wf(),
        0 <= k <= img.width as int * img.height as int,
    ensures
        0 <= spec_band0_sum(img, k) <= k * (MAX_SAMPLE as int),
    decreases k,
{
    if k > 0 {
        lemma_band0_sum_bound(img, k - 1);
        assert(img.width as int * img.height as int <= img.num_bands * (img.width
            * img.height)) by (nonlinear_arith)
            requires
                1 <= img.num_bands,
        ;
        assert((k - 1) * (MAX_SAMPLE as int) + MAX_SAMPLE == k * (MAX_SAMPLE as int))
            by (nonlinear_arith);
    }
}

/// The mean of a buffer's first band, rounded down.
#[verifier::loop_isolation(false)]
pub fn band0_mean(img: &Image) -> (r: u64)
    requires
        img.wf(),
    ensures
        r as int == spec_band0_mean(img),
        r <= MAX_SAMPLE as u64,
{
    let w = img.width;
    let h = img.height;
    proof {
        if w >= 1 && h >= 1 {
            lemma_index_arith_bounds(w as int, h as int, 0, 0, 0);
        } else {
            assert((w as int) * (h as int) == 0) by (nonlinear_arith)
                requires
                    w == 0 || h == 0,
            ;
        }
    }
    let cells: usize = w * h;
    let mut sum: u64 = 0;
    let mut k: usize = 0;
    while k < cells
        invariant
            k <= cells,
            cells == w * h,
            sum as int == spec_band0_sum(img, k as int),
            sum as int <= (k as int) * (MAX_SAMPLE as int),
        decreases cells - k,
    {
        proof {
            assert(cells <= img.data@.len()) by (nonlinear_arith)
                requires
                    cells == (img.width as int) * (img.height as int),
                    img.data@.len() == (img.num_bands as int) * ((img.width as int) * (
                    img.height as int)),
                    1 <= img.num_bands,
            ;
            assert((k as int) * (MAX_SAMPLE as int) + MAX_SAMPLE == ((k as int) + 1) * (
            MAX_SAMPLE as int)) by (nonlinear_arith);
            assert((k as int) * (MAX_SAMPLE as int) <= 0x2000_0000 * (MAX_SAMPLE as int))
                by (nonlinear_arith)
                requires
                    0 <= (k as int) <= 0x2000_0000,
            ;
        }
        let v = img.data[k];
        sum = sum + v as u64;
        k += 1;
    }
    if cells > 0 {
        proof {
            lemma_band0_sum_bound(img, cells as int);
            assert(sum as int / cells as int <= MAX_SAMPLE as int) by (nonlinear_arith)
                requires
                    0 < cells as int,
                    0 <= sum as int <= (cells as int) * (MAX_SAMPLE as int),
            ;
        }
        sum / (cells as u64)
    } else {
        0
    }
}

/// The sample the flat-field division uses at position `j` of the first
/// band: the flat minus the dark-flat where one is present, floored at zero.
pub open spec fn spec_adj_flat_at(flat: &Image, darkflat: &CalibrationImage, j: int) -> int {
    let f = flat.data@[j] as int;
    let d = if darkflat.image is Some {
        darkflat.image->0.data@[j] as int
    } else {
        0
    };
    if f - d < 0 {
        0
    } else {
        f - d
    }
}

/// Sum of the first `k` adjusted flat samples.
pub open spec fn spec_adj_flat_sum(flat: &Image, darkflat: &CalibrationImage, k: int) -> int
    decreases k,
{
    if k <= 0 {
        0
    } else {
        spec_adj_flat_sum(flat, darkflat, k - 1) + spec_adj_flat_at(flat, darkflat, k - 1)
    }
}

/// The mean of the adjusted flat's first band, rounded down; zero for an
/// empty buffer. This is the numerator scale of the flat-field division.
pub open spec fn spec_adj_flat_mean(flat: &Image, darkflat: &CalibrationImage) -> int {
    let cells = flat.width as int * flat.height as int;
    if cells > 0 {
        spec_adj_flat_sum(flat, darkflat, cells) / cells
    } else {
        0
    }
}

/// Prefix sums of adjusted flat samples stay inside `k` times the sample
/// bound.
proof fn lemma_adj_flat_sum_bound(flat: &Image, darkflat: &CalibrationImage, k: int)
    requires
        flat.wf(),
        darkflat.wf(),
        0 <= k <= flat.width as int * flat.height as int,
    ensures
        0 <= spec_adj_flat_sum(flat, darkflat, k) <= k * (MAX_SAMPLE as int),
    decreases k,
{
    if k > 0 {
        lemma_adj_flat_sum_bound(flat, darkflat, k - 1);
        assert(flat.width as int * flat.height as int <= flat.num_bands * (flat.width
            * flat.height)) by (nonlinear_arith)
            requires
                1 <= flat.num_bands,
        ;
        assert((k - 1) * (MAX_SAMPLE as int) + MAX_SAMPLE == k * (MAX_SAMPLE as int))
            by (nonlinear_arith);
    }
}

/// Compute the adjusted flat's mean.
#[verifier::loop_isolation(false)]
pub fn adj_flat_mean(flat: &Image, darkflat: &CalibrationImage) -> (r: u64)
    requires
        flat.wf(),
        darkflat.wf(),
        darkflat.image is Some ==> darkflat.image->0.spec_width() == flat.spec_width()
            && darkflat.image->0.spec_height() == flat.spec_height(),
    ensures
        r as int == spec_adj_flat_mean(flat, darkflat),
        r <= MAX_SAMPLE as u64,
{
    let w = flat.width;
    let h = flat.height;
    proof {
        if w >= 1 && h >= 1 {
            lemma_index_arith_bounds(w as int, h as int, 0, 0, 0);
        } else {
            assert((w as int) * (h as int) == 0) by (nonlinear_arith)
                requires
                    w == 0 || h == 0,
            ;
        }
    }
    let cells: usize = w * h;
    proof {
        assert(cells <= flat.data@.len()) by (nonlinear_arith)
            requires
                cells == (flat.width as int) * (flat.height as int),
                flat.data@.len() == (flat.num_bands as int) * ((flat.width as int) * (
                flat.height as int)),
                1 <= flat.num_bands,
        ;
        if darkflat.image is Some {
            let di = darkflat.image->0;
            assert(cells <= di.data@.len()) by (nonlinear_arith)
                requires
                    cells == (di.width as int) * (di.height as int),
                    di.data@.len() == (di.num_bands as int) * ((di.width as int) * (
                    di.height as int)),
                    1 <= di.num_bands,
            ;
        }
    }
    let mut sum: u64 = 0;
    let mut k: usize = 0;
    while k < cells
        invariant
            k <= cells,
            cells == w * h,
            sum as int == spec_adj_flat_sum(flat, darkflat, k as int),
            sum as int <= (k as int) * (MAX_SAMPLE as int),
        decreases cells - k,
    {
        proof {
            assert((k as int) * (MAX_SAMPLE as int) + MAX_SAMPLE == ((k as int) + 1) * (
            MAX_SAMPLE as int)) by (nonlinear_arith);
            assert((k as int) * (MAX_SAMPLE as int) <= 0x2000_0000 * (MAX_SAMPLE as int))
                by (nonlinear_arith)
                requires
                    0 <= (k as int) <= 0x2000_0000,
            ;
        }
        let f: u32 = flat.data[k];
        let d: u32 = match &darkflat.image {
            Some(di) => di.data[k],
            None => 0,
        };
        let adj: u32 = if f > d {
            f - d
        } else {
            0
        };
        sum = sum + adj as u64;
        k += 1;
    }
    if cells > 0 {
        proof {
            lemma_adj_flat_sum_bound(flat, darkflat, cells as int);
            assert(sum as int / cells as int <= MAX_SAMPLE as int) by (nonlinear_arith)
                requires
                    0 < cells as int,
                    0 <= sum as int <= (cells as int) * (MAX_SAMPLE as int),
            ;
        }
        sum / (cells as u64)
    } else {
        0
    }
}

impl CalibrationImage {
    /// The buffer, when present, is consistent.
    pub open spec fn wf(&self) -> bool {
        self.image is Some ==> self.image->0.wf()
    }

    /// The explicit "no correction" calibration.
    pub fn new_empty() -> (r: CalibrationImage)
        ensures
            r.image is None,
            r.wf(),
    {
        CalibrationImage { image: None }
    }

    /// Reduce a container's frames to one reference buffer by the selected
    /// method.
    pub fn new_from_ser<F: DataSource>(source: &F, method: ComputeMethod) -> (r: Result<
        CalibrationImage,
        SolhatError,
    >)
        requires
            source.inv(),
            source.spec_frame_count() < 0x8000_0000,
            forall|i: int|
                0 <= i < source.spec_frame_count() ==> #[trigger] source.spec_frame_ok(i)
                    && source.spec_frame_ts_ok(i),
        ensures
            r is Ok <==> source.spec_frame_count() > 0,
            r is Ok ==> {
                let c = r->Ok_0;
                &&& c.wf()
                &&& c.image is Some
                &&& c.image->0.spec_width() == source.spec_width()
                &&& c.image->0.spec_height() == source.spec_height()
                &&& c.image->0.spec_num_bands() == 1
                &&& method == ComputeMethod::Mean ==> forall|y: int, x: int|
                    0 <= y < source.spec_height() && 0 <= x < source.spec_width()
                        ==> #[trigger] c.image->0.spec_get(0, y, x) as int == spec_mean_sample(
                        source,
                        y,
                        x,
                    )
                &&& method == ComputeMethod::Median ==> forall|y: int, x: int|
                    0 <= y < source.spec_height() && 0 <= x < source.spec_width()
                        ==> #[trigger] c.image->0.spec_get(0, y, x) as int == spec_middle_of(
                        spec_samples_at(source, y, x),
                    )
            },
    {
        let image = match method {
            ComputeMethod::Mean => compute_mean(source),
            ComputeMethod::Median => compute_median(source),
        };
        match image {
            Ok(img) => Ok(CalibrationImage { image: Some(img) }),
            Err(e) => Err(e),
        }
    }

    /// A uniformly black reference buffer.
    pub fn new_black(width: usize, height: usize, num_bands: usize) -> (r: Result<
        CalibrationImage,
        SolhatError,
    >)
        requires
            1 <= num_bands <= 3,
            width <= MAX_DIM,
            height <= MAX_DIM,
        ensures
            r is Ok,
            ({
                let c = r->Ok_0;
                &&& c.wf()
                &&& c.image is Some
                &&& c.image->0.spec_width() == width
                &&& c.image->0.spec_height() == height
                &&& c.image->0.spec_num_bands() == num_bands
                &&& forall|b: int, y: int, x: int|
                    0 <= b < num_bands && 0 <= y < height && 0 <= x < width ==> #[trigger] c.image
                        ->0.spec_get(b, y, x) == 0
            }),
    {
        Ok(CalibrationImage { image: Some(Image::new_with_bands(width, height, num_bands)) })
    }

    /// A reference buffer holding everywhere the mean of the given buffer's
    /// first band.
    #[verifier::loop_isolation(false)]
    pub fn new_as_mean_of_image(image: &Image) -> (r: Result<CalibrationImage, SolhatError>)
        requires
            image.wf(),
        ensures
            r is Ok,
            ({
                let c = r->Ok_0;
                &&& c.wf()
                &&& c.image is Some
                &&& c.image->0.spec_width() == image.spec_width()
                &&& c.image->0.spec_height() == image.spec_height()
                &&& c.image->0.spec_num_bands() == image.spec_num_bands()
                &&& forall|b: int, y: int, x: int|
                    0 <= b < image.spec_num_bands() && 0 <= y < image.spec_height() && 0 <= x
                        < image.spec_width() ==> #[trigger] c.image->0.spec_get(b, y, x) as int
                        == spec_band0_mean(image)
            }),
    {
        let w = image.width();
        let h = image.height();
        let nb = image.num_bands();
        proof {
            if w >= 1 && h >= 1 {
                lemma_index_arith_bounds(w as int, h as int, 0, 0, 0);
            } else {
                assert((w as int) * (h as int) == 0) by (nonlinear_arith)
                    requires
                        w == 0 || h == 0,
                ;
            }
            assert(nb * (w * h) <= 3 * 0x2000_0000) by (nonlinear_arith)
                requires
                    nb <= 3,
                    w * h <= 0x2000_0000,
            ;
        }
        let cells: usize = w * h;
        let mut sum: u64 = 0;
        let mut k: usize = 0;
        while k < cells
            invariant
                k <= cells,
                cells == w * h,
                sum as int == spec_band0_sum(image, k as int),
                sum as int <= (k as int) * (MAX_SAMPLE as int),
            decreases cells - k,
        {
            proof {
                assert(cells <= image.data@.len()) by (nonlinear_arith)
                    requires
                        cells == (image.width as int) * (image.height as int),
                        image.data@.len() == (image.num_bands as int) * ((image.width as int) * (
                        image.height as int)),
                        1 <= image.num_bands,
                ;
                assert((k as int) * (MAX_SAMPLE as int) + MAX_SAMPLE == ((k as int) + 1) * (
                MAX_SAMPLE as int)) by (nonlinear_arith);
                assert((k as int) * (MAX_SAMPLE as int) <= 0x2000_0000 * (MAX_SAMPLE as int))
                    by (nonlinear_arith)
                    requires
                        0 <= (k as int) <= 0x2000_0000,
                ;
            }
            let v = image.data[k];
            sum = sum + v as u64;
            k += 1;
        }
        let mean: u64 = if cells > 0 {
            proof {
                lemma_band0_sum_bound(image, cells as int);
                assert(sum as int / cells as int <= MAX_SAMPLE as int) by (nonlinear_arith)
                    requires
                        0 < cells as int,
                        0 <= sum as int <= (cells as int) * (MAX_SAMPLE as int),
                ;
            }
            sum / (cells as u64)
        } else {
            0
        };
        let n: usize = nb * cells;
        let data = filled(n, mean as u32);
        let out = Image { width: w, height: h, num_bands: nb, data };
        proof {
            assert forall|b: int, y: int, x: int|
                0 <= b < nb && 0 <= y < h && 0 <= x < w implies #[trigger] out.spec_get(
                b,
                y,
                x,
            ) as int == spec_band0_mean(image) by {
                lemma_cell_index_bound(w as int, h as int, nb as int, b, y, x);
            }
        }
        Ok(CalibrationImage { image: Some(out) })
    }
}

} // verus!
