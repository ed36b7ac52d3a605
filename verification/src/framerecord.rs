use vstd::prelude::*;

use crate::calibrationframe::adj_flat_mean;
use crate::calibrationframe::spec_adj_flat_mean;
use crate::context::ProcessContext;
use crate::datasource::DataFrame;
use crate::datasource::DataSource;
use crate::drizzle::Offset;
use crate::error::SolhatError;
use crate::fpmap::spec_contains_hash;
use crate::hotpixel::replace_hot_pixels;
use crate::hotpixel::spec_inpaint;
use crate::image::Image;

verus! {

/// One entry per raw frame selected for processing: the owning source's
/// content hash, the in-source frame index and geometry, and the three values
/// the analysis stages fill in — a quality score, a rotation in microdegrees,
/// and a Q16 translation offset. Each stage clones records rather than
/// mutating them in place.
#[derive(Debug, Clone)]
pub struct FrameRecord {
    pub source_file_id: String,
    pub frame_id: usize,
    pub frame_width: usize,
    pub frame_height: usize,
    /// Quality score; larger is sharper. Zero until quality analysis runs.
    pub sigma: u64,
    /// Field rotation in microdegrees. Zero until rotation analysis runs.
    pub computed_rotation: i64,
    /// Center-of-mass translation, Q16. Zero until offset analysis runs.
    pub offset: Offset,
}

impl FrameRecord {
    /// An identical copy of the record.
    pub fn duplicate(&self) -> (r: FrameRecord)
        ensures
            r == *self,
    {
        FrameRecord {
            source_file_id: self.source_file_id.clone(),
            frame_id: self.frame_id,
            frame_width: self.frame_width,
            frame_height: self.frame_height,
            sigma: self.sigma,
            computed_rotation: self.computed_rotation,
            offset: self.offset,
        }
    }
}

} // verus!

verus! {

impl FrameRecord {
    /// Fetch the record's raw frame from its owning source in the registry.
    pub fn get_frame<F: DataSource>(&self, context: &ProcessContext<F>) -> (r: Result<
        DataFrame,
        SolhatError,
    >)
        requires
            context.wf(),
            spec_contains_hash(context.fp_map.entries@, self.source_file_id@),
        ensures
            r is Ok <==> (context.spec_source_of(self).spec_frame_ok(self.frame_id as int)
                && context.spec_source_of(self).spec_frame_ts_ok(self.frame_id as int)
                && self.frame_id < context.spec_source_of(self).spec_frame_count()),
            r is Ok ==> {
                let f = r->Ok_0;
                &&& f.buffer.wf()
                &&& f.buffer.spec_num_bands() == 1
                &&& f.buffer.spec_width() == context.spec_source_of(self).spec_width()
                &&& f.buffer.spec_height() == context.spec_source_of(self).spec_height()
                &&& forall|y: int, x: int|
                    0 <= y < f.buffer.spec_height() && 0 <= x < f.buffer.spec_width()
                        ==> #[trigger] f.buffer.spec_get(0, y, x) as int == context.spec_raw_at(
                        self,
                        y,
                        x,
                    )
                &&& f.timestamp as int == context.spec_source_of(self).spec_frame_timestamp(
                    self.frame_id as int,
                )
            },
    {
        match context.fp_map.get(&self.source_file_id) {
            Some(src) => src.get_frame(self.frame_id),
            None => Err(SolhatError::EmptySource),
        }
    }

    /// How many bands the record's frames carry; the raw band is always one.
    pub fn num_bands<F: DataSource>(&self, context: &ProcessContext<F>) -> (r: Result<
        usize,
        SolhatError,
    >)
        requires
            context.wf(),
            spec_contains_hash(context.fp_map.entries@, self.source_file_id@),
        ensures
            r is Ok ==> r->Ok_0 == 1,
    {
        match self.get_frame(context) {
            Ok(f) => Ok(f.buffer.num_bands()),
            Err(e) => Err(e),
        }
    }

    /// The record's capture timestamp, resolved through its source.
    pub fn get_timestamp<F: DataSource>(&self, context: &ProcessContext<F>) -> (r: Result<
        u64,
        SolhatError,
    >)
        requires
            context.wf(),
            spec_contains_hash(context.fp_map.entries@, self.source_file_id@),
        ensures
            r is Ok <==> context.spec_source_of(self).spec_frame_ts_ok(self.frame_id as int),
            r is Ok ==> r->Ok_0 as int == context.spec_source_of(self).spec_frame_timestamp(
                self.frame_id as int,
            ),
    {
        match context.fp_map.get(&self.source_file_id) {
            Some(src) => src.get_frame_timestamp(self.frame_id),
            None => Err(SolhatError::EmptySource),
        }
    }

    /// Fetch the record's frame and calibrate it: subtract the dark and bias,
    /// flat-field, then patch hot pixels.
    #[verifier::loop_isolation(false)]
    pub fn get_calibrated_frame<F: DataSource>(&self, context: &ProcessContext<F>) -> (r: Result<
        DataFrame,
        SolhatError,
    >)
        requires
            context.wf(),
            spec_contains_hash(context.fp_map.entries@, self.source_file_id@),
            context.spec_cal_dims_ok(
                context.spec_source_of(self).spec_width(),
                context.spec_source_of(self).spec_height(),
            ),
        ensures
            r is Ok <==> (context.spec_source_of(self).spec_frame_ok(self.frame_id as int)
                && context.spec_source_of(self).spec_frame_ts_ok(self.frame_id as int)
                && self.frame_id < context.spec_source_of(self).spec_frame_count()),
            r is Ok ==> {
                let f = r->Ok_0;
                &&& f.buffer.wf()
                &&& f.buffer.spec_num_bands() == 1
                &&& f.buffer.spec_width() == context.spec_source_of(self).spec_width()
                &&& f.buffer.spec_height() == context.spec_source_of(self).spec_height()
                &&& forall|y: int, x: int|
                    0 <= y < f.buffer.spec_height() && 0 <= x < f.buffer.spec_width()
                        ==> #[trigger] f.buffer.spec_get(0, y, x) as int
                        == context.spec_calibrated_at(self, y, x)
                &&& f.timestamp as int == context.spec_source_of(self).spec_frame_timestamp(
                    self.frame_id as int,
                )
            },
    {
        let frame = match self.get_frame(context) {
            Ok(f) => f,
            Err(e) => {
                return Err(e);
            },
        };
        let w = frame.buffer.width();
        let h = frame.buffer.height();
        let fm: u64 = match &context.master_flat.image {
            Some(fi) => adj_flat_mean(fi, &context.master_darkflat),
            None => 0,
        };
        let mut cal = Image::new_with_bands(w, h, 1);
        let mut y: usize = 0;
        while y < h
            invariant
                y <= h,
                frame.buffer.wf(),
                frame.buffer.spec_num_bands() == 1,
                frame.buffer.spec_width() == w,
                frame.buffer.spec_height() == h,
                w as int == context.spec_source_of(self).spec_width(),
                h as int == context.spec_source_of(self).spec_height(),
                forall|y2: int, x2: int|
                    0 <= y2 < h && 0 <= x2 < w ==> #[trigger] frame.buffer.spec_get(
                        0,
                        y2,
                        x2,
                    ) as int == context.spec_raw_at(self, y2, x2),
                fm as int == (if context.master_flat.image is Some {
                    spec_adj_flat_mean(&context.master_flat.image->0, &context.master_darkflat)
                } else {
                    0
                }),
                cal.wf(),
                cal.spec_width() == w && cal.spec_height() == h && cal.spec_num_bands() == 1,
                forall|y2: int, x2: int|
                    0 <= y2 < h && 0 <= x2 < w && y2 < y ==> #[trigger] cal.spec_get(
                        0,
                        y2,
                        x2,
                    ) as int == context.spec_cal_at(self, y2, x2),
            decreases h - y,
        {
            let mut x: usize = 0;
            while x < w
                invariant
                    y < h,
                    x <= w,
                    frame.buffer.wf(),
                    frame.buffer.spec_num_bands() == 1,
                    frame.buffer.spec_width() == w,
                    frame.buffer.spec_height() == h,
                    w as int == context.spec_source_of(self).spec_width(),
                    h as int == context.spec_source_of(self).spec_height(),
                    forall|y2: int, x2: int|
                        0 <= y2 < h && 0 <= x2 < w ==> #[trigger] frame.buffer.spec_get(
                            0,
                            y2,
                            x2,
                        ) as int == context.spec_raw_at(self, y2, x2),
                    fm as int == (if context.master_flat.image is Some {
                        spec_adj_flat_mean(&context.master_flat.image->0, &context.master_darkflat)
                    } else {
                        0
                    }),
                    cal.wf(),
                    cal.spec_width() == w && cal.spec_height() == h && cal.spec_num_bands() == 1,
                    forall|y2: int, x2: int|
                        0 <= y2 < h && 0 <= x2 < w && (y2 < y || (y2 == y && x2 < x))
                            ==> #[trigger] cal.spec_get(0, y2, x2) as int == context.spec_cal_at(
                            self,
                            y2,
                            x2,
                        ),
                decreases w - x,
            {
                let raw: i64 = frame.buffer.get(0, y, x) as i64;
                let dark: i64 = match &context.master_dark.image {
                    Some(di) => di.get(0, y, x) as i64,
                    None => 0,
                };
                let bias: i64 = match &context.master_bias.image {
                    Some(bi) => bi.get(0, y, x) as i64,
                    None => 0,
                };
                let base0: i64 = raw - dark - bias;
                let base: i64 = if base0 < 0 {
                    0
                } else {
                    base0
                };
                let v: i64 = match &context.master_flat.image {
                    Some(fi) => {
                        let flat: i64 = fi.get(0, y, x) as i64;
                        let darkflat: i64 = match &context.master_darkflat.image {
                            Some(dfi) => dfi.get(0, y, x) as i64,
                            None => 0,
                        };
                        let fa: i64 = flat - darkflat;
                        let flatadj: i64 = if fa < 0 {
                            0
                        } else {
                            fa
                        };
                        if flatadj > 0 && fm > 0 {
                            proof {
                                assert((base as int) * (fm as int) <= 65535 * 65535)
                                    by (nonlinear_arith)
                                    requires
                                        0 <= base as int <= 65535,
                                        0 <= fm as int <= 65535,
                                ;
                            }
                            let scaled: i64 = (base * fm as i64) / flatadj;
                            if scaled > 65535 {
                                65535
                            } else {
                                scaled
                            }
                        } else {
                            base
                        }
                    },
                    None => base,
                };
                cal.put(0, y, x, v as u32);
                x += 1;
            }
            y += 1;
        }
        let out = match &context.hotpixel_mask {
            Some(mask) => {
                let patched = replace_hot_pixels(&cal, mask);
                proof {
                    assert forall|y2: int, x2: int|
                        0 <= y2 < h && 0 <= x2 < w implies #[trigger] patched.spec_get(
                        0,
                        y2,
                        x2,
                    ) as int == context.spec_calibrated_at(self, y2, x2) by {
                        if mask.spec_get(0, y2, x2) > 0 {
                            assert(patched.spec_get(0, y2, x2) as int == spec_inpaint(
                                &cal,
                                0,
                                y2,
                                x2,
                            ));
                        }
                    }
                }
                patched
            },
            None => cal,
        };
        Ok(DataFrame { buffer: out, timestamp: frame.timestamp })
    }
}

} // verus!
