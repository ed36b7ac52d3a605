//! The shared state of a run: the immutable parameters, the source registry,
//! the four master calibration images, the hot-pixel mask, run statistics and
//! the evolving frame-record collection. Stages borrow the context immutably
//! and return a fresh record collection that the caller assigns back.

use vstd::prelude::*;

use crate::calibrationframe::CalibrationImage;
use crate::calibrationframe::spec_adj_flat_mean;
use crate::datasource::DataSource;
use crate::drizzle::Offset;
use crate::drizzle::Scale;
use crate::drizzle::StackAlgorithm;
use crate::error::SolhatError;
use crate::fpmap::FpMap;
use crate::fpmap::spec_contains_hash;
use crate::fpmap::spec_index_of_hash;
use crate::framerecord::FrameRecord;
use crate::hotpixel::HotPixelMap;
use crate::hotpixel::create_hotpixel_mask;
use crate::image::Image;
use crate::image::MAX_DIM;
use crate::stats::ProcessStats;
use crate::target::Target;

verus! {

/// Immutable run configuration.
#[derive(Debug, Clone)]
pub struct ProcessParameters {
    pub input_files: Vec<String>,
    /// Object-detection threshold in sample units.
    pub obj_detection_threshold: u32,
    /// Observer latitude, microdegrees.
    pub obs_latitude: i64,
    /// Observer longitude, microdegrees.
    pub obs_longitude: i64,
    pub target: Target,
    pub crop_width: Option<usize>,
    pub crop_height: Option<usize>,
    pub max_frames: Option<usize>,
    pub min_sigma: Option<u64>,
    pub max_sigma: Option<u64>,
    /// Percentage of best frames retained, 0 to 100.
    pub top_percentage: Option<u32>,
    pub drizzle_scale: Scale,
    /// The accumulation strategy of the run.
    pub algorithm: StackAlgorithm,
    /// Initial rotation, microdegrees.
    pub initial_rotation: i64,
    /// Constant output shift, whole pixels.
    pub horiz_offset: i64,
    pub vert_offset: i64,
    pub flat_inputs: Option<String>,
    pub dark_inputs: Option<String>,
    pub darkflat_inputs: Option<String>,
    pub bias_inputs: Option<String>,
    pub hot_pixel_map: Option<HotPixelMap>,
}

/// The single shared mutable state of a run.
pub struct ProcessContext<F: DataSource> {
    pub parameters: ProcessParameters,
    pub fp_map: FpMap<F>,
    pub master_flat: CalibrationImage,
    pub master_dark: CalibrationImage,
    pub master_darkflat: CalibrationImage,
    pub master_bias: CalibrationImage,
    pub stats: ProcessStats,
    pub frame_records: Vec<FrameRecord>,
    pub hotpixel_mask: Option<Image>,
}

/// One pixel calibrated: dark and bias subtracted (saturating at zero), then
/// flat-fielded by scaling with the adjusted flat's mean over the adjusted
/// flat's value at the pixel (the adjusted flat is the flat minus the
/// dark-flat, floored at zero), clamped to the sample range. An absent image
/// skips its step.
pub open spec fn spec_cal_px(
    raw: int,
    dark: int,
    bias: int,
    flat: int,
    darkflat: int,
    flat_present: bool,
    flatmean: int,
) -> int {
    let base0 = raw - dark - bias;
    let base = if base0 < 0 {
        0
    } else {
        base0
    };
    let fa = flat - darkflat;
    let flatadj = if fa < 0 {
        0
    } else {
        fa
    };
    if flat_present && flatadj > 0 && flatmean > 0 {
        let v = (base * flatmean) / flatadj;
        if v > 65535 {
            65535
        } else {
            v
        }
    } else {
        base
    }
}

/// The per-source record cap the parameters imply; absent means effectively
/// unbounded.
pub open spec fn spec_record_cap(params: &ProcessParameters) -> int {
    if params.max_frames is Some {
        params.max_frames->0 as int
    } else {
        0xffff_ffff
    }
}

/// How many records one source expands to: its frame count, capped.
pub open spec fn spec_source_record_count<F: DataSource>(src: F, cap: int) -> int {
    if src.spec_frame_count() > cap {
        cap
    } else {
        src.spec_frame_count()
    }
}

/// How many records a source list expands to in all.
pub open spec fn spec_total_records<F: DataSource>(sources: Seq<F>, cap: int) -> int
    decreases sources.len(),
{
    if sources.len() == 0 {
        0
    } else {
        spec_total_records(sources.drop_last(), cap) + spec_source_record_count(
            sources.last(),
            cap,
        )
    }
}

/// One more source adds exactly its own record count.
pub proof fn lemma_total_records_step<F: DataSource>(sources: Seq<F>, cap: int, s: int)
    requires
        0 <= s < sources.len(),
    ensures
        spec_total_records(sources.subrange(0, s + 1), cap) == spec_total_records(
            sources.subrange(0, s),
            cap,
        ) + spec_source_record_count(sources[s], cap),
{
    assert(sources.subrange(0, s + 1).drop_last() =~= sources.subrange(0, s));
    assert(sources.subrange(0, s + 1).last() == sources[s]);
}

/// Record `k` of source `s` sits at its offset in the concatenated record
/// list: identity fields from the source, analysis fields zeroed.
pub open spec fn spec_expanded_record_ok<F: DataSource>(
    records: Seq<FrameRecord>,
    sources: Seq<F>,
    cap: int,
    s: int,
    k: int,
) -> bool {
    let off = spec_total_records(sources.subrange(0, s), cap);
    &&& 0 <= off + k < records.len()
    &&& {
        let rec = records[off + k];
        &&& rec.source_file_id@ == sources[s].spec_hash()
        &&& rec.frame_id == k
        &&& rec.frame_width == sources[s].spec_width()
        &&& rec.frame_height == sources[s].spec_height()
        &&& rec.sigma == 0
        &&& rec.computed_rotation == 0
        &&& rec.offset == (Offset { h: 0, v: 0 })
    }
}

/// Sources a run accepts: every one validates and no two share a content
/// hash. Context construction succeeds on exactly these.
pub open spec fn spec_sources_ok<F: DataSource>(sources: Seq<F>) -> bool {
    &&& forall|i: int| 0 <= i < sources.len() ==> #[trigger] sources[i].spec_valid()
    &&& forall|i: int, j: int|
        #![trigger sources[i], sources[j]]
        0 <= i < j < sources.len() ==> sources[i].spec_hash() != sources[j].spec_hash()
}

impl<F: DataSource> ProcessContext<F> {
    /// Every registry entry is consistent and the calibration images are
    /// well formed.
    pub open spec fn wf(&self) -> bool {
        &&& self.fp_map.wf()
        &&& self.master_flat.wf()
        &&& self.master_dark.wf()
        &&& self.master_darkflat.wf()
        &&& self.master_bias.wf()
        &&& (self.hotpixel_mask is Some ==> self.hotpixel_mask->0.wf()
            && self.hotpixel_mask->0.spec_num_bands() == 1)
    }

    /// The source a record resolves to.
    pub open spec fn spec_source_of(&self, rec: &FrameRecord) -> F {
        self.fp_map.entries@[spec_index_of_hash(self.fp_map.entries@, rec.source_file_id@)].source
    }

    /// A record resolves to a registered source and names one of its frames.
    pub open spec fn spec_record_ok(&self, rec: &FrameRecord) -> bool {
        &&& spec_contains_hash(self.fp_map.entries@, rec.source_file_id@)
        &&& rec.frame_id < self.spec_source_of(rec).spec_frame_count()
        &&& self.spec_source_of(rec).spec_frame_ok(rec.frame_id as int)
        &&& self.spec_source_of(rec).spec_frame_ts_ok(rec.frame_id as int)
        &&& rec.frame_width == self.spec_source_of(rec).spec_width()
        &&& rec.frame_height == self.spec_source_of(rec).spec_height()
    }

    /// The calibration images and mask, where present, share the frame
    /// geometry of the given dimensions.
    pub open spec fn spec_cal_dims_ok(&self, w: int, h: int) -> bool {
        &&& (self.master_flat.image is Some ==> self.master_flat.image->0.spec_width() == w
            && self.master_flat.image->0.spec_height() == h)
        &&& (self.master_dark.image is Some ==> self.master_dark.image->0.spec_width() == w
            && self.master_dark.image->0.spec_height() == h)
        &&& (self.master_darkflat.image is Some ==> self.master_darkflat.image->0.spec_width() == w
            && self.master_darkflat.image->0.spec_height() == h)
        &&& (self.master_bias.image is Some ==> self.master_bias.image->0.spec_width() == w
            && self.master_bias.image->0.spec_height() == h)
        &&& (self.hotpixel_mask is Some ==> self.hotpixel_mask->0.spec_width() == w
            && self.hotpixel_mask->0.spec_height() == h)
    }

    /// A record's raw sample.
    pub open spec fn spec_raw_at(&self, rec: &FrameRecord, y: int, x: int) -> int {
        self.spec_source_of(rec).spec_frame_sample(rec.frame_id as int, y, x)
    }

    /// A record's calibrated sample, before hot-pixel correction.
    pub open spec fn spec_cal_at(&self, rec: &FrameRecord, y: int, x: int) -> int {
        let dark = if self.master_dark.image is Some {
            self.master_dark.image->0.spec_get(0, y, x) as int
        } else {
            0
        };
        let bias = if self.master_bias.image is Some {
            self.master_bias.image->0.spec_get(0, y, x) as int
        } else {
            0
        };
        let flat_present = self.master_flat.image is Some;
        let flat = if flat_present {
            self.master_flat.image->0.spec_get(0, y, x) as int
        } else {
            0
        };
        let darkflat = if self.master_darkflat.image is Some {
            self.master_darkflat.image->0.spec_get(0, y, x) as int
        } else {
            0
        };
        let flatmean = if flat_present {
            spec_adj_flat_mean(&self.master_flat.image->0, &self.master_darkflat)
        } else {
            0
        };
        spec_cal_px(self.spec_raw_at(rec, y, x), dark, bias, flat, darkflat, flat_present, flatmean)
    }

    /// A record's calibrated sample after hot-pixel correction: a masked
    /// pixel is patched with the mean of its in-bounds four-neighborhood of
    /// calibrated values.
    pub open spec fn spec_calibrated_at(&self, rec: &FrameRecord, y: int, x: int) -> int {
        let w = self.spec_source_of(rec).spec_width();
        let h = self.spec_source_of(rec).spec_height();
        if self.hotpixel_mask is Some && self.hotpixel_mask->0.spec_get(0, y, x) > 0 {
            let left = if x > 0 {
                self.spec_cal_at(rec, y, x - 1)
            } else {
                0
            };
            let right = if x + 1 < w {
                self.spec_cal_at(rec, y, x + 1)
            } else {
                0
            };
            let above = if y > 0 {
                self.spec_cal_at(rec, y - 1, x)
            } else {
                0
            };
            let below = if y + 1 < h {
                self.spec_cal_at(rec, y + 1, x)
            } else {
                0
            };
            let count = (if x > 0 {
                1int
            } else {
                0int
            }) + (if x + 1 < w {
                1int
            } else {
                0int
            }) + (if y > 0 {
                1int
            } else {
                0int
            }) + (if y + 1 < h {
                1int
            } else {
                0int
            });
            if count > 0 {
                (left + right + above + below) / count
            } else {
                0
            }
        } else {
            self.spec_cal_at(rec, y, x)
        }
    }

    /// Records for the first `cap` frames of a source, identity fields set,
    /// analysis fields zeroed.
    #[verifier::loop_isolation(false)]
    pub fn load_frame_records_for_source(source: &F, cap: usize) -> (r: Vec<FrameRecord>)
        requires
            source.inv(),
        ensures
            r@.len() == if source.spec_frame_count() > cap {
                cap as int
            } else {
                source.spec_frame_count()
            },
            forall|i: int|
                0 <= i < r@.len() ==> {
                    let rec = #[trigger] r@[i];
                    &&& rec.source_file_id@ == source.spec_hash()
                    &&& rec.frame_id == i
                    &&& rec.frame_width == source.spec_width()
                    &&& rec.frame_height == source.spec_height()
                    &&& rec.sigma == 0
                    &&& rec.computed_rotation == 0
                    &&& rec.offset == (Offset { h: 0, v: 0 })
                },
    {
        let total = source.frame_count();
        let count = if total > cap {
            cap
        } else {
            total
        };
        let w = source.image_width();
        let h = source.image_height();
        let mut r: Vec<FrameRecord> = Vec::new();
        let mut i: usize = 0;
        while i < count
            invariant
                i <= count,
                w as int == source.spec_width(),
                h as int == source.spec_height(),
                r@.len() == i,
                forall|j: int|
                    0 <= j < i ==> {
                        let rec = #[trigger] r@[j];
                        &&& rec.source_file_id@ == source.spec_hash()
                        &&& rec.frame_id == j
                        &&& rec.frame_width == source.spec_width()
                        &&& rec.frame_height == source.spec_height()
                        &&& rec.sigma == 0
                        &&& rec.computed_rotation == 0
                        &&& rec.offset == (Offset { h: 0, v: 0 })
                    },
            decreases count - i,
        {
            let rec = FrameRecord {
                source_file_id: source.file_hash(),
                frame_id: i,
                frame_width: w,
                frame_height: h,
                sigma: 0,
                computed_rotation: 0,
                offset: Offset { h: 0, v: 0 },
            };
            r.push(rec);
            i += 1;
        }
        r
    }

    /// Build the context: rasterize the hot-pixel mask once, register every
    /// pre-opened input source (validating and deduplicating), and expand
    /// each into one record per frame up to the configured cap.
    #[verifier::loop_isolation(false)]
    pub fn create_with_calibration_frames(
        params: ProcessParameters,
        master_flat: CalibrationImage,
        master_darkflat: CalibrationImage,
        master_dark: CalibrationImage,
        master_bias: CalibrationImage,
        sources: Vec<F>,
    ) -> (r: Result<ProcessContext<F>, SolhatError>)
        requires
            master_flat.wf(),
            master_darkflat.wf(),
            master_dark.wf(),
            master_bias.wf(),
            forall|i: int| 0 <= i < sources@.len() ==> #[trigger] sources@[i].inv(),
            params.hot_pixel_map is Some ==> 1 <= params.hot_pixel_map->0.sensor_width <= MAX_DIM
                && 1 <= params.hot_pixel_map->0.sensor_height <= MAX_DIM,
        ensures
            r is Ok <==> spec_sources_ok(sources@),
            r is Ok ==> {
                let c = r->Ok_0;
                let cap = spec_record_cap(&params);
                &&& c.wf()
                &&& c.parameters == params
                &&& (c.hotpixel_mask is Some <==> params.hot_pixel_map is Some)
                &&& c.fp_map.entries@.len() == sources@.len()
                &&& forall|i: int|
                    0 <= i < sources@.len() ==> #[trigger] c.fp_map.entries@[i].source
                        == sources@[i]
                &&& c.frame_records@.len() == spec_total_records(sources@, cap)
                &&& forall|s: int, k: int|
                    0 <= s < sources@.len() && 0 <= k < spec_source_record_count(sources@[s], cap)
                        ==> #[trigger] spec_expanded_record_ok(
                        c.frame_records@,
                        sources@,
                        cap,
                        s,
                        k,
                    )
                &&& forall|i: int|
                    0 <= i < c.frame_records@.len() ==> {
                        let rec = #[trigger] c.frame_records@[i];
                        &&& rec.sigma == 0
                        &&& rec.computed_rotation == 0
                        &&& rec.offset == (Offset { h: 0, v: 0 })
                        &&& spec_contains_hash(c.fp_map.entries@, rec.source_file_id@)
                    }
            },
    {
        let hotpixel_mask: Option<Image> = match &params.hot_pixel_map {
            Some(hpm) => {
                match create_hotpixel_mask(hpm) {
                    Ok(m) => Some(m),
                    Err(e) => {
                        return Err(e);
                    },
                }
            },
            None => None,
        };
        let max_records: usize = match params.max_frames {
            Some(mf) => mf,
            None => 0xffff_ffff,
        };
        let ghost cap = spec_record_cap(&params);
        proof {
            assert(max_records as int == cap);
        }
        let mut fp_map: FpMap<F> = FpMap::new();
        let mut records: Vec<FrameRecord> = Vec::new();
        let ghost orig_sources = sources@;
        let mut sources = sources;
        while sources.len() > 0
            invariant
                fp_map.wf(),
                fp_map.entries@.len() + sources@.len() == orig_sources.len(),
                sources@ == orig_sources.subrange(
                    fp_map.entries@.len() as int,
                    orig_sources.len() as int,
                ),
                forall|i: int|
                    0 <= i < fp_map.entries@.len() ==> #[trigger] fp_map.entries@[i].source
                        == orig_sources[i],
                forall|i: int| 0 <= i < sources@.len() ==> #[trigger] sources@[i].inv(),
                records@.len() == spec_total_records(
                    orig_sources.subrange(0, fp_map.entries@.len() as int),
                    cap,
                ),
                forall|s: int, k: int|
                    0 <= s < fp_map.entries@.len() && 0 <= k < spec_source_record_count(
                        orig_sources[s],
                        cap,
                    ) ==> #[trigger] spec_expanded_record_ok(records@, orig_sources, cap, s, k),
                forall|i: int|
                    0 <= i < records@.len() ==> {
                        let rec = #[trigger] records@[i];
                        &&& rec.sigma == 0
                        &&& rec.computed_rotation == 0
                        &&& rec.offset == (Offset { h: 0, v: 0 })
                        &&& spec_contains_hash(fp_map.entries@, rec.source_file_id@)
                    },
            decreases sources@.len(),
        {
            let ghost consumed = fp_map.entries@.len() as int;
            let source = sources.remove(0);
            proof {
                assert(orig_sources.subrange(consumed, orig_sources.len() as int).remove(0)
                    =~= orig_sources.subrange(consumed + 1, orig_sources.len() as int));
                assert(source == orig_sources[consumed]);
            }
            let ghost src_hash = source.spec_hash();
            let new_records = Self::load_frame_records_for_source(&source, max_records);
            let ghost pre_entries = fp_map.entries@;
            match fp_map.open(source) {
                Ok(_) => {},
                Err(e) => {
                    proof {
                        if orig_sources[consumed].spec_valid() {
                            // the only other failure is a duplicate content hash
                            let j = choose|j: int|
                                0 <= j < pre_entries.len() && #[trigger] pre_entries[j].hash@
                                    == src_hash;
                            assert(pre_entries[j].source == orig_sources[j]);
                            assert(pre_entries[j].source.inv());
                            assert(pre_entries[j].hash@ == orig_sources[j].spec_hash());
                            assert(orig_sources[j].spec_hash() == orig_sources[
                                consumed
                            ].spec_hash());
                            assert(!spec_sources_ok(orig_sources));
                        } else {
                            assert(!spec_sources_ok(orig_sources));
                        }
                    }
                    return Err(e);
                },
            }
            proof {
                assert forall|i2: int|
                    0 <= i2 < fp_map.entries@.len() implies #[trigger] fp_map.entries@[i2].source
                    == orig_sources[i2] by {
                    if i2 < pre_entries.len() {
                        assert(fp_map.entries@.subrange(0, pre_entries.len() as int)
                            == pre_entries);
                        assert(fp_map.entries@[i2] == pre_entries[i2]);
                    } else {
                        assert(fp_map.entries@[i2] == fp_map.entries@.last());
                    }
                }
                assert forall|i: int| 0 <= i < new_records@.len() implies spec_contains_hash(
                    fp_map.entries@,
                    #[trigger] new_records@[i].source_file_id@,
                ) by {
                    let last = fp_map.entries@.len() - 1;
                    assert(fp_map.entries@[last].source == fp_map.entries@.last().source);
                    assert(fp_map.entries@[last].source.inv());
                    assert(fp_map.entries@[last].source.spec_hash() == src_hash);
                    assert(fp_map.entries@[last].hash@ == src_hash);
                }
                assert forall|i: int| 0 <= i < records@.len() implies spec_contains_hash(
                    fp_map.entries@,
                    #[trigger] records@[i].source_file_id@,
                ) by {
                    let j = choose|j: int|
                        0 <= j < pre_entries.len() && #[trigger] pre_entries[j].hash@ == records@[
                            i
                        ].source_file_id@;
                    assert(fp_map.entries@.subrange(0, pre_entries.len() as int) == pre_entries);
                    assert(fp_map.entries@[j] == pre_entries[j]);
                }
            }
            let ghost before = records@;
            let mut k: usize = 0;
            let n = new_records.len();
            while k < n
                invariant
                    k <= n,
                    n == new_records@.len(),
                    records@ == before + new_records@.subrange(0, k as int),
                decreases n - k,
            {
                let rec = new_records[k].duplicate();
                records.push(rec);
                proof {
                    assert(records@ =~= before + new_records@.subrange(0, k as int + 1));
                }
                k += 1;
            }
            proof {
                assert(new_records@.subrange(0, n as int) =~= new_records@);
                assert(records@ == before + new_records@);
                lemma_total_records_step(orig_sources, cap, consumed);
                assert(new_records@.len() == spec_source_record_count(orig_sources[consumed], cap));
                assert(records@.len() == spec_total_records(
                    orig_sources.subrange(0, consumed + 1),
                    cap,
                ));
                // the previously expanded sources sit untouched below `before`
                assert forall|s: int, k2: int|
                    0 <= s < fp_map.entries@.len() && 0 <= k2 < spec_source_record_count(
                        orig_sources[s],
                        cap,
                    ) implies #[trigger] spec_expanded_record_ok(
                    records@,
                    orig_sources,
                    cap,
                    s,
                    k2,
                ) by {
                    if s < consumed {
                        assert(spec_expanded_record_ok(before, orig_sources, cap, s, k2));
                        let off = spec_total_records(orig_sources.subrange(0, s), cap);
                        assert(records@[off + k2] == before[off + k2]);
                    } else {
                        assert(s == consumed);
                        let off = spec_total_records(orig_sources.subrange(0, s), cap);
                        assert(off == before.len());
                        assert(records@[off + k2] == new_records@[k2]);
                    }
                }
                // every record still resolves in the grown registry
                assert forall|i: int|
                    0 <= i < records@.len() implies {
                    let rec = #[trigger] records@[i];
                    &&& rec.sigma == 0
                    &&& rec.computed_rotation == 0
                    &&& rec.offset == (Offset { h: 0, v: 0 })
                    &&& spec_contains_hash(fp_map.entries@, rec.source_file_id@)
                } by {
                    if i < before.len() {
                        assert(records@[i] == before[i]);
                    } else {
                        assert(records@[i] == new_records@[i - before.len()]);
                    }
                }
            }
        }
        proof {
            // with every source registered, the registry's own invariants say
            // each one validated and no two hashes collide
            assert forall|i: int| 0 <= i < orig_sources.len() implies #[trigger] orig_sources[
                i
            ].spec_valid() by {
                assert(fp_map.entries@[i].source == orig_sources[i]);
                assert(fp_map.entries@[i].source.inv());
            }
            assert forall|i: int, j: int|
                #![trigger orig_sources[i], orig_sources[j]]
                0 <= i < j < orig_sources.len() implies orig_sources[i].spec_hash()
                != orig_sources[j].spec_hash() by {
                assert(fp_map.entries@[i].source == orig_sources[i]);
                assert(fp_map.entries@[j].source == orig_sources[j]);
                assert(fp_map.entries@[i].source.inv());
                assert(fp_map.entries@[j].source.inv());
                assert(fp_map.entries@[i].hash@ != fp_map.entries@[j].hash@);
            }
            assert(spec_sources_ok(orig_sources));
            assert(orig_sources.subrange(0, orig_sources.len() as int) =~= orig_sources);
        }
        Ok(
            ProcessContext {
                parameters: params,
                fp_map,
                master_flat,
                master_dark,
                master_darkflat,
                master_bias,
                stats: ProcessStats::new_empty(),
                frame_records: records,
                hotpixel_mask,
            },
        )
    }
}

} // verus!
