//! Translational registration: for each record, a brightness-threshold
//! center-of-mass displacement from the frame center, plus any configured
//! constant pixel bias. Each record is measured independently.

use vstd::prelude::*;
use vstd::arithmetic::div_mod::lemma_multiply_divide_lt;

use crate::context::ProcessContext;
use crate::datasource::DataSource;
use crate::drizzle::Offset;
use crate::error::SolhatError;
use crate::framerecord::FrameRecord;
use crate::image::MAX_DIM;

verus! {

/// How many of the first `k` samples (row-major) reach the threshold.
pub open spec fn spec_com_count<F: DataSource>(
    ctx: &ProcessContext<F>,
    rec: &FrameRecord,
    t: int,
    w: int,
    k: int,
) -> int
    decreases k,
{
    if k <= 0 || w <= 0 {
        0
    } else {
        spec_com_count(ctx, rec, t, w, k - 1) + if ctx.spec_raw_at(rec, (k - 1) / w, (k - 1) % w)
            >= t {
            1int
        } else {
            0int
        }
    }
}

/// Sum of the column positions of the qualifying samples.
pub open spec fn spec_com_sx<F: DataSource>(
    ctx: &ProcessContext<F>,
    rec: &FrameRecord,
    t: int,
    w: int,
    k: int,
) -> int
    decreases k,
{
    if k <= 0 || w <= 0 {
        0
    } else {
        spec_com_sx(ctx, rec, t, w, k - 1) + if ctx.spec_raw_at(rec, (k - 1) / w, (k - 1) % w)
            >= t {
            (k - 1) % w
        } else {
            0int
        }
    }
}

/// Sum of the row positions of the qualifying samples.
pub open spec fn spec_com_sy<F: DataSource>(
    ctx: &ProcessContext<F>,
    rec: &FrameRecord,
    t: int,
    w: int,
    k: int,
) -> int
    decreases k,
{
    if k <= 0 || w <= 0 {
        0
    } else {
        spec_com_sy(ctx, rec, t, w, k - 1) + if ctx.spec_raw_at(rec, (k - 1) / w, (k - 1) % w)
            >= t {
            (k - 1) / w
        } else {
            0int
        }
    }
}

/// The horizontal center-of-mass displacement, Q16: the frame's half width
/// minus the mean column of the thresholded pixels; zero when nothing
/// qualifies. The configured constant shift is added on top.
pub open spec fn spec_offset_h_of<F: DataSource>(ctx: &ProcessContext<F>, rec: &FrameRecord) -> int {
    let w = ctx.spec_source_of(rec).spec_width();
    let h = ctx.spec_source_of(rec).spec_height();
    let t = ctx.parameters.obj_detection_threshold as int;
    let n = w * h;
    let count = spec_com_count(ctx, rec, t, w, n);
    let com = if count > 0 {
        (w / 2) * 65536 - (spec_com_sx(ctx, rec, t, w, n) * 65536) / count
    } else {
        0
    };
    com + ctx.parameters.horiz_offset * 65536
}

pub open spec fn spec_offset_v_of<F: DataSource>(ctx: &ProcessContext<F>, rec: &FrameRecord) -> int {
    let w = ctx.spec_source_of(rec).spec_width();
    let h = ctx.spec_source_of(rec).spec_height();
    let t = ctx.parameters.obj_detection_threshold as int;
    let n = w * h;
    let count = spec_com_count(ctx, rec, t, w, n);
    let com = if count > 0 {
        (h / 2) * 65536 - (spec_com_sy(ctx, rec, t, w, n) * 65536) / count
    } else {
        0
    };
    com + ctx.parameters.vert_offset * 65536
}

/// Prefix center-of-mass sums are bounded: at most one count per cell, and
/// each qualifying cell contributes a column below the width and a row below
/// the height.
proof fn lemma_com_bounds<F: DataSource>(
    ctx: &ProcessContext<F>,
    rec: &FrameRecord,
    t: int,
    w: int,
    h: int,
    k: int,
)
    requires
        0 < w,
        0 < h,
        0 <= k <= w * h,
    ensures
        0 <= spec_com_count(ctx, rec, t, w, k) <= k,
        0 <= spec_com_sx(ctx, rec, t, w, k) <= spec_com_count(ctx, rec, t, w, k) * w,
        0 <= spec_com_sy(ctx, rec, t, w, k) <= spec_com_count(ctx, rec, t, w, k) * h,
    decreases k,
{
    if k > 0 {
        lemma_com_bounds(ctx, rec, t, w, h, k - 1);
        vstd::arithmetic::div_mod::lemma_div_pos_is_pos(k - 1, w);
        vstd::arithmetic::div_mod::lemma_mod_pos_bound(k - 1, w);
        lemma_multiply_divide_lt(k - 1, w, h);
        let c0 = spec_com_count(ctx, rec, t, w, k - 1);
        if ctx.spec_raw_at(rec, (k - 1) / w, (k - 1) % w) >= t {
            assert((c0 + 1) * w == c0 * w + w) by (nonlinear_arith);
            assert((c0 + 1) * h == c0 * h + h) by (nonlinear_arith);
        }
    }
}

/// Measure one record.
#[verifier::loop_isolation(false)]
#[verifier::rlimit(100)]
fn offset_for_record<F: DataSource>(context: &ProcessContext<F>, rec: &FrameRecord) -> (r: Result<
    Offset,
    SolhatError,
>)
    requires
        context.wf(),
        context.spec_record_ok(rec),
        -(MAX_DIM as int) <= context.parameters.horiz_offset <= MAX_DIM as int,
        -(MAX_DIM as int) <= context.parameters.vert_offset <= MAX_DIM as int,
    ensures
        r is Ok,
        r->Ok_0.h as int == spec_offset_h_of(context, rec),
        r->Ok_0.v as int == spec_offset_v_of(context, rec),
        -0x1_0000_0000 <= r->Ok_0.h <= 0x1_0000_0000,
        -0x1_0000_0000 <= r->Ok_0.v <= 0x1_0000_0000,
{
    let frame = match rec.get_frame(context) {
        Ok(f) => f,
        Err(e) => {
            return Err(e);
        },
    };
    proof {
        context.spec_source_of(rec).lemma_inv_bounds();
    }
    let w = frame.buffer.width();
    let h = frame.buffer.height();
    let t: u32 = context.parameters.obj_detection_threshold;
    let hoff: i64 = context.parameters.horiz_offset;
    let voff: i64 = context.parameters.vert_offset;
    if w == 0 || h == 0 {
        proof {
            assert((w as int) * (h as int) == 0) by (nonlinear_arith)
                requires
                    w == 0 || h == 0,
            ;
        }
        return Ok(Offset { h: hoff * 65536, v: voff * 65536 });
    }
    proof {
        crate::image::lemma_index_arith_bounds(w as int, h as int, 0, 0, 0);
    }
    let n: usize = w * h;
    let mut count: u64 = 0;
    let mut sx: u64 = 0;
    let mut sy: u64 = 0;
    let mut k: usize = 0;
    while k < n
        invariant
            k <= n,
            n == w * h,
            1 <= w,
            1 <= h,
            n <= 0x2000_0000,
            w <= MAX_DIM,
            h <= MAX_DIM,
            frame.buffer.wf(),
            frame.buffer.spec_num_bands() == 1,
            frame.buffer.spec_width() == w,
            frame.buffer.spec_height() == h,
            forall|y2: int, x2: int|
                0 <= y2 < h && 0 <= x2 < w ==> #[trigger] frame.buffer.spec_get(0, y2, x2) as int
                    == context.spec_raw_at(rec, y2, x2),
            count as int == spec_com_count(context, rec, t as int, w as int, k as int),
            sx as int == spec_com_sx(context, rec, t as int, w as int, k as int),
            sy as int == spec_com_sy(context, rec, t as int, w as int, k as int),
        decreases n - k,
    {
        proof {
            lemma_com_bounds(context, rec, t as int, w as int, h as int, k as int);
            vstd::arithmetic::div_mod::lemma_div_pos_is_pos(k as int, w as int);
            vstd::arithmetic::div_mod::lemma_mod_pos_bound(k as int, w as int);
            lemma_multiply_divide_lt(k as int, w as int, h as int);
            let c = spec_com_count(context, rec, t as int, w as int, k as int);
            assert(c * (w as int) + (w as int) <= 0x2000_0000 * 23000 && c * (h as int) + (
            h as int) <= 0x2000_0000 * 23000) by (nonlinear_arith)
                requires
                    0 <= c && c < 0x2000_0000,
                    0 < (w as int) <= 23000,
                    0 < (h as int) <= 23000,
            ;
        }
        let x: usize = k % w;
        let y: usize = k / w;
        let v = frame.buffer.get(0, y, x);
        if v >= t {
            count = count + 1;
            sx = sx + x as u64;
            sy = sy + y as u64;
        }
        k += 1;
    }
    proof {
        lemma_com_bounds(context, rec, t as int, w as int, h as int, n as int);
    }
    let half_w: i64 = (w as i64 / 2) * 65536;
    let half_h: i64 = (h as i64 / 2) * 65536;
    let off_h: i64 = if count > 0 {
        proof {
            let cnt = count as int;
            let sxi = sx as int;
            assert(sxi * 65536 <= cnt * ((w as int) * 65536) && sxi * 65536 <= 0x2000_0000 * (23000
                * 65536)) by (nonlinear_arith)
                requires
                    0 <= sxi <= cnt * (w as int),
                    0 < cnt <= 0x2000_0000,
                    0 < (w as int) <= 23000,
            ;
            vstd::arithmetic::div_mod::lemma_multiply_divide_le(
                sxi * 65536,
                cnt,
                (w as int) * 65536,
            );
            vstd::arithmetic::div_mod::lemma_div_pos_is_pos(sxi * 65536, cnt);
        }
        let mean_q16: u64 = (sx * 65536) / count;
        half_w - mean_q16 as i64 + hoff * 65536
    } else {
        hoff * 65536
    };
    let off_v: i64 = if count > 0 {
        proof {
            let cnt = count as int;
            let syi = sy as int;
            assert(syi * 65536 <= cnt * ((h as int) * 65536) && syi * 65536 <= 0x2000_0000 * (23000
                * 65536)) by (nonlinear_arith)
                requires
                    0 <= syi <= cnt * (h as int),
                    0 < cnt <= 0x2000_0000,
                    0 < (h as int) <= 23000,
            ;
            vstd::arithmetic::div_mod::lemma_multiply_divide_le(
                syi * 65536,
                cnt,
                (h as int) * 65536,
            );
            vstd::arithmetic::div_mod::lemma_div_pos_is_pos(syi * 65536, cnt);
        }
        let mean_q16: u64 = (sy * 65536) / count;
        half_h - mean_q16 as i64 + voff * 65536
    } else {
        voff * 65536
    };
    Ok(Offset { h: off_h, v: off_v })

}

/// Measure every record: center-of-mass offsets plus the configured bias.
#[verifier::loop_isolation(false)]
pub fn frame_offset_analysis<F: DataSource>(context: &ProcessContext<F>) -> (r: Result<
    Vec<FrameRecord>,
    SolhatError,
>)
    requires
        context.wf(),
        forall|i: int|
            0 <= i < context.frame_records@.len() ==> context.spec_record_ok(
                &#[trigger] context.frame_records@[i],
            ),
        -(MAX_DIM as int) <= context.parameters.horiz_offset <= MAX_DIM as int,
        -(MAX_DIM as int) <= context.parameters.vert_offset <= MAX_DIM as int,
    ensures
        r is Ok,
        r is Ok ==> {
            let out = r->Ok_0@;
            &&& out.len() == context.frame_records@.len()
            &&& forall|i: int|
                #![trigger out[i]]
                0 <= i < out.len() ==> {
                    let rec0 = context.frame_records@[i];
                    let rec1 = out[i];
                    &&& rec1.source_file_id@ == rec0.source_file_id@
                    &&& rec1.frame_id == rec0.frame_id
                    &&& rec1.frame_width == rec0.frame_width
                    &&& rec1.frame_height == rec0.frame_height
                    &&& rec1.sigma == rec0.sigma
                    &&& rec1.computed_rotation == rec0.computed_rotation
                    &&& (rec1.offset.h as int) == spec_offset_h_of(context, &rec0)
                    &&& (rec1.offset.v as int) == spec_offset_v_of(context, &rec0)
                    &&& -0x1_0000_0000 <= rec1.offset.h <= 0x1_0000_0000
                    &&& -0x1_0000_0000 <= rec1.offset.v <= 0x1_0000_0000
                }
        },
{
    let n = context.frame_records.len();
    let mut out: Vec<FrameRecord> = Vec::new();
    let mut i: usize = 0;
    while i < n
        invariant
            i <= n,
            n == context.frame_records@.len(),
            out@.len() == i,
            forall|j: int|
                #![trigger out@[j]]
                0 <= j < i ==> {
                    let rec0 = context.frame_records@[j];
                    let rec1 = out@[j];
                    &&& rec1.source_file_id@ == rec0.source_file_id@
                    &&& rec1.frame_id == rec0.frame_id
                    &&& rec1.frame_width == rec0.frame_width
                    &&& rec1.frame_height == rec0.frame_height
                    &&& rec1.sigma == rec0.sigma
                    &&& rec1.computed_rotation == rec0.computed_rotation
                    &&& (rec1.offset.h as int) == spec_offset_h_of(context, &rec0)
                    &&& (rec1.offset.v as int) == spec_offset_v_of(context, &rec0)
                    &&& -0x1_0000_0000 <= rec1.offset.h <= 0x1_0000_0000
                    &&& -0x1_0000_0000 <= rec1.offset.v <= 0x1_0000_0000
                },
        decreases n - i,
    {
        let mut rec = context.frame_records[i].duplicate();
        let off = match offset_for_record(context, &context.frame_records[i]) {
            Ok(o) => o,
            Err(e) => {
                return Err(e);
            },
        };
        rec.offset = off;
        out.push(rec);
        i += 1;
    }
    Ok(out)
}

} // verus!
