//! Frame quality scoring: for each record, an integer local-contrast estimator
//! (the population variance of the raw samples, rounded down) over a fixed
//! window centered at the frame's center adjusted by any previously computed
//! offset. Each record is scored independently of every other.

use vstd::prelude::*;
use vstd::arithmetic::div_mod::lemma_multiply_divide_lt;

use crate::context::ProcessContext;
use crate::drizzle::floor_div_q16;
use crate::datasource::DataSource;
use crate::error::SolhatError;
use crate::fpmap::spec_contains_hash;
use crate::framerecord::FrameRecord;

verus! {

/// Largest quality window the estimator accepts, a machine limit that keeps
/// the variance arithmetic inside 128 bits.
pub const MAX_WINDOW: usize = 1024;

/// Sum of the raw samples over the first `k` cells (row-major) of the window
/// `[x0, x0 + wx) x [y0, ...)`.
pub open spec fn spec_win_sum<F: DataSource>(
    ctx: &ProcessContext<F>,
    rec: &FrameRecord,
    x0: int,
    y0: int,
    wx: int,
    k: int,
) -> int
    decreases k,
{
    if k <= 0 || wx <= 0 {
        0
    } else {
        spec_win_sum(ctx, rec, x0, y0, wx, k - 1) + ctx.spec_raw_at(
            rec,
            y0 + (k - 1) / wx,
            x0 + (k - 1) % wx,
        )
    }
}

/// Sum of the squared raw samples over the same cells.
pub open spec fn spec_win_sum_sq<F: DataSource>(
    ctx: &ProcessContext<F>,
    rec: &FrameRecord,
    x0: int,
    y0: int,
    wx: int,
    k: int,
) -> int
    decreases k,
{
    if k <= 0 || wx <= 0 {
        0
    } else {
        let v = ctx.spec_raw_at(rec, y0 + (k - 1) / wx, x0 + (k - 1) % wx);
        spec_win_sum_sq(ctx, rec, x0, y0, wx, k - 1) + v * v
    }
}

/// The window the estimator reads: centered at the frame center shifted by
/// the record's offset, clamped to the frame.
pub open spec fn spec_window_x0<F: DataSource>(ctx: &ProcessContext<F>, rec: &FrameRecord, window: int) -> int {
    let w = ctx.spec_source_of(rec).spec_width();
    let cx0 = w / 2 + rec.offset.h / 65536;
    let cx = if cx0 < 0 {
        0
    } else if cx0 > w {
        w
    } else {
        cx0
    };
    if cx >= window / 2 {
        cx - window / 2
    } else {
        0
    }
}

pub open spec fn spec_window_y0<F: DataSource>(ctx: &ProcessContext<F>, rec: &FrameRecord, window: int) -> int {
    let h = ctx.spec_source_of(rec).spec_height();
    let cy0 = h / 2 + rec.offset.v / 65536;
    let cy = if cy0 < 0 {
        0
    } else if cy0 > h {
        h
    } else {
        cy0
    };
    if cy >= window / 2 {
        cy - window / 2
    } else {
        0
    }
}

pub open spec fn spec_window_x1<F: DataSource>(ctx: &ProcessContext<F>, rec: &FrameRecord, window: int) -> int {
    let w = ctx.spec_source_of(rec).spec_width();
    let x0 = spec_window_x0(ctx, rec, window);
    if x0 + window <= w {
        x0 + window
    } else {
        w
    }
}

pub open spec fn spec_window_y1<F: DataSource>(ctx: &ProcessContext<F>, rec: &FrameRecord, window: int) -> int {
    let h = ctx.spec_source_of(rec).spec_height();
    let y0 = spec_window_y0(ctx, rec, window);
    if y0 + window <= h {
        y0 + window
    } else {
        h
    }
}

/// The record's quality score: the population variance of the raw samples in
/// the window, rounded down (and floored at zero). Sharper frames have more
/// local contrast and score higher.
pub open spec fn spec_sigma_of<F: DataSource>(
    ctx: &ProcessContext<F>,
    rec: &FrameRecord,
    window: int,
) -> int {
    let x0 = spec_window_x0(ctx, rec, window);
    let y0 = spec_window_y0(ctx, rec, window);
    let wx = spec_window_x1(ctx, rec, window) - x0;
    let wy = spec_window_y1(ctx, rec, window) - y0;
    let n = wx * wy;
    if n > 0 {
        let s = spec_win_sum(ctx, rec, x0, y0, wx, n);
        let s2 = spec_win_sum_sq(ctx, rec, x0, y0, wx, n);
        let d = n * s2 - s * s;
        if d < 0 {
            0
        } else {
            d / (n * n)
        }
    } else {
        0
    }
}

/// Prefix window sums of bounded samples are bounded.
proof fn lemma_win_sums_bound<F: DataSource>(
    ctx: &ProcessContext<F>,
    rec: &FrameRecord,
    x0: int,
    y0: int,
    wx: int,
    k: int,
)
    requires
        ctx.wf(),
        spec_contains_hash(ctx.fp_map.entries@, rec.source_file_id@),
        0 <= k,
        0 <= x0,
        0 <= y0,
        0 < wx,
        forall|y: int, x: int| 0 <= y && 0 <= x ==> 0 <= #[trigger] ctx.spec_raw_at(rec, y, x)
            <= 65535,
    ensures
        0 <= spec_win_sum(ctx, rec, x0, y0, wx, k) <= k * 65535,
        0 <= spec_win_sum_sq(ctx, rec, x0, y0, wx, k) <= k * (65535 * 65535),
    decreases k,
{
    if k > 0 {
        lemma_win_sums_bound(ctx, rec, x0, y0, wx, k - 1);
        vstd::arithmetic::div_mod::lemma_div_pos_is_pos(k - 1, wx);
        vstd::arithmetic::div_mod::lemma_mod_pos_bound(k - 1, wx);
        let v = ctx.spec_raw_at(rec, y0 + (k - 1) / wx, x0 + (k - 1) % wx);
        assert(0 <= v * v <= 65535 * 65535) by (nonlinear_arith)
            requires
                0 <= v <= 65535,
        ;
        assert((k - 1) * 65535 + 65535 == k * 65535) by (nonlinear_arith);
        assert((k - 1) * (65535 * 65535) + 65535 * 65535 == k * (65535 * 65535))
            by (nonlinear_arith);
    }
}

/// Score one record.
#[verifier::loop_isolation(false)]
#[verifier::rlimit(100)]
#[verifier::spinoff_prover]
fn sigma_for_record<F: DataSource>(
    context: &ProcessContext<F>,
    rec: &FrameRecord,
    window: usize,
) -> (r: Result<u64, SolhatError>)
    requires
        context.wf(),
        spec_contains_hash(context.fp_map.entries@, rec.source_file_id@),
        1 <= window <= MAX_WINDOW,
        context.spec_record_ok(rec),
        -0x1_0000_0000_0000 <= rec.offset.h <= 0x1_0000_0000_0000,
        -0x1_0000_0000_0000 <= rec.offset.v <= 0x1_0000_0000_0000,
    ensures
        r is Ok,
        r->Ok_0 as int == spec_sigma_of(context, rec, window as int),
{
    let frame = match rec.get_frame(context) {
        Ok(f) => f,
        Err(e) => {
            return Err(e);
        },
    };
    proof {
        context.spec_source_of(rec).lemma_inv_bounds();
        assert forall|y: int, x: int| 0 <= y && 0 <= x implies 0 <= #[trigger] context.spec_raw_at(
            rec,
            y,
            x,
        ) <= 65535 by {}
    }
    let w = frame.buffer.width();
    let h = frame.buffer.height();
    let px_h: i64 = floor_div_q16(rec.offset.h);
    let px_v: i64 = floor_div_q16(rec.offset.v);
    let cx0: i64 = (w as i64) / 2 + px_h;
    let cy0: i64 = (h as i64) / 2 + px_v;
    let cx: i64 = if cx0 < 0 {
        0
    } else if cx0 > w as i64 {
        w as i64
    } else {
        cx0
    };
    let cy: i64 = if cy0 < 0 {
        0
    } else if cy0 > h as i64 {
        h as i64
    } else {
        cy0
    };
    let halfwin: i64 = (window as i64) / 2;
    let x0: usize = if cx >= halfwin {
        (cx - halfwin) as usize
    } else {
        0
    };
    let y0: usize = if cy >= halfwin {
        (cy - halfwin) as usize
    } else {
        0
    };
    let x1: usize = if x0 + window <= w {
        x0 + window
    } else {
        w
    };
    let y1: usize = if y0 + window <= h {
        y0 + window
    } else {
        h
    };
    let wx: usize = x1 - x0;
    let wy: usize = y1 - y0;
    proof {
        assert(0 <= (wx as int) * (wy as int) <= 0x10_0000) by (nonlinear_arith)
            requires
                0 <= wx as int <= 1024,
                0 <= wy as int <= 1024,
        ;
    }
    let n: usize = wx * wy;
    if n == 0 {
        return Ok(0);
    }
    proof {
        assert(wx >= 1 && wy >= 1) by (nonlinear_arith)
            requires
                (wx as int) * (wy as int) > 0,
                wx as int >= 0,
                wy as int >= 0,
        ;
    }
    let mut s: u64 = 0;
    let mut s2: u64 = 0;
    let mut k: usize = 0;
    while k < n
        invariant
            k <= n,
            n == wx * wy,
            1 <= wx <= 1024,
            1 <= wy <= 1024,
            n <= 0x10_0000,
            x0 as int == spec_window_x0(context, rec, window as int),
            y0 as int == spec_window_y0(context, rec, window as int),
            wx as int == spec_window_x1(context, rec, window as int) - x0 as int,
            wy as int == spec_window_y1(context, rec, window as int) - y0 as int,
            x0 + wx <= w,
            y0 + wy <= h,
            frame.buffer.wf(),
            frame.buffer.spec_num_bands() == 1,
            frame.buffer.spec_width() == w,
            frame.buffer.spec_height() == h,
            forall|y2: int, x2: int|
                0 <= y2 < h && 0 <= x2 < w ==> #[trigger] frame.buffer.spec_get(0, y2, x2) as int
                    == context.spec_raw_at(rec, y2, x2),
            s as int == spec_win_sum(context, rec, x0 as int, y0 as int, wx as int, k as int),
            s2 as int == spec_win_sum_sq(context, rec, x0 as int, y0 as int, wx as int, k as int),
        decreases n - k,
    {
        proof {
            lemma_win_sums_bound(context, rec, x0 as int, y0 as int, wx as int, k as int);
            vstd::arithmetic::div_mod::lemma_div_pos_is_pos(k as int, wx as int);
            vstd::arithmetic::div_mod::lemma_mod_pos_bound(k as int, wx as int);
            lemma_multiply_divide_lt(k as int, wx as int, wy as int);
            assert((k as int) * 65535 + 65535 <= 0x10_0000 * 65536) by (nonlinear_arith)
                requires
                    0 <= (k as int) && (k as int) < 0x10_0000,
            ;
            assert((k as int) * (65535 * 65535) + 65535 * 65535 <= 0x10_0000 * (65536 * 65536))
                by (nonlinear_arith)
                requires
                    0 <= (k as int) && (k as int) < 0x10_0000,
            ;
        }
        let dx: usize = k % wx;
        let dy: usize = k / wx;
        let v: u64 = frame.buffer.get(0, y0 + dy, x0 + dx) as u64;
        s = s + v;
        proof {
            assert((v as int) * (v as int) <= 65535 * 65535) by (nonlinear_arith)
                requires
                    0 <= v as int <= 65535,
            ;
        }
        s2 = s2 + v * v;
        k += 1;
    }
    proof {
        lemma_win_sums_bound(context, rec, x0 as int, y0 as int, wx as int, n as int);
        let ni = n as int;
        let si = s as int;
        let s2i = s2 as int;
        assert(si == spec_win_sum(context, rec, x0 as int, y0 as int, wx as int, ni));
        assert(0 <= si <= ni * 65535);
        assert(0 <= s2i <= ni * (65535 * 65535));
        assert(0 <= ni * s2i <= 0x10_0000 * (0x10_0000 * (65535 * 65535)) && 0 <= si * si <= (
        0x10_0000 * 65535) * (0x10_0000 * 65535) && 0 < ni * ni <= 0x10_0000 * 0x10_0000)
            by (nonlinear_arith)
            requires
                0 < ni <= 0x10_0000,
                0 <= si <= ni * 65535,
                0 <= s2i <= ni * (65535 * 65535),
        ;
    }
    let a128: i128 = (n as i128) * (s2 as i128);
    let s_wide: i128 = s as i128;
    proof {
        let ni = n as int;
        let si = s as int;
        assert(si <= 0x10_0000 * 65535) by (nonlinear_arith)
            requires
                0 <= si,
                si <= ni * 65535,
                0 < ni,
                ni <= 0x10_0000,
        ;
        assert(s_wide as int == s as int);
        let sb = s_wide as int;
        assert(0 <= sb * sb < 0x1_0000_0000_0000_0000_0000_0000) by (nonlinear_arith)
            requires
                0 <= sb,
                sb <= 0x10_0000 * 65535,
        ;
        assert((s_wide as int) * (s_wide as int) < 0x1_0000_0000_0000_0000_0000_0000);
    }
    let b128: i128 = s_wide * s_wide;
    let d: i128 = a128 - b128;
    let sigma: i128 = if d < 0 {
        0
    } else {
        proof {
            let ni = n as int;
            let s2i = s2 as int;
            let di = ni * s2i - (s as int) * (s as int);
            assert(di <= (ni * ni) * (65535 * 65535)) by (nonlinear_arith)
                requires
                    0 < ni,
                    0 <= s2i <= ni * (65535 * 65535),
                    0 <= (s as int) * (s as int),
                    di == ni * s2i - (s as int) * (s as int),
            ;
            assert(ni * ni > 0) by (nonlinear_arith)
                requires
                    0 < ni,
            ;
            assert(di / (ni * ni) <= 65535 * 65535) by (nonlinear_arith)
                requires
                    0 < ni * ni,
                    di <= (ni * ni) * (65535 * 65535),
            ;
            vstd::arithmetic::div_mod::lemma_div_pos_is_pos(di, ni * ni);
        }
        d / ((n as i128) * (n as i128))
    };
    Ok(sigma as u64)
}

/// Score every record over a caller-selected window.
#[verifier::loop_isolation(false)]
pub fn frame_sigma_analysis_window_size<F: DataSource>(
    context: &ProcessContext<F>,
    window_size: usize,
) -> (r: Result<Vec<FrameRecord>, SolhatError>)
    requires
        context.wf(),
        1 <= window_size <= MAX_WINDOW,
        forall|i: int|
            0 <= i < context.frame_records@.len() ==> spec_contains_hash(
                context.fp_map.entries@,
                #[trigger] context.frame_records@[i].source_file_id@,
            ) && context.spec_record_ok(&context.frame_records@[i]),
        forall|i: int|
            0 <= i < context.frame_records@.len()
                ==> -0x1_0000_0000_0000 <= #[trigger] context.frame_records@[i].offset.h
                <= 0x1_0000_0000_0000 && -0x1_0000_0000_0000 <= context.frame_records@[i].offset.v
                <= 0x1_0000_0000_0000,
    ensures
        r is Ok,
        r is Ok ==> {
            let out = r->Ok_0@;
            &&& out.len() == context.frame_records@.len()
            &&& forall|i: int|
                #![trigger out[i]]
                0 <= i < out.len() ==> {
                    let rec0 = context.frame_records@[i];
                    let rec1 = out[i];
                    &&& rec1.source_file_id@ == rec0.source_file_id@
                    &&& rec1.frame_id == rec0.frame_id
                    &&& rec1.frame_width == rec0.frame_width
                    &&& rec1.frame_height == rec0.frame_height
                    &&& rec1.computed_rotation == rec0.computed_rotation
                    &&& rec1.offset == rec0.offset
                    &&& (rec1.sigma as int) == spec_sigma_of(context, &rec0, window_size as int)
                }
        },
{
    let n = context.frame_records.len();
    let mut out: Vec<FrameRecord> = Vec::new();
    let mut i: usize = 0;
    while i < n
        invariant
            i <= n,
            n == context.frame_records@.len(),
            out@.len() == i,
            forall|j: int|
                #![trigger out@[j]]
                0 <= j < i ==> {
                    let rec0 = context.frame_records@[j];
                    let rec1 = out@[j];
                    &&& rec1.source_file_id@ == rec0.source_file_id@
                    &&& rec1.frame_id == rec0.frame_id
                    &&& rec1.frame_width == rec0.frame_width
                    &&& rec1.frame_height == rec0.frame_height
                    &&& rec1.computed_rotation == rec0.computed_rotation
                    &&& rec1.offset == rec0.offset
                    &&& (rec1.sigma as int) == spec_sigma_of(context, &rec0, window_size as int)
                },
        decreases n - i,
    {
        let mut rec = context.frame_records[i].duplicate();
        let sigma = match sigma_for_record(context, &context.frame_records[i], window_size) {
            Ok(s) => s,
            Err(e) => {
                return Err(e);
            },
        };
        rec.sigma = sigma;
        out.push(rec);
        i += 1;
    }
    Ok(out)
}

/// Score every record over the default window.
pub fn frame_sigma_analysis<F: DataSource>(context: &ProcessContext<F>) -> (r: Result<
    Vec<FrameRecord>,
    SolhatError,
>)
    requires
        context.wf(),
        forall|i: int|
            0 <= i < context.frame_records@.len() ==> spec_contains_hash(
                context.fp_map.entries@,
                #[trigger] context.frame_records@[i].source_file_id@,
            ) && context.spec_record_ok(&context.frame_records@[i]),
        forall|i: int|
            0 <= i < context.frame_records@.len()
                ==> -0x1_0000_0000_0000 <= #[trigger] context.frame_records@[i].offset.h
                <= 0x1_0000_0000_0000 && -0x1_0000_0000_0000 <= context.frame_records@[i].offset.v
                <= 0x1_0000_0000_0000,
    ensures
        r is Ok,
        r is Ok ==> {
            let out = r->Ok_0@;
            &&& out.len() == context.frame_records@.len()
            &&& forall|i: int|
                #![trigger out[i]]
                0 <= i < out.len() ==> {
                    let rec0 = context.frame_records@[i];
                    let rec1 = out[i];
                    &&& rec1.source_file_id@ == rec0.source_file_id@
                    &&& rec1.frame_id == rec0.frame_id
                    &&& rec1.frame_width == rec0.frame_width
                    &&& rec1.frame_height == rec0.frame_height
                    &&& rec1.computed_rotation == rec0.computed_rotation
                    &&& rec1.offset == rec0.offset
                    &&& (rec1.sigma as int) == spec_sigma_of(context, &rec0, 128)
                }
        },
{
    frame_sigma_analysis_window_size(context, 128)
}

} // verus!
