//! The stacking engine's execution model: resample registered frames onto the
//! output grid one by one (the linear path), or in contiguous chunks whose
//! per-chunk accumulators are merged at the end (the parallel-chunked path,
//! for the strategies whose merge commutes). Rotations arrive as
//! caller-computed cosine and sine pairs, one per record.

use vstd::prelude::*;

use crate::context::ProcessContext;
use crate::datasource::DataSource;
use crate::drizzle::BilinearDrizzle;
use crate::drizzle::MAX_CONTRIBUTIONS;
use crate::drizzle::Offset;
use crate::drizzle::RotationTrig;
use crate::drizzle::Scale;
use crate::drizzle::StackAlgorithm;
use crate::drizzle::StackAlgorithmImpl;
use crate::drizzle::lemma_contribution_bounds;
use crate::drizzle::lemma_min_fold_append;
use crate::drizzle::lemma_sum_fold_append;
use crate::drizzle::lemma_contribution_px_congruence;
use crate::drizzle::spec_contribution;
use crate::drizzle::spec_contribution_px;
use crate::drizzle::spec_image_px;
use crate::drizzle::spec_median_of;
use crate::drizzle::spec_min_fold;
use crate::drizzle::spec_scaled_dim;
use crate::drizzle::spec_sum_fold;
use crate::drizzle::spec_written;
use crate::error::SolhatError;
use crate::framerecord::FrameRecord;
use crate::image::Image;
use crate::image::MAX_DIM;

verus! {

/// The sequence of values the frames contribute at one output cell, in frame
/// order.
pub open spec fn spec_cell_contribs(
    frames: Seq<Image>,
    offsets: Seq<Offset>,
    trigs: Seq<RotationTrig>,
    in_w: int,
    in_h: int,
    out_w: int,
    out_h: int,
    b: int,
    y: int,
    x: int,
) -> Seq<int> {
    Seq::new(
        frames.len(),
        |j: int|
            spec_contribution(
                &frames[j],
                in_w,
                in_h,
                out_w,
                out_h,
                trigs[j],
                offsets[j],
                x,
                y,
                b,
            ),
    )
}

/// The same contributions as 16-bit samples, the form a median accumulator
/// retains.
pub open spec fn spec_cell_contribs_u32(
    frames: Seq<Image>,
    offsets: Seq<Offset>,
    trigs: Seq<RotationTrig>,
    in_w: int,
    in_h: int,
    out_w: int,
    out_h: int,
    b: int,
    y: int,
    x: int,
) -> Seq<u32> {
    Seq::new(
        frames.len(),
        |j: int|
            spec_contribution(
                &frames[j],
                in_w,
                in_h,
                out_w,
                out_h,
                trigs[j],
                offsets[j],
                x,
                y,
                b,
            ) as u32,
    )
}

/// The preconditions every stacking entry point shares.
pub open spec fn spec_stack_inputs_ok(
    frames: Seq<Image>,
    offsets: Seq<Offset>,
    trigs: Seq<RotationTrig>,
    in_width: int,
    in_height: int,
    scale: Scale,
    horiz_offset: int,
    vert_offset: int,
    num_bands: int,
) -> bool {
    &&& offsets.len() == frames.len()
    &&& trigs.len() == frames.len()
    &&& frames.len() <= MAX_CONTRIBUTIONS
    &&& forall|j: int| 0 <= j < frames.len() ==> #[trigger] frames[j].wf()
    &&& forall|j: int| 0 <= j < trigs.len() ==> #[trigger] trigs[j].bounded()
    &&& forall|j: int|
        0 <= j < offsets.len() ==> -0x1_0000_0000 <= #[trigger] offsets[j].h <= 0x1_0000_0000
            && -0x1_0000_0000 <= offsets[j].v <= 0x1_0000_0000
    &&& 1 <= in_width <= MAX_DIM
    &&& 1 <= in_height <= MAX_DIM
    &&& 1 <= spec_scaled_dim(in_width, scale) <= MAX_DIM
    &&& 1 <= spec_scaled_dim(in_height, scale) <= MAX_DIM
    &&& -0x1_0000_0000 <= horiz_offset <= 0x1_0000_0000
    &&& -0x1_0000_0000 <= vert_offset <= 0x1_0000_0000
    &&& 1 <= num_bands <= 3
}

/// Resample frames `start .. end` onto a fresh accumulator of the selected
/// strategy. The accumulator afterwards holds, cell by cell, exactly the fold
/// of those frames' contributions.
#[verifier::loop_isolation(false)]
#[verifier::rlimit(100)]
#[verifier::spinoff_prover]
fn drizzle_frames(
    frames: &Vec<Image>,
    offsets: &Vec<Offset>,
    trigs: &Vec<RotationTrig>,
    algorithm: StackAlgorithm,
    in_width: usize,
    in_height: usize,
    scale: Scale,
    horiz_offset: i64,
    vert_offset: i64,
    num_bands: usize,
    start: usize,
    end: usize,
) -> (d: BilinearDrizzle)
    requires
        spec_stack_inputs_ok(
            frames@,
            offsets@,
            trigs@,
            in_width as int,
            in_height as int,
            scale,
            horiz_offset as int,
            vert_offset as int,
            num_bands as int,
        ),
        start <= end <= frames@.len(),
    ensures
        d.wf(),
        d.in_width == in_width,
        d.in_height == in_height,
        d.out_width as int == spec_scaled_dim(in_width as int, scale),
        d.out_height as int == spec_scaled_dim(in_height as int, scale),
        d.horiz_offset == horiz_offset,
        d.vert_offset == vert_offset,
        d.frame_add_count == end - start,
        d.buffer.kind() == algorithm,
        d.buffer.spec_nb() == num_bands,
        ({
            let out_w = spec_scaled_dim(in_width as int, scale);
            let out_h = spec_scaled_dim(in_height as int, scale);
            &&& algorithm == StackAlgorithm::Average ==> {
                let a = d.buffer->Average_0;
                &&& d.buffer is Average
                &&& forall|b2: int, y2: int, x2: int|
                    a.cell_in_range(b2, y2, x2) ==> #[trigger] a.sum_at(b2, y2, x2) == (
                    if spec_written(x2, y2, horiz_offset as int, vert_offset as int, out_w, out_h) {
                        spec_sum_fold(
                            spec_cell_contribs(
                                frames@,
                                offsets@,
                                trigs@,
                                in_width as int,
                                in_height as int,
                                out_w,
                                out_h,
                                b2,
                                y2,
                                x2,
                            ).subrange(start as int, end as int),
                        )
                    } else {
                        0
                    })
                &&& forall|y2: int, x2: int|
                    0 <= y2 < a.height && 0 <= x2 < a.width ==> #[trigger] a.div_at(y2, x2) == (
                    if spec_written(x2, y2, horiz_offset as int, vert_offset as int, out_w, out_h) {
                        end - start
                    } else {
                        0int
                    })
            }
            &&& algorithm == StackAlgorithm::Minimum ==> {
                let m = d.buffer->Minimum_0;
                &&& d.buffer is Minimum
                &&& forall|b2: int, y2: int, x2: int|
                    m.cell_in_range(b2, y2, x2) ==> #[trigger] m.min_at(b2, y2, x2) == (
                    if spec_written(x2, y2, horiz_offset as int, vert_offset as int, out_w, out_h) {
                        spec_min_fold(
                            spec_cell_contribs(
                                frames@,
                                offsets@,
                                trigs@,
                                in_width as int,
                                in_height as int,
                                out_w,
                                out_h,
                                b2,
                                y2,
                                x2,
                            ).subrange(start as int, end as int),
                        )
                    } else {
                        0
                    })
            }
            &&& algorithm == StackAlgorithm::Median ==> {
                let m = d.buffer->Median_0;
                &&& d.buffer is Median
                &&& forall|b2: int, y2: int, x2: int|
                    m.cell_in_range(b2, y2, x2) ==> #[trigger] m.list_at(b2, y2, x2) == (
                    if spec_written(x2, y2, horiz_offset as int, vert_offset as int, out_w, out_h) {
                        spec_cell_contribs_u32(
                            frames@,
                            offsets@,
                            trigs@,
                            in_width as int,
                            in_height as int,
                            out_w,
                            out_h,
                            b2,
                            y2,
                            x2,
                        ).subrange(start as int, end as int)
                    } else {
                        Seq::<u32>::empty()
                    })
            }
        }),
{
    let out_width: usize = (in_width * (scale.value() as usize) + 99) / 100;
    let out_height: usize = (in_height * (scale.value() as usize) + 99) / 100;
    let buffer = StackAlgorithmImpl::new_for(algorithm, out_width, out_height, num_bands);
    let mut d = BilinearDrizzle::new(
        in_width,
        in_height,
        scale,
        horiz_offset,
        vert_offset,
        buffer,
    );
    let ghost out_w = spec_scaled_dim(in_width as int, scale);
    let ghost out_h = spec_scaled_dim(in_height as int, scale);
    let mut j: usize = start;
    while j < end
        invariant
            start <= j <= end,
            d.wf(),
            d.in_width == in_width,
            d.in_height == in_height,
            d.out_width as int == out_w,
            d.out_height as int == out_h,
            d.horiz_offset == horiz_offset,
            d.vert_offset == vert_offset,
            d.frame_add_count == j - start,
            d.buffer.kind() == algorithm,
            d.buffer.spec_nb() == num_bands,
            algorithm == StackAlgorithm::Average ==> {
                let a = d.buffer->Average_0;
                &&& d.buffer is Average
                &&& forall|b2: int, y2: int, x2: int|
                    a.cell_in_range(b2, y2, x2) ==> #[trigger] a.sum_at(b2, y2, x2) == (
                    if spec_written(x2, y2, horiz_offset as int, vert_offset as int, out_w, out_h) {
                        spec_sum_fold(
                            spec_cell_contribs(
                                frames@,
                                offsets@,
                                trigs@,
                                in_width as int,
                                in_height as int,
                                out_w,
                                out_h,
                                b2,
                                y2,
                                x2,
                            ).subrange(start as int, j as int),
                        )
                    } else {
                        0
                    })
                &&& forall|y2: int, x2: int|
                    0 <= y2 < a.height && 0 <= x2 < a.width ==> #[trigger] a.div_at(y2, x2) == (
                    if spec_written(x2, y2, horiz_offset as int, vert_offset as int, out_w, out_h) {
                        j - start
                    } else {
                        0int
                    })
            },
            algorithm == StackAlgorithm::Minimum ==> {
                let m = d.buffer->Minimum_0;
                &&& d.buffer is Minimum
                &&& forall|b2: int, y2: int, x2: int|
                    m.cell_in_range(b2, y2, x2) ==> #[trigger] m.min_at(b2, y2, x2) == (
                    if spec_written(x2, y2, horiz_offset as int, vert_offset as int, out_w, out_h) {
                        spec_min_fold(
                            spec_cell_contribs(
                                frames@,
                                offsets@,
                                trigs@,
                                in_width as int,
                                in_height as int,
                                out_w,
                                out_h,
                                b2,
                                y2,
                                x2,
                            ).subrange(start as int, j as int),
                        )
                    } else {
                        0
                    })
            },
            algorithm == StackAlgorithm::Median ==> {
                let m = d.buffer->Median_0;
                &&& d.buffer is Median
                &&& forall|b2: int, y2: int, x2: int|
                    m.cell_in_range(b2, y2, x2) ==> #[trigger] m.list_at(b2, y2, x2) == (
                    if spec_written(x2, y2, horiz_offset as int, vert_offset as int, out_w, out_h) {
                        spec_cell_contribs_u32(
                            frames@,
                            offsets@,
                            trigs@,
                            in_width as int,
                            in_height as int,
                            out_w,
                            out_h,
                            b2,
                            y2,
                            x2,
                        ).subrange(start as int, j as int)
                    } else {
                        Seq::<u32>::empty()
                    })
            },
        decreases end - j,
    {
        let res = d.add_with_transform(&frames[j], &offsets[j], &trigs[j]);
        proof {
            assert(res is Ok);
            let ji = j as int;
            if algorithm == StackAlgorithm::Average {
                let a = d.buffer->Average_0;
                assert forall|b2: int, y2: int, x2: int|
                    a.cell_in_range(b2, y2, x2) implies #[trigger] a.sum_at(b2, y2, x2) == (
                if spec_written(x2, y2, horiz_offset as int, vert_offset as int, out_w, out_h) {
                    spec_sum_fold(
                        spec_cell_contribs(
                            frames@,
                            offsets@,
                            trigs@,
                            in_width as int,
                            in_height as int,
                            out_w,
                            out_h,
                            b2,
                            y2,
                            x2,
                        ).subrange(start as int, ji + 1),
                    )
                } else {
                    0
                }) by {
                    let cs = spec_cell_contribs(
                        frames@,
                        offsets@,
                        trigs@,
                        in_width as int,
                        in_height as int,
                        out_w,
                        out_h,
                        b2,
                        y2,
                        x2,
                    );
                    let t1 = cs.subrange(start as int, ji + 1);
                    assert(t1 =~= cs.subrange(start as int, ji).push(cs[ji]));
                    assert(t1.drop_last() =~= cs.subrange(start as int, ji));
                    assert(t1.last() == cs[ji]);
                }
            } else if algorithm == StackAlgorithm::Minimum {
                let m = d.buffer->Minimum_0;
                assert forall|b2: int, y2: int, x2: int|
                    m.cell_in_range(b2, y2, x2) implies #[trigger] m.min_at(b2, y2, x2) == (
                if spec_written(x2, y2, horiz_offset as int, vert_offset as int, out_w, out_h) {
                    spec_min_fold(
                        spec_cell_contribs(
                            frames@,
                            offsets@,
                            trigs@,
                            in_width as int,
                            in_height as int,
                            out_w,
                            out_h,
                            b2,
                            y2,
                            x2,
                        ).subrange(start as int, ji + 1),
                    )
                } else {
                    0
                }) by {
                    let cs = spec_cell_contribs(
                        frames@,
                        offsets@,
                        trigs@,
                        in_width as int,
                        in_height as int,
                        out_w,
                        out_h,
                        b2,
                        y2,
                        x2,
                    );
                    let t1 = cs.subrange(start as int, ji + 1);
                    assert(t1 =~= cs.subrange(start as int, ji).push(cs[ji]));
                    assert(t1.drop_last() =~= cs.subrange(start as int, ji));
                    assert(t1.last() == cs[ji]);
                }
            } else {
                let m = d.buffer->Median_0;
                assert forall|b2: int, y2: int, x2: int|
                    m.cell_in_range(b2, y2, x2) implies #[trigger] m.list_at(b2, y2, x2) == (
                if spec_written(x2, y2, horiz_offset as int, vert_offset as int, out_w, out_h) {
                    spec_cell_contribs_u32(
                        frames@,
                        offsets@,
                        trigs@,
                        in_width as int,
                        in_height as int,
                        out_w,
                        out_h,
                        b2,
                        y2,
                        x2,
                    ).subrange(start as int, ji + 1)
                } else {
                    Seq::<u32>::empty()
                }) by {
                    let csu = spec_cell_contribs_u32(
                        frames@,
                        offsets@,
                        trigs@,
                        in_width as int,
                        in_height as int,
                        out_w,
                        out_h,
                        b2,
                        y2,
                        x2,
                    );
                    assert(csu.subrange(start as int, ji + 1) =~= csu.subrange(
                        start as int,
                        ji,
                    ).push(csu[ji]));
                }
            }
        }
        j += 1;
    }
    d
}

} // verus!

verus! {

/// Relies on num_cpus::get: the number of logical cores of the machine,
/// documented to never be zero. Only the chunk size depends on it.
#[verifier::external_body]
fn cpu_count() -> (r: usize)
    ensures
        1 <= r,
{
    num_cpus::get()
}

/// Stack a list of registered frames linearly: one accumulator, frames folded
/// in list order, then finalized. At every output cell the result is exactly
/// the selected statistic of that cell's per-frame contributions — the mean
/// (rounded down), the running minimum, or the exact median — and zero at
/// cells the global output shift skips.
#[verifier::loop_isolation(false)]
pub fn stack_frames(
    frames: &Vec<Image>,
    offsets: &Vec<Offset>,
    trigs: &Vec<RotationTrig>,
    algorithm: StackAlgorithm,
    in_width: usize,
    in_height: usize,
    scale: Scale,
    horiz_offset: i64,
    vert_offset: i64,
    num_bands: usize,
) -> (r: Result<Image, SolhatError>)
    requires
        spec_stack_inputs_ok(
            frames@,
            offsets@,
            trigs@,
            in_width as int,
            in_height as int,
            scale,
            horiz_offset as int,
            vert_offset as int,
            num_bands as int,
        ),
    ensures
        r is Ok <==> frames@.len() > 0,
        frames@.len() == 0 ==> r == Err::<Image, SolhatError>(SolhatError::NoFramesToStack),
        r is Ok ==> {
            let img = r->Ok_0;
            let out_w = spec_scaled_dim(in_width as int, scale);
            let out_h = spec_scaled_dim(in_height as int, scale);
            &&& img.wf()
            &&& img.spec_width() == out_w
            &&& img.spec_height() == out_h
            &&& img.spec_num_bands() == num_bands
            &&& forall|b2: int, y2: int, x2: int|
                #![trigger img.spec_get(b2, y2, x2)]
                0 <= b2 < num_bands && 0 <= y2 < out_h && 0 <= x2 < out_w ==> {
                    let cs = spec_cell_contribs(
                        frames@,
                        offsets@,
                        trigs@,
                        in_width as int,
                        in_height as int,
                        out_w,
                        out_h,
                        b2,
                        y2,
                        x2,
                    );
                    let csu = spec_cell_contribs_u32(
                        frames@,
                        offsets@,
                        trigs@,
                        in_width as int,
                        in_height as int,
                        out_w,
                        out_h,
                        b2,
                        y2,
                        x2,
                    );
                    let wr = spec_written(
                        x2,
                        y2,
                        horiz_offset as int,
                        vert_offset as int,
                        out_w,
                        out_h,
                    );
                    &&& algorithm == StackAlgorithm::Average ==> img.spec_get(b2, y2, x2) as int
                        == (if wr {
                        spec_sum_fold(cs) / frames@.len() as int
                    } else {
                        0
                    })
                    &&& algorithm == StackAlgorithm::Minimum ==> img.spec_get(b2, y2, x2) as int
                        == (if wr {
                        spec_min_fold(cs)
                    } else {
                        0
                    })
                    &&& algorithm == StackAlgorithm::Median ==> img.spec_get(b2, y2, x2) as int
                        == spec_median_of(
                        if wr {
                            csu
                        } else {
                            Seq::<u32>::empty()
                        },
                    )
                }
        },
{
    if frames.len() == 0 {
        return Err(SolhatError::NoFramesToStack);
    }
    let n = frames.len();
    let d = drizzle_frames(
        frames,
        offsets,
        trigs,
        algorithm,
        in_width,
        in_height,
        scale,
        horiz_offset,
        vert_offset,
        num_bands,
        0,
        n,
    );
    let img = match d.get_finalized() {
        Ok(i) => i,
        Err(_) => {
            return Err(SolhatError::NoFramesAdded);
        },
    };
    proof {
        let out_w = spec_scaled_dim(in_width as int, scale);
        let out_h = spec_scaled_dim(in_height as int, scale);
        assert forall|b2: int, y2: int, x2: int|
            0 <= b2 < num_bands && 0 <= y2 < out_h && 0 <= x2 < out_w implies {
            let cs = spec_cell_contribs(
                frames@,
                offsets@,
                trigs@,
                in_width as int,
                in_height as int,
                out_w,
                out_h,
                b2,
                y2,
                x2,
            );
            let csu = spec_cell_contribs_u32(
                frames@,
                offsets@,
                trigs@,
                in_width as int,
                in_height as int,
                out_w,
                out_h,
                b2,
                y2,
                x2,
            );
            let wr = spec_written(x2, y2, horiz_offset as int, vert_offset as int, out_w, out_h);
            &&& (algorithm == StackAlgorithm::Average ==> #[trigger] img.spec_get(
                b2,
                y2,
                x2,
            ) as int == (if wr {
                spec_sum_fold(cs) / frames@.len() as int
            } else {
                0
            }))
            &&& (algorithm == StackAlgorithm::Minimum ==> img.spec_get(b2, y2, x2) as int == (
            if wr {
                spec_min_fold(cs)
            } else {
                0
            }))
            &&& (algorithm == StackAlgorithm::Median ==> img.spec_get(b2, y2, x2) as int
                == spec_median_of(
                if wr {
                    csu
                } else {
                    Seq::<u32>::empty()
                },
            ))
        } by {
            let cs = spec_cell_contribs(
                frames@,
                offsets@,
                trigs@,
                in_width as int,
                in_height as int,
                out_w,
                out_h,
                b2,
                y2,
                x2,
            );
            assert(cs.subrange(0, n as int) =~= cs);
            let csu = spec_cell_contribs_u32(
                frames@,
                offsets@,
                trigs@,
                in_width as int,
                in_height as int,
                out_w,
                out_h,
                b2,
                y2,
                x2,
            );
            assert(csu.subrange(0, n as int) =~= csu);
            if algorithm == StackAlgorithm::Median {
                let m = d.buffer->Median_0;
                assert(m.cell_in_range(b2, y2, x2));
                assert(img.spec_get(b2, y2, x2) as int == spec_median_of(m.list_at(b2, y2, x2)));
            }
        }
    }
    Ok(img)
}

} // verus!

verus! {

/// Stack a list of registered frames on the parallel-chunked execution model:
/// contiguous chunks of the list are accumulated independently and the
/// per-chunk accumulators merged pairwise at the end. Every strategy's merge
/// is order-independent here, so the result equals the linear path exactly,
/// whatever the chunk size.
#[verifier::loop_isolation(false)]
#[verifier::rlimit(100)]
#[verifier::spinoff_prover]
pub fn stack_frames_chunked(
    frames: &Vec<Image>,
    offsets: &Vec<Offset>,
    trigs: &Vec<RotationTrig>,
    algorithm: StackAlgorithm,
    in_width: usize,
    in_height: usize,
    scale: Scale,
    horiz_offset: i64,
    vert_offset: i64,
    num_bands: usize,
    chunk_size: usize,
) -> (r: Result<Image, SolhatError>)
    requires
        spec_stack_inputs_ok(
            frames@,
            offsets@,
            trigs@,
            in_width as int,
            in_height as int,
            scale,
            horiz_offset as int,
            vert_offset as int,
            num_bands as int,
        ),
        chunk_size >= 1,
    ensures
        r is Ok <==> frames@.len() > 0,
        frames@.len() == 0 ==> r == Err::<Image, SolhatError>(SolhatError::NoFramesToStack),
        r is Ok ==> {
            let img = r->Ok_0;
            let out_w = spec_scaled_dim(in_width as int, scale);
            let out_h = spec_scaled_dim(in_height as int, scale);
            &&& img.wf()
            &&& img.spec_width() == out_w
            &&& img.spec_height() == out_h
            &&& img.spec_num_bands() == num_bands
            &&& forall|b2: int, y2: int, x2: int|
                #![trigger img.spec_get(b2, y2, x2)]
                0 <= b2 < num_bands && 0 <= y2 < out_h && 0 <= x2 < out_w ==> {
                    let cs = spec_cell_contribs(
                        frames@,
                        offsets@,
                        trigs@,
                        in_width as int,
                        in_height as int,
                        out_w,
                        out_h,
                        b2,
                        y2,
                        x2,
                    );
                    let csu = spec_cell_contribs_u32(
                        frames@,
                        offsets@,
                        trigs@,
                        in_width as int,
                        in_height as int,
                        out_w,
                        out_h,
                        b2,
                        y2,
                        x2,
                    );
                    let wr = spec_written(
                        x2,
                        y2,
                        horiz_offset as int,
                        vert_offset as int,
                        out_w,
                        out_h,
                    );
                    &&& algorithm == StackAlgorithm::Average ==> img.spec_get(b2, y2, x2) as int
                        == (if wr {
                        spec_sum_fold(cs) / frames@.len() as int
                    } else {
                        0
                    })
                    &&& algorithm == StackAlgorithm::Median ==> img.spec_get(b2, y2, x2) as int
                        == spec_median_of(
                        if wr {
                            csu
                        } else {
                            Seq::<u32>::empty()
                        },
                    )
                    &&& algorithm == StackAlgorithm::Minimum ==> img.spec_get(b2, y2, x2) as int
                        == (if wr {
                        spec_min_fold(cs)
                    } else {
                        0
                    })
                }
        },
{
    if frames.len() == 0 {
        return Err(SolhatError::NoFramesToStack);
    }
    let n = frames.len();
    let ghost out_w = spec_scaled_dim(in_width as int, scale);
    let ghost out_h = spec_scaled_dim(in_height as int, scale);
    let mut master = drizzle_frames(
        frames,
        offsets,
        trigs,
        algorithm,
        in_width,
        in_height,
        scale,
        horiz_offset,
        vert_offset,
        num_bands,
        0,
        0,
    );
    let mut j: usize = 0;
    while j < n
        invariant
            j <= n,
            n == frames@.len(),
            master.wf(),
            master.in_width == in_width,
            master.in_height == in_height,
            master.out_width as int == out_w,
            master.out_height as int == out_h,
            master.horiz_offset == horiz_offset,
            master.vert_offset == vert_offset,
            master.frame_add_count == j,
            master.buffer.kind() == algorithm,
            master.buffer.spec_nb() == num_bands,
            algorithm == StackAlgorithm::Average ==> {
                let a = master.buffer->Average_0;
                &&& master.buffer is Average
                &&& forall|b2: int, y2: int, x2: int|
                    a.cell_in_range(b2, y2, x2) ==> #[trigger] a.sum_at(b2, y2, x2) == (
                    if spec_written(x2, y2, horiz_offset as int, vert_offset as int, out_w, out_h) {
                        spec_sum_fold(
                            spec_cell_contribs(
                                frames@,
                                offsets@,
                                trigs@,
                                in_width as int,
                                in_height as int,
                                out_w,
                                out_h,
                                b2,
                                y2,
                                x2,
                            ).subrange(0, j as int),
                        )
                    } else {
                        0
                    })
                &&& forall|y2: int, x2: int|
                    0 <= y2 < a.height && 0 <= x2 < a.width ==> #[trigger] a.div_at(y2, x2) == (
                    if spec_written(x2, y2, horiz_offset as int, vert_offset as int, out_w, out_h) {
                        j as int
                    } else {
                        0int
                    })
            },
            algorithm == StackAlgorithm::Median ==> {
                let m = master.buffer->Median_0;
                &&& master.buffer is Median
                &&& forall|b2: int, y2: int, x2: int|
                    m.cell_in_range(b2, y2, x2) ==> #[trigger] m.list_at(b2, y2, x2) == (
                    if spec_written(x2, y2, horiz_offset as int, vert_offset as int, out_w, out_h) {
                        spec_cell_contribs_u32(
                            frames@,
                            offsets@,
                            trigs@,
                            in_width as int,
                            in_height as int,
                            out_w,
                            out_h,
                            b2,
                            y2,
                            x2,
                        ).subrange(0, j as int)
                    } else {
                        Seq::<u32>::empty()
                    })
            },
            algorithm == StackAlgorithm::Minimum ==> {
                let m = master.buffer->Minimum_0;
                &&& master.buffer is Minimum
                &&& forall|b2: int, y2: int, x2: int|
                    m.cell_in_range(b2, y2, x2) ==> #[trigger] m.min_at(b2, y2, x2) == (
                    if spec_written(x2, y2, horiz_offset as int, vert_offset as int, out_w, out_h) {
                        spec_min_fold(
                            spec_cell_contribs(
                                frames@,
                                offsets@,
                                trigs@,
                                in_width as int,
                                in_height as int,
                                out_w,
                                out_h,
                                b2,
                                y2,
                                x2,
                            ).subrange(0, j as int),
                        )
                    } else {
                        0
                    })
            },
        decreases n - j,
    {
        let end: usize = if chunk_size <= n - j {
            j + chunk_size
        } else {
            n
        };
        let sub = drizzle_frames(
            frames,
            offsets,
            trigs,
            algorithm,
            in_width,
            in_height,
            scale,
            horiz_offset,
            vert_offset,
            num_bands,
            j,
            end,
        );
        let merged = master.add_drizzle(&sub);
        proof {
            assert(merged is Ok);
            let ji = j as int;
            let ei = end as int;
            assert forall|b2: int, y2: int, x2: int|
                0 <= b2 < num_bands && 0 <= y2 < out_h && 0 <= x2 < out_w implies {
                let cs = #[trigger] spec_cell_contribs(
                    frames@,
                    offsets@,
                    trigs@,
                    in_width as int,
                    in_height as int,
                    out_w,
                    out_h,
                    b2,
                    y2,
                    x2,
                );
                let csu = spec_cell_contribs_u32(
                    frames@,
                    offsets@,
                    trigs@,
                    in_width as int,
                    in_height as int,
                    out_w,
                    out_h,
                    b2,
                    y2,
                    x2,
                );
                &&& spec_sum_fold(cs.subrange(0, ei)) == spec_sum_fold(cs.subrange(0, ji))
                    + spec_sum_fold(cs.subrange(ji, ei))
                &&& csu.subrange(0, ei) == csu.subrange(0, ji) + csu.subrange(ji, ei)
                &&& spec_min_fold(cs.subrange(0, ei)) == crate::drizzle::spec_min_put(
                    spec_min_fold(cs.subrange(0, ji)),
                    spec_min_fold(cs.subrange(ji, ei)),
                )
            } by {
                let cs = spec_cell_contribs(
                    frames@,
                    offsets@,
                    trigs@,
                    in_width as int,
                    in_height as int,
                    out_w,
                    out_h,
                    b2,
                    y2,
                    x2,
                );
                let csu = spec_cell_contribs_u32(
                    frames@,
                    offsets@,
                    trigs@,
                    in_width as int,
                    in_height as int,
                    out_w,
                    out_h,
                    b2,
                    y2,
                    x2,
                );
                assert(cs.subrange(0, ei) =~= cs.subrange(0, ji) + cs.subrange(ji, ei));
                assert(csu.subrange(0, ei) =~= csu.subrange(0, ji) + csu.subrange(ji, ei));
                lemma_sum_fold_append(cs.subrange(0, ji), cs.subrange(ji, ei));
                assert forall|k: int| 0 <= k < cs.len() implies #[trigger] cs[k] >= 0 by {
                    lemma_contribution_bounds(
                        &frames@[k],
                        in_width as int,
                        in_height as int,
                        out_w,
                        out_h,
                        trigs@[k],
                        offsets@[k],
                        x2,
                        y2,
                        b2,
                    );
                }
                assert(forall|k: int|
                    0 <= k < cs.subrange(0, ji).len() ==> #[trigger] cs.subrange(0, ji)[k] >= 0);
                assert(forall|k: int|
                    0 <= k < cs.subrange(ji, ei).len() ==> #[trigger] cs.subrange(ji, ei)[k] >= 0);
                lemma_min_fold_append(cs.subrange(0, ji), cs.subrange(ji, ei));
            }
        }
        j = end;
    }
    let img = match master.get_finalized() {
        Ok(i) => i,
        Err(_) => {
            return Err(SolhatError::NoFramesToStack);
        },
    };
    proof {
        assert forall|b2: int, y2: int, x2: int|
            0 <= b2 < num_bands && 0 <= y2 < out_h && 0 <= x2 < out_w implies {
            let cs = #[trigger] spec_cell_contribs(
                frames@,
                offsets@,
                trigs@,
                in_width as int,
                in_height as int,
                out_w,
                out_h,
                b2,
                y2,
                x2,
            );
            let csu = spec_cell_contribs_u32(
                frames@,
                offsets@,
                trigs@,
                in_width as int,
                in_height as int,
                out_w,
                out_h,
                b2,
                y2,
                x2,
            );
            &&& cs.subrange(0, n as int) == cs
            &&& csu.subrange(0, n as int) == csu
        } by {
            let cs = spec_cell_contribs(
                frames@,
                offsets@,
                trigs@,
                in_width as int,
                in_height as int,
                out_w,
                out_h,
                b2,
                y2,
                x2,
            );
            let csu = spec_cell_contribs_u32(
                frames@,
                offsets@,
                trigs@,
                in_width as int,
                in_height as int,
                out_w,
                out_h,
                b2,
                y2,
                x2,
            );
            assert(cs.subrange(0, n as int) =~= cs);
            assert(csu.subrange(0, n as int) =~= csu);
        }
        if algorithm == StackAlgorithm::Median {
            let m = master.buffer->Median_0;
            assert forall|b2: int, y2: int, x2: int|
                0 <= b2 < num_bands && 0 <= y2 < out_h && 0 <= x2
                    < out_w implies #[trigger] img.spec_get(b2, y2, x2) as int == spec_median_of(
                if spec_written(x2, y2, horiz_offset as int, vert_offset as int, out_w, out_h) {
                    spec_cell_contribs_u32(
                        frames@,
                        offsets@,
                        trigs@,
                        in_width as int,
                        in_height as int,
                        out_w,
                        out_h,
                        b2,
                        y2,
                        x2,
                    )
                } else {
                    Seq::<u32>::empty()
                },
            ) by {
                let cs = spec_cell_contribs(
                    frames@,
                    offsets@,
                    trigs@,
                    in_width as int,
                    in_height as int,
                    out_w,
                    out_h,
                    b2,
                    y2,
                    x2,
                );
                let csu = spec_cell_contribs_u32(
                    frames@,
                    offsets@,
                    trigs@,
                    in_width as int,
                    in_height as int,
                    out_w,
                    out_h,
                    b2,
                    y2,
                    x2,
                );
                assert(csu.subrange(0, n as int) =~= csu);
                assert(m.cell_in_range(b2, y2, x2));
                assert(img.spec_get(b2, y2, x2) as int == spec_median_of(m.list_at(b2, y2, x2)));
            }
        }
    }
    Ok(img)
}

} // verus!

verus! {

/// The input edge a stacking run resamples from: the configured crop, or the
/// first record's frame geometry.
pub open spec fn spec_stack_in_width<F: DataSource>(context: &ProcessContext<F>) -> int {
    if context.parameters.crop_width is Some {
        context.parameters.crop_width->0 as int
    } else {
        context.frame_records@[0].frame_width as int
    }
}

pub open spec fn spec_stack_in_height<F: DataSource>(context: &ProcessContext<F>) -> int {
    if context.parameters.crop_height is Some {
        context.parameters.crop_height->0 as int
    } else {
        context.frame_records@[0].frame_height as int
    }
}

/// A record's calibrated samples as a band-indexed pixel function; records
/// carry one raw band.
pub open spec fn spec_record_px<F: DataSource>(
    context: &ProcessContext<F>,
    rec: FrameRecord,
) -> spec_fn(int, int, int) -> int {
    |b: int, y: int, x: int| context.spec_calibrated_at(&rec, y, x)
}

/// What one record contributes at an output cell: its calibrated frame,
/// back-mapped, rotated and shifted, sampled bilinearly.
pub open spec fn spec_record_contribution<F: DataSource>(
    context: &ProcessContext<F>,
    rec: FrameRecord,
    trig: RotationTrig,
    in_w: int,
    in_h: int,
    out_w: int,
    out_h: int,
    x: int,
    y: int,
    b: int,
) -> int {
    spec_contribution_px(
        spec_record_px(context, rec),
        context.spec_source_of(&rec).spec_width(),
        context.spec_source_of(&rec).spec_height(),
        1,
        in_w,
        in_h,
        out_w,
        out_h,
        trig,
        rec.offset,
        x,
        y,
        b,
    )
}

/// The values the records contribute at one output cell, in record order.
pub open spec fn spec_record_cell_contribs<F: DataSource>(
    context: &ProcessContext<F>,
    records: Seq<FrameRecord>,
    trigs: Seq<RotationTrig>,
    in_w: int,
    in_h: int,
    out_w: int,
    out_h: int,
    b: int,
    y: int,
    x: int,
) -> Seq<int> {
    Seq::new(
        records.len(),
        |j: int|
            spec_record_contribution(
                context,
                records[j],
                trigs[j],
                in_w,
                in_h,
                out_w,
                out_h,
                x,
                y,
                b,
            ),
    )
}

/// The same contributions as 16-bit samples.
pub open spec fn spec_record_cell_contribs_u32<F: DataSource>(
    context: &ProcessContext<F>,
    records: Seq<FrameRecord>,
    trigs: Seq<RotationTrig>,
    in_w: int,
    in_h: int,
    out_w: int,
    out_h: int,
    b: int,
    y: int,
    x: int,
) -> Seq<u32> {
    Seq::new(
        records.len(),
        |j: int|
            spec_record_contribution(
                context,
                records[j],
                trigs[j],
                in_w,
                in_h,
                out_w,
                out_h,
                x,
                y,
                b,
            ) as u32,
    )
}

/// What a successful stacking run returns: an output-sized single-band image
/// whose every cell carries the run's statistic — mean rounded down, running
/// minimum, or exact median — of the records' calibrated, transformed
/// contributions at that cell, and zero at cells the output shift skips.
pub open spec fn spec_stacked_image_ok<F: DataSource>(
    context: &ProcessContext<F>,
    trigs: Seq<RotationTrig>,
    img: &Image,
) -> bool {
    let in_w = spec_stack_in_width(context);
    let in_h = spec_stack_in_height(context);
    let out_w = spec_scaled_dim(in_w, context.parameters.drizzle_scale);
    let out_h = spec_scaled_dim(in_h, context.parameters.drizzle_scale);
    &&& img.wf()
    &&& img.spec_width() == out_w
    &&& img.spec_height() == out_h
    &&& img.spec_num_bands() == 1
    &&& forall|y2: int, x2: int|
        #![trigger img.spec_get(0, y2, x2)]
        0 <= y2 < out_h && 0 <= x2 < out_w ==> {
            let cs = spec_record_cell_contribs(
                context,
                context.frame_records@,
                trigs,
                in_w,
                in_h,
                out_w,
                out_h,
                0,
                y2,
                x2,
            );
            let csu = spec_record_cell_contribs_u32(
                context,
                context.frame_records@,
                trigs,
                in_w,
                in_h,
                out_w,
                out_h,
                0,
                y2,
                x2,
            );
            let wr = spec_written(
                x2,
                y2,
                context.parameters.horiz_offset as int,
                context.parameters.vert_offset as int,
                out_w,
                out_h,
            );
            &&& context.parameters.algorithm == StackAlgorithm::Average ==> img.spec_get(
                0,
                y2,
                x2,
            ) as int == (if wr {
                spec_sum_fold(cs) / context.frame_records@.len() as int
            } else {
                0
            })
            &&& context.parameters.algorithm == StackAlgorithm::Minimum ==> img.spec_get(
                0,
                y2,
                x2,
            ) as int == (if wr {
                spec_min_fold(cs)
            } else {
                0
            })
            &&& context.parameters.algorithm == StackAlgorithm::Median ==> img.spec_get(
                0,
                y2,
                x2,
            ) as int == spec_median_of(
                if wr {
                    csu
                } else {
                    Seq::<u32>::empty()
                },
            )
        }
}

/// The context is ready to stack: every record resolves and its frames and
/// calibration are fetchable, the per-record transforms are bounded, and the
/// input and upscaled output geometry lie inside the machine limits.
pub open spec fn spec_stack_ready<F: DataSource>(
    context: &ProcessContext<F>,
    trigs: Seq<RotationTrig>,
) -> bool {
    &&& context.wf()
    &&& trigs.len() == context.frame_records@.len()
    &&& context.frame_records@.len() <= MAX_CONTRIBUTIONS
    &&& forall|i: int| 0 <= i < trigs.len() ==> #[trigger] trigs[i].bounded()
    &&& forall|i: int|
        0 <= i < context.frame_records@.len() ==> context.spec_record_ok(
            &#[trigger] context.frame_records@[i],
        )
    &&& forall|i: int|
        0 <= i < context.frame_records@.len() ==> context.spec_cal_dims_ok(
            context.spec_source_of(&#[trigger] context.frame_records@[i]).spec_width(),
            context.spec_source_of(&context.frame_records@[i]).spec_height(),
        )
    &&& forall|i: int|
        0 <= i < context.frame_records@.len()
            ==> -0x1_0000_0000 <= #[trigger] context.frame_records@[i].offset.h <= 0x1_0000_0000
            && -0x1_0000_0000 <= context.frame_records@[i].offset.v <= 0x1_0000_0000
    &&& -0x1_0000_0000 <= context.parameters.horiz_offset <= 0x1_0000_0000
    &&& -0x1_0000_0000 <= context.parameters.vert_offset <= 0x1_0000_0000
    &&& (context.frame_records@.len() > 0 ==> {
        &&& 1 <= spec_stack_in_width(context) <= MAX_DIM
        &&& 1 <= spec_stack_in_height(context) <= MAX_DIM
        &&& 1 <= spec_scaled_dim(spec_stack_in_width(context), context.parameters.drizzle_scale)
            <= MAX_DIM
        &&& 1 <= spec_scaled_dim(spec_stack_in_height(context), context.parameters.drizzle_scale)
            <= MAX_DIM
    })
}

/// At any output cell, the contributions of the gathered calibrated frames
/// are exactly the records' contributions: a contribution reads only in-grid
/// pixels, and the gathered frames agree with the records' calibrated samples
/// there.
proof fn lemma_record_contribs_match<F: DataSource>(
    context: &ProcessContext<F>,
    trigs: Seq<RotationTrig>,
    frames: Seq<Image>,
    offsets: Seq<Offset>,
    in_w: int,
    in_h: int,
    out_w: int,
    out_h: int,
    b: int,
    y: int,
    x: int,
)
    requires
        0 <= b,
        frames.len() == context.frame_records@.len(),
        offsets.len() == frames.len(),
        trigs.len() == frames.len(),
        forall|j: int|
            #![trigger frames[j]]
            0 <= j < frames.len() ==> {
                let src = context.spec_source_of(&context.frame_records@[j]);
                &&& frames[j].wf()
                &&& frames[j].spec_num_bands() == 1
                &&& frames[j].spec_width() == src.spec_width()
                &&& frames[j].spec_height() == src.spec_height()
                &&& forall|yy: int, xx: int|
                    0 <= yy < frames[j].spec_height() && 0 <= xx < frames[j].spec_width()
                        ==> #[trigger] frames[j].spec_get(0, yy, xx) as int
                        == context.spec_calibrated_at(&context.frame_records@[j], yy, xx)
            },
        forall|j: int|
            0 <= j < offsets.len() ==> #[trigger] offsets[j] == context.frame_records@[j].offset,
    ensures
        spec_cell_contribs(frames, offsets, trigs, in_w, in_h, out_w, out_h, b, y, x)
            == spec_record_cell_contribs(
            context,
            context.frame_records@,
            trigs,
            in_w,
            in_h,
            out_w,
            out_h,
            b,
            y,
            x,
        ),
        spec_cell_contribs_u32(frames, offsets, trigs, in_w, in_h, out_w, out_h, b, y, x)
            == spec_record_cell_contribs_u32(
            context,
            context.frame_records@,
            trigs,
            in_w,
            in_h,
            out_w,
            out_h,
            b,
            y,
            x,
        ),
{
    let cs1 = spec_cell_contribs(frames, offsets, trigs, in_w, in_h, out_w, out_h, b, y, x);
    let cs2 = spec_record_cell_contribs(
        context,
        context.frame_records@,
        trigs,
        in_w,
        in_h,
        out_w,
        out_h,
        b,
        y,
        x,
    );
    assert forall|j: int| 0 <= j < frames.len() implies #[trigger] cs1[j] == cs2[j] by {
        let rec = context.frame_records@[j];
        let src = context.spec_source_of(&rec);
        let px1 = spec_image_px(&frames[j]);
        let px2 = spec_record_px(context, rec);
        assert forall|bb: int, yy: int, xx: int|
            0 <= bb < 1 && 0 <= yy < src.spec_height() && 0 <= xx
                < src.spec_width() implies #[trigger] px1(bb, yy, xx) == px2(bb, yy, xx) by {
            assert(frames[j].spec_get(0, yy, xx) as int == context.spec_calibrated_at(
                &rec,
                yy,
                xx,
            ));
        }
        lemma_contribution_px_congruence(
            px1,
            px2,
            src.spec_width(),
            src.spec_height(),
            1,
            in_w,
            in_h,
            out_w,
            out_h,
            trigs[j],
            rec.offset,
            x,
            y,
            b,
        );
    }
    assert(cs1 =~= cs2);
    let csu1 = spec_cell_contribs_u32(frames, offsets, trigs, in_w, in_h, out_w, out_h, b, y, x);
    let csu2 = spec_record_cell_contribs_u32(
        context,
        context.frame_records@,
        trigs,
        in_w,
        in_h,
        out_w,
        out_h,
        b,
        y,
        x,
    );
    assert forall|j: int| 0 <= j < frames.len() implies #[trigger] csu1[j] == csu2[j] by {
        assert(cs1[j] == cs2[j]);
    }
    assert(csu1 =~= csu2);
}

/// Lift the list stacker's per-cell guarantee, stated over the gathered
/// calibrated frames, to the record level.
proof fn lemma_lift_cells<F: DataSource>(
    context: &ProcessContext<F>,
    trigs: Seq<RotationTrig>,
    frames: Seq<Image>,
    offsets: Seq<Offset>,
    in_w_exec: int,
    in_h_exec: int,
    r: &Result<Image, SolhatError>,
)
    requires
        context.frame_records@.len() > 0,
        in_w_exec == spec_stack_in_width(context),
        in_h_exec == spec_stack_in_height(context),
        frames.len() == context.frame_records@.len(),
        offsets.len() == frames.len(),
        trigs.len() == frames.len(),
        forall|j: int|
            #![trigger frames[j]]
            0 <= j < frames.len() ==> {
                let src = context.spec_source_of(&context.frame_records@[j]);
                &&& frames[j].wf()
                &&& frames[j].spec_num_bands() == 1
                &&& frames[j].spec_width() == src.spec_width()
                &&& frames[j].spec_height() == src.spec_height()
                &&& forall|yy: int, xx: int|
                    0 <= yy < frames[j].spec_height() && 0 <= xx < frames[j].spec_width()
                        ==> #[trigger] frames[j].spec_get(0, yy, xx) as int
                        == context.spec_calibrated_at(&context.frame_records@[j], yy, xx)
            },
        forall|j: int|
            0 <= j < offsets.len() ==> #[trigger] offsets[j] == context.frame_records@[j].offset,
        r is Ok ==> {
            let img = r->Ok_0;
            let out_w = spec_scaled_dim(in_w_exec, context.parameters.drizzle_scale);
            let out_h = spec_scaled_dim(in_h_exec, context.parameters.drizzle_scale);
            &&& img.wf()
            &&& img.spec_width() == out_w
            &&& img.spec_height() == out_h
            &&& img.spec_num_bands() == 1
            &&& forall|b2: int, y2: int, x2: int|
                #![trigger img.spec_get(b2, y2, x2)]
                0 <= b2 < 1 && 0 <= y2 < out_h && 0 <= x2 < out_w ==> {
                    let cs = spec_cell_contribs(
                        frames,
                        offsets,
                        trigs,
                        in_w_exec,
                        in_h_exec,
                        out_w,
                        out_h,
                        b2,
                        y2,
                        x2,
                    );
                    let csu = spec_cell_contribs_u32(
                        frames,
                        offsets,
                        trigs,
                        in_w_exec,
                        in_h_exec,
                        out_w,
                        out_h,
                        b2,
                        y2,
                        x2,
                    );
                    let wr = spec_written(
                        x2,
                        y2,
                        context.parameters.horiz_offset as int,
                        context.parameters.vert_offset as int,
                        out_w,
                        out_h,
                    );
                    &&& context.parameters.algorithm == StackAlgorithm::Average ==> img.spec_get(
                        b2,
                        y2,
                        x2,
                    ) as int == (if wr {
                        spec_sum_fold(cs) / frames.len() as int
                    } else {
                        0
                    })
                    &&& context.parameters.algorithm == StackAlgorithm::Minimum ==> img.spec_get(
                        b2,
                        y2,
                        x2,
                    ) as int == (if wr {
                        spec_min_fold(cs)
                    } else {
                        0
                    })
                    &&& context.parameters.algorithm == StackAlgorithm::Median ==> img.spec_get(
                        b2,
                        y2,
                        x2,
                    ) as int == spec_median_of(
                        if wr {
                            csu
                        } else {
                            Seq::<u32>::empty()
                        },
                    )
                }
        },
    ensures
        r is Ok ==> spec_stacked_image_ok(context, trigs, &r->Ok_0),
{
    if r is Ok {
        let img = r->Ok_0;
        let out_w = spec_scaled_dim(in_w_exec, context.parameters.drizzle_scale);
        let out_h = spec_scaled_dim(in_h_exec, context.parameters.drizzle_scale);
        assert forall|y2: int, x2: int|
            0 <= y2 < out_h && 0 <= x2 < out_w implies {
            let cs = spec_record_cell_contribs(
                context,
                context.frame_records@,
                trigs,
                in_w_exec,
                in_h_exec,
                out_w,
                out_h,
                0,
                y2,
                x2,
            );
            let csu = spec_record_cell_contribs_u32(
                context,
                context.frame_records@,
                trigs,
                in_w_exec,
                in_h_exec,
                out_w,
                out_h,
                0,
                y2,
                x2,
            );
            let wr = spec_written(
                x2,
                y2,
                context.parameters.horiz_offset as int,
                context.parameters.vert_offset as int,
                out_w,
                out_h,
            );
            &&& context.parameters.algorithm == StackAlgorithm::Average
                ==> #[trigger] img.spec_get(0, y2, x2) as int == (if wr {
                spec_sum_fold(cs) / context.frame_records@.len() as int
            } else {
                0
            })
            &&& context.parameters.algorithm == StackAlgorithm::Minimum ==> img.spec_get(
                0,
                y2,
                x2,
            ) as int == (if wr {
                spec_min_fold(cs)
            } else {
                0
            })
            &&& context.parameters.algorithm == StackAlgorithm::Median ==> img.spec_get(
                0,
                y2,
                x2,
            ) as int == spec_median_of(
                if wr {
                    csu
                } else {
                    Seq::<u32>::empty()
                },
            )
        } by {
            lemma_record_contribs_match(
                context,
                trigs,
                frames,
                offsets,
                in_w_exec,
                in_h_exec,
                out_w,
                out_h,
                0,
                y2,
                x2,
            );
        }
    }
}

/// Gather every record's calibrated frame and offset, in record order.
#[verifier::loop_isolation(false)]
fn gather_calibrated_frames<F: DataSource>(
    context: &ProcessContext<F>,
    trigs: &Vec<RotationTrig>,
) -> (r: Result<(Vec<Image>, Vec<Offset>), SolhatError>)
    requires
        spec_stack_ready(context, trigs@),
    ensures
        r is Ok,
        r is Ok ==> {
            let (frames, offsets) = r->Ok_0;
            &&& frames@.len() == context.frame_records@.len()
            &&& offsets@.len() == context.frame_records@.len()
            &&& forall|i: int|
                #![trigger frames@[i]]
                0 <= i < frames@.len() ==> {
                    let src = context.spec_source_of(&context.frame_records@[i]);
                    &&& frames@[i].wf()
                    &&& frames@[i].spec_num_bands() == 1
                    &&& frames@[i].spec_width() == src.spec_width()
                    &&& frames@[i].spec_height() == src.spec_height()
                    &&& forall|yy: int, xx: int|
                        0 <= yy < frames@[i].spec_height() && 0 <= xx < frames@[i].spec_width()
                            ==> #[trigger] frames@[i].spec_get(0, yy, xx) as int
                            == context.spec_calibrated_at(&context.frame_records@[i], yy, xx)
                }
            &&& forall|i: int|
                0 <= i < offsets@.len() ==> #[trigger] offsets@[i]
                    == context.frame_records@[i].offset
        },
{
    let n = context.frame_records.len();
    let mut frames: Vec<Image> = Vec::new();
    let mut offsets: Vec<Offset> = Vec::new();
    let mut i: usize = 0;
    while i < n
        invariant
            i <= n,
            n == context.frame_records@.len(),
            frames@.len() == i,
            offsets@.len() == i,
            forall|j: int|
                #![trigger frames@[j]]
                0 <= j < i ==> {
                    let src = context.spec_source_of(&context.frame_records@[j]);
                    &&& frames@[j].wf()
                    &&& frames@[j].spec_num_bands() == 1
                    &&& frames@[j].spec_width() == src.spec_width()
                    &&& frames@[j].spec_height() == src.spec_height()
                    &&& forall|yy: int, xx: int|
                        0 <= yy < frames@[j].spec_height() && 0 <= xx < frames@[j].spec_width()
                            ==> #[trigger] frames@[j].spec_get(0, yy, xx) as int
                            == context.spec_calibrated_at(&context.frame_records@[j], yy, xx)
                },
            forall|j: int|
                0 <= j < i ==> #[trigger] offsets@[j] == context.frame_records@[j].offset,
        decreases n - i,
    {
        let rec = &context.frame_records[i];
        let frame = match rec.get_calibrated_frame(context) {
            Ok(f) => f,
            Err(e) => {
                return Err(e);
            },
        };
        frames.push(frame.buffer);
        offsets.push(rec.offset);
        i += 1;
    }
    Ok((frames, offsets))
}

/// Stack the context's records on the linear path: one accumulator, frames in
/// record order. The per-cell statistics are stated exactly on the list
/// stacker this run delegates to.
pub fn process_frame_stacking_linear<F: DataSource>(
    context: &ProcessContext<F>,
    trigs: &Vec<RotationTrig>,
) -> (r: Result<Image, SolhatError>)
    requires
        spec_stack_ready(context, trigs@),
    ensures
        r is Ok <==> context.frame_records@.len() > 0,
        context.frame_records@.len() == 0 ==> r == Err::<Image, SolhatError>(
            SolhatError::NoFramesToStack,
        ),
        r is Ok ==> spec_stacked_image_ok(context, trigs@, &r->Ok_0),
{
    if context.frame_records.len() == 0 {
        return Err(SolhatError::NoFramesToStack);
    }
    let (frames, offsets) = match gather_calibrated_frames(context, trigs) {
        Ok(fo) => fo,
        Err(e) => {
            return Err(e);
        },
    };
    let in_width: usize = match context.parameters.crop_width {
        Some(cw) => cw,
        None => context.frame_records[0].frame_width,
    };
    let in_height: usize = match context.parameters.crop_height {
        Some(ch) => ch,
        None => context.frame_records[0].frame_height,
    };
    let r = stack_frames(
        &frames,
        &offsets,
        trigs,
        context.parameters.algorithm,
        in_width,
        in_height,
        context.parameters.drizzle_scale,
        context.parameters.horiz_offset,
        context.parameters.vert_offset,
        1,
    );
    proof {
        lemma_lift_cells(context, trigs@, frames@, offsets@, in_width as int, in_height as int, &r);
    }
    r
}

/// Stack the context's records on the parallel-chunked path: the record list
/// is split into contiguous chunks, one per core, each accumulated
/// independently, and the accumulators merged at the end. The strategies this
/// path admits merge without regard to chunk boundaries.
pub fn process_frame_stacking_parallel<F: DataSource>(
    context: &ProcessContext<F>,
    trigs: &Vec<RotationTrig>,
) -> (r: Result<Image, SolhatError>)
    requires
        spec_stack_ready(context, trigs@),
    ensures
        r is Ok <==> context.frame_records@.len() > 0,
        context.frame_records@.len() == 0 ==> r == Err::<Image, SolhatError>(
            SolhatError::NoFramesToStack,
        ),
        r is Ok ==> spec_stacked_image_ok(context, trigs@, &r->Ok_0),
{
    if context.frame_records.len() == 0 {
        return Err(SolhatError::NoFramesToStack);
    }
    let (frames, offsets) = match gather_calibrated_frames(context, trigs) {
        Ok(fo) => fo,
        Err(e) => {
            return Err(e);
        },
    };
    let in_width: usize = match context.parameters.crop_width {
        Some(cw) => cw,
        None => context.frame_records[0].frame_width,
    };
    let in_height: usize = match context.parameters.crop_height {
        Some(ch) => ch,
        None => context.frame_records[0].frame_height,
    };
    let cpus = cpu_count();
    let per_chunk0 = frames.len() / cpus;
    let per_chunk: usize = if per_chunk0 == 0 {
        1
    } else {
        per_chunk0
    };
    let r = stack_frames_chunked(
        &frames,
        &offsets,
        trigs,
        context.parameters.algorithm,
        in_width,
        in_height,
        context.parameters.drizzle_scale,
        context.parameters.horiz_offset,
        context.parameters.vert_offset,
        1,
        per_chunk,
    );
    proof {
        lemma_lift_cells(context, trigs@, frames@, offsets@, in_width as int, in_height as int, &r);
    }
    r
}

/// Stack the context's records, choosing the execution path by the
/// accumulation strategy's merge behavior.
pub fn process_frame_stacking<F: DataSource>(
    context: &ProcessContext<F>,
    trigs: &Vec<RotationTrig>,
) -> (r: Result<Image, SolhatError>)
    requires
        spec_stack_ready(context, trigs@),
    ensures
        r is Ok <==> context.frame_records@.len() > 0,
        context.frame_records@.len() == 0 ==> r == Err::<Image, SolhatError>(
            SolhatError::NoFramesToStack,
        ),
        r is Ok ==> spec_stacked_image_ok(context, trigs@, &r->Ok_0),
{
    if context.frame_records.len() == 0 {
        return Err(SolhatError::NoFramesToStack);
    }
    if context.parameters.algorithm.allow_parallel() {
        process_frame_stacking_parallel(context, trigs)
    } else {
        process_frame_stacking_linear(context, trigs)
    }
}

} // verus!
