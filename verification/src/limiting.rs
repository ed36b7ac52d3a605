//! Frame selection: keep the records whose quality score lies inside the
//! configured bounds, order them best first, retain the top fraction, then cap
//! the count. The order of operations matters: the percentage retention runs
//! before the frame-count cap, and each step applies only when configured.

use vstd::prelude::*;

use crate::context::ProcessContext;
use crate::datasource::DataSource;
use crate::error::SolhatError;
use crate::framerecord::FrameRecord;

verus! {

/// A record's quality score lies inside the configured bounds; an absent
/// bound is no bound.
pub open spec fn spec_sigma_pass(r: FrameRecord, min_sigma: Option<u64>, max_sigma: Option<u64>) -> bool {
    &&& (min_sigma is Some ==> r.sigma >= min_sigma->0)
    &&& (max_sigma is Some ==> r.sigma <= max_sigma->0)
}

/// The subsequence of records inside the sigma bounds, original order kept.
pub open spec fn spec_filter_sigma(
    s: Seq<FrameRecord>,
    min_sigma: Option<u64>,
    max_sigma: Option<u64>,
) -> Seq<FrameRecord>
    decreases s.len(),
{
    if s.len() == 0 {
        Seq::empty()
    } else {
        let rest = spec_filter_sigma(s.drop_last(), min_sigma, max_sigma);
        if spec_sigma_pass(s.last(), min_sigma, max_sigma) {
            rest.push(s.last())
        } else {
            rest
        }
    }
}

/// `r` inserted into a best-first list: before the first strictly worse
/// record, after any equally good ones, so insertion is stable.
pub open spec fn spec_insert_desc(s: Seq<FrameRecord>, r: FrameRecord) -> Seq<FrameRecord>
    decreases s.len(),
{
    if s.len() == 0 {
        seq![r]
    } else if r.sigma > s[0].sigma {
        seq![r] + s
    } else {
        seq![s[0]] + spec_insert_desc(s.drop_first(), r)
    }
}

/// Stable best-first insertion sort by quality score.
pub open spec fn spec_sort_desc(s: Seq<FrameRecord>) -> Seq<FrameRecord>
    decreases s.len(),
{
    if s.len() == 0 {
        Seq::empty()
    } else {
        spec_insert_desc(spec_sort_desc(s.drop_last()), s.last())
    }
}

/// Quality scores never increase along the list.
pub open spec fn spec_sigma_sorted_desc(s: Seq<FrameRecord>) -> bool {
    forall|i: int, j: int| 0 <= i < j < s.len() ==> #[trigger] s[i].sigma >= #[trigger] s[j].sigma
}

/// How many of `len` records the top-percentage retention keeps: the fraction
/// rounded to the nearest count, half away from zero.
pub open spec fn spec_top_count(len: int, pct: int) -> int {
    (pct * len + 50) / 100
}

/// What frame limiting leaves: the in-bounds records, best first, cut to the
/// top fraction when one is configured, then capped at the frame-count limit
/// when that is configured and smaller.
pub open spec fn spec_limit_frames(
    s: Seq<FrameRecord>,
    min_sigma: Option<u64>,
    max_sigma: Option<u64>,
    top_percentage: Option<u32>,
    max_frames: Option<usize>,
) -> Seq<FrameRecord> {
    let sorted = spec_sort_desc(spec_filter_sigma(s, min_sigma, max_sigma));
    let taken = if top_percentage is Some {
        sorted.subrange(0, spec_top_count(sorted.len() as int, top_percentage->0 as int))
    } else {
        sorted
    };
    if max_frames is Some && max_frames->0 <= taken.len() {
        taken.subrange(0, max_frames->0 as int)
    } else {
        taken
    }
}

/// Everything the filter keeps passed the bounds, and it keeps at most as
/// many records as it was given.
pub proof fn lemma_filter_sigma_ensures(
    s: Seq<FrameRecord>,
    min_sigma: Option<u64>,
    max_sigma: Option<u64>,
)
    ensures
        spec_filter_sigma(s, min_sigma, max_sigma).len() <= s.len(),
        forall|i: int|
            0 <= i < spec_filter_sigma(s, min_sigma, max_sigma).len() ==> spec_sigma_pass(
                #[trigger] spec_filter_sigma(s, min_sigma, max_sigma)[i],
                min_sigma,
                max_sigma,
            ),
    decreases s.len(),
{
    if s.len() > 0 {
        lemma_filter_sigma_ensures(s.drop_last(), min_sigma, max_sigma);
    }
}

/// Filtering keeps a list whose members all pass unchanged.
pub proof fn lemma_filter_sigma_all_pass(
    s: Seq<FrameRecord>,
    min_sigma: Option<u64>,
    max_sigma: Option<u64>,
)
    requires
        forall|i: int| 0 <= i < s.len() ==> spec_sigma_pass(#[trigger] s[i], min_sigma, max_sigma),
    ensures
        spec_filter_sigma(s, min_sigma, max_sigma) =~= s,
    decreases s.len(),
{
    if s.len() > 0 {
        assert(forall|i: int|
            0 <= i < s.drop_last().len() ==> spec_sigma_pass(
                #[trigger] s.drop_last()[i],
                min_sigma,
                max_sigma,
            ));
        lemma_filter_sigma_all_pass(s.drop_last(), min_sigma, max_sigma);
        assert(spec_sigma_pass(s.last(), min_sigma, max_sigma));
        assert(s.drop_last().push(s.last()) =~= s);
    }
}

/// Insertion: one longer, keeps order, keeps membership of any pass
/// predicate, and a record no better than everything present lands at the
/// end.
pub proof fn lemma_insert_desc_ensures(s: Seq<FrameRecord>, r: FrameRecord)
    ensures
        spec_insert_desc(s, r).len() == s.len() + 1,
        spec_sigma_sorted_desc(s) ==> spec_sigma_sorted_desc(spec_insert_desc(s, r)),
        forall|i: int|
            0 <= i < s.len() + 1 ==> (#[trigger] spec_insert_desc(s, r)[i] == r || exists|j: int|
                0 <= j < s.len() && spec_insert_desc(s, r)[i] == s[j]),
        (forall|j: int| 0 <= j < s.len() ==> #[trigger] s[j].sigma >= r.sigma) ==> spec_insert_desc(
            s,
            r,
        ) =~= s.push(r),
    decreases s.len(),
{
    if s.len() == 0 {
    } else if r.sigma > s[0].sigma {
    } else {
        lemma_insert_desc_ensures(s.drop_first(), r);
        let t = spec_insert_desc(s.drop_first(), r);
        assert forall|i: int| 0 <= i < s.len() + 1 implies (#[trigger] spec_insert_desc(s, r)[i]
            == r || exists|j: int| 0 <= j < s.len() && spec_insert_desc(s, r)[i] == s[j]) by {
            if i > 0 {
                assert(spec_insert_desc(s, r)[i] == t[i - 1]);
                if t[i - 1] != r {
                    let j = choose|j: int| 0 <= j < s.drop_first().len() && t[i - 1]
                        == s.drop_first()[j];
                    assert(spec_insert_desc(s, r)[i] == s[j + 1]);
                }
            } else {
                assert(spec_insert_desc(s, r)[0] == s[0]);
            }
        }
        if spec_sigma_sorted_desc(s) {
            assert(spec_sigma_sorted_desc(s.drop_first()));
            assert forall|i: int, j: int|
                0 <= i < j < s.len() + 1 implies #[trigger] spec_insert_desc(s, r)[i].sigma
                >= #[trigger] spec_insert_desc(s, r)[j].sigma by {
                if i == 0 {
                    assert(spec_insert_desc(s, r)[0] == s[0]);
                    assert(spec_insert_desc(s, r)[j] == t[j - 1]);
                    assert(t[j - 1] == r || exists|k: int|
                        0 <= k < s.drop_first().len() && t[j - 1] == s.drop_first()[k]);
                    if t[j - 1] != r {
                        let k = choose|k: int|
                            0 <= k < s.drop_first().len() && t[j - 1] == s.drop_first()[k];
                        assert(s[0].sigma >= s[k + 1].sigma);
                    }
                } else {
                    assert(spec_insert_desc(s, r)[i] == t[i - 1]);
                    assert(spec_insert_desc(s, r)[j] == t[j - 1]);
                }
            }
        }
        if forall|j: int| 0 <= j < s.len() ==> #[trigger] s[j].sigma >= r.sigma {
            assert(forall|j: int|
                0 <= j < s.drop_first().len() ==> #[trigger] s.drop_first()[j].sigma >= r.sigma);
            assert(t =~= s.drop_first().push(r));
            assert(spec_insert_desc(s, r) =~= s.push(r));
        }
    }
}

/// Sorting keeps the length, orders best first, and leaves an already
/// best-first list unchanged.
pub proof fn lemma_sort_desc_ensures(s: Seq<FrameRecord>)
    ensures
        spec_sort_desc(s).len() == s.len(),
        spec_sigma_sorted_desc(spec_sort_desc(s)),
        spec_sigma_sorted_desc(s) ==> spec_sort_desc(s) =~= s,
    decreases s.len(),
{
    if s.len() > 0 {
        lemma_sort_desc_ensures(s.drop_last());
        lemma_insert_desc_ensures(spec_sort_desc(s.drop_last()), s.last());
        let sorted_rest = spec_sort_desc(s.drop_last());
        if spec_sigma_sorted_desc(s) {
            assert(spec_sigma_sorted_desc(s.drop_last()));
            assert(sorted_rest =~= s.drop_last());
            assert forall|j: int|
                0 <= j < sorted_rest.len() implies #[trigger] sorted_rest[j].sigma
                >= s.last().sigma by {
                assert(s[j].sigma >= s[s.len() - 1].sigma);
            }
            assert(spec_sort_desc(s) =~= s.drop_last().push(s.last()));
            assert(s.drop_last().push(s.last()) =~= s);
        }
    }
}

/// Every sorted record is one of the records given.
pub proof fn lemma_sort_desc_membership(s: Seq<FrameRecord>)
    ensures
        forall|i: int|
            0 <= i < spec_sort_desc(s).len() ==> (exists|j: int|
                0 <= j < s.len() && #[trigger] spec_sort_desc(s)[i] == s[j]),
    decreases s.len(),
{
    if s.len() > 0 {
        lemma_sort_desc_membership(s.drop_last());
        lemma_sort_desc_ensures(s.drop_last());
        lemma_insert_desc_ensures(spec_sort_desc(s.drop_last()), s.last());
        let sorted_rest = spec_sort_desc(s.drop_last());
        assert forall|i: int| 0 <= i < spec_sort_desc(s).len() implies (exists|j: int|
            0 <= j < s.len() && #[trigger] spec_sort_desc(s)[i] == s[j]) by {
            if spec_sort_desc(s)[i] == s.last() {
                assert(spec_sort_desc(s)[i] == s[s.len() - 1]);
            } else {
                let j = choose|j: int|
                    0 <= j < sorted_rest.len() && spec_sort_desc(s)[i] == sorted_rest[j];
                let k = choose|k: int|
                    0 <= k < s.drop_last().len() && sorted_rest[j] == s.drop_last()[k];
                assert(spec_sort_desc(s)[i] == s[k]);
            }
        }
    }
}

/// Re-applying frame limiting with the same bounds yields the same list, as
/// long as the top-percentage retention is absent or keeps everything: the
/// survivors still pass the bounds, are already best first, and already fit
/// under the cap. A strict percentage is the one exception: it keeps a
/// fraction of an already reduced list.
#[verifier::rlimit(100)]
#[verifier::spinoff_prover]
pub proof fn lemma_frame_limit_idempotent(
    s: Seq<FrameRecord>,
    min_sigma: Option<u64>,
    max_sigma: Option<u64>,
    top_percentage: Option<u32>,
    max_frames: Option<usize>,
)
    requires
        top_percentage is Some ==> top_percentage->0 == 100,
    ensures
        spec_limit_frames(
            spec_limit_frames(s, min_sigma, max_sigma, top_percentage, max_frames),
            min_sigma,
            max_sigma,
            top_percentage,
            max_frames,
        ) =~= spec_limit_frames(s, min_sigma, max_sigma, top_percentage, max_frames),
{
    let filtered = spec_filter_sigma(s, min_sigma, max_sigma);
    let sorted = spec_sort_desc(filtered);
    lemma_filter_sigma_ensures(s, min_sigma, max_sigma);
    lemma_sort_desc_ensures(filtered);
    lemma_sort_desc_membership(filtered);
    if top_percentage is Some {
        vstd::arithmetic::div_mod::lemma_fundamental_div_mod_converse(
            100 * (sorted.len() as int) + 50,
            100,
            sorted.len() as int,
            50,
        );
        assert(spec_top_count(sorted.len() as int, 100) == sorted.len());
        assert(sorted.subrange(0, sorted.len() as int) =~= sorted);
    }
    let taken = sorted;
    let once = spec_limit_frames(s, min_sigma, max_sigma, top_percentage, max_frames);
    assert(once =~= if max_frames is Some && max_frames->0 <= taken.len() {
        taken.subrange(0, max_frames->0 as int)
    } else {
        taken
    });
    assert forall|i: int, j: int| 0 <= i < j < once.len() implies #[trigger] once[i].sigma
        >= #[trigger] once[j].sigma by {
        if max_frames is Some && max_frames->0 <= taken.len() {
            assert(once[i] == sorted[i]);
            assert(once[j] == sorted[j]);
        }
    }
    // every survivor passes the bounds and the list is still best first
    assert forall|i: int| 0 <= i < once.len() implies spec_sigma_pass(
        #[trigger] once[i],
        min_sigma,
        max_sigma,
    ) by {
        assert(once[i] == sorted[i]);
        let k = choose|k: int| 0 <= k < filtered.len() && sorted[i] == filtered[k];
        assert(spec_sigma_pass(filtered[k], min_sigma, max_sigma));
    }
    assert(spec_sigma_sorted_desc(once));
    let filtered2 = spec_filter_sigma(once, min_sigma, max_sigma);
    lemma_filter_sigma_all_pass(once, min_sigma, max_sigma);
    let sorted2 = spec_sort_desc(once);
    lemma_sort_desc_ensures(once);
    assert(sorted2 =~= once);
    if top_percentage is Some {
        vstd::arithmetic::div_mod::lemma_fundamental_div_mod_converse(
            100 * (once.len() as int) + 50,
            100,
            once.len() as int,
            50,
        );
        assert(spec_top_count(once.len() as int, 100) == once.len());
        assert(once.subrange(0, once.len() as int) =~= once);
    }
    if max_frames is Some && max_frames->0 <= once.len() {
        assert(once.len() == max_frames->0);
        assert(once.subrange(0, max_frames->0 as int) =~= once);
    }
}

/// Inserting at the position the scan finds is the recursive insertion.
proof fn lemma_insert_desc_at_pos(s: Seq<FrameRecord>, r: FrameRecord, pos: int)
    requires
        0 <= pos <= s.len(),
        forall|k: int| 0 <= k < pos ==> #[trigger] s[k].sigma >= r.sigma,
        pos == s.len() || r.sigma > s[pos].sigma,
    ensures
        spec_insert_desc(s, r) =~= s.insert(pos, r),
    decreases s.len(),
{
    if s.len() == 0 {
        assert(spec_insert_desc(s, r) =~= s.insert(0, r));
    } else if pos == 0 {
        assert(spec_insert_desc(s, r) =~= s.insert(0, r));
    } else {
        lemma_insert_desc_at_pos(s.drop_first(), r, pos - 1);
        assert(spec_insert_desc(s, r) =~= seq![s[0]] + s.drop_first().insert(pos - 1, r));
        assert(seq![s[0]] + s.drop_first().insert(pos - 1, r) =~= s.insert(pos, r));
    }
}

/// Apply the configured frame limits: filter by the sigma bounds, order best
/// first, retain the top fraction, cap the count.
#[verifier::loop_isolation(false)]
pub fn limit_frames(
    records: &Vec<FrameRecord>,
    min_sigma: Option<u64>,
    max_sigma: Option<u64>,
    top_percentage: Option<u32>,
    max_frames: Option<usize>,
) -> (r: Vec<FrameRecord>)
    requires
        top_percentage is Some ==> top_percentage->0 <= 100,
        records@.len() <= 0x100_0000,
    ensures
        r@ == spec_limit_frames(records@, min_sigma, max_sigma, top_percentage, max_frames),
{
    let n = records.len();
    let mut filtered: Vec<FrameRecord> = Vec::new();
    let mut i: usize = 0;
    while i < n
        invariant
            i <= n,
            filtered@ == spec_filter_sigma(records@.subrange(0, i as int), min_sigma, max_sigma),
        decreases n - i,
    {
        let rec = &records[i];
        let pass_min = match min_sigma {
            Some(mn) => rec.sigma >= mn,
            None => true,
        };
        let pass_max = match max_sigma {
            Some(mx) => rec.sigma <= mx,
            None => true,
        };
        if pass_min && pass_max {
            let rec_copy = records[i].duplicate();
            filtered.push(rec_copy);
        }
        proof {
            let prefix = records@.subrange(0, i as int);
            let prefix1 = records@.subrange(0, i as int + 1);
            assert(prefix1.drop_last() =~= prefix);
            assert(prefix1.last() == records@[i as int]);
        }
        i += 1;
    }
    proof {
        assert(records@.subrange(0, n as int) =~= records@);
    }
    let ghost filtered_view = filtered@;
    // stable best-first insertion sort, consuming the filtered list in order
    let mut sorted: Vec<FrameRecord> = Vec::new();
    let mut i: usize = 0;
    let flen = filtered.len();
    while i < flen
        invariant
            i <= flen,
            flen == filtered@.len(),
            filtered@ == filtered_view,
            sorted@ == spec_sort_desc(filtered_view.subrange(0, i as int)),
            sorted@.len() == i,
        decreases flen - i,
    {
        let rec = filtered[i].duplicate();
        let mut pos: usize = 0;
        while pos < sorted.len() && sorted[pos].sigma >= rec.sigma
            invariant
                pos <= sorted@.len(),
                forall|k: int| 0 <= k < pos ==> #[trigger] sorted@[k].sigma >= rec.sigma,
            decreases sorted@.len() - pos,
        {
            pos += 1;
        }
        proof {
            lemma_insert_desc_at_pos(sorted@, rec, pos as int);
            lemma_insert_desc_ensures(sorted@, rec);
            let prefix = filtered_view.subrange(0, i as int);
            let prefix1 = filtered_view.subrange(0, i as int + 1);
            assert(prefix1.drop_last() =~= prefix);
            assert(prefix1.last() == filtered_view[i as int]);
        }
        sorted.insert(pos, rec);
        i += 1;
    }
    proof {
        assert(filtered_view.subrange(0, flen as int) =~= filtered_view);
    }
    if let Some(pct) = top_percentage {
        proof {
            lemma_filter_sigma_ensures(records@, min_sigma, max_sigma);
            lemma_sort_desc_ensures(filtered_view);
            assert(sorted@.len() == filtered_view.len());
            assert(filtered_view.len() <= records@.len());
            assert((pct as int) * (sorted@.len() as int) <= 100 * 0x100_0000) by (nonlinear_arith)
                requires
                    pct <= 100,
                    sorted@.len() <= 0x100_0000,
            ;
        }
        let keep: usize = ((pct as usize) * sorted.len() + 50) / 100;
        proof {
            let slen = sorted@.len() as int;
            assert((pct as int) * slen + 50 < 100 * (slen + 1)) by (nonlinear_arith)
                requires
                    pct <= 100,
                    0 <= slen,
            ;
            vstd::arithmetic::div_mod::lemma_multiply_divide_lt(
                (pct as int) * slen + 50,
                100,
                slen + 1,
            );
            vstd::arithmetic::div_mod::lemma_div_pos_is_pos((pct as int) * slen + 50, 100);
        }
        sorted.truncate(keep);
        proof {
            assert(sorted@ =~= spec_sort_desc(filtered_view).subrange(
                0,
                spec_top_count(spec_sort_desc(filtered_view).len() as int, pct as int),
            ));
        }
    }
    if let Some(mf) = max_frames {
        if mf <= sorted.len() {
            sorted.truncate(mf);
        }
    }
    sorted
}

} // verus!

verus! {

/// Apply the run's configured frame limits to the context's records.
pub fn frame_limit_determinate<F: DataSource>(context: &ProcessContext<F>) -> (r: Result<
    Vec<FrameRecord>,
    SolhatError,
>)
    requires
        context.parameters.top_percentage is Some ==> context.parameters.top_percentage->0 <= 100,
        context.frame_records@.len() <= 0x100_0000,
    ensures
        r is Ok,
        r is Ok ==> r->Ok_0@ == spec_limit_frames(
            context.frame_records@,
            context.parameters.min_sigma,
            context.parameters.max_sigma,
            context.parameters.top_percentage,
            context.parameters.max_frames,
        ),
{
    Ok(
        limit_frames(
            &context.frame_records,
            context.parameters.min_sigma,
            context.parameters.max_sigma,
            context.parameters.top_percentage,
            context.parameters.max_frames,
        ),
    )
}

} // verus!
