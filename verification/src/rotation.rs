//! Rotational registration: each record's field rotation is the configured
//! initial rotation minus the parallactic angle the target body's sky
//! position induces at the frame's capture time. The position function itself
//! is an external collaborator; this stage consumes its results, one per
//! record, and each record is computed independently.

use vstd::prelude::*;

use crate::context::ProcessContext;
use crate::datasource::DataSource;
use crate::error::SolhatError;
use crate::framerecord::FrameRecord;
use crate::target::TargetPosition;

verus! {

/// Largest angle magnitude the stage accepts, microdegrees: well past two
/// full turns, and small enough that the subtraction cannot overflow.
pub const MAX_ANGLE: i64 = 0x1_0000_0000_0000;

/// Set every record's rotation from the target positions resolved for the
/// records' timestamps, position `i` belonging to record `i`.
#[verifier::loop_isolation(false)]
pub fn frame_rotation_analysis<F: DataSource>(
    context: &ProcessContext<F>,
    positions: &Vec<TargetPosition>,
) -> (r: Result<Vec<FrameRecord>, SolhatError>)
    requires
        context.wf(),
        positions@.len() == context.frame_records@.len(),
        -MAX_ANGLE <= context.parameters.initial_rotation <= MAX_ANGLE,
        forall|i: int|
            0 <= i < positions@.len() ==> -MAX_ANGLE <= #[trigger] positions@[i].rotation
                <= MAX_ANGLE,
    ensures
        r is Ok,
        r is Ok ==> {
            let out = r->Ok_0@;
            &&& out.len() == context.frame_records@.len()
            &&& forall|i: int|
                #![trigger out[i]]
                0 <= i < out.len() ==> {
                    let rec0 = context.frame_records@[i];
                    let rec1 = out[i];
                    &&& rec1.source_file_id@ == rec0.source_file_id@
                    &&& rec1.frame_id == rec0.frame_id
                    &&& rec1.frame_width == rec0.frame_width
                    &&& rec1.frame_height == rec0.frame_height
                    &&& rec1.sigma == rec0.sigma
                    &&& rec1.offset == rec0.offset
                    &&& rec1.computed_rotation == context.parameters.initial_rotation
                        - positions@[i].rotation
                }
        },
{
    let n = context.frame_records.len();
    let mut out: Vec<FrameRecord> = Vec::new();
    let mut i: usize = 0;
    while i < n
        invariant
            i <= n,
            n == context.frame_records@.len(),
            out@.len() == i,
            forall|j: int|
                #![trigger out@[j]]
                0 <= j < i ==> {
                    let rec0 = context.frame_records@[j];
                    let rec1 = out@[j];
                    &&& rec1.source_file_id@ == rec0.source_file_id@
                    &&& rec1.frame_id == rec0.frame_id
                    &&& rec1.frame_width == rec0.frame_width
                    &&& rec1.frame_height == rec0.frame_height
                    &&& rec1.sigma == rec0.sigma
                    &&& rec1.offset == rec0.offset
                    &&& rec1.computed_rotation == context.parameters.initial_rotation
                        - positions@[j].rotation
                },
        decreases n - i,
    {
        let mut rec = context.frame_records[i].duplicate();
        rec.computed_rotation = context.parameters.initial_rotation - positions[i].rotation;
        out.push(rec);
        i += 1;
    }
    Ok(out)
}

} // verus!
