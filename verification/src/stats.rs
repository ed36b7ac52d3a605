use vstd::prelude::*;

verus! {

/// Bookkeeping a run accumulates for reporting: how many frames were seen,
/// kept and discarded, the observed quality range, and the per-frame quality
/// scores themselves.
#[derive(Debug, Clone)]
pub struct ProcessStats {
    pub total_frames: usize,
    pub num_frames_used: usize,
    pub min_sigma: u64,
    pub max_sigma: u64,
    pub num_frames_discarded: usize,
    pub num_frames_discarded_min_sigma: usize,
    pub num_frames_discarded_max_sigma: usize,
    pub num_frames_discarded_top_percentage: usize,
    pub initial_rotation: i64,
    pub quality_values: Vec<u64>,
}

impl ProcessStats {
    /// A zeroed record, the state before any stage has reported.
    pub fn new_empty() -> (r: ProcessStats)
        ensures
            r.total_frames == 0,
            r.num_frames_used == 0,
            r.quality_values@.len() == 0,
    {
        ProcessStats {
            total_frames: 0,
            num_frames_used: 0,
            min_sigma: 0,
            max_sigma: 0,
            num_frames_discarded: 0,
            num_frames_discarded_min_sigma: 0,
            num_frames_discarded_max_sigma: 0,
            num_frames_discarded_top_percentage: 0,
            initial_rotation: 0,
            quality_values: Vec::new(),
        }
    }
}

} // verus!
