use vstd::prelude::*;

verus! {

/// Every failure the pipeline can report.
///
/// Format failures (a corrupt or undersized container, a size mismatch on
/// validation, an unsupported color encoding, an out-of-range frame index) are
/// fatal for the run. Configuration failures (an unknown target body, an
/// unknown drizzle scale) are fatal at startup. Empty-result failures (every
/// frame discarded, stacking or finalization invoked with nothing to work on)
/// reflect valid but unsatisfiable parameters. Resource failures (a duplicate
/// source) surface at context construction.
#[derive(Debug, Clone, Copy, PartialEq, Eq, Structural)]
pub enum SolhatError {
    /// The container is smaller than its fixed-size header.
    HeaderTooShort { actual: usize },
    /// The container's actual byte length disagrees with the length derived
    /// from its declared frame geometry.
    SizeMismatch { actual: u64, expected: u64 },
    /// The declared frame geometry does not describe a representable file.
    CorruptHeader,
    /// A frame index at or beyond the declared frame count.
    FrameIndexOutOfRange { index: usize, frame_count: usize },
    /// A declared frame's byte region extends past the end of the file.
    TruncatedFrame { index: usize },
    /// A declared color encoding the pipeline does not process.
    UnsupportedColorFormat,
    /// A target body name that is neither a sun, moon nor none selection.
    InvalidTarget,
    /// A drizzle scale string outside the supported set.
    InvalidDrizzleScale,
    /// A source with this content hash is already open.
    DuplicateSource,
    /// The record collection handed to stacking is empty.
    NoFramesToStack,
    /// Finalization was requested before any frame was accumulated.
    NoFramesAdded,
    /// Two buffers that should have the same geometry do not.
    DimensionMismatch,
    /// Two accumulators of different variants cannot be merged.
    AlgorithmMismatch,
    /// A data source with no frames to offer.
    EmptySource,
}

impl SolhatError {
    /// A short human-readable description of the failure class.
    pub fn message(&self) -> (r: &'static str)
        ensures
            r@.len() > 0,
    {
        let m: &'static str = match self {
            SolhatError::HeaderTooShort { .. } => "container shorter than its header",
            SolhatError::SizeMismatch { .. } => "container size mismatch",
            SolhatError::CorruptHeader => "container header describes no representable file",
            SolhatError::FrameIndexOutOfRange { .. } => "frame number out of range",
            SolhatError::TruncatedFrame { .. } => "frame data truncated",
            SolhatError::UnsupportedColorFormat => "unsupported color format",
            SolhatError::InvalidTarget => "invalid target supplied",
            SolhatError::InvalidDrizzleScale => "invalid drizzle scale",
            SolhatError::DuplicateSource => "file already opened",
            SolhatError::NoFramesToStack => "no frames to stack",
            SolhatError::NoFramesAdded => "no frames have been added",
            SolhatError::DimensionMismatch => "buffer dimensions are different",
            SolhatError::AlgorithmMismatch => "accumulator variants are different",
            SolhatError::EmptySource => "data source is empty",
        };
        proof {
            reveal_strlit("container shorter than its header");
            reveal_strlit("container size mismatch");
            reveal_strlit("container header describes no representable file");
            reveal_strlit("frame number out of range");
            reveal_strlit("frame data truncated");
            reveal_strlit("unsupported color format");
            reveal_strlit("invalid target supplied");
            reveal_strlit("invalid drizzle scale");
            reveal_strlit("file already opened");
            reveal_strlit("no frames to stack");
            reveal_strlit("no frames have been added");
            reveal_strlit("buffer dimensions are different");
            reveal_strlit("accumulator variants are different");
            reveal_strlit("data source is empty");
        }
        m
    }
}

} // verus!
