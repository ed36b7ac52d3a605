use vstd::prelude::*;

use crate::error::SolhatError;
use crate::image::Image;
use crate::image::MAX_DIM;

verus! {

/// Color encoding declared by a frame container.
///
/// The pipeline decodes monochrome frames and the RGGB Bayer mosaic (whose
/// interpolation to three bands is an external collaborator); the remaining
/// encodings are recognized but not processed.
#[derive(Debug, Clone, Copy, PartialEq, Eq, Structural)]
pub enum ColorFormatId {
    Mono,
    BayerRggb,
    BayerGrbg,
    BayerGbrg,
    BayerBggr,
    BayerCyym,
    BayerYcmy,
    BayerYmcy,
    BayerMyyc,
    Rgb,
    Bgr,
}

/// The numeric ids a container may declare.
pub open spec fn spec_valid_color_value(v: int) -> bool {
    v == 0 || v == 8 || v == 9 || v == 10 || v == 11 || v == 16 || v == 17 || v == 18 || v == 19
        || v == 100 || v == 101
}

/// The encoding a numeric id names.
pub open spec fn spec_color_from_i32(v: int) -> ColorFormatId {
    if v == 0 {
        ColorFormatId::Mono
    } else if v == 8 {
        ColorFormatId::BayerRggb
    } else if v == 9 {
        ColorFormatId::BayerGrbg
    } else if v == 10 {
        ColorFormatId::BayerGbrg
    } else if v == 11 {
        ColorFormatId::BayerBggr
    } else if v == 16 {
        ColorFormatId::BayerCyym
    } else if v == 17 {
        ColorFormatId::BayerYcmy
    } else if v == 18 {
        ColorFormatId::BayerYmcy
    } else if v == 19 {
        ColorFormatId::BayerMyyc
    } else if v == 100 {
        ColorFormatId::Rgb
    } else {
        ColorFormatId::Bgr
    }
}

impl ColorFormatId {
    /// Decode a declared color-format id. Ids outside the format's table are
    /// excluded by precondition; container parsing screens them first.
    pub fn from_i32(v: i32) -> (r: ColorFormatId)
        requires
            spec_valid_color_value(v as int),
        ensures
            r == spec_color_from_i32(v as int),
    {
        match v {
            0 => ColorFormatId::Mono,
            8 => ColorFormatId::BayerRggb,
            9 => ColorFormatId::BayerGrbg,
            10 => ColorFormatId::BayerGbrg,
            11 => ColorFormatId::BayerBggr,
            16 => ColorFormatId::BayerCyym,
            17 => ColorFormatId::BayerYcmy,
            18 => ColorFormatId::BayerYmcy,
            19 => ColorFormatId::BayerMyyc,
            100 => ColorFormatId::Rgb,
            _ => ColorFormatId::Bgr,
        }
    }
}

/// One decoded frame: a single raw band of samples plus its capture timestamp.
#[derive(Debug, Clone)]
pub struct DataFrame {
    pub buffer: Image,
    pub timestamp: u64,
}

/// An opened frame container: geometry, capture metadata, a content hash for
/// deduplication, per-frame access, and self-validation against the declared
/// total size. One production implementation decodes the binary container
/// format; alternative formats can be added without touching the pipeline.
pub trait DataSource: Sized {
    /// The source is internally consistent; established at open time.
    spec fn inv(&self) -> bool;

    spec fn spec_color_id(&self) -> ColorFormatId;

    spec fn spec_width(&self) -> int;

    spec fn spec_height(&self) -> int;

    spec fn spec_pixel_depth(&self) -> int;

    spec fn spec_frame_count(&self) -> int;

    spec fn spec_total_file_size(&self) -> int;

    spec fn spec_date_time(&self) -> int;

    spec fn spec_date_time_utc(&self) -> int;

    /// Content hash used by the registry for deduplication.
    spec fn spec_hash(&self) -> Seq<char>;

    /// Whether the declared total size matches the actual one.
    spec fn spec_valid(&self) -> bool;

    /// Whether frame `i`'s bytes are fully present in the source.
    spec fn spec_frame_ok(&self, i: int) -> bool;

    /// The raw sample of frame `i` at row `y`, column `x`.
    spec fn spec_frame_sample(&self, i: int, y: int, x: int) -> int;

    /// Whether frame `i`'s timestamp can be resolved.
    spec fn spec_frame_ts_ok(&self, i: int) -> bool;

    /// Frame `i`'s timestamp; zero when the source records none.
    spec fn spec_frame_timestamp(&self, i: int) -> int;

    /// The invariant keeps the geometry inside the pipeline's machine limits.
    proof fn lemma_inv_bounds(&self)
        requires
            self.inv(),
        ensures
            0 <= self.spec_width() <= MAX_DIM,
            0 <= self.spec_height() <= MAX_DIM,
            0 <= self.spec_frame_count(),
            forall|i: int, y: int, x: int|
                0 <= i && 0 <= y && 0 <= x ==> 0 <= #[trigger] self.spec_frame_sample(i, y, x)
                    <= 65535,
    ;

    fn color_id(&self) -> (r: ColorFormatId)
        requires
            self.inv(),
        ensures
            r == self.spec_color_id(),
    ;

    fn image_width(&self) -> (r: usize)
        requires
            self.inv(),
        ensures
            r as int == self.spec_width(),
    ;

    fn image_height(&self) -> (r: usize)
        requires
            self.inv(),
        ensures
            r as int == self.spec_height(),
    ;

    fn pixel_depth(&self) -> (r: usize)
        requires
            self.inv(),
        ensures
            r as int == self.spec_pixel_depth(),
    ;

    fn frame_count(&self) -> (r: usize)
        requires
            self.inv(),
        ensures
            r as int == self.spec_frame_count(),
    ;

    fn date_time(&self) -> (r: u64)
        requires
            self.inv(),
        ensures
            r as int == self.spec_date_time(),
    ;

    fn date_time_utc(&self) -> (r: u64)
        requires
            self.inv(),
        ensures
            r as int == self.spec_date_time_utc(),
    ;

    fn total_file_size(&self) -> (r: usize)
        requires
            self.inv(),
        ensures
            r as int == self.spec_total_file_size(),
    ;

    fn file_hash(&self) -> (r: String)
        requires
            self.inv(),
        ensures
            r@ == self.spec_hash(),
    ;

    /// Self-validation of the declared size against the actual one.
    fn validate(&self) -> (r: Result<(), SolhatError>)
        requires
            self.inv(),
        ensures
            r is Ok <==> self.spec_valid(),
    ;

    /// Decode frame `i` as a single raw band plus its timestamp.
    fn get_frame(&self, i: usize) -> (r: Result<DataFrame, SolhatError>)
        requires
            self.inv(),
        ensures
            r is Ok <==> (i < self.spec_frame_count() && self.spec_frame_ok(i as int)
                && self.spec_frame_ts_ok(i as int)),
            r is Ok ==> {
                let f = r->Ok_0;
                &&& f.buffer.wf()
                &&& f.buffer.spec_num_bands() == 1
                &&& f.buffer.spec_width() == self.spec_width()
                &&& f.buffer.spec_height() == self.spec_height()
                &&& forall|y: int, x: int|
                    0 <= y < self.spec_height() && 0 <= x < self.spec_width()
                        ==> #[trigger] f.buffer.spec_get(0, y, x) as int == self.spec_frame_sample(
                        i as int,
                        y,
                        x,
                    )
                &&& f.timestamp as int == self.spec_frame_timestamp(i as int)
            },
    ;

    /// Resolve frame `i`'s capture timestamp.
    fn get_frame_timestamp(&self, i: usize) -> (r: Result<u64, SolhatError>)
        requires
            self.inv(),
        ensures
            r is Ok <==> self.spec_frame_ts_ok(i as int),
            r is Ok ==> r->Ok_0 as int == self.spec_frame_timestamp(i as int),
    ;
}

/// A placeholder source with no geometry and no frames.
pub struct EmptyDataSource {}

impl DataSource for EmptyDataSource {
    open spec fn inv(&self) -> bool {
        true
    }

    open spec fn spec_color_id(&self) -> ColorFormatId {
        ColorFormatId::Mono
    }

    open spec fn spec_width(&self) -> int {
        0
    }

    open spec fn spec_height(&self) -> int {
        0
    }

    open spec fn spec_pixel_depth(&self) -> int {
        8
    }

    open spec fn spec_frame_count(&self) -> int {
        0
    }

    open spec fn spec_total_file_size(&self) -> int {
        0
    }

    open spec fn spec_date_time(&self) -> int {
        0
    }

    open spec fn spec_date_time_utc(&self) -> int {
        0
    }

    open spec fn spec_hash(&self) -> Seq<char> {
        "000000000000"@
    }

    open spec fn spec_valid(&self) -> bool {
        false
    }

    open spec fn spec_frame_ok(&self, i: int) -> bool {
        false
    }

    open spec fn spec_frame_sample(&self, i: int, y: int, x: int) -> int {
        0
    }

    open spec fn spec_frame_ts_ok(&self, i: int) -> bool {
        true
    }

    open spec fn spec_frame_timestamp(&self, i: int) -> int {
        0
    }

    proof fn lemma_inv_bounds(&self) {
    }

    fn color_id(&self) -> (r: ColorFormatId) {
        ColorFormatId::Mono
    }

    fn image_width(&self) -> (r: usize) {
        0
    }

    fn image_height(&self) -> (r: usize) {
        0
    }

    fn pixel_depth(&self) -> (r: usize) {
        8
    }

    fn frame_count(&self) -> (r: usize) {
        0
    }

    fn date_time(&self) -> (r: u64) {
        0
    }

    fn date_time_utc(&self) -> (r: u64) {
        0
    }

    fn total_file_size(&self) -> (r: usize) {
        0
    }

    fn file_hash(&self) -> (r: String) {
        "000000000000".to_owned()
    }

    fn validate(&self) -> (r: Result<(), SolhatError>) {
        Err(SolhatError::EmptySource)
    }

    fn get_frame(&self, i: usize) -> (r: Result<DataFrame, SolhatError>) {
        Err(SolhatError::EmptySource)
    }

    fn get_frame_timestamp(&self, i: usize) -> (r: Result<u64, SolhatError>) {
        Ok(0)
    }
}

} // verus!
