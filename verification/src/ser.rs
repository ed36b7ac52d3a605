//! The binary frame-container format: a fixed 178-byte header (identification
//! strings, color encoding, frame geometry, bit depth, frame count, two 8-byte
//! capture timestamps), followed by `frame_count` raw frames of
//! `width * height * (pixel_depth / 8)` bytes each, optionally followed by one
//! 8-byte timestamp per frame. Byte order is itself declared in the header and
//! applies to every multi-byte field and sample.

use vstd::prelude::*;
use vstd::string::StringExecFns;

use crate::datasource::ColorFormatId;
use crate::datasource::DataFrame;
use crate::datasource::DataSource;
use crate::datasource::spec_color_from_i32;
use crate::datasource::spec_valid_color_value;
use crate::error::SolhatError;
use crate::image::Image;
use crate::image::MAX_DIM;
use crate::image::MAX_SAMPLE;
use crate::image::lemma_cell_index_bound;

verus! {

pub const HEADER_SIZE_BYTES: usize = 178;

pub const TIMESTAMP_SIZE_BYTES: usize = 8;

/// Byte order of the container's multi-byte fields and samples.
#[derive(Debug, Clone, Copy, PartialEq, Eq, Structural)]
pub enum Endian {
    Little,
    Big,
}

/// The 16-bit value stored at `off`.
pub open spec fn spec_u16(d: Seq<u8>, off: int, e: Endian) -> int {
    match e {
        Endian::Little => d[off] as int + 0x100 * (d[off + 1] as int),
        Endian::Big => d[off + 1] as int + 0x100 * (d[off] as int),
    }
}

/// The 32-bit unsigned value stored at `off`.
pub open spec fn spec_u32(d: Seq<u8>, off: int, e: Endian) -> int {
    match e {
        Endian::Little => d[off] as int + 0x100 * (d[off + 1] as int) + 0x1_0000 * (d[off
            + 2] as int) + 0x100_0000 * (d[off + 3] as int),
        Endian::Big => d[off + 3] as int + 0x100 * (d[off + 2] as int) + 0x1_0000 * (d[off
            + 1] as int) + 0x100_0000 * (d[off] as int),
    }
}

/// The 32-bit two's-complement value stored at `off`.
pub open spec fn spec_i32(d: Seq<u8>, off: int, e: Endian) -> int {
    if spec_u32(d, off, e) >= 0x8000_0000 {
        spec_u32(d, off, e) - 0x1_0000_0000
    } else {
        spec_u32(d, off, e)
    }
}

/// The 64-bit unsigned value stored at `off`.
pub open spec fn spec_u64(d: Seq<u8>, off: int, e: Endian) -> int {
    match e {
        Endian::Little => d[off] as int + 0x100 * (d[off + 1] as int) + 0x1_0000 * (d[off
            + 2] as int) + 0x100_0000 * (d[off + 3] as int) + 0x1_0000_0000 * (d[off + 4] as int)
            + 0x100_0000_0000 * (d[off + 5] as int) + 0x1_0000_0000_0000 * (d[off + 6] as int)
            + 0x100_0000_0000_0000 * (d[off + 7] as int),
        Endian::Big => d[off + 7] as int + 0x100 * (d[off + 6] as int) + 0x1_0000 * (d[off
            + 5] as int) + 0x100_0000 * (d[off + 4] as int) + 0x1_0000_0000 * (d[off + 3] as int)
            + 0x100_0000_0000 * (d[off + 2] as int) + 0x1_0000_0000_0000 * (d[off + 1] as int)
            + 0x100_0000_0000_0000 * (d[off] as int),
    }
}

/// The byte order the container declares: the flag at offset 22, itself read
/// little-endian; zero selects big-endian.
pub open spec fn spec_endian_of(d: Seq<u8>) -> Endian {
    if spec_i32(d, 22, Endian::Little) == 0 {
        Endian::Big
    } else {
        Endian::Little
    }
}

pub open spec fn spec_ser_camera_id(d: Seq<u8>) -> int {
    spec_i32(d, 14, spec_endian_of(d))
}

pub open spec fn spec_ser_color_value(d: Seq<u8>) -> int {
    spec_i32(d, 18, spec_endian_of(d))
}

pub open spec fn spec_ser_width(d: Seq<u8>) -> int {
    spec_i32(d, 26, spec_endian_of(d))
}

pub open spec fn spec_ser_height(d: Seq<u8>) -> int {
    spec_i32(d, 30, spec_endian_of(d))
}

pub open spec fn spec_ser_depth(d: Seq<u8>) -> int {
    spec_i32(d, 34, spec_endian_of(d))
}

pub open spec fn spec_ser_count(d: Seq<u8>) -> int {
    spec_i32(d, 38, spec_endian_of(d))
}

pub open spec fn spec_ser_date_time(d: Seq<u8>) -> int {
    spec_u64(d, 162, spec_endian_of(d))
}

pub open spec fn spec_ser_date_time_utc(d: Seq<u8>) -> int {
    spec_u64(d, 170, spec_endian_of(d))
}

/// The declared geometry describes a representable file: edges inside the
/// machine limit, a bit depth of 8 or 16, a nonnegative frame count.
pub open spec fn spec_ser_dims_ok(d: Seq<u8>) -> bool {
    &&& 0 <= spec_ser_width(d) <= MAX_DIM
    &&& 0 <= spec_ser_height(d) <= MAX_DIM
    &&& (spec_ser_depth(d) == 8 || spec_ser_depth(d) == 16)
    &&& 0 <= spec_ser_count(d)
}

/// The header parses: long enough, representable geometry, a known color id.
pub open spec fn spec_ser_header_ok(d: Seq<u8>) -> bool {
    &&& d.len() >= 178
    &&& spec_ser_dims_ok(d)
    &&& spec_valid_color_value(spec_ser_color_value(d))
}

/// Bytes per sample: the declared depth is 8 or 16 bits.
pub open spec fn spec_ser_bpp(d: Seq<u8>) -> int {
    if spec_ser_depth(d) == 8 {
        1
    } else {
        2
    }
}

/// Bytes of one raw frame.
pub open spec fn spec_ser_frame_size(d: Seq<u8>) -> int {
    spec_ser_width(d) * spec_ser_height(d) * spec_ser_bpp(d)
}

/// First byte of frame `i`.
pub open spec fn spec_ser_frame_start(d: Seq<u8>, i: int) -> int {
    178 + spec_ser_frame_size(d) * i
}

/// First byte past the frames block, where a timestamp trailer would begin.
pub open spec fn spec_ser_ts_block_start(d: Seq<u8>) -> int {
    178 + spec_ser_frame_size(d) * spec_ser_count(d)
}

/// The container carries a per-frame timestamp trailer.
pub open spec fn spec_ser_has_timestamps(d: Seq<u8>) -> bool {
    d.len() > spec_ser_ts_block_start(d)
}

/// First byte of frame `i`'s trailer timestamp.
pub open spec fn spec_ser_ts_start(d: Seq<u8>, i: int) -> int {
    spec_ser_ts_block_start(d) + 8 * i
}

/// The byte length the declared geometry derives: header, frames, and the
/// timestamp trailer when one is present.
pub open spec fn spec_ser_expected_size(d: Seq<u8>) -> int {
    spec_ser_ts_block_start(d) + if spec_ser_has_timestamps(d) {
        8 * spec_ser_count(d)
    } else {
        0
    }
}

/// Frame `i` exists and its byte region lies inside the file.
pub open spec fn spec_ser_frame_ok(d: Seq<u8>, i: int) -> bool {
    &&& 0 <= i < spec_ser_count(d)
    &&& spec_ser_frame_start(d, i) + spec_ser_frame_size(d) <= d.len()
}

/// Frame `i`'s timestamp resolves: either there is no trailer (the timestamp
/// is zero) or its eight bytes lie inside the file.
pub open spec fn spec_ser_frame_ts_ok(d: Seq<u8>, i: int) -> bool {
    &&& 0 <= i < spec_ser_count(d)
    &&& (!spec_ser_has_timestamps(d) || spec_ser_ts_start(d, i) + 8 <= d.len())
}

/// Frame `i`'s timestamp value.
pub open spec fn spec_ser_frame_ts(d: Seq<u8>, i: int) -> int {
    if spec_ser_has_timestamps(d) {
        spec_u64(d, spec_ser_ts_start(d, i), spec_endian_of(d))
    } else {
        0
    }
}

/// Sample `j` (row-major) of frame `i`.
pub open spec fn spec_ser_flat_sample(d: Seq<u8>, i: int, j: int) -> int {
    if spec_ser_bpp(d) == 1 {
        d[spec_ser_frame_start(d, i) + j] as int
    } else {
        spec_u16(d, spec_ser_frame_start(d, i) + 2 * j, spec_endian_of(d))
    }
}

/// The sample of frame `i` at row `y`, column `x`.
pub open spec fn spec_ser_sample(d: Seq<u8>, i: int, y: int, x: int) -> int {
    spec_ser_flat_sample(d, i, y * spec_ser_width(d) + x)
}

/// Sample positions of an in-file frame lie inside the file, and every sample
/// fits in 16 bits.
pub proof fn lemma_ser_flat_sample_in_range(d: Seq<u8>, i: int, j: int)
    requires
        spec_ser_header_ok(d),
        spec_ser_frame_ok(d, i),
        0 <= j < spec_ser_width(d) * spec_ser_height(d),
    ensures
        spec_ser_frame_start(d, i) + j * spec_ser_bpp(d) + spec_ser_bpp(d) <= d.len(),
        0 <= spec_ser_flat_sample(d, i, j) <= MAX_SAMPLE,
{
    let w = spec_ser_width(d);
    let h = spec_ser_height(d);
    let bpp = spec_ser_bpp(d);
    let start = spec_ser_frame_start(d, i);
    assert((j + 1) * bpp <= (w * h) * bpp) by (nonlinear_arith)
        requires
            0 <= j < w * h,
            bpp == 1 || bpp == 2,
    ;
    assert((j + 1) * bpp == j * bpp + bpp) by (nonlinear_arith);
    assert((w * h) * bpp == w * h * bpp) by (nonlinear_arith);
    assert(start + j * bpp + bpp <= start + spec_ser_frame_size(d));
    if bpp == 1 {
        assert(0 <= d[start + j] as int <= 255);
    } else {
        assert(0 <= spec_u16(d, start + 2 * j, spec_endian_of(d)) <= 65535);
    }
}

/// The 16-bit value at `off`.
pub fn read_u16_at(d: &Vec<u8>, off: usize, e: Endian) -> (r: u16)
    requires
        off + 2 <= d@.len(),
    ensures
        r as int == spec_u16(d@, off as int, e),
{
    let n = d.len();
    let b0 = d[off] as u16;
    let b1 = d[off + 1] as u16;
    match e {
        Endian::Little => b0 + 0x100 * b1,
        Endian::Big => b1 + 0x100 * b0,
    }
}

/// The 32-bit unsigned value at `off`.
pub fn read_u32_at(d: &Vec<u8>, off: usize, e: Endian) -> (r: u32)
    requires
        off + 4 <= d@.len(),
    ensures
        r as int == spec_u32(d@, off as int, e),
{
    let n = d.len();
    let b0 = d[off] as u32;
    let b1 = d[off + 1] as u32;
    let b2 = d[off + 2] as u32;
    let b3 = d[off + 3] as u32;
    match e {
        Endian::Little => b0 + 0x100 * b1 + 0x1_0000 * b2 + 0x100_0000 * b3,
        Endian::Big => b3 + 0x100 * b2 + 0x1_0000 * b1 + 0x100_0000 * b0,
    }
}

/// The 32-bit two's-complement value at `off`, widened.
pub fn read_i32_at(d: &Vec<u8>, off: usize, e: Endian) -> (r: i64)
    requires
        off + 4 <= d@.len(),
    ensures
        r as int == spec_i32(d@, off as int, e),
{
    let u = read_u32_at(d, off, e) as i64;
    if u >= 0x8000_0000 {
        u - 0x1_0000_0000
    } else {
        u
    }
}

/// The 64-bit unsigned value at `off`.
pub fn read_u64_at(d: &Vec<u8>, off: usize, e: Endian) -> (r: u64)
    requires
        off + 8 <= d@.len(),
    ensures
        r as int == spec_u64(d@, off as int, e),
{
    let n = d.len();
    let b0 = d[off] as u64;
    let b1 = d[off + 1] as u64;
    let b2 = d[off + 2] as u64;
    let b3 = d[off + 3] as u64;
    let b4 = d[off + 4] as u64;
    let b5 = d[off + 5] as u64;
    let b6 = d[off + 6] as u64;
    let b7 = d[off + 7] as u64;
    match e {
        Endian::Little => b0 + 0x100 * b1 + 0x1_0000 * b2 + 0x100_0000 * b3 + 0x1_0000_0000 * b4
            + 0x100_0000_0000 * b5 + 0x1_0000_0000_0000 * b6 + 0x100_0000_0000_0000 * b7,
        Endian::Big => b7 + 0x100 * b6 + 0x1_0000 * b5 + 0x100_0000 * b4 + 0x1_0000_0000 * b3
            + 0x100_0000_0000 * b2 + 0x1_0000_0000_0000 * b1 + 0x100_0000_0000_0000 * b0,
    }
}

/// The hash fold's starting state.
pub const FNV_OFFSET: u64 = 0xcbf29ce484222325;

/// The hash fold's multiplier.
pub const FNV_PRIME: u64 = 0x100000001b3;

/// The 64-bit FNV-1a hash of the first `k` bytes: fold each byte in by
/// exclusive-or, then multiply modulo two to the sixty-fourth.
pub open spec fn spec_fnv1a(d: Seq<u8>, k: int) -> u64
    decreases k,
{
    if k <= 0 {
        FNV_OFFSET
    } else {
        ((((spec_fnv1a(d, k - 1) ^ (d[k - 1] as u64)) as int) * (FNV_PRIME as int))
            % 0x1_0000_0000_0000_0000) as u64
    }
}

/// The hexadecimal digit for a value below sixteen.
pub open spec fn spec_hex_digit(n: int) -> char {
    if n == 0 {
        '0'
    } else if n == 1 {
        '1'
    } else if n == 2 {
        '2'
    } else if n == 3 {
        '3'
    } else if n == 4 {
        '4'
    } else if n == 5 {
        '5'
    } else if n == 6 {
        '6'
    } else if n == 7 {
        '7'
    } else if n == 8 {
        '8'
    } else if n == 9 {
        '9'
    } else if n == 10 {
        'a'
    } else if n == 11 {
        'b'
    } else if n == 12 {
        'c'
    } else if n == 13 {
        'd'
    } else if n == 14 {
        'e'
    } else {
        'f'
    }
}

/// `k` hexadecimal digits of `h`, least significant first.
pub open spec fn spec_hex_le(h: u64, k: int) -> Seq<char>
    decreases k,
{
    if k <= 0 {
        Seq::empty()
    } else {
        seq![spec_hex_digit((h % 16) as int)] + spec_hex_le(h / 16, k - 1)
    }
}

/// The container's content hash as text: the FNV-1a hash of all of its bytes,
/// sixteen hexadecimal digits, least significant first. Two files with the
/// same bytes share it whatever their paths.
pub open spec fn spec_content_hash(d: Seq<u8>) -> Seq<char> {
    spec_hex_le(spec_fnv1a(d, d.len() as int), 16)
}

/// One hexadecimal digit as text.
fn hex_digit_str(d: u64) -> (r: &'static str)
    requires
        d < 16,
    ensures
        r@ == seq![spec_hex_digit(d as int)],
{
    let r: &'static str = match d {
        0 => "0",
        1 => "1",
        2 => "2",
        3 => "3",
        4 => "4",
        5 => "5",
        6 => "6",
        7 => "7",
        8 => "8",
        9 => "9",
        10 => "a",
        11 => "b",
        12 => "c",
        13 => "d",
        14 => "e",
        _ => "f",
    };
    proof {
        reveal_strlit("0");
        reveal_strlit("1");
        reveal_strlit("2");
        reveal_strlit("3");
        reveal_strlit("4");
        reveal_strlit("5");
        reveal_strlit("6");
        reveal_strlit("7");
        reveal_strlit("8");
        reveal_strlit("9");
        reveal_strlit("a");
        reveal_strlit("b");
        reveal_strlit("c");
        reveal_strlit("d");
        reveal_strlit("e");
        reveal_strlit("f");
        assert(r@ =~= seq![spec_hex_digit(d as int)]);
    }
    r
}

/// Compute a container's content hash.
#[verifier::loop_isolation(false)]
pub fn content_hash_of(d: &Vec<u8>) -> (r: String)
    ensures
        r@ == spec_content_hash(d@),
{
    let n = d.len();
    let mut h: u64 = FNV_OFFSET;
    let mut i: usize = 0;
    while i < n
        invariant
            i <= n,
            h == spec_fnv1a(d@, i as int),
        decreases n - i,
    {
        let x: u64 = h ^ (d[i] as u64);
        let prod: u128 = (x as u128) * (FNV_PRIME as u128);
        h = (prod % 0x1_0000_0000_0000_0000u128) as u64;
        i += 1;
    }
    let ghost h0 = h;
    let mut out = String::new();
    let mut k: usize = 0;
    while k < 16
        invariant
            k <= 16,
            out@ + spec_hex_le(h, 16 - k as int) == spec_hex_le(h0, 16),
        decreases 16 - k,
    {
        let digit = h % 16;
        let piece = hex_digit_str(digit);
        let ghost pre = out@;
        out.append(piece);
        h = h / 16;
        proof {
            assert(pre + (seq![spec_hex_digit(digit as int)] + spec_hex_le(h, 16 - k as int - 1))
                =~= (pre + seq![spec_hex_digit(digit as int)]) + spec_hex_le(h, 16 - k as int - 1));
        }
        k += 1;
    }
    proof {
        assert(spec_hex_le(h, 0) =~= Seq::<char>::empty());
        assert(out@ + Seq::<char>::empty() =~= out@);
    }
    out
}

/// A copy of `d[start .. start + n]`.
pub fn read_bytes(d: &Vec<u8>, start: usize, n: usize) -> (r: Vec<u8>)
    requires
        start + n <= d@.len(),
    ensures
        r@ == d@.subrange(start as int, start as int + n as int),
{
    let total = d.len();
    let mut r: Vec<u8> = Vec::new();
    let mut i: usize = 0;
    while i < n
        invariant
            i <= n,
            total == d@.len(),
            start + n <= d@.len(),
            r@.len() == i,
            forall|k: int| 0 <= k < i ==> r@[k] == d@[start + k],
        decreases n - i,
    {
        r.push(d[start + i]);
        i += 1;
    }
    proof {
        assert(r@ =~= d@.subrange(start as int, start as int + n as int));
    }
    r
}

/// One decoded frame: its raw single-band buffer and its capture timestamp.
#[derive(Debug, Clone)]
pub struct SerFrame {
    pub buffer: Image,
    pub timestamp: u64,
}

impl SerFrame {
    /// Wrap a decoded single-band buffer and its raw timestamp.
    pub fn new(single_band_buffer: Image, timestamp: u64) -> (r: SerFrame)
        ensures
            r.buffer == single_band_buffer,
            r.timestamp == timestamp,
    {
        SerFrame { buffer: single_band_buffer, timestamp }
    }

    /// Wrap an already three-band image, interpolated outside the pipeline.
    pub fn new_rgb(rgb: Image, timestamp: u64) -> (r: SerFrame)
        ensures
            r.buffer == rgb,
            r.timestamp == timestamp,
    {
        SerFrame { buffer: rgb, timestamp }
    }

    /// Hand the frame to the pipeline's source-independent representation.
    pub fn into_data_frame(self) -> (r: DataFrame)
        ensures
            r.buffer == self.buffer,
            r.timestamp == self.timestamp,
    {
        DataFrame { buffer: self.buffer, timestamp: self.timestamp }
    }
}

/// An opened container: the parsed header fields beside the raw bytes they
/// were parsed from.
#[derive(Debug)]
pub struct SerFile {
    pub file_id: Vec<u8>,
    pub camera_series_id: i64,
    pub color_id: ColorFormatId,
    pub image_width: usize,
    pub image_height: usize,
    pub pixel_depth: usize,
    pub frame_count: usize,
    pub observer: Vec<u8>,
    pub instrument: Vec<u8>,
    pub telescope: Vec<u8>,
    pub date_time: u64,
    pub date_time_utc: u64,
    pub total_size: usize,
    pub endian: Endian,
    pub data: Vec<u8>,
    pub source_file: String,
    /// The FNV-1a hash of the whole file, as sixteen hexadecimal digits: the
    /// registry's deduplication key, a function of the bytes alone.
    pub content_hash: String,
}

impl SerFile {
    /// Every parsed field agrees with the raw bytes.
    pub open spec fn wf(&self) -> bool {
        let d = self.data@;
        let e = spec_endian_of(d);
        &&& spec_ser_header_ok(d)
        &&& self.endian == e
        &&& self.file_id@ == d.subrange(0, 14)
        &&& self.camera_series_id as int == spec_ser_camera_id(d)
        &&& self.color_id == spec_color_from_i32(spec_ser_color_value(d))
        &&& self.image_width as int == spec_ser_width(d)
        &&& self.image_height as int == spec_ser_height(d)
        &&& self.pixel_depth as int == spec_ser_depth(d)
        &&& self.frame_count as int == spec_ser_count(d)
        &&& self.observer@ == d.subrange(42, 82)
        &&& self.instrument@ == d.subrange(82, 122)
        &&& self.telescope@ == d.subrange(122, 162)
        &&& self.date_time as int == spec_ser_date_time(d)
        &&& self.date_time_utc as int == spec_ser_date_time_utc(d)
        &&& self.total_size == d.len()
        &&& self.content_hash@ == spec_content_hash(d)
    }

    /// A parsed frame count fits a signed 32-bit field.
    pub proof fn lemma_wf_count_bound(&self)
        requires
            self.wf(),
        ensures
            self.frame_count < 0x8000_0000,
    {
    }

    /// Parse a container from its raw bytes. `source_file` is the name the
    /// registry will deduplicate on; the caller performed the read.
    pub fn load_ser(source_file: &str, data: Vec<u8>) -> (r: Result<SerFile, SolhatError>)
        ensures
            r is Ok <==> spec_ser_header_ok(data@),
            r is Ok ==> {
                let s = r->Ok_0;
                &&& s.wf()
                &&& s.data@ == data@
                &&& s.source_file@ == source_file@
            },
            data@.len() < 178 ==> r == Err::<SerFile, SolhatError>(
                (SolhatError::HeaderTooShort { actual: data.len() }),
            ),
            data@.len() >= 178 && !spec_ser_dims_ok(data@) ==> r == Err::<SerFile, SolhatError>(
                SolhatError::CorruptHeader,
            ),
            data@.len() >= 178 && spec_ser_dims_ok(data@) && !spec_valid_color_value(
                spec_ser_color_value(data@),
            ) ==> r == Err::<SerFile, SolhatError>(SolhatError::UnsupportedColorFormat),
    {
        if data.len() < 178 {
            return Err(SolhatError::HeaderTooShort { actual: data.len() });
        }
        let endian_flag = read_i32_at(&data, 22, Endian::Little);
        let endian = if endian_flag == 0 {
            Endian::Big
        } else {
            Endian::Little
        };
        let width = read_i32_at(&data, 26, endian);
        let height = read_i32_at(&data, 30, endian);
        let depth = read_i32_at(&data, 34, endian);
        let count = read_i32_at(&data, 38, endian);
        if !(0 <= width && width <= 23000 && 0 <= height && height <= 23000 && (depth == 8 || depth
            == 16) && 0 <= count) {
            return Err(SolhatError::CorruptHeader);
        }
        let color_value = read_i32_at(&data, 18, endian);
        let color_ok = color_value == 0 || color_value == 8 || color_value == 9 || color_value
            == 10 || color_value == 11 || color_value == 16 || color_value == 17 || color_value
            == 18 || color_value == 19 || color_value == 100 || color_value == 101;
        if !color_ok {
            return Err(SolhatError::UnsupportedColorFormat);
        }
        let total_size = data.len();
        let content_hash = content_hash_of(&data);
        let ser = SerFile {
            file_id: read_bytes(&data, 0, 14),
            camera_series_id: read_i32_at(&data, 14, endian),
            color_id: ColorFormatId::from_i32(color_value as i32),
            image_width: width as usize,
            image_height: height as usize,
            pixel_depth: depth as usize,
            frame_count: count as usize,
            observer: read_bytes(&data, 42, 40),
            instrument: read_bytes(&data, 82, 40),
            telescope: read_bytes(&data, 122, 40),
            date_time: read_u64_at(&data, 162, endian),
            date_time_utc: read_u64_at(&data, 170, endian),
            total_size,
            endian,
            data,
            source_file: source_file.to_owned(),
            content_hash,
        };
        Ok(ser)
    }

    /// Bytes of one raw frame: `width * height * (pixel_depth / 8)`.
    pub fn image_frame_size_bytes(&self) -> (r: usize)
        requires
            self.wf(),
        ensures
            r as int == spec_ser_frame_size(self.data@),
            r <= 0x4000_0000,
    {
        proof {
            assert(self.image_width * self.image_height <= 0x2000_0000 && self.image_width
                * self.image_height * ((self.pixel_depth / 8) as int) <= 0x4000_0000)
                by (nonlinear_arith)
                requires
                    self.image_width <= 23000,
                    self.image_height <= 23000,
                    self.pixel_depth == 8 || self.pixel_depth == 16,
            ;
        }
        self.image_width * self.image_height * (self.pixel_depth / 8)
    }

    /// First byte of frame `frame_num`.
    pub fn image_frame_start_index(&self, frame_num: usize) -> (r: u64)
        requires
            self.wf(),
            frame_num <= self.frame_count,
        ensures
            r as int == spec_ser_frame_start(self.data@, frame_num as int),
            r as int <= 178 + 0x2000_0000_0000_0000,
    {
        proof {
            self.lemma_wf_count_bound();
        }
        let fsz = self.image_frame_size_bytes() as u64;
        proof {
            assert(fsz as int * frame_num as int <= 0x2000_0000_0000_0000) by (nonlinear_arith)
                requires
                    0 <= fsz as int <= 0x4000_0000,
                    0 <= frame_num as int <= 0x8000_0000,
            ;
        }
        178 + fsz * (frame_num as u64)
    }

    /// First byte past the frames block.
    pub fn timestamp_block_start_index(&self) -> (r: u64)
        requires
            self.wf(),
        ensures
            r as int == spec_ser_ts_block_start(self.data@),
            r as int <= 178 + 0x2000_0000_0000_0000,
    {
        proof {
            self.lemma_wf_count_bound();
        }
        self.image_frame_start_index(self.frame_count)
    }

    /// Whether a per-frame timestamp trailer follows the frames block.
    pub fn has_timestamps(&self) -> (r: bool)
        requires
            self.wf(),
        ensures
            r == spec_ser_has_timestamps(self.data@),
    {
        (self.total_size as u64) > self.timestamp_block_start_index()
    }

    /// First byte of frame `frame_num`'s trailer timestamp.
    pub fn timestamp_start_index(&self, frame_num: usize) -> (r: u64)
        requires
            self.wf(),
            frame_num <= self.frame_count,
        ensures
            r as int == spec_ser_ts_start(self.data@, frame_num as int),
            r as int <= 178 + 0x2000_0000_0000_0000 + 0x4_0000_0000,
    {
        proof {
            self.lemma_wf_count_bound();
        }
        let block_start = self.timestamp_block_start_index();
        block_start + (frame_num as u64) * 8
    }

    /// The byte length the declared geometry derives.
    pub fn expected_size(&self) -> (r: u64)
        requires
            self.wf(),
        ensures
            r as int == spec_ser_expected_size(self.data@),
    {
        proof {
            self.lemma_wf_count_bound();
        }
        let has_ts: u64 = if self.has_timestamps() {
            1
        } else {
            0
        };
        self.timestamp_block_start_index() + 8 * (self.frame_count as u64) * has_ts
    }

    /// Self-validation: succeeds exactly when the actual byte length equals
    /// the derived expected size.
    pub fn validate_ser(&self) -> (r: Result<(), SolhatError>)
        requires
            self.wf(),
        ensures
            r is Ok <==> self.total_size as int == spec_ser_expected_size(self.data@),
            r is Err ==> r == Err::<(), SolhatError>(
                (SolhatError::SizeMismatch {
                    actual: self.total_size as u64,
                    expected: spec_ser_expected_size(self.data@) as u64,
                }),
            ),
    {
        let expected = self.expected_size();
        if self.total_size as u64 == expected {
            Ok(())
        } else {
            Err(SolhatError::SizeMismatch { actual: self.total_size as u64, expected })
        }
    }

    /// Frame `frame_num`'s timestamp: zero when the container has no trailer,
    /// an error past the frame count or when the trailer is truncated.
    pub fn get_ser_frame_timestamp(&self, frame_num: usize) -> (r: Result<u64, SolhatError>)
        requires
            self.wf(),
        ensures
            r is Ok <==> spec_ser_frame_ts_ok(self.data@, frame_num as int),
            r is Ok ==> r->Ok_0 as int == spec_ser_frame_ts(self.data@, frame_num as int),
            frame_num >= self.frame_count ==> r == Err::<u64, SolhatError>(
                (SolhatError::FrameIndexOutOfRange {
                    index: frame_num,
                    frame_count: self.frame_count,
                }),
            ),
            frame_num < self.frame_count && !spec_ser_frame_ts_ok(self.data@, frame_num as int)
                ==> r == Err::<u64, SolhatError>((SolhatError::TruncatedFrame { index: frame_num })),
    {
        if frame_num >= self.frame_count {
            return Err(
                SolhatError::FrameIndexOutOfRange {
                    index: frame_num,
                    frame_count: self.frame_count,
                },
            );
        }
        if !self.has_timestamps() {
            return Ok(0);
        }
        let ts_start = self.timestamp_start_index(frame_num);
        if ts_start + 8 > self.data.len() as u64 {
            return Err(SolhatError::TruncatedFrame { index: frame_num });
        }
        Ok(read_u64_at(&self.data, ts_start as usize, self.endian))
    }

    /// Decode frame `frame_num`: scan its byte region sample by sample in
    /// row-major order, yielding the raw single band (the mosaic, for the
    /// Bayer encoding, whose interpolation to three bands is an external
    /// collaborator). Fails past the frame count, and on a region that runs
    /// past the end of the file even when the index is within the declared
    /// count. Every other declared color encoding is an unsupported format,
    /// fatal rather than degraded, and is excluded here.
    pub fn get_ser_frame(&self, frame_num: usize) -> (r: Result<SerFrame, SolhatError>)
        requires
            self.wf(),
            self.color_id == ColorFormatId::Mono || self.color_id == ColorFormatId::BayerRggb,
        ensures
            r is Ok <==> (spec_ser_frame_ok(self.data@, frame_num as int) && spec_ser_frame_ts_ok(
                self.data@,
                frame_num as int,
            )),
            r is Ok ==> {
                let f = r->Ok_0;
                &&& f.buffer.wf()
                &&& f.buffer.spec_num_bands() == 1
                &&& f.buffer.spec_width() == self.image_width
                &&& f.buffer.spec_height() == self.image_height
                &&& forall|y: int, x: int|
                    0 <= y < self.image_height && 0 <= x < self.image_width
                        ==> #[trigger] f.buffer.spec_get(0, y, x) as int == spec_ser_sample(
                        self.data@,
                        frame_num as int,
                        y,
                        x,
                    )
                &&& f.timestamp as int == spec_ser_frame_ts(self.data@, frame_num as int)
            },
            frame_num >= self.frame_count ==> r == Err::<SerFrame, SolhatError>(
                (SolhatError::FrameIndexOutOfRange {
                    index: frame_num,
                    frame_count: self.frame_count,
                }),
            ),
            frame_num < self.frame_count && !(spec_ser_frame_ok(self.data@, frame_num as int)
                && spec_ser_frame_ts_ok(self.data@, frame_num as int)) ==> r == Err::<
                SerFrame,
                SolhatError,
            >((SolhatError::TruncatedFrame { index: frame_num })),
    {
        if frame_num >= self.frame_count {
            return Err(
                SolhatError::FrameIndexOutOfRange {
                    index: frame_num,
                    frame_count: self.frame_count,
                },
            );
        }
        let fsz = self.image_frame_size_bytes();
        let start64 = self.image_frame_start_index(frame_num);
        if start64 + fsz as u64 > self.data.len() as u64 {
            return Err(SolhatError::TruncatedFrame { index: frame_num });
        }
        let timestamp = match self.get_ser_frame_timestamp(frame_num) {
            Ok(t) => t,
            Err(_) => {
                return Err(SolhatError::TruncatedFrame { index: frame_num });
            },
        };
        let start = start64 as usize;
        let bpp: usize = self.pixel_depth / 8;
        proof {
            assert(self.image_width * self.image_height <= 0x2000_0000) by (nonlinear_arith)
                requires
                    self.image_width <= 23000,
                    self.image_height <= 23000,
            ;
        }
        let total: usize = self.image_width * self.image_height;
        let mut values: Vec<u32> = Vec::new();
        let mut j: usize = 0;
        while j < total
            invariant
                self.wf(),
                spec_ser_frame_ok(self.data@, frame_num as int),
                j <= total,
                total == self.image_width * self.image_height,
                bpp as int == spec_ser_bpp(self.data@),
                start as int == spec_ser_frame_start(self.data@, frame_num as int),
                values@.len() == j,
                forall|k: int|
                    0 <= k < j ==> #[trigger] values@[k] as int == spec_ser_flat_sample(
                        self.data@,
                        frame_num as int,
                        k,
                    ) && values@[k] <= MAX_SAMPLE,
            decreases total - j,
        {
            proof {
                lemma_ser_flat_sample_in_range(self.data@, frame_num as int, j as int);
            }
            let pixel_start: usize = start + j * bpp;
            let v: u32 = if bpp == 1 {
                self.data[pixel_start] as u32
            } else {
                read_u16_at(&self.data, pixel_start, self.endian) as u32
            };
            values.push(v);
            j += 1;
        }
        let buffer = Image::from_vec_single_band(values, self.image_width, self.image_height);
        proof {
            assert forall|y: int, x: int|
                0 <= y < self.image_height && 0 <= x
                    < self.image_width implies #[trigger] buffer.spec_get(0, y, x) as int
                == spec_ser_sample(self.data@, frame_num as int, y, x) by {
                lemma_cell_index_bound(
                    self.image_width as int,
                    self.image_height as int,
                    1,
                    0,
                    y,
                    x,
                );
            }
        }
        Ok(SerFrame { buffer, timestamp })
    }
}

} // verus!

verus! {

impl DataSource for SerFile {
    /// Parsed consistently, with a color encoding the pipeline decodes: the
    /// raw monochrome band or the RGGB mosaic whose interpolation to three
    /// bands is an external collaborator.
    open spec fn inv(&self) -> bool {
        &&& self.wf()
        &&& (self.color_id == ColorFormatId::Mono || self.color_id == ColorFormatId::BayerRggb)
    }

    open spec fn spec_color_id(&self) -> ColorFormatId {
        self.color_id
    }

    open spec fn spec_width(&self) -> int {
        spec_ser_width(self.data@)
    }

    open spec fn spec_height(&self) -> int {
        spec_ser_height(self.data@)
    }

    open spec fn spec_pixel_depth(&self) -> int {
        spec_ser_depth(self.data@)
    }

    open spec fn spec_frame_count(&self) -> int {
        spec_ser_count(self.data@)
    }

    open spec fn spec_total_file_size(&self) -> int {
        self.data@.len() as int
    }

    open spec fn spec_date_time(&self) -> int {
        spec_ser_date_time(self.data@)
    }

    open spec fn spec_date_time_utc(&self) -> int {
        spec_ser_date_time_utc(self.data@)
    }

    open spec fn spec_hash(&self) -> Seq<char> {
        spec_content_hash(self.data@)
    }

    open spec fn spec_valid(&self) -> bool {
        self.total_size as int == spec_ser_expected_size(self.data@)
    }

    open spec fn spec_frame_ok(&self, i: int) -> bool {
        spec_ser_frame_ok(self.data@, i)
    }

    open spec fn spec_frame_sample(&self, i: int, y: int, x: int) -> int {
        spec_ser_sample(self.data@, i, y, x)
    }

    open spec fn spec_frame_ts_ok(&self, i: int) -> bool {
        spec_ser_frame_ts_ok(self.data@, i)
    }

    open spec fn spec_frame_timestamp(&self, i: int) -> int {
        spec_ser_frame_ts(self.data@, i)
    }

    proof fn lemma_inv_bounds(&self) {
        assert forall|i: int, y: int, x: int|
            0 <= i < self.spec_frame_count() && 0 <= y < self.spec_height() && 0 <= x
                < self.spec_width() && self.spec_frame_ok(i) implies 0
            <= #[trigger] self.spec_frame_sample(i, y, x) <= 65535 by {
            let w = spec_ser_width(self.data@);
            let h = spec_ser_height(self.data@);
            lemma_cell_index_bound(w, h, 1, 0, y, x);
            lemma_ser_flat_sample_in_range(self.data@, i, y * w + x);
        }
    }

    fn color_id(&self) -> (r: ColorFormatId) {
        self.color_id
    }

    fn image_width(&self) -> (r: usize) {
        self.image_width
    }

    fn image_height(&self) -> (r: usize) {
        self.image_height
    }

    fn pixel_depth(&self) -> (r: usize) {
        self.pixel_depth
    }

    fn frame_count(&self) -> (r: usize) {
        self.frame_count
    }

    fn date_time(&self) -> (r: u64) {
        self.date_time
    }

    fn date_time_utc(&self) -> (r: u64) {
        self.date_time_utc
    }

    fn total_file_size(&self) -> (r: usize) {
        self.total_size
    }

    fn file_hash(&self) -> (r: String) {
        self.content_hash.clone()
    }

    fn validate(&self) -> (r: Result<(), SolhatError>) {
        self.validate_ser()
    }

    fn get_frame(&self, i: usize) -> (r: Result<DataFrame, SolhatError>) {
        match self.get_ser_frame(i) {
            Ok(f) => Ok(f.into_data_frame()),
            Err(e) => Err(e),
        }
    }

    fn get_frame_timestamp(&self, i: usize) -> (r: Result<u64, SolhatError>) {
        self.get_ser_frame_timestamp(i)
    }
}

} // verus!
