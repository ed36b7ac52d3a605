use solhat::datasource::ColorFormatId;
use solhat::error::SolhatError;
use solhat::ser::SerFile;

fn put_i32_le(buf: &mut [u8], off: usize, v: i32) {
    let b = v.to_le_bytes();
    buf[off..off + 4].copy_from_slice(&b);
}

fn put_i32_be(buf: &mut [u8], off: usize, v: i32) {
    let b = v.to_be_bytes();
    buf[off..off + 4].copy_from_slice(&b);
}

fn put_u64_le(buf: &mut [u8], off: usize, v: u64) {
    let b = v.to_le_bytes();
    buf[off..off + 8].copy_from_slice(&b);
}

/// A synthetic little-endian container with 16-bit monochrome frames.
fn make_ser_16(width: usize, height: usize, frames: &[Vec<u16>], with_timestamps: bool) -> Vec<u8> {
    let mut header = vec![0u8; 178];
    header[0..14].copy_from_slice(b"LUCAM-RECORDER");
    put_i32_le(&mut header, 14, 7); // camera series id
    put_i32_le(&mut header, 18, 0); // mono
    put_i32_le(&mut header, 22, 1); // little-endian
    put_i32_le(&mut header, 26, width as i32);
    put_i32_le(&mut header, 30, height as i32);
    put_i32_le(&mut header, 34, 16);
    put_i32_le(&mut header, 38, frames.len() as i32);
    header[42..42 + 8].copy_from_slice(b"observer");
    header[82..82 + 10].copy_from_slice(b"instrument");
    header[122..122 + 9].copy_from_slice(b"telescope");
    put_u64_le(&mut header, 162, 11111);
    put_u64_le(&mut header, 170, 22222);
    let mut data = header;
    for f in frames {
        assert_eq!(f.len(), width * height);
        for v in f {
            data.extend_from_slice(&v.to_le_bytes());
        }
    }
    if with_timestamps {
        for i in 0..frames.len() {
            data.extend_from_slice(&(1000u64 + i as u64).to_le_bytes());
        }
    }
    data
}

#[test]
fn test_open_round_trip_fields() {
    let frames = vec![vec![5u16; 6]; 2];
    let data = make_ser_16(3, 2, &frames, true);
    let ser = SerFile::load_ser("synthetic.ser", data).unwrap();
    assert_eq!(&ser.file_id, b"LUCAM-RECORDER");
    assert_eq!(ser.camera_series_id, 7);
    assert_eq!(ser.color_id, ColorFormatId::Mono);
    assert_eq!(ser.image_width, 3);
    assert_eq!(ser.image_height, 2);
    assert_eq!(ser.pixel_depth, 16);
    assert_eq!(ser.frame_count, 2);
    assert_eq!(&ser.observer[0..8], b"observer");
    assert_eq!(&ser.instrument[0..10], b"instrument");
    assert_eq!(&ser.telescope[0..9], b"telescope");
    assert_eq!(ser.date_time, 11111);
    assert_eq!(ser.date_time_utc, 22222);
    assert_eq!(ser.image_frame_size_bytes(), 3 * 2 * 2);
    assert!(ser.has_timestamps());
    assert!(ser.validate_ser().is_ok());
}

#[test]
fn test_validate_truncated_and_appended() {
    let frames = vec![vec![5u16; 6]; 2];
    let good = make_ser_16(3, 2, &frames, false);
    let ser = SerFile::load_ser("s.ser", good.clone()).unwrap();
    assert!(ser.validate_ser().is_ok());

    let mut short = good.clone();
    short.pop();
    let ser_short = SerFile::load_ser("s.ser", short).unwrap();
    match ser_short.validate_ser() {
        Err(SolhatError::SizeMismatch { actual, expected }) => {
            assert_eq!(actual, (good.len() - 1) as u64);
            // a one-byte-short frame block derives an expectation without any
            // timestamp trailer
            assert_eq!(expected, 178 + 2 * 12);
        }
        other => panic!("expected size mismatch, got {:?}", other),
    }

    let mut long = good.clone();
    long.push(0);
    let ser_long = SerFile::load_ser("s.ser", long).unwrap();
    assert!(ser_long.validate_ser().is_err());
}

#[test]
fn test_get_frame_16bit_exact_values() {
    let f0: Vec<u16> = vec![0, 1, 2, 3, 4, 5];
    let f1: Vec<u16> = vec![60000, 500, 400, 300, 200, 100];
    let data = make_ser_16(3, 2, &[f0.clone(), f1.clone()], false);
    let ser = SerFile::load_ser("s.ser", data).unwrap();
    for (i, f) in [f0, f1].iter().enumerate() {
        let frame = ser.get_ser_frame(i).unwrap();
        assert_eq!(frame.buffer.width, 3);
        assert_eq!(frame.buffer.height, 2);
        assert_eq!(frame.buffer.num_bands, 1);
        for y in 0..2 {
            for x in 0..3 {
                assert_eq!(frame.buffer.get(0, y, x), f[y * 3 + x] as u32);
            }
        }
        assert_eq!(frame.timestamp, 0);
    }
}

#[test]
fn test_get_frame_8bit_exact_values() {
    let mut header = vec![0u8; 178];
    header[0..3].copy_from_slice(b"SER");
    put_i32_le(&mut header, 22, 1);
    put_i32_le(&mut header, 18, 0);
    put_i32_le(&mut header, 26, 2);
    put_i32_le(&mut header, 30, 2);
    put_i32_le(&mut header, 34, 8);
    put_i32_le(&mut header, 38, 1);
    let mut data = header;
    data.extend_from_slice(&[9u8, 18, 27, 36]);
    let ser = SerFile::load_ser("b.ser", data).unwrap();
    assert!(ser.validate_ser().is_ok());
    let frame = ser.get_ser_frame(0).unwrap();
    assert_eq!(frame.buffer.get(0, 0, 0), 9);
    assert_eq!(frame.buffer.get(0, 0, 1), 18);
    assert_eq!(frame.buffer.get(0, 1, 0), 27);
    assert_eq!(frame.buffer.get(0, 1, 1), 36);
}

#[test]
fn test_big_endian_fields_and_samples() {
    let mut header = vec![0u8; 178];
    put_i32_le(&mut header, 22, 0); // zero flag selects big-endian
    put_i32_be(&mut header, 18, 0);
    put_i32_be(&mut header, 26, 1);
    put_i32_be(&mut header, 30, 1);
    put_i32_be(&mut header, 34, 16);
    put_i32_be(&mut header, 38, 1);
    let mut data = header;
    data.extend_from_slice(&1234u16.to_be_bytes());
    let ser = SerFile::load_ser("be.ser", data).unwrap();
    assert_eq!(ser.image_width, 1);
    assert_eq!(ser.pixel_depth, 16);
    let frame = ser.get_ser_frame(0).unwrap();
    assert_eq!(frame.buffer.get(0, 0, 0), 1234);
}

#[test]
fn test_declared_ten_sized_for_nine() {
    // container declares ten frames but carries bytes for only nine
    let frames: Vec<Vec<u16>> = (0..9).map(|i| vec![i as u16; 4]).collect();
    let mut data = make_ser_16(2, 2, &frames, false);
    put_i32_le(&mut data, 38, 10);
    let ser = SerFile::load_ser("nine.ser", data).unwrap();
    assert_eq!(ser.frame_count, 10);
    assert!(ser.validate_ser().is_err());
    // the ninth frame is complete, the tenth is attempted and fails
    assert!(ser.get_ser_frame(8).is_ok());
    match ser.get_ser_frame(9) {
        Err(SolhatError::TruncatedFrame { index }) => assert_eq!(index, 9),
        other => panic!("expected truncated frame, got {:?}", other),
    }
    match ser.get_ser_frame(10) {
        Err(SolhatError::FrameIndexOutOfRange { index, frame_count }) => {
            assert_eq!(index, 10);
            assert_eq!(frame_count, 10);
        }
        other => panic!("expected out of range, got {:?}", other),
    }
}

#[test]
fn test_frame_timestamps() {
    let frames = vec![vec![1u16; 4]; 3];
    let data = make_ser_16(2, 2, &frames, true);
    let ser = SerFile::load_ser("ts.ser", data).unwrap();
    assert!(ser.validate_ser().is_ok());
    assert_eq!(ser.get_ser_frame_timestamp(0).unwrap(), 1000);
    assert_eq!(ser.get_ser_frame_timestamp(2).unwrap(), 1002);
    assert_eq!(ser.get_ser_frame(1).unwrap().timestamp, 1001);
    let no_ts = make_ser_16(2, 2, &frames, false);
    let ser2 = SerFile::load_ser("nots.ser", no_ts).unwrap();
    assert_eq!(ser2.get_ser_frame_timestamp(1).unwrap(), 0);
}

#[test]
fn test_header_too_short_and_bad_geometry() {
    match SerFile::load_ser("tiny.ser", vec![0u8; 10]) {
        Err(SolhatError::HeaderTooShort { actual }) => assert_eq!(actual, 10),
        other => panic!("expected header too short, got {:?}", other),
    }
    let mut header = vec![0u8; 178];
    put_i32_le(&mut header, 22, 1);
    put_i32_le(&mut header, 26, -5);
    match SerFile::load_ser("neg.ser", header) {
        Err(SolhatError::CorruptHeader) => {}
        other => panic!("expected corrupt header, got {:?}", other),
    }
    let mut header2 = vec![0u8; 178];
    put_i32_le(&mut header2, 22, 1);
    put_i32_le(&mut header2, 26, 1);
    put_i32_le(&mut header2, 30, 1);
    put_i32_le(&mut header2, 34, 16);
    put_i32_le(&mut header2, 38, 0);
    put_i32_le(&mut header2, 18, 42); // unknown color id
    match SerFile::load_ser("col.ser", header2) {
        Err(SolhatError::UnsupportedColorFormat) => {}
        other => panic!("expected unsupported color, got {:?}", other),
    }
}
