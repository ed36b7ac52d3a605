use solhat::anaysis::frame_sigma_analysis;
use solhat::calibrationframe::CalibrationImage;
use solhat::context::ProcessContext;
use solhat::context::ProcessParameters;
use solhat::drizzle::Scale;
use solhat::drizzle::StackAlgorithm;
use solhat::limiting::frame_limit_determinate;
use solhat::offsetting::frame_offset_analysis;
use solhat::rotation::frame_rotation_analysis;
use solhat::ser::SerFile;
use solhat::target::Target;
use solhat::target::TargetPosition;

fn put_i32_le(buf: &mut [u8], off: usize, v: i32) {
    buf[off..off + 4].copy_from_slice(&v.to_le_bytes());
}

fn make_ser_16(width: usize, height: usize, frames: &[Vec<u16>]) -> Vec<u8> {
    let mut header = vec![0u8; 178];
    header[0..14].copy_from_slice(b"LUCAM-RECORDER");
    put_i32_le(&mut header, 22, 1);
    put_i32_le(&mut header, 18, 0);
    put_i32_le(&mut header, 26, width as i32);
    put_i32_le(&mut header, 30, height as i32);
    put_i32_le(&mut header, 34, 16);
    put_i32_le(&mut header, 38, frames.len() as i32);
    let mut data = header;
    for f in frames {
        for v in f {
            data.extend_from_slice(&v.to_le_bytes());
        }
    }
    data
}

fn make_context(frames: &[Vec<u16>], w: usize, h: usize, threshold: u32) -> ProcessContext<SerFile> {
    let data = make_ser_16(w, h, frames);
    let ser = SerFile::load_ser("a.ser", data).unwrap();
    let p = ProcessParameters {
        input_files: vec![String::from("a.ser")],
        obj_detection_threshold: threshold,
        obs_latitude: 0,
        obs_longitude: 0,
        target: Target::Sun,
        crop_width: None,
        crop_height: None,
        max_frames: None,
        min_sigma: None,
        max_sigma: None,
        top_percentage: None,
        drizzle_scale: Scale::Scale1_0,
        algorithm: StackAlgorithm::Average,
        initial_rotation: 45_000_000,
        horiz_offset: 0,
        vert_offset: 0,
        flat_inputs: None,
        dark_inputs: None,
        darkflat_inputs: None,
        bias_inputs: None,
        hot_pixel_map: None,
    };
    ProcessContext::create_with_calibration_frames(
        p,
        CalibrationImage::new_empty(),
        CalibrationImage::new_empty(),
        CalibrationImage::new_empty(),
        CalibrationImage::new_empty(),
        vec![ser],
    )
    .unwrap()
}

#[test]
fn test_sigma_zero_on_uniform_and_positive_on_contrast() {
    // one flat frame and one checkered frame
    let flat = vec![500u16; 16];
    let mut checker = vec![0u16; 16];
    for i in 0..16 {
        if i % 2 == 0 {
            checker[i] = 1000;
        }
    }
    let ctx = make_context(&[flat, checker], 4, 4, 0);
    let out = frame_sigma_analysis(&ctx).unwrap();
    assert_eq!(out.len(), 2);
    assert_eq!(out[0].sigma, 0);
    assert!(out[1].sigma > 0);
}

#[test]
fn test_sigma_feeds_frame_limiting() {
    let flat = vec![500u16; 16];
    let mut checker = vec![0u16; 16];
    for i in 0..16 {
        if i % 2 == 0 {
            checker[i] = 1000;
        }
    }
    let mut ctx = make_context(&[flat, checker], 4, 4, 0);
    ctx.frame_records = frame_sigma_analysis(&ctx).unwrap();
    ctx.parameters.min_sigma = Some(1);
    let kept = frame_limit_determinate(&ctx).unwrap();
    assert_eq!(kept.len(), 1);
    assert_eq!(kept[0].frame_id, 1);
}

#[test]
fn test_offset_analysis_centers_bright_region() {
    // a single bright pixel in the top-left corner of a five-wide frame
    let mut f = vec![0u16; 25];
    f[0] = 60000;
    let ctx = make_context(&[f], 5, 5, 1000);
    let out = frame_offset_analysis(&ctx).unwrap();
    // center of mass is (0, 0); the offset points from it to the frame center
    assert_eq!(out[0].offset.h, 2 * 65536);
    assert_eq!(out[0].offset.v, 2 * 65536);
}

#[test]
fn test_offset_analysis_zero_when_centered() {
    let mut f = vec![0u16; 25];
    f[12] = 60000; // exact center of a five-by-five frame
    let ctx = make_context(&[f], 5, 5, 1000);
    let out = frame_offset_analysis(&ctx).unwrap();
    assert_eq!(out[0].offset.h, 0);
    assert_eq!(out[0].offset.v, 0);
}

#[test]
fn test_rotation_analysis_subtracts_parallactic_angle() {
    let f = vec![0u16; 16];
    let ctx = make_context(&[f.clone(), f], 4, 4, 0);
    let positions = vec![
        TargetPosition { rotation: 10_000_000, altitude: 0, azimuth: 0 },
        TargetPosition { rotation: -5_000_000, altitude: 0, azimuth: 0 },
    ];
    let out = frame_rotation_analysis(&ctx, &positions).unwrap();
    assert_eq!(out[0].computed_rotation, 35_000_000);
    assert_eq!(out[1].computed_rotation, 50_000_000);
}
