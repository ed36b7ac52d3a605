use solhat::calibrationframe::CalibrationImage;
use solhat::context::ProcessContext;
use solhat::context::ProcessParameters;
use solhat::drizzle::RotationTrig;
use solhat::drizzle::Scale;
use solhat::drizzle::StackAlgorithm;
use solhat::error::SolhatError;
use solhat::ser::SerFile;
use solhat::stacking::process_frame_stacking;
use solhat::drizzle::Offset;
use solhat::image::Image;
use solhat::stacking::stack_frames;
use solhat::stacking::stack_frames_chunked;
use solhat::target::Target;

fn put_i32_le(buf: &mut [u8], off: usize, v: i32) {
    buf[off..off + 4].copy_from_slice(&v.to_le_bytes());
}

/// A little-endian 16-bit monochrome container.
fn make_ser_16(width: usize, height: usize, frames: &[Vec<u16>]) -> Vec<u8> {
    let mut header = vec![0u8; 178];
    header[0..14].copy_from_slice(b"LUCAM-RECORDER");
    put_i32_le(&mut header, 22, 1);
    put_i32_le(&mut header, 18, 0);
    put_i32_le(&mut header, 26, width as i32);
    put_i32_le(&mut header, 30, height as i32);
    put_i32_le(&mut header, 34, 16);
    put_i32_le(&mut header, 38, frames.len() as i32);
    let mut data = header;
    for f in frames {
        for v in f {
            data.extend_from_slice(&v.to_le_bytes());
        }
    }
    data
}

fn params(algorithm: StackAlgorithm) -> ProcessParameters {
    ProcessParameters {
        input_files: vec![String::from("two.ser")],
        obj_detection_threshold: 0,
        obs_latitude: 0,
        obs_longitude: 0,
        target: Target::NoTarget,
        crop_width: None,
        crop_height: None,
        max_frames: None,
        min_sigma: None,
        max_sigma: None,
        top_percentage: None,
        drizzle_scale: Scale::Scale1_0,
        algorithm,
        initial_rotation: 0,
        horiz_offset: 0,
        vert_offset: 0,
        flat_inputs: None,
        dark_inputs: None,
        darkflat_inputs: None,
        bias_inputs: None,
        hot_pixel_map: None,
    }
}

fn run_two_frame_stack(algorithm: StackAlgorithm) -> solhat::image::Image {
    let frames = vec![vec![100u16; 16], vec![300u16; 16]];
    let data = make_ser_16(4, 4, &frames);
    let ser = SerFile::load_ser("two.ser", data).unwrap();
    let context = ProcessContext::create_with_calibration_frames(
        params(algorithm),
        CalibrationImage::new_empty(),
        CalibrationImage::new_empty(),
        CalibrationImage::new_empty(),
        CalibrationImage::new_empty(),
        vec![ser],
    )
    .unwrap();
    assert_eq!(context.frame_records.len(), 2);
    let trigs = vec![RotationTrig::identity(); 2];
    process_frame_stacking(&context, &trigs).unwrap()
}

#[test]
fn test_two_frame_average_is_uniform_two_hundred() {
    let img = run_two_frame_stack(StackAlgorithm::Average);
    assert_eq!(img.width, 4);
    assert_eq!(img.height, 4);
    for y in 0..4 {
        for x in 0..4 {
            assert_eq!(img.get(0, y, x), 200);
        }
    }
}

#[test]
fn test_two_frame_minimum_is_uniform_one_hundred() {
    let img = run_two_frame_stack(StackAlgorithm::Minimum);
    for y in 0..4 {
        for x in 0..4 {
            assert_eq!(img.get(0, y, x), 100);
        }
    }
}

#[test]
fn test_two_frame_median_is_uniform_two_hundred() {
    let img = run_two_frame_stack(StackAlgorithm::Median);
    for y in 0..4 {
        for x in 0..4 {
            assert_eq!(img.get(0, y, x), 200);
        }
    }
}

#[test]
fn test_stacking_with_no_records_fails() {
    let context: ProcessContext<SerFile> = ProcessContext::create_with_calibration_frames(
        params(StackAlgorithm::Average),
        CalibrationImage::new_empty(),
        CalibrationImage::new_empty(),
        CalibrationImage::new_empty(),
        CalibrationImage::new_empty(),
        vec![],
    )
    .unwrap();
    let trigs: Vec<RotationTrig> = vec![];
    match process_frame_stacking(&context, &trigs) {
        Err(SolhatError::NoFramesToStack) => {}
        other => panic!("expected no frames to stack, got {:?}", other),
    }
}

#[test]
fn test_duplicate_source_is_rejected() {
    // the same physical bytes under two path strings collapse to one entry
    let frames = vec![vec![1u16; 16]];
    let data = make_ser_16(4, 4, &frames);
    let a = SerFile::load_ser("same.ser", data.clone()).unwrap();
    let b = SerFile::load_ser("copy-of-same.ser", data).unwrap();
    match ProcessContext::create_with_calibration_frames(
        params(StackAlgorithm::Average),
        CalibrationImage::new_empty(),
        CalibrationImage::new_empty(),
        CalibrationImage::new_empty(),
        CalibrationImage::new_empty(),
        vec![a, b],
    ) {
        Err(SolhatError::DuplicateSource) => {}
        Ok(_) => panic!("expected duplicate source rejection"),
        Err(other) => panic!("expected duplicate source, got {:?}", other),
    }
}

#[test]
fn test_max_frames_caps_records() {
    let frames: Vec<Vec<u16>> = (0..5).map(|i| vec![i as u16; 16]).collect();
    let data = make_ser_16(4, 4, &frames);
    let ser = SerFile::load_ser("five.ser", data).unwrap();
    let mut p = params(StackAlgorithm::Average);
    p.max_frames = Some(3);
    let context = ProcessContext::create_with_calibration_frames(
        p,
        CalibrationImage::new_empty(),
        CalibrationImage::new_empty(),
        CalibrationImage::new_empty(),
        CalibrationImage::new_empty(),
        vec![ser],
    )
    .unwrap();
    assert_eq!(context.frame_records.len(), 3);
    assert_eq!(context.frame_records[2].frame_id, 2);
}

#[test]
fn test_chunked_and_linear_stacks_agree() {
    let frames: Vec<Image> = vec![
        Image::from_vec_single_band(vec![10, 20, 30, 40], 2, 2),
        Image::from_vec_single_band(vec![50, 60, 70, 80], 2, 2),
        Image::from_vec_single_band(vec![90, 11, 12, 13], 2, 2),
        Image::from_vec_single_band(vec![14, 15, 16, 17], 2, 2),
        Image::from_vec_single_band(vec![18, 19, 21, 22], 2, 2),
    ];
    let offsets = vec![Offset { h: 0, v: 0 }; 5];
    let trigs = vec![RotationTrig::identity(); 5];
    for alg in [StackAlgorithm::Average, StackAlgorithm::Minimum, StackAlgorithm::Median] {
        let linear = stack_frames(
            &frames, &offsets, &trigs, alg, 2, 2, Scale::Scale1_0, 0, 0, 1,
        )
        .unwrap();
        // every chunking of the frame list merges to the same result
        for chunk in [1usize, 2, 3, 5, 7] {
            let chunked = stack_frames_chunked(
                &frames, &offsets, &trigs, alg, 2, 2, Scale::Scale1_0, 0, 0, 1, chunk,
            )
            .unwrap();
            for y in 0..2 {
                for x in 0..2 {
                    assert_eq!(chunked.get(0, y, x), linear.get(0, y, x));
                }
            }
        }
    }
}

#[test]
fn test_minimum_stack_bounded_by_every_frame() {
    let frames: Vec<Image> = vec![
        Image::from_vec_single_band(vec![310, 20, 35, 44], 2, 2),
        Image::from_vec_single_band(vec![50, 60, 70, 80], 2, 2),
        Image::from_vec_single_band(vec![90, 11, 120, 130], 2, 2),
    ];
    let offsets = vec![Offset { h: 0, v: 0 }; 3];
    let trigs = vec![RotationTrig::identity(); 3];
    let img = stack_frames(
        &frames, &offsets, &trigs, StackAlgorithm::Minimum, 2, 2, Scale::Scale1_0, 0, 0, 1,
    )
    .unwrap();
    for y in 0..2 {
        for x in 0..2 {
            for f in &frames {
                assert!(img.get(0, y, x) <= f.get(0, y, x));
            }
        }
    }
    assert_eq!(img.get(0, 0, 0), 50);
    assert_eq!(img.get(0, 0, 1), 11);
}
