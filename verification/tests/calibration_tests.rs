use solhat::calibrationframe::CalibrationImage;
use solhat::calibrationframe::ComputeMethod;
use solhat::image::Image;
use solhat::mean::compute_mean;
use solhat::median::compute_mean as compute_median;
use solhat::ser::SerFile;

fn put_i32_le(buf: &mut [u8], off: usize, v: i32) {
    buf[off..off + 4].copy_from_slice(&v.to_le_bytes());
}

fn make_ser_16(width: usize, height: usize, frames: &[Vec<u16>]) -> Vec<u8> {
    let mut header = vec![0u8; 178];
    header[0..14].copy_from_slice(b"LUCAM-RECORDER");
    put_i32_le(&mut header, 22, 1);
    put_i32_le(&mut header, 18, 0);
    put_i32_le(&mut header, 26, width as i32);
    put_i32_le(&mut header, 30, height as i32);
    put_i32_le(&mut header, 34, 16);
    put_i32_le(&mut header, 38, frames.len() as i32);
    let mut data = header;
    for f in frames {
        for v in f {
            data.extend_from_slice(&v.to_le_bytes());
        }
    }
    data
}

#[test]
fn test_mean_stack_exact_values() {
    let frames = vec![vec![10u16, 20, 30, 40], vec![30u16, 40, 50, 61]];
    let data = make_ser_16(2, 2, &frames);
    let ser = SerFile::load_ser("m.ser", data).unwrap();
    let img = compute_mean(&ser).unwrap();
    assert_eq!(img.get(0, 0, 0), 20);
    assert_eq!(img.get(0, 0, 1), 30);
    assert_eq!(img.get(0, 1, 0), 40);
    // the mean rounds down: (40 + 61) / 2
    assert_eq!(img.get(0, 1, 1), 50);
}

#[test]
fn test_median_stack_exact_values() {
    let frames = vec![vec![10u16], vec![90u16], vec![20u16]];
    let data = make_ser_16(1, 1, &frames);
    let ser = SerFile::load_ser("md.ser", data).unwrap();
    let img = compute_median(&ser).unwrap();
    assert_eq!(img.get(0, 0, 0), 20);
}

#[test]
fn test_median_stack_even_count_takes_middle_element() {
    // the calibration reducer takes the sorted middle element, unlike the
    // stacking median which averages the two middles
    let frames = vec![vec![100u16], vec![300u16]];
    let data = make_ser_16(1, 1, &frames);
    let ser = SerFile::load_ser("md2.ser", data).unwrap();
    let img = compute_median(&ser).unwrap();
    assert_eq!(img.get(0, 0, 0), 300);
}

#[test]
fn test_empty_source_yields_error() {
    let data = make_ser_16(2, 2, &[]);
    let ser = SerFile::load_ser("e.ser", data).unwrap();
    assert!(compute_mean(&ser).is_err());
    assert!(compute_median(&ser).is_err());
}

#[test]
fn test_calibration_builders() {
    let empty = CalibrationImage::new_empty();
    assert!(empty.image.is_none());

    let frames = vec![vec![100u16, 200, 300, 400]];
    let data = make_ser_16(2, 2, &frames);
    let ser = SerFile::load_ser("c.ser", data).unwrap();
    let mean_cal = CalibrationImage::new_from_ser(&ser, ComputeMethod::Mean).unwrap();
    assert_eq!(mean_cal.image.as_ref().unwrap().get(0, 0, 1), 200);
    let med_cal = CalibrationImage::new_from_ser(&ser, ComputeMethod::Median).unwrap();
    assert_eq!(med_cal.image.as_ref().unwrap().get(0, 1, 0), 300);

    let black = CalibrationImage::new_black(2, 2, 1).unwrap();
    assert_eq!(black.image.as_ref().unwrap().get(0, 0, 0), 0);

    let base = Image::from_vec_single_band(vec![10, 20, 30, 40], 2, 2);
    let flat_mean = CalibrationImage::new_as_mean_of_image(&base).unwrap();
    // the mean of the first band fills every cell
    assert_eq!(flat_mean.image.as_ref().unwrap().get(0, 1, 1), 25);
}
