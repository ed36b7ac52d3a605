use solhat::drizzle::AverageStackBuffer;
use solhat::drizzle::BilinearDrizzle;
use solhat::drizzle::MedianStackBuffer;
use solhat::drizzle::MinimumStackBuffer;
use solhat::drizzle::Offset;
use solhat::drizzle::RotationTrig;
use solhat::drizzle::Scale;
use solhat::drizzle::StackAlgorithm;
use solhat::drizzle::StackAlgorithmImpl;
use solhat::error::SolhatError;
use solhat::image::Image;

#[test]
fn test_scale_parsing_and_value() {
    assert_eq!(Scale::from("1.0").unwrap(), Scale::Scale1_0);
    assert_eq!(Scale::from("1.5").unwrap(), Scale::Scale1_5);
    assert_eq!(Scale::from("2.0").unwrap(), Scale::Scale2_0);
    assert_eq!(Scale::from("3.0").unwrap(), Scale::Scale3_0);
    match Scale::from("2.5") {
        Err(SolhatError::InvalidDrizzleScale) => {}
        other => panic!("expected invalid scale, got {:?}", other),
    }
    assert_eq!(Scale::Scale1_5.value(), 150);
}

#[test]
fn test_allow_parallel() {
    assert!(StackAlgorithm::Average.allow_parallel());
    assert!(StackAlgorithm::Minimum.allow_parallel());
    assert!(!StackAlgorithm::Median.allow_parallel());
}

#[test]
fn test_average_accumulates_and_finalizes() {
    let mut a = AverageStackBuffer::new(2, 2, 1);
    a.put(0, 0, &[100, 0, 0]);
    a.put(0, 0, &[300, 0, 0]);
    a.put(1, 1, &[7, 0, 0]);
    let img = a.get_finalized();
    assert_eq!(img.get(0, 0, 0), 200);
    assert_eq!(img.get(0, 1, 1), 7);
    // a cell nothing reached stays zero
    assert_eq!(img.get(0, 0, 1), 0);
}

#[test]
fn test_average_merge_order_independent() {
    // accumulate four values in two chunks, merged in both orders
    let mut left = AverageStackBuffer::new(1, 1, 1);
    left.put(0, 0, &[10, 0, 0]);
    left.put(0, 0, &[20, 0, 0]);
    let mut right = AverageStackBuffer::new(1, 1, 1);
    right.put(0, 0, &[30, 0, 0]);
    right.put(0, 0, &[100, 0, 0]);

    let mut ab = AverageStackBuffer::new(1, 1, 1);
    ab.put(0, 0, &[10, 0, 0]);
    ab.put(0, 0, &[20, 0, 0]);
    ab.add_other(&right);

    let mut ba = AverageStackBuffer::new(1, 1, 1);
    ba.put(0, 0, &[30, 0, 0]);
    ba.put(0, 0, &[100, 0, 0]);
    ba.add_other(&left);

    let mut single = AverageStackBuffer::new(1, 1, 1);
    for v in [10u32, 20, 30, 100] {
        single.put(0, 0, &[v, 0, 0]);
    }
    let e1 = ab.get_finalized().get(0, 0, 0);
    let e2 = ba.get_finalized().get(0, 0, 0);
    let e3 = single.get_finalized().get(0, 0, 0);
    assert_eq!(e1, 40);
    assert_eq!(e2, 40);
    assert_eq!(e3, 40);
}

#[test]
fn test_minimum_tracks_least_positive() {
    let mut m = MinimumStackBuffer::new(1, 1, 1);
    m.put(0, 0, &[300, 0, 0]);
    m.put(0, 0, &[100, 0, 0]);
    m.put(0, 0, &[200, 0, 0]);
    let img = m.get_finalized();
    // the result is no larger than any contribution
    assert_eq!(img.get(0, 0, 0), 100);
}

#[test]
fn test_minimum_bootstraps_from_nonzero() {
    let mut m = MinimumStackBuffer::new(1, 1, 1);
    m.put(0, 0, &[0, 0, 0]);
    m.put(0, 0, &[5, 0, 0]);
    // the zero state means "nothing yet", so the five seeds the cell
    assert_eq!(m.get(0, 0, 0), 5);
    // and a later zero contribution never clears a seeded cell
    m.put(0, 0, &[0, 0, 0]);
    assert_eq!(m.get(0, 0, 0), 5);
    m.put(0, 0, &[7, 0, 0]);
    assert_eq!(m.get(0, 0, 0), 5);
}

#[test]
fn test_minimum_merge_commutes_against_unseeded() {
    let mut seeded = MinimumStackBuffer::new(1, 1, 1);
    seeded.put(0, 0, &[5, 0, 0]);
    let fresh = MinimumStackBuffer::new(1, 1, 1);
    // merging with a fresh accumulator keeps the seeded value either way
    let mut a = MinimumStackBuffer::new(1, 1, 1);
    a.put(0, 0, &[5, 0, 0]);
    a.add_other(&fresh);
    assert_eq!(a.get(0, 0, 0), 5);
    let mut b = MinimumStackBuffer::new(1, 1, 1);
    b.add_other(&seeded);
    assert_eq!(b.get(0, 0, 0), 5);
}

#[test]
fn test_median_even_length_takes_mean_of_middles() {
    let mut m = MedianStackBuffer::new(1, 1, 1);
    m.put(0, 0, &[100, 0, 0]);
    m.put(0, 0, &[300, 0, 0]);
    assert_eq!(m.get(0, 0, 0), 200);
    m.put(0, 0, &[250, 0, 0]);
    // odd length: the middle element
    assert_eq!(m.get(0, 0, 0), 250);
    m.put(0, 0, &[260, 0, 0]);
    // sorted 100 250 260 300: mean of the middles rounds down
    assert_eq!(m.get(0, 0, 0), 255);
}

#[test]
fn test_finalize_with_no_frames_is_an_error() {
    let buffer = StackAlgorithmImpl::new_for(StackAlgorithm::Average, 2, 2, 1);
    let d = BilinearDrizzle::new(2, 2, Scale::Scale1_0, 0, 0, buffer);
    match d.get_finalized() {
        Err(SolhatError::NoFramesAdded) => {}
        other => panic!("expected no-frames error, got {:?}", other),
    }
}

#[test]
fn test_drizzle_identity_transform_preserves_frame() {
    let values: Vec<u32> = vec![10, 20, 30, 40, 50, 60, 70, 80, 90];
    let frame = Image::from_vec_single_band(values.clone(), 3, 3);
    let buffer = StackAlgorithmImpl::new_for(StackAlgorithm::Average, 3, 3, 1);
    let mut d = BilinearDrizzle::new(3, 3, Scale::Scale1_0, 0, 0, buffer);
    d.add_with_transform(&frame, &Offset { h: 0, v: 0 }, &RotationTrig::identity())
        .unwrap();
    let img = d.get_finalized().unwrap();
    for y in 0..3 {
        for x in 0..3 {
            assert_eq!(img.get(0, y, x), values[y * 3 + x]);
        }
    }
}

#[test]
fn test_drizzle_output_shift_skips_pixels() {
    let values: Vec<u32> = vec![10, 20, 30, 40];
    let frame = Image::from_vec_single_band(values, 2, 2);
    let buffer = StackAlgorithmImpl::new_for(StackAlgorithm::Average, 2, 2, 1);
    let mut d = BilinearDrizzle::new(2, 2, Scale::Scale1_0, 1, 0, buffer);
    d.add_with_transform(&frame, &Offset { h: 0, v: 0 }, &RotationTrig::identity())
        .unwrap();
    let img = d.get_finalized().unwrap();
    // the right column's shifted position leaves the grid: contributes nothing
    assert_eq!(img.get(0, 0, 1), 0);
    assert_eq!(img.get(0, 0, 0), 10);
}

#[test]
fn test_drizzle_merge_dimension_and_kind_checks() {
    let b1 = StackAlgorithmImpl::new_for(StackAlgorithm::Average, 2, 2, 1);
    let mut d1 = BilinearDrizzle::new(2, 2, Scale::Scale1_0, 0, 0, b1);
    let b2 = StackAlgorithmImpl::new_for(StackAlgorithm::Average, 3, 3, 1);
    let d2 = BilinearDrizzle::new(3, 3, Scale::Scale1_0, 0, 0, b2);
    match d1.add_drizzle(&d2) {
        Err(SolhatError::DimensionMismatch) => {}
        other => panic!("expected dimension mismatch, got {:?}", other),
    }
    let b3 = StackAlgorithmImpl::new_for(StackAlgorithm::Median, 2, 2, 1);
    let d3 = BilinearDrizzle::new(2, 2, Scale::Scale1_0, 0, 0, b3);
    match d1.add_drizzle(&d3) {
        Err(SolhatError::AlgorithmMismatch) => {}
        other => panic!("expected algorithm mismatch, got {:?}", other),
    }
}

#[test]
fn test_drizzle_upscale_doubles_grid() {
    let buffer = StackAlgorithmImpl::new_for(StackAlgorithm::Average, 4, 4, 1);
    let d = BilinearDrizzle::new(2, 2, Scale::Scale2_0, 0, 0, buffer);
    assert_eq!(d.out_width, 4);
    assert_eq!(d.out_height, 4);
}

#[test]
fn test_drizzle_fractional_offset_blends_neighbors() {
    // a half-pixel translation blends adjacent samples
    let frame = Image::from_vec_single_band(vec![100, 300], 2, 1);
    let buffer = StackAlgorithmImpl::new_for(StackAlgorithm::Average, 2, 1, 1);
    let mut d = BilinearDrizzle::new(2, 1, Scale::Scale1_0, 0, 0, buffer);
    d.add_with_transform(&frame, &Offset { h: -32768, v: 0 }, &RotationTrig::identity())
        .unwrap();
    let img = d.get_finalized().unwrap();
    assert_eq!(img.get(0, 0, 0), 200);
    // the second pixel maps past the last sample and contributes zero
    assert_eq!(img.get(0, 0, 1), 0);
}

#[test]
fn test_drizzle_monochrome_replicates_into_three_bands() {
    let frame = Image::from_vec_single_band(vec![77, 88, 99, 110], 2, 2);
    let buffer = StackAlgorithmImpl::new_for(StackAlgorithm::Average, 2, 2, 3);
    let mut d = BilinearDrizzle::new(2, 2, Scale::Scale1_0, 0, 0, buffer);
    d.add_with_transform(&frame, &Offset { h: 0, v: 0 }, &RotationTrig::identity())
        .unwrap();
    let img = d.get_finalized().unwrap();
    assert_eq!(img.num_bands, 3);
    for b in 0..3 {
        assert_eq!(img.get(b, 0, 0), 77);
        assert_eq!(img.get(b, 1, 1), 110);
    }
}
