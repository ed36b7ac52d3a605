use solhat::hotpixel::HotPixelMap;
use solhat::hotpixel::create_hotpixel_mask;
use solhat::hotpixel::replace_hot_pixels;
use solhat::image::Image;

#[test]
fn test_mask_rasterizes_pairs_and_skips_malformed() {
    let map = HotPixelMap {
        hotpixels: vec![vec![1, 0], vec![3], vec![2, 1, 7], vec![0, 1], vec![9, 9]],
        sensor_width: 3,
        sensor_height: 2,
    };
    let mask = create_hotpixel_mask(&map).unwrap();
    assert_eq!(mask.width, 3);
    assert_eq!(mask.height, 2);
    assert_eq!(mask.get(0, 0, 1), 255);
    assert_eq!(mask.get(0, 1, 0), 255);
    // the one-element and three-element entries and the out-of-range pair are skipped
    assert_eq!(mask.get(0, 0, 0), 0);
    assert_eq!(mask.get(0, 0, 2), 0);
    assert_eq!(mask.get(0, 1, 1), 0);
}

#[test]
fn test_replace_patches_with_neighbor_mean() {
    let frame = Image::from_vec_single_band(vec![10, 20, 30, 40, 999, 60, 70, 80, 90], 3, 3);
    let map = HotPixelMap {
        hotpixels: vec![vec![1, 1]],
        sensor_width: 3,
        sensor_height: 2,
    };
    // a 3x3 mask matching the frame
    let map = HotPixelMap { sensor_height: 3, ..map };
    let mask = create_hotpixel_mask(&map).unwrap();
    let out = replace_hot_pixels(&frame, &mask);
    // neighbors of the center: 20 above, 80 below, 40 left, 60 right
    assert_eq!(out.get(0, 1, 1), 50);
    // unmasked pixels keep their values; the input is untouched
    assert_eq!(out.get(0, 0, 0), 10);
    assert_eq!(frame.get(0, 1, 1), 999);
}
