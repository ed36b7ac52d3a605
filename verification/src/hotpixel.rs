//! Hot-pixel correction: a declarative defect map (coordinate pairs plus the
//! expected sensor geometry) is rasterized once into a binary mask, and
//! flagged pixels are patched with a neighborhood-interpolated value. The
//! input buffer is never mutated in place.

use vstd::prelude::*;

use crate::error::SolhatError;
use crate::image::Image;
use crate::image::MAX_DIM;
use crate::image::MAX_SAMPLE;

verus! {

/// A declarative defect list: pixel coordinate pairs and the sensor geometry
/// they refer to. Entries that are not two-element pairs, or that fall outside
/// the sensor, are skipped rather than fatal.
#[derive(Debug, Clone)]
pub struct HotPixelMap {
    pub hotpixels: Vec<Vec<usize>>,
    pub sensor_width: usize,
    pub sensor_height: usize,
}

/// Entry `i` is a usable defect: a two-element pair inside the sensor.
pub open spec fn spec_entry_valid(m: &HotPixelMap, i: int) -> bool {
    &&& m.hotpixels@[i]@.len() == 2
    &&& m.hotpixels@[i]@[0] < m.sensor_width
    &&& m.hotpixels@[i]@[1] < m.sensor_height
}

/// Some usable defect names this pixel.
pub open spec fn spec_is_hot(m: &HotPixelMap, x: int, y: int) -> bool {
    exists|i: int|
        0 <= i < m.hotpixels@.len() && #[trigger] spec_entry_valid(m, i) && m.hotpixels@[i]@[0]
            == x && m.hotpixels@[i]@[1] == y
}

/// Rasterize the defect list into a binary mask: the listed pixels carry 255,
/// everything else zero.
#[verifier::loop_isolation(false)]
pub fn create_hotpixel_mask(map: &HotPixelMap) -> (r: Result<Image, SolhatError>)
    requires
        1 <= map.sensor_width <= MAX_DIM,
        1 <= map.sensor_height <= MAX_DIM,
    ensures
        r is Ok,
        ({
            let mask = r->Ok_0;
            &&& mask.wf()
            &&& mask.spec_width() == map.sensor_width
            &&& mask.spec_height() == map.sensor_height
            &&& mask.spec_num_bands() == 1
            &&& forall|y: int, x: int|
                0 <= y < map.sensor_height && 0 <= x < map.sensor_width
                    ==> #[trigger] mask.spec_get(0, y, x) == (if spec_is_hot(map, x, y) {
                    255u32
                } else {
                    0u32
                })
        }),
{
    let w = map.sensor_width;
    let h = map.sensor_height;
    let mut mask = Image::new_with_bands(w, h, 1);
    let n = map.hotpixels.len();
    let mut i: usize = 0;
    while i < n
        invariant
            i <= n,
            n == map.hotpixels@.len(),
            mask.wf(),
            mask.spec_width() == w,
            mask.spec_height() == h,
            mask.spec_num_bands() == 1,
            forall|y: int, x: int|
                0 <= y < h && 0 <= x < w ==> #[trigger] mask.spec_get(0, y, x) == (if exists|j: int|
                    0 <= j < i && #[trigger] spec_entry_valid(map, j) && map.hotpixels@[j]@[0] == x
                        && map.hotpixels@[j]@[1] == y {
                    255u32
                } else {
                    0u32
                }),
        decreases n - i,
    {
        let entry = &map.hotpixels[i];
        if entry.len() == 2 {
            let x = entry[0];
            let y = entry[1];
            if x < w && y < h {
                mask.put(0, y, x, 255);
                proof {
                    assert(spec_entry_valid(map, i as int));
                }
            }
        }
        proof {
            assert forall|y: int, x: int| 0 <= y < h && 0 <= x < w implies #[trigger] mask.spec_get(
                0,
                y,
                x,
            ) == (if exists|j: int|
                0 <= j < i + 1 && #[trigger] spec_entry_valid(map, j) && map.hotpixels@[j]@[0] == x
                    && map.hotpixels@[j]@[1] == y {
                255u32
            } else {
                0u32
            }) by {
                if exists|j: int|
                    0 <= j < i && #[trigger] spec_entry_valid(map, j) && map.hotpixels@[j]@[0] == x
                        && map.hotpixels@[j]@[1] == y {
                }
            }
        }
        i += 1;
    }
    Ok(mask)
}

/// The value a flagged pixel is patched with: the mean of its in-bounds
/// four-neighborhood in the original buffer; zero when it has no neighbor.
pub open spec fn spec_inpaint(img: &Image, b: int, y: int, x: int) -> int {
    let left = if x > 0 {
        img.spec_get(b, y, x - 1) as int
    } else {
        0
    };
    let right = if x + 1 < img.width {
        img.spec_get(b, y, x + 1) as int
    } else {
        0
    };
    let above = if y > 0 {
        img.spec_get(b, y - 1, x) as int
    } else {
        0
    };
    let below = if y + 1 < img.height {
        img.spec_get(b, y + 1, x) as int
    } else {
        0
    };
    let count = (if x > 0 {
        1int
    } else {
        0int
    }) + (if x + 1 < img.width {
        1int
    } else {
        0int
    }) + (if y > 0 {
        1int
    } else {
        0int
    }) + (if y + 1 < img.height {
        1int
    } else {
        0int
    });
    if count > 0 {
        (left + right + above + below) / count
    } else {
        0
    }
}

/// A new buffer with every masked pixel replaced by its neighborhood
/// interpolation; unmasked pixels keep their value, the input is untouched.
#[verifier::loop_isolation(false)]
pub fn replace_hot_pixels(image: &Image, mask: &Image) -> (r: Image)
    requires
        image.wf(),
        mask.wf(),
        mask.spec_num_bands() == 1,
        mask.spec_width() == image.spec_width(),
        mask.spec_height() == image.spec_height(),
    ensures
        r.wf(),
        r.spec_width() == image.spec_width(),
        r.spec_height() == image.spec_height(),
        r.spec_num_bands() == image.spec_num_bands(),
        forall|b: int, y: int, x: int|
            0 <= b < image.spec_num_bands() && 0 <= y < image.spec_height() && 0 <= x
                < image.spec_width() ==> #[trigger] r.spec_get(b, y, x) as int == (
            if mask.spec_get(0, y, x) > 0 {
                spec_inpaint(image, b, y, x)
            } else {
                image.spec_get(b, y, x) as int
            }),
{
    let w = image.width();
    let h = image.height();
    let nb = image.num_bands();
    let mut out = Image::new_with_bands(w, h, nb);
    let mut b: usize = 0;
    while b < nb
        invariant
            b <= nb,
            out.wf(),
            out.spec_width() == w && out.spec_height() == h && out.spec_num_bands() == nb,
            forall|b2: int, y2: int, x2: int|
                0 <= b2 < b && 0 <= y2 < h && 0 <= x2 < w ==> #[trigger] out.spec_get(
                    b2,
                    y2,
                    x2,
                ) as int == (if mask.spec_get(0, y2, x2) > 0 {
                    spec_inpaint(image, b2, y2, x2)
                } else {
                    image.spec_get(b2, y2, x2) as int
                }),
        decreases nb - b,
    {
        let mut y: usize = 0;
        while y < h
            invariant
                b < nb,
                y <= h,
                out.wf(),
                out.spec_width() == w && out.spec_height() == h && out.spec_num_bands() == nb,
                forall|b2: int, y2: int, x2: int|
                    0 <= b2 < nb && 0 <= y2 < h && 0 <= x2 < w && (b2 < b || (b2 == b && y2 < y))
                        ==> #[trigger] out.spec_get(b2, y2, x2) as int == (if mask.spec_get(
                        0,
                        y2,
                        x2,
                    ) > 0 {
                        spec_inpaint(image, b2, y2, x2)
                    } else {
                        image.spec_get(b2, y2, x2) as int
                    }),
            decreases h - y,
        {
            let mut x: usize = 0;
            while x < w
                invariant
                    b < nb,
                    y < h,
                    x <= w,
                    out.wf(),
                    out.spec_width() == w && out.spec_height() == h && out.spec_num_bands() == nb,
                    forall|b2: int, y2: int, x2: int|
                        0 <= b2 < nb && 0 <= y2 < h && 0 <= x2 < w && (b2 < b || (b2 == b && y2
                            < y) || (b2 == b && y2 == y && x2 < x)) ==> #[trigger] out.spec_get(
                            b2,
                            y2,
                            x2,
                        ) as int == (if mask.spec_get(0, y2, x2) > 0 {
                            spec_inpaint(image, b2, y2, x2)
                        } else {
                            image.spec_get(b2, y2, x2) as int
                        }),
                decreases w - x,
            {
                let masked = mask.get(0, y, x);
                let v: u32 = if masked > 0 {
                    let mut sum: u64 = 0;
                    let mut count: u64 = 0;
                    if x > 0 {
                        sum = sum + image.get(b, y, x - 1) as u64;
                        count = count + 1;
                    }
                    if x + 1 < w {
                        sum = sum + image.get(b, y, x + 1) as u64;
                        count = count + 1;
                    }
                    if y > 0 {
                        sum = sum + image.get(b, y - 1, x) as u64;
                        count = count + 1;
                    }
                    if y + 1 < h {
                        sum = sum + image.get(b, y + 1, x) as u64;
                        count = count + 1;
                    }
                    if count > 0 {
                        proof {
                            assert(sum as int / count as int <= MAX_SAMPLE as int)
                                by (nonlinear_arith)
                                requires
                                    0 < count as int <= 4,
                                    0 <= sum as int <= (count as int) * (MAX_SAMPLE as int),
                            ;
                        }
                        (sum / count) as u32
                    } else {
                        0
                    }
                } else {
                    image.get(b, y, x)
                };
                out.put(b, y, x, v);
                x += 1;
            }
            y += 1;
        }
        b += 1;
    }
    out
}

} // verus!
