use solhat::drizzle::Offset;
use solhat::framerecord::FrameRecord;
use solhat::limiting::limit_frames;

fn rec(sigma: u64, id: usize) -> FrameRecord {
    FrameRecord {
        source_file_id: String::from("src"),
        frame_id: id,
        frame_width: 4,
        frame_height: 4,
        sigma,
        computed_rotation: 0,
        offset: Offset { h: 0, v: 0 },
    }
}

#[test]
fn test_limit_filters_and_sorts_descending() {
    let records = vec![rec(5, 0), rec(50, 1), rec(20, 2), rec(1, 3)];
    let out = limit_frames(&records, Some(2), Some(40), None, None);
    let sigmas: Vec<u64> = out.iter().map(|r| r.sigma).collect();
    assert_eq!(sigmas, vec![20, 5]);
}

#[test]
fn test_limit_top_percentage_rounds() {
    let records = vec![rec(10, 0), rec(30, 1), rec(20, 2), rec(40, 3)];
    // half of four
    let out = limit_frames(&records, None, None, Some(50), None);
    let sigmas: Vec<u64> = out.iter().map(|r| r.sigma).collect();
    assert_eq!(sigmas, vec![40, 30]);
    // a quarter of four rounds half away from zero: 25% of 3 is 0.75 -> 1
    let three = vec![rec(10, 0), rec(30, 1), rec(20, 2)];
    let out2 = limit_frames(&three, None, None, Some(25), None);
    assert_eq!(out2.len(), 1);
    assert_eq!(out2[0].sigma, 30);
}

#[test]
fn test_limit_max_frames_cap_after_percentage() {
    let records = vec![rec(10, 0), rec(30, 1), rec(20, 2), rec(40, 3)];
    let out = limit_frames(&records, None, None, Some(100), Some(3));
    let sigmas: Vec<u64> = out.iter().map(|r| r.sigma).collect();
    assert_eq!(sigmas, vec![40, 30, 20]);
    // a cap larger than the survivors keeps everything
    let out2 = limit_frames(&records, None, None, None, Some(10));
    assert_eq!(out2.len(), 4);
}

#[test]
fn test_limit_idempotent_reapplication() {
    let records = vec![rec(5, 0), rec(50, 1), rec(20, 2), rec(1, 3), rec(20, 4)];
    let once = limit_frames(&records, Some(2), Some(40), Some(100), Some(3));
    let twice = limit_frames(&once, Some(2), Some(40), Some(100), Some(3));
    assert_eq!(once.len(), twice.len());
    for (a, b) in once.iter().zip(twice.iter()) {
        assert_eq!(a.sigma, b.sigma);
        assert_eq!(a.frame_id, b.frame_id);
    }
}

#[test]
fn test_limit_stable_on_ties() {
    let records = vec![rec(20, 0), rec(20, 1), rec(20, 2)];
    let out = limit_frames(&records, None, None, None, None);
    let ids: Vec<usize> = out.iter().map(|r| r.frame_id).collect();
    assert_eq!(ids, vec![0, 1, 2]);
}
