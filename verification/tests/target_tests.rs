use solhat::datasource::ColorFormatId;
use solhat::error::SolhatError;
use solhat::target::Target;
use solhat::datasource::DataSource;
use solhat::datasource::EmptyDataSource;

#[test]
fn test_target_from_names() {
    assert_eq!(Target::from("Sun").unwrap(), Target::Sun);
    assert_eq!(Target::from("SUN").unwrap(), Target::Sun);
    assert_eq!(Target::from("moon").unwrap(), Target::Moon);
    assert_eq!(Target::from("MoOn").unwrap(), Target::Moon);
    assert_eq!(Target::from("none").unwrap(), Target::NoTarget);
    match Target::from("jupiter") {
        Err(SolhatError::InvalidTarget) => {}
        other => panic!("expected invalid target, got {:?}", other),
    }
    assert!(Target::from("").is_err());
}

#[test]
fn test_color_format_from_i32() {
    assert_eq!(ColorFormatId::from_i32(0), ColorFormatId::Mono);
    assert_eq!(ColorFormatId::from_i32(8), ColorFormatId::BayerRggb);
    assert_eq!(ColorFormatId::from_i32(100), ColorFormatId::Rgb);
    assert_eq!(ColorFormatId::from_i32(101), ColorFormatId::Bgr);
}

#[test]
fn test_empty_data_source() {
    let e = EmptyDataSource {};
    assert_eq!(e.image_width(), 0);
    assert_eq!(e.frame_count(), 0);
    assert_eq!(e.pixel_depth(), 8);
    assert!(e.get_frame(0).is_err());
    assert_eq!(e.get_frame_timestamp(0).unwrap(), 0);
    assert!(e.validate().is_err());
    assert_eq!(e.file_hash(), "000000000000");
}
