use regolith::types::sample_scale;
use regolith::types::Scale;
use regolith::types::ToneId;

#[test]
fn test_sample_scale() {
    let scale = Scale::cmajor();

    assert_eq!(sample_scale(&scale, 1), ToneId(13));
    assert_eq!(sample_scale(&scale, 2), ToneId(15));
    assert_eq!(sample_scale(&scale, 3), ToneId(17));
    assert_eq!(sample_scale(&scale, 4), ToneId(18));
    assert_eq!(sample_scale(&scale, 5), ToneId(20));
    assert_eq!(sample_scale(&scale, 6), ToneId(22));
    assert_eq!(sample_scale(&scale, 7), ToneId(24));
    assert_eq!(sample_scale(&scale, 8), ToneId(25));
}
