use color_palette::color::{clamp_channel, rgb_from_channels, CHANNEL_MAX};

#[test]
fn clamp_channel_keeps_bytes() {
    for value in 0..=255i64 {
        assert_eq!(clamp_channel(value) as i64, value);
    }
}

#[test]
fn clamp_channel_does_not_wrap() {
    assert_eq!(clamp_channel(-1), 0);
    assert_eq!(clamp_channel(i64::MIN), 0);
    assert_eq!(clamp_channel(256), 255);
    assert_eq!(clamp_channel(257), 255);
    assert_eq!(clamp_channel(511), 255);
    assert_eq!(clamp_channel(i64::MAX), CHANNEL_MAX);
}

#[test]
fn rgb_from_channels_clamps_each_channel() {
    assert_eq!(rgb_from_channels(&[128, 30, 156]), [128, 30, 156]);
    assert_eq!(rgb_from_channels(&[-5, 300, 255]), [0, 255, 255]);
    assert_eq!(rgb_from_channels(&[0, -1, 256]), [0, 0, 255]);
}

#[test]
fn rgb_from_channels_of_truncated_values() {
    let channels = [(255.9f32) as i64, (-0.9f32) as i64, f32::NAN as i64];
    assert_eq!(rgb_from_channels(&channels), [255, 0, 0]);
    let far = [(1.0e30f32) as i64, (-1.0e30f32) as i64, 127.99f32 as i64];
    assert_eq!(rgb_from_channels(&far), [255, 0, 127]);
}
