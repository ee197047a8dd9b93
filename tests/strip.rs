use rustylight::lightstrip::Lightstrip;
use rustylight::settings::{Direction, LogLevel, Resolution, Settings, StartCorner};

#[test]
fn new_strip_is_dark() {
    let s = Lightstrip::new(4);
    assert_eq!(s.leds, vec![(0, 0, 0); 4]);
    assert!(Lightstrip::new(0).leds.is_empty());
}

#[test]
fn set_and_next_write_leds_in_order() {
    let mut s = Lightstrip::new(3);
    s.set((1, 2, 3));
    s.next();
    s.set((4, 5, 6));
    s.set((7, 8, 9));
    s.next();
    s.set((10, 11, 12));
    assert_eq!(s.leds, vec![(1, 2, 3), (7, 8, 9), (10, 11, 12)]);
}

#[test]
fn default_settings() {
    let s = Settings::default();
    assert_eq!(s.log_level, LogLevel::Info);
    assert_eq!(s.video_device, 0);
    assert_eq!(s.capture_area_size, 10);
    assert_eq!(s.processing_resolution, Resolution::VGA);
    assert_eq!(s.start_corner, StartCorner::BL);
    assert_eq!(s.direction, Direction::CW);
    assert_eq!(s.led_count, 123);
}
