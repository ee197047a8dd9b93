use rustylight::region::ScanDirection::{BottomToTop as B, LeftToRight as L, RightToLeft as R, TopToBottom as T};
use rustylight::region::{border_regions, ScanDirection};
use rustylight::sampler::{Frame, Rgb};
use rustylight::settings::{Direction, StartCorner};
use rustylight::translation_engine::{EngineError, TranslationEngine};

const CORNERS: [StartCorner; 4] = [StartCorner::TL, StartCorner::TR, StartCorner::BL, StartCorner::BR];
const DIRECTIONS: [Direction; 2] = [Direction::CW, Direction::CCW];

fn frame_with(width: usize, height: usize, f: impl Fn(usize, usize) -> Rgb) -> Frame {
    let mut pixels = Vec::new();
    for y in 0..height {
        for x in 0..width {
            pixels.push(f(x, y));
        }
    }
    Frame { width, height, pixels }
}

fn offsets(e: &TranslationEngine) -> Vec<usize> {
    e.steps().iter().map(|s| s.output_offset).collect()
}

fn counts(e: &TranslationEngine) -> Vec<usize> {
    e.steps().iter().map(|s| s.sample_count).collect()
}

#[test]
fn scenario_sixty_leds_top_left_clockwise() {
    let e = TranslationEngine::new(StartCorner::TL, Direction::CW, 200, 100, 10, 60).unwrap();
    assert_eq!(e.pixels_per_led(), 10);
    assert_eq!(counts(&e), vec![20, 10, 20, 10]);
    assert_eq!(offsets(&e), vec![0, 20, 30, 50]);
    let scans: Vec<ScanDirection> = e.steps().iter().map(|s| s.scan).collect();
    assert_eq!(
        scans,
        vec![
            ScanDirection::LeftToRight,
            ScanDirection::TopToBottom,
            ScanDirection::RightToLeft,
            ScanDirection::BottomToTop
        ]
    );
}

#[test]
fn scenario_thirty_leds_halves_each_band() {
    let e = TranslationEngine::new(StartCorner::TL, Direction::CW, 200, 100, 10, 30).unwrap();
    assert_eq!(e.pixels_per_led(), 20);
    assert_eq!(counts(&e), vec![10, 5, 10, 5]);
    assert_eq!(offsets(&e), vec![0, 10, 15, 25]);
}

#[test]
fn leftover_pixels_of_a_band_are_dropped() {
    // Interior corner (7, 5), border 1: 24 positions, 7 LEDs, 3 positions per LED.
    // Bands of 7, 5, 7 and 5 positions give 2, 1, 2 and 1 LEDs: the last LED stays black.
    let e = TranslationEngine::new(StartCorner::TL, Direction::CW, 7, 5, 1, 7).unwrap();
    assert_eq!(e.pixels_per_led(), 3);
    assert_eq!(counts(&e), vec![2, 1, 2, 1]);
    assert_eq!(offsets(&e), vec![0, 2, 3, 5]);
    // The last column of the top band (x = 6) is not read: make it white.
    let frame = frame_with(8, 6, |x, y| if y == 0 && x == 6 { (255, 255, 255) } else { (30, 60, 90) });
    let mut leds = vec![(9, 9, 9); 3];
    e.translate(&frame, &mut leds).unwrap();
    assert_eq!(leds.len(), 7);
    for i in 0..6 {
        assert_eq!(leds[i], (30, 60, 90));
    }
    assert_eq!(leds[6], (0, 0, 0));
}

#[test]
fn strip_shorter_than_runs_cuts_the_tail() {
    // 206 positions, 100 LEDs, 2 per LED: bands give 50, 1, 50 and 1 runs,
    // the strip ends one LED into the third band's last run.
    let e = TranslationEngine::new(StartCorner::TL, Direction::CW, 100, 3, 1, 100).unwrap();
    assert_eq!(e.pixels_per_led(), 2);
    assert_eq!(counts(&e), vec![50, 1, 49, 0]);
    assert_eq!(offsets(&e), vec![0, 50, 51, 100]);
}

#[test]
fn offsets_follow_one_another_for_every_corner_and_direction() {
    for &c in CORNERS.iter() {
        for &d in DIRECTIONS.iter() {
            let e = TranslationEngine::new(c, d, 200, 100, 10, 60).unwrap();
            let o = offsets(&e);
            let n = counts(&e);
            assert_eq!(o[0], 0);
            assert!(o[0] < o[1] && o[1] < o[2] && o[2] < o[3]);
            for k in 0..3 {
                assert_eq!(o[k] + n[k], o[k + 1]);
            }
            assert_eq!(o[3] + n[3], n.iter().sum::<usize>());
            assert_eq!(o[3] + n[3], 60);
        }
    }
}

#[test]
fn walk_order_for_every_corner_and_direction() {
    let expected = [
        (StartCorner::TL, Direction::CW, [L, T, R, B], [20, 10, 20, 10]),
        (StartCorner::TR, Direction::CW, [T, R, B, L], [10, 20, 10, 20]),
        (StartCorner::BR, Direction::CW, [R, B, L, T], [20, 10, 20, 10]),
        (StartCorner::BL, Direction::CW, [B, L, T, R], [10, 20, 10, 20]),
        (StartCorner::TL, Direction::CCW, [T, L, B, R], [10, 20, 10, 20]),
        (StartCorner::BL, Direction::CCW, [L, B, R, T], [20, 10, 20, 10]),
        (StartCorner::BR, Direction::CCW, [B, R, T, L], [10, 20, 10, 20]),
        (StartCorner::TR, Direction::CCW, [R, T, L, B], [20, 10, 20, 10]),
    ];
    for (c, d, scans, n) in expected.iter() {
        let e = TranslationEngine::new(*c, *d, 200, 100, 10, 60).unwrap();
        let got: Vec<ScanDirection> = e.steps().iter().map(|s| s.scan).collect();
        assert_eq!(got, scans.to_vec());
        assert_eq!(counts(&e), n.to_vec());
    }
}

#[test]
fn counter_clockwise_from_top_left_starts_down_the_left_band() {
    let e = TranslationEngine::new(StartCorner::TL, Direction::CCW, 200, 100, 10, 60).unwrap();
    let s = e.steps();
    assert_eq!((s[0].region.x, s[0].region.y, s[0].region.width, s[0].region.height), (0, 0, 10, 100));
    assert_eq!((s[1].region.x, s[1].region.y, s[1].region.width, s[1].region.height), (0, 100, 200, 10));
    assert_eq!((s[2].region.x, s[2].region.y, s[2].region.width, s[2].region.height), (200, 10, 10, 100));
    assert_eq!((s[3].region.x, s[3].region.y, s[3].region.width, s[3].region.height), (10, 0, 200, 10));
}

#[test]
fn border_regions_never_overlap() {
    for &d in DIRECTIONS.iter() {
        for &(w, h, t) in [(200usize, 100usize, 10usize), (5, 5, 2), (3, 9, 1), (40, 21, 10)].iter() {
            let r = border_regions(d, w, h, t);
            let mut covered = vec![0u32; (w + t) * (h + t)];
            for band in r.iter() {
                for y in band.y..band.y + band.height {
                    for x in band.x..band.x + band.width {
                        covered[y * (w + t) + x] += 1;
                    }
                }
            }
            for y in 0..h + t {
                for x in 0..w + t {
                    let in_interior = x >= t && x < w && y >= t && y < h;
                    let expected = if in_interior { 0 } else { 1 };
                    assert_eq!(covered[y * (w + t) + x], expected, "pixel ({}, {}) {:?}", x, y, d);
                }
            }
        }
    }
}

#[test]
fn translate_gives_exact_means() {
    let e = TranslationEngine::new(StartCorner::TL, Direction::CW, 200, 100, 10, 60).unwrap();
    let frame = frame_with(210, 110, |x, y| ((x % 256) as u8, (y % 256) as u8, 7));
    let mut leds = Vec::new();
    e.translate(&frame, &mut leds).unwrap();
    assert_eq!(leds.len(), 60);
    assert_eq!(leds[0], (4, 4, 7));
    assert_eq!(leds[1], (14, 4, 7));
    assert_eq!(leds[20], (204, 4, 7));
    assert_eq!(leds[30], (204, 104, 7));
    assert_eq!(leds[50], (4, 104, 7));
    assert_eq!(leds[59], (4, 14, 7));
}

#[test]
fn black_frame_gives_dark_strip() {
    for &c in CORNERS.iter() {
        for &d in DIRECTIONS.iter() {
            for &(w, h, t, n) in [(200, 100, 10, 60), (7, 5, 1, 7), (100, 3, 1, 100), (30, 20, 4, 13)].iter() {
                let e = TranslationEngine::new(c, d, w, h, t, n).unwrap();
                let frame = frame_with((w + t) as usize, (h + t) as usize, |_, _| (0, 0, 0));
                let mut leds = vec![(1, 2, 3); 5];
                e.translate(&frame, &mut leds).unwrap();
                assert_eq!(leds.len(), n as usize);
                assert!(leds.iter().all(|&p| p == (0, 0, 0)));
            }
        }
    }
}

#[test]
fn wrong_frame_size_is_refused() {
    let e = TranslationEngine::new(StartCorner::BL, Direction::CW, 20, 10, 2, 12).unwrap();
    let mut leds = vec![(5, 5, 5); 2];
    let frame = frame_with(21, 12, |_, _| (1, 1, 1));
    assert_eq!(e.translate(&frame, &mut leds), Err(EngineError::DimensionMismatch));
    assert_eq!(leds, vec![(5, 5, 5); 2]);
    let short = Frame { width: 22, height: 12, pixels: vec![(1, 1, 1); 22 * 12 - 1] };
    assert_eq!(e.translate(&short, &mut leds), Err(EngineError::DimensionMismatch));
    let good = frame_with(22, 12, |_, _| (1, 1, 1));
    assert_eq!(e.translate(&good, &mut leds), Ok(()));
    assert_eq!(leds.len(), 12);
}

#[test]
fn bad_configurations_are_refused() {
    let bad = [
        (200, 100, 0, 60),
        (200, 100, -1, 60),
        (200, 100, 50, 60),
        (20, 100, 10, 60),
        (200, 100, 10, 0),
        (200, 100, 10, -5),
        (200, 100, 10, 601),
        (0, 0, 0, 1),
    ];
    for &(w, h, t, n) in bad.iter() {
        assert_eq!(
            TranslationEngine::new(StartCorner::TL, Direction::CW, w, h, t, n).err(),
            Some(EngineError::ConfigurationError)
        );
    }
    assert!(TranslationEngine::new(StartCorner::TL, Direction::CW, 200, 100, 10, 600).is_ok());
    assert!(TranslationEngine::new(StartCorner::TL, Direction::CW, 21, 21, 10, 1).is_ok());
}

#[test]
fn layout_records_the_configuration() {
    let e = TranslationEngine::new(StartCorner::BR, Direction::CCW, 64, 48, 4, 50).unwrap();
    let l = e.layout();
    assert_eq!(l.start_corner, StartCorner::BR);
    assert_eq!(l.direction, Direction::CCW);
    assert_eq!((l.width, l.height, l.thickness, l.led_count), (64, 48, 4, 50));
    assert_eq!(e.pixels_per_led(), 224 / 50);
}
