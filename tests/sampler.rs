use rustylight::region::{Region, ScanDirection};
use rustylight::sampler::{block_mean, sample_edge, EdgeStep, Frame, Rgb};

fn frame_with(width: usize, height: usize, f: impl Fn(usize, usize) -> Rgb) -> Frame {
    let mut pixels = Vec::new();
    for y in 0..height {
        for x in 0..width {
            pixels.push(f(x, y));
        }
    }
    Frame { width, height, pixels }
}

fn step(x: usize, y: usize, width: usize, height: usize, scan: ScanDirection, offset: usize, count: usize) -> EdgeStep {
    EdgeStep { region: Region { x, y, width, height }, scan, output_offset: offset, sample_count: count }
}

fn noise(x: usize, y: usize) -> Rgb {
    (((x * 37 + y * 11) % 256) as u8, ((x * 5 + y * 91) % 256) as u8, ((x ^ y) % 256) as u8)
}

#[test]
fn sampling_twice_gives_identical_output() {
    let frame = frame_with(30, 20, noise);
    let s = step(2, 3, 24, 4, ScanDirection::RightToLeft, 1, 6);
    let mut a = vec![(0, 0, 0); 8];
    let mut b = vec![(0, 0, 0); 8];
    sample_edge(&frame, &s, 4, &mut a);
    sample_edge(&frame, &s, 4, &mut b);
    assert_eq!(a, b);
}

#[test]
fn sampling_ignores_pixels_outside_the_band() {
    let s = step(2, 3, 4, 12, ScanDirection::BottomToTop, 0, 4);
    let a_frame = frame_with(10, 16, noise);
    let b_frame = frame_with(10, 16, |x, y| if x >= 2 && x < 6 && y >= 3 && y < 15 { noise(x, y) } else { (255, 0, 255) });
    let mut a = vec![(0, 0, 0); 4];
    let mut b = vec![(0, 0, 0); 4];
    sample_edge(&a_frame, &s, 3, &mut a);
    sample_edge(&b_frame, &s, 3, &mut b);
    assert_eq!(a, b);
}

#[test]
fn uniform_band_gives_its_color_exactly() {
    let frame = frame_with(20, 20, |x, y| if y < 3 { (17, 200, 3) } else { noise(x, y) });
    let s = step(0, 0, 20, 3, ScanDirection::LeftToRight, 0, 6);
    let mut leds = vec![(0, 0, 0); 6];
    sample_edge(&frame, &s, 3, &mut leds);
    assert!(leds.iter().all(|&p| p == (17, 200, 3)));
}

#[test]
fn one_pixel_per_led_on_a_one_pixel_band_reads_raw_pixels() {
    let frame = frame_with(8, 8, noise);
    let s = step(0, 2, 1, 5, ScanDirection::BottomToTop, 0, 5);
    let mut leds = vec![(0, 0, 0); 5];
    sample_edge(&frame, &s, 1, &mut leds);
    for j in 0..5 {
        assert_eq!(leds[j], noise(0, 6 - j));
    }
    let s = step(1, 7, 6, 1, ScanDirection::LeftToRight, 0, 6);
    let mut leds = vec![(0, 0, 0); 6];
    sample_edge(&frame, &s, 1, &mut leds);
    for j in 0..6 {
        assert_eq!(leds[j], noise(1 + j, 7));
    }
}

#[test]
fn one_pixel_per_led_averages_across_the_depth() {
    // Column j of a two-row band holds (10 * j, 0, 1) above (10 * j + 5, 3, 2).
    let frame = frame_with(6, 2, |x, y| if y == 0 { ((10 * x) as u8, 0, 1) } else { ((10 * x + 5) as u8, 3, 2) });
    let s = step(0, 0, 6, 2, ScanDirection::RightToLeft, 0, 6);
    let mut leds = vec![(0, 0, 0); 6];
    sample_edge(&frame, &s, 1, &mut leds);
    for j in 0..6 {
        let x = 5 - j;
        assert_eq!(leds[j], ((10 * x + 2) as u8, 1, 1));
    }
}

#[test]
fn sampling_leaves_other_leds_alone() {
    let frame = frame_with(12, 12, |_, _| (8, 8, 8));
    let s = step(0, 0, 12, 2, ScanDirection::LeftToRight, 2, 3);
    let mut leds = vec![(1, 1, 1); 7];
    sample_edge(&frame, &s, 4, &mut leds);
    assert_eq!(leds, vec![(1, 1, 1), (1, 1, 1), (8, 8, 8), (8, 8, 8), (8, 8, 8), (1, 1, 1), (1, 1, 1)]);
}

#[test]
fn block_mean_rounds_down() {
    let frame = frame_with(3, 2, |x, y| ((x + y) as u8, 255, (2 * x) as u8));
    // Sums over the 3 x 2 block: 9, 1530, 12.
    assert_eq!(block_mean(&frame, 0, 0, 3, 2), (1, 255, 2));
    assert_eq!(block_mean(&frame, 1, 1, 2, 1), (2, 255, 3));
}
