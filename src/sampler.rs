//! Box averaging of one border band into one colour per LED.

use vstd::prelude::*;

use crate::region::{contains, inside, Region, ScanDirection};

verus! {

/// A colour with three 8-bit channels.
pub type Rgb = (u8, u8, u8);

/// A video frame: `height` rows of `width` pixels, stored row after row.
#[derive(Debug)]
pub struct Frame {
    pub width: usize,
    pub height: usize,
    pub pixels: Vec<Rgb>,
}

impl Frame {
    /// The pixel buffer holds exactly `width * height` pixels.
    pub open spec fn wf(&self) -> bool {
        self.pixels@.len() == self.width * self.height
    }
}

/// One band of the border, walked in one direction, written to the LEDs from
/// `output_offset` on: `sample_count` colours, one per LED.
#[derive(Clone, Copy, Debug, PartialEq, Eq, Structural)]
pub struct EdgeStep {
    pub region: Region,
    pub scan: ScanDirection,
    pub output_offset: usize,
    pub sample_count: usize,
}

/// Channel `c` (0, 1 or 2) of a colour.
pub open spec fn channel(p: Rgb, c: int) -> int {
    if c == 0 {
        p.0 as int
    } else if c == 1 {
        p.1 as int
    } else {
        p.2 as int
    }
}

/// The pixel in column `x` of row `y` of a frame `stride` pixels wide.
pub open spec fn pixel_at(pixels: Seq<Rgb>, stride: int, x: int, y: int) -> Rgb {
    pixels[y * stride + x]
}

/// Sum of channel `c` over the `n` pixels from column `x` of row `y`.
pub open spec fn row_sum(pixels: Seq<Rgb>, stride: int, x: int, y: int, n: nat, c: int) -> int
    decreases n,
{
    if n == 0 {
        0
    } else {
        row_sum(pixels, stride, x, y, (n - 1) as nat, c) + channel(
            pixel_at(pixels, stride, x + n - 1, y),
            c,
        )
    }
}

/// Sum of channel `c` over the `w` × `h` pixels whose top left pixel is
/// `(x, y)`.
pub open spec fn rect_sum(pixels: Seq<Rgb>, stride: int, x: int, y: int, w: nat, h: nat, c: int) -> int
    decreases h,
{
    if h == 0 {
        0
    } else {
        rect_sum(pixels, stride, x, y, w, (h - 1) as nat, c) + row_sum(pixels, stride, x, y + h - 1, w, c)
    }
}

/// Mean colour of the `w` × `h` pixels whose top left pixel is `(x, y)`, each
/// channel rounded down.
pub open spec fn rect_mean(pixels: Seq<Rgb>, stride: int, x: int, y: int, w: nat, h: nat) -> Rgb {
    let n = (w * h) as int;
    (
        (rect_sum(pixels, stride, x, y, w, h, 0) / n) as u8,
        (rect_sum(pixels, stride, x, y, w, h, 1) / n) as u8,
        (rect_sum(pixels, stride, x, y, w, h, 2) / n) as u8,
    )
}

/// Length of the axis along which a band is walked.
pub open spec fn major_extent(r: Region, scan: ScanDirection) -> int {
    if scan.is_horizontal() {
        r.width as int
    } else {
        r.height as int
    }
}

/// Depth of a band across its walk.
pub open spec fn minor_extent(r: Region, scan: ScanDirection) -> int {
    if scan.is_horizontal() {
        r.height as int
    } else {
        r.width as int
    }
}

/// Top left pixel of the `j`-th run of `ppl` positions along the walk.
pub open spec fn run_origin(r: Region, scan: ScanDirection, ppl: int, j: int) -> (int, int) {
    match scan {
        ScanDirection::LeftToRight => (r.x + j * ppl, r.y as int),
        ScanDirection::RightToLeft => (r.x + r.width - (j + 1) * ppl, r.y as int),
        ScanDirection::TopToBottom => (r.x as int, r.y + j * ppl),
        ScanDirection::BottomToTop => (r.x as int, r.y + r.height - (j + 1) * ppl),
    }
}

/// Width and height of a run of `ppl` positions: the run spans the band's
/// whole depth.
pub open spec fn run_size(r: Region, scan: ScanDirection, ppl: int) -> (nat, nat) {
    if scan.is_horizontal() {
        (ppl as nat, r.height as nat)
    } else {
        (r.width as nat, ppl as nat)
    }
}

/// Colour of the `j`-th LED of a band: the mean over the `j`-th run of `ppl`
/// positions of the walk, across the band's whole depth.
pub open spec fn edge_sample(pixels: Seq<Rgb>, stride: int, step: EdgeStep, ppl: int, j: int) -> Rgb {
    let o = run_origin(step.region, step.scan, ppl, j);
    let s = run_size(step.region, step.scan, ppl);
    rect_mean(pixels, stride, o.0, o.1, s.0, s.1)
}

/// The step's runs fit in its band and its band fits in the frame.
pub open spec fn step_fits(step: EdgeStep, ppl: int, frame_width: int, frame_height: int) -> bool {
    &&& inside(step.region, frame_width, frame_height)
    &&& ppl >= 1
    &&& step.sample_count * ppl <= major_extent(step.region, step.scan)
    &&& minor_extent(step.region, step.scan) >= 1
}

proof fn lemma_row_sum_bound(pixels: Seq<Rgb>, stride: int, x: int, y: int, n: nat, c: int)
    ensures
        0 <= row_sum(pixels, stride, x, y, n, c) <= 255 * n,
    decreases n,
{
    if n > 0 {
        lemma_row_sum_bound(pixels, stride, x, y, (n - 1) as nat, c);
    }
}

proof fn lemma_rect_sum_bound(pixels: Seq<Rgb>, stride: int, x: int, y: int, w: nat, h: nat, c: int)
    ensures
        0 <= rect_sum(pixels, stride, x, y, w, h, c) <= 255 * (w * h),
    decreases h,
{
    if h > 0 {
        lemma_rect_sum_bound(pixels, stride, x, y, w, (h - 1) as nat, c);
        lemma_row_sum_bound(pixels, stride, x, y + h - 1, w, c);
        assert(255 * (w * (h - 1)) + 255 * w == 255 * (w * h)) by (nonlinear_arith);
    }
}

proof fn lemma_mean_fits(s: int, n: int)
    requires
        n >= 1,
        0 <= s <= 255 * n,
    ensures
        0 <= s / n <= 255,
{
    vstd::arithmetic::div_mod::lemma_div_is_ordered(s, 255 * n, n);
    vstd::arithmetic::div_mod::lemma_div_multiples_vanish(255, n);
    vstd::arithmetic::div_mod::lemma_div_pos_is_pos(s, n);
}

/// Mean colour of the `bw` × `bh` pixels of `frame` whose top left pixel is
/// `(x, y)`.
pub fn block_mean(frame: &Frame, x: usize, y: usize, bw: usize, bh: usize) -> (r: Rgb)
    requires
        frame.wf(),
        bw >= 1,
        bh >= 1,
        x + bw <= frame.width,
        y + bh <= frame.height,
    ensures
        r == rect_mean(frame.pixels@, frame.width as int, x as int, y as int, bw as nat, bh as nat),
{
    let ghost pixels = frame.pixels@;
    let ghost stride = frame.width as int;
    let len = frame.pixels.len();
    let mut s0: u128 = 0;
    let mut s1: u128 = 0;
    let mut s2: u128 = 0;
    let mut row: usize = 0;
    while row < bh
        invariant
            frame.wf(),
            pixels == frame.pixels@,
            stride == frame.width,
            bw >= 1,
            x + bw <= frame.width,
            y + bh <= frame.height,
            row <= bh,
            len == frame.pixels@.len(),
            s0 == rect_sum(pixels, stride, x as int, y as int, bw as nat, row as nat, 0),
            s1 == rect_sum(pixels, stride, x as int, y as int, bw as nat, row as nat, 1),
            s2 == rect_sum(pixels, stride, x as int, y as int, bw as nat, row as nat, 2),
        decreases bh - row,
    {
        proof {
            assert((y + row + 1) * frame.width <= frame.height * frame.width) by (nonlinear_arith)
                requires
                    y + row + 1 <= frame.height,
            ;
            assert((y + row + 1) * frame.width == (y + row) * frame.width + frame.width) by (nonlinear_arith);
            assert(bw * (row + 1) <= bw * bh) by (nonlinear_arith)
                requires
                    row + 1 <= bh,
            ;
            assert(bw * bh <= frame.width * frame.height) by (nonlinear_arith)
                requires
                    bw <= frame.width,
                    bh <= frame.height,
            ;
            assert(bw * (row + 1) == bw * row + bw) by (nonlinear_arith);
            lemma_rect_sum_bound(pixels, stride, x as int, y as int, bw as nat, row as nat, 0);
            lemma_rect_sum_bound(pixels, stride, x as int, y as int, bw as nat, row as nat, 1);
            lemma_rect_sum_bound(pixels, stride, x as int, y as int, bw as nat, row as nat, 2);
        }
        let base: usize = (y + row) * frame.width + x;
        let mut col: usize = 0;
        while col < bw
            invariant
                frame.wf(),
                pixels == frame.pixels@,
                stride == frame.width,
                x + bw <= frame.width,
                row < bh,
                y + bh <= frame.height,
                base == (y + row) * frame.width + x,
                base + bw <= frame.pixels@.len(),
                len == frame.pixels@.len(),
                col <= bw,
                255 * (bw * (row + 1)) <= 255 * usize::MAX,
                rect_sum(pixels, stride, x as int, y as int, bw as nat, row as nat, 0) + 255 * bw <= 255 * (bw
                    * (row + 1)),
                rect_sum(pixels, stride, x as int, y as int, bw as nat, row as nat, 1) + 255 * bw <= 255 * (bw
                    * (row + 1)),
                rect_sum(pixels, stride, x as int, y as int, bw as nat, row as nat, 2) + 255 * bw <= 255 * (bw
                    * (row + 1)),
                s0 == rect_sum(pixels, stride, x as int, y as int, bw as nat, row as nat, 0) + row_sum(
                    pixels,
                    stride,
                    x as int,
                    y + row,
                    col as nat,
                    0,
                ),
                s1 == rect_sum(pixels, stride, x as int, y as int, bw as nat, row as nat, 1) + row_sum(
                    pixels,
                    stride,
                    x as int,
                    y + row,
                    col as nat,
                    1,
                ),
                s2 == rect_sum(pixels, stride, x as int, y as int, bw as nat, row as nat, 2) + row_sum(
                    pixels,
                    stride,
                    x as int,
                    y + row,
                    col as nat,
                    2,
                ),
            decreases bw - col,
        {
            proof {
                lemma_row_sum_bound(pixels, stride, x as int, y + row, col as nat, 0);
                lemma_row_sum_bound(pixels, stride, x as int, y + row, col as nat, 1);
                lemma_row_sum_bound(pixels, stride, x as int, y + row, col as nat, 2);
            }
            let p = frame.pixels[base + col];
            s0 = s0 + p.0 as u128;
            s1 = s1 + p.1 as u128;
            s2 = s2 + p.2 as u128;
            col = col + 1;
        }
        row = row + 1;
    }
    proof {
        assert(bw * bh <= frame.width * frame.height) by (nonlinear_arith)
            requires
                bw <= frame.width,
                bh <= frame.height,
        ;
    }
    let n: u128 = (bw as u128) * (bh as u128);
    proof {
        lemma_rect_sum_bound(pixels, stride, x as int, y as int, bw as nat, bh as nat, 0);
        lemma_rect_sum_bound(pixels, stride, x as int, y as int, bw as nat, bh as nat, 1);
        lemma_rect_sum_bound(pixels, stride, x as int, y as int, bw as nat, bh as nat, 2);
        assert(n >= 1) by (nonlinear_arith)
            requires
                n == bw * bh,
                bw >= 1,
                bh >= 1,
        ;
        lemma_mean_fits(s0 as int, n as int);
        lemma_mean_fits(s1 as int, n as int);
        lemma_mean_fits(s2 as int, n as int);
    }
    ((s0 / n) as u8, (s1 / n) as u8, (s2 / n) as u8)
}

/// Writes the colours of `step` to the LEDs `output_offset ..` on: the `j`-th
/// one is the mean over the `j`-th run of `pixels_per_led` positions of the
/// walk, across the band's whole depth. Positions at the end of the band that
/// do not fill a whole run are not read. The other LEDs keep their colour.
pub fn sample_edge(frame: &Frame, step: &EdgeStep, pixels_per_led: usize, leds: &mut Vec<Rgb>)
    requires
        frame.wf(),
        step_fits(*step, pixels_per_led as int, frame.width as int, frame.height as int),
        step.output_offset + step.sample_count <= old(leds)@.len(),
    ensures
        final(leds)@.len() == old(leds)@.len(),
        forall|i: int|
            0 <= i < old(leds)@.len() ==> #[trigger] final(leds)@[i] == if step.output_offset <= i
                < step.output_offset + step.sample_count {
                edge_sample(
                    frame.pixels@,
                    frame.width as int,
                    *step,
                    pixels_per_led as int,
                    i - step.output_offset,
                )
            } else {
                old(leds)@[i]
            },
{
    let ghost before = leds@;
    let n = leds.len();
    let r = step.region;
    let ppl = pixels_per_led;
    let mut j: usize = 0;
    while j < step.sample_count
        invariant
            frame.wf(),
            step_fits(*step, ppl as int, frame.width as int, frame.height as int),
            r == step.region,
            ppl == pixels_per_led,
            step.output_offset + step.sample_count <= before.len(),
            j <= step.sample_count,
            leds@.len() == before.len(),
            n == before.len(),
            forall|i: int|
                0 <= i < before.len() ==> #[trigger] leds@[i] == if step.output_offset <= i < step.output_offset
                    + j {
                    edge_sample(frame.pixels@, frame.width as int, *step, ppl as int, i - step.output_offset)
                } else {
                    before[i]
                },
        decreases step.sample_count - j,
    {
        proof {
            assert((j + 1) * ppl <= step.sample_count * ppl) by (nonlinear_arith)
                requires
                    j + 1 <= step.sample_count,
            ;
            assert((j + 1) * ppl == j * ppl + ppl) by (nonlinear_arith);
        }
        let (x, y, bw, bh) = match step.scan {
            ScanDirection::LeftToRight => (r.x + j * ppl, r.y, ppl, r.height),
            ScanDirection::RightToLeft => (r.x + r.width - (j + 1) * ppl, r.y, ppl, r.height),
            ScanDirection::TopToBottom => (r.x, r.y + j * ppl, r.width, ppl),
            ScanDirection::BottomToTop => (r.x, r.y + r.height - (j + 1) * ppl, r.width, ppl),
        };
        let c = block_mean(frame, x, y, bw, bh);
        assert(c == edge_sample(frame.pixels@, frame.width as int, *step, ppl as int, j as int));
        leds[step.output_offset + j] = c;
        j = j + 1;
    }
}

proof fn lemma_row_sum_uniform(pixels: Seq<Rgb>, stride: int, x: int, y: int, n: nat, c: int, color: Rgb)
    requires
        forall|i: int| x <= i < x + n ==> #[trigger] pixel_at(pixels, stride, i, y) == color,
    ensures
        row_sum(pixels, stride, x, y, n, c) == n * channel(color, c),
    decreases n,
{
    if n > 0 {
        let m = (n - 1) as nat;
        lemma_row_sum_uniform(pixels, stride, x, y, m, c, color);
        assert(pixel_at(pixels, stride, x + n - 1, y) == color);
        assert(row_sum(pixels, stride, x, y, n, c) == row_sum(pixels, stride, x, y, m, c) + channel(color, c));
        assert(m * channel(color, c) + channel(color, c) == n * channel(color, c)) by (nonlinear_arith)
            requires
                m == n - 1,
        ;
    } else {
        assert(n * channel(color, c) == 0) by (nonlinear_arith)
            requires
                n == 0,
        ;
    }
}

proof fn lemma_rect_sum_uniform(pixels: Seq<Rgb>, stride: int, x: int, y: int, w: nat, h: nat, c: int, color: Rgb)
    requires
        forall|i: int, k: int| x <= i < x + w && y <= k < y + h ==> #[trigger] pixel_at(pixels, stride, i, k) == color,
    ensures
        rect_sum(pixels, stride, x, y, w, h, c) == (w * h) * channel(color, c),
    decreases h,
{
    if h > 0 {
        let g = (h - 1) as nat;
        lemma_rect_sum_uniform(pixels, stride, x, y, w, g, c, color);
        assert forall|i: int| x <= i < x + w implies #[trigger] pixel_at(pixels, stride, i, y + h - 1) == color by {
            assert(pixel_at(pixels, stride, i, y + h - 1) == color);
        }
        lemma_row_sum_uniform(pixels, stride, x, y + h - 1, w, c, color);
        assert(rect_sum(pixels, stride, x, y, w, h, c) == rect_sum(pixels, stride, x, y, w, g, c) + row_sum(
            pixels,
            stride,
            x,
            y + h - 1,
            w,
            c,
        ));
        assert((w * g) * channel(color, c) + w * channel(color, c) == (w * h) * channel(color, c))
            by (nonlinear_arith)
            requires
                g == h - 1,
        ;
    } else {
        assert((w * h) * channel(color, c) == 0) by (nonlinear_arith)
            requires
                h == 0,
        ;
    }
}

proof fn lemma_row_sum_agree(p: Seq<Rgb>, q: Seq<Rgb>, stride: int, x: int, y: int, n: nat, c: int)
    requires
        forall|i: int| x <= i < x + n ==> #[trigger] pixel_at(p, stride, i, y) == pixel_at(q, stride, i, y),
    ensures
        row_sum(p, stride, x, y, n, c) == row_sum(q, stride, x, y, n, c),
    decreases n,
{
    if n > 0 {
        lemma_row_sum_agree(p, q, stride, x, y, (n - 1) as nat, c);
        assert(pixel_at(p, stride, x + n - 1, y) == pixel_at(q, stride, x + n - 1, y));
    }
}

proof fn lemma_rect_sum_agree(p: Seq<Rgb>, q: Seq<Rgb>, stride: int, x: int, y: int, w: nat, h: nat, c: int)
    requires
        forall|i: int, k: int|
            x <= i < x + w && y <= k < y + h ==> #[trigger] pixel_at(p, stride, i, k) == pixel_at(q, stride, i, k),
    ensures
        rect_sum(p, stride, x, y, w, h, c) == rect_sum(q, stride, x, y, w, h, c),
    decreases h,
{
    if h > 0 {
        lemma_rect_sum_agree(p, q, stride, x, y, w, (h - 1) as nat, c);
        assert forall|i: int| x <= i < x + w implies #[trigger] pixel_at(p, stride, i, y + h - 1) == pixel_at(
            q,
            stride,
            i,
            y + h - 1,
        ) by {
            assert(pixel_at(p, stride, i, y + h - 1) == pixel_at(q, stride, i, y + h - 1));
        }
        lemma_row_sum_agree(p, q, stride, x, y + h - 1, w, c);
    }
}

/// The `j`-th run of a step lies inside the step's band.
proof fn lemma_run_in_band(step: EdgeStep, ppl: int, j: int)
    requires
        ppl >= 1,
        step.sample_count * ppl <= major_extent(step.region, step.scan),
        0 <= j < step.sample_count,
    ensures
        ({
            let r = step.region;
            let o = run_origin(r, step.scan, ppl, j);
            let s = run_size(r, step.scan, ppl);
            &&& r.x <= o.0
            &&& o.0 + s.0 <= r.x + r.width
            &&& r.y <= o.1
            &&& o.1 + s.1 <= r.y + r.height
        }),
{
    assert((j + 1) * ppl <= step.sample_count * ppl) by (nonlinear_arith)
        requires
            j + 1 <= step.sample_count,
            ppl >= 1,
    ;
    assert((j + 1) * ppl == j * ppl + ppl) by (nonlinear_arith);
    assert(0 <= j * ppl) by (nonlinear_arith)
        requires
            j >= 0,
            ppl >= 1,
    ;
}

/// Sampling reads the step's band and nothing else, the same way every time:
/// on two frames of the same width that agree on every pixel of the band, and
/// so on one frame sampled twice, every LED of the step gets the same colour.
pub proof fn sampling_depends_only_on_band(p: Seq<Rgb>, q: Seq<Rgb>, stride: int, step: EdgeStep, ppl: int)
    requires
        ppl >= 1,
        step.sample_count * ppl <= major_extent(step.region, step.scan),
        forall|x: int, y: int|
            contains(step.region, x, y) ==> #[trigger] pixel_at(p, stride, x, y) == pixel_at(q, stride, x, y),
    ensures
        forall|j: int|
            0 <= j < step.sample_count ==> #[trigger] edge_sample(p, stride, step, ppl, j) == edge_sample(
                q,
                stride,
                step,
                ppl,
                j,
            ),
{
    assert forall|j: int| 0 <= j < step.sample_count implies #[trigger] edge_sample(p, stride, step, ppl, j)
        == edge_sample(q, stride, step, ppl, j) by {
        lemma_run_in_band(step, ppl, j);
        let o = run_origin(step.region, step.scan, ppl, j);
        let s = run_size(step.region, step.scan, ppl);
        assert forall|i: int, k: int| o.0 <= i < o.0 + s.0 && o.1 <= k < o.1 + s.1 implies #[trigger] pixel_at(
            p,
            stride,
            i,
            k,
        ) == pixel_at(q, stride, i, k) by {
            assert(contains(step.region, i, k));
        }
        lemma_rect_sum_agree(p, q, stride, o.0, o.1, s.0, s.1, 0);
        lemma_rect_sum_agree(p, q, stride, o.0, o.1, s.0, s.1, 1);
        lemma_rect_sum_agree(p, q, stride, o.0, o.1, s.0, s.1, 2);
    }
}

/// A band filled with one colour gives each LED of the step exactly that
/// colour: rounding down loses nothing on a uniform band.
pub proof fn uniform_band_gives_its_color(pixels: Seq<Rgb>, stride: int, step: EdgeStep, ppl: int, color: Rgb)
    requires
        ppl >= 1,
        step.sample_count * ppl <= major_extent(step.region, step.scan),
        minor_extent(step.region, step.scan) >= 1,
        forall|x: int, y: int| contains(step.region, x, y) ==> #[trigger] pixel_at(pixels, stride, x, y) == color,
    ensures
        forall|j: int| 0 <= j < step.sample_count ==> #[trigger] edge_sample(pixels, stride, step, ppl, j) == color,
{
    assert forall|j: int| 0 <= j < step.sample_count implies #[trigger] edge_sample(pixels, stride, step, ppl, j)
        == color by {
        lemma_run_in_band(step, ppl, j);
        let o = run_origin(step.region, step.scan, ppl, j);
        let s = run_size(step.region, step.scan, ppl);
        assert forall|i: int, k: int| o.0 <= i < o.0 + s.0 && o.1 <= k < o.1 + s.1 implies #[trigger] pixel_at(
            pixels,
            stride,
            i,
            k,
        ) == color by {
            assert(contains(step.region, i, k));
        }
        lemma_rect_sum_uniform(pixels, stride, o.0, o.1, s.0, s.1, 0, color);
        lemma_rect_sum_uniform(pixels, stride, o.0, o.1, s.0, s.1, 1, color);
        lemma_rect_sum_uniform(pixels, stride, o.0, o.1, s.0, s.1, 2, color);
        let n = (s.0 * s.1) as int;
        assert(n >= 1) by (nonlinear_arith)
            requires
                n == s.0 * s.1,
                s.0 >= 1,
                s.1 >= 1,
        ;
        vstd::arithmetic::div_mod::lemma_div_multiples_vanish(channel(color, 0), n);
        vstd::arithmetic::div_mod::lemma_div_multiples_vanish(channel(color, 1), n);
        vstd::arithmetic::div_mod::lemma_div_multiples_vanish(channel(color, 2), n);
    }
}

/// Pixel `j` of the walk along the band's first row or column (the row or
/// column nearest the frame's edge for the top and left bands).
pub open spec fn walk_position(r: Region, scan: ScanDirection, j: int) -> (int, int) {
    run_origin(r, scan, 1, j)
}

/// With one pixel per LED, the `j`-th LED of a step takes the mean of the
/// single line of pixels that crosses the band at position `j` of the walk;
/// when the band is one pixel deep, it takes that pixel unchanged.
pub proof fn one_pixel_per_led(pixels: Seq<Rgb>, stride: int, step: EdgeStep, j: int)
    ensures
        ({
            let o = walk_position(step.region, step.scan, j);
            &&& step.scan.is_horizontal() ==> edge_sample(pixels, stride, step, 1, j) == rect_mean(
                pixels,
                stride,
                o.0,
                o.1,
                1,
                step.region.height as nat,
            )
            &&& !step.scan.is_horizontal() ==> edge_sample(pixels, stride, step, 1, j) == rect_mean(
                pixels,
                stride,
                o.0,
                o.1,
                step.region.width as nat,
                1,
            )
            &&& minor_extent(step.region, step.scan) == 1 ==> edge_sample(pixels, stride, step, 1, j)
                == pixel_at(pixels, stride, o.0, o.1)
        }),
{
    let o = walk_position(step.region, step.scan, j);
    let p = pixel_at(pixels, stride, o.0, o.1);
    assert forall|c: int| #[trigger] rect_sum(pixels, stride, o.0, o.1, 1, 1, c) == channel(p, c) by {
        assert(rect_sum(pixels, stride, o.0, o.1, 1, 0, c) == 0);
        assert(row_sum(pixels, stride, o.0, o.1, 0, c) == 0);
        assert(row_sum(pixels, stride, o.0, o.1, 1, c) == channel(p, c));
    }
    assert(rect_sum(pixels, stride, o.0, o.1, 1, 1, 0) == p.0);
    assert(rect_sum(pixels, stride, o.0, o.1, 1, 1, 1) == p.1);
    assert(rect_sum(pixels, stride, o.0, o.1, 1, 1, 2) == p.2);
    assert((1nat * 1nat) as int == 1);
    vstd::arithmetic::div_mod::lemma_div_basics(p.0 as int);
    vstd::arithmetic::div_mod::lemma_div_basics(p.1 as int);
    vstd::arithmetic::div_mod::lemma_div_basics(p.2 as int);
    assert(rect_mean(pixels, stride, o.0, o.1, 1, 1) == p);
    assert(run_origin(step.region, step.scan, 1, j) == o);
    if minor_extent(step.region, step.scan) == 1 {
        assert(run_size(step.region, step.scan, 1) == (1nat, 1nat));
    }
}

} // verus!
