//! The mapping plan from the border of a frame to the LEDs of a strip, and
//! its application to frames.

use vstd::prelude::*;

use crate::region::{
    border_region,
    border_regions,
    edge_at,
    resolve_orientation,
    scan_at,
    Region,
    ScanDirection,
};
use crate::sampler::{edge_sample, major_extent, minor_extent, sample_edge, step_fits, EdgeStep, Frame, Rgb};
use crate::settings::{Direction, StartCorner};

verus! {

/// Why a plan could not be built or applied.
#[derive(Clone, Copy, Debug, PartialEq, Eq, Structural)]
pub enum EngineError {
    /// The border is not thinner than half of each side of the interior, or a
    /// size is not positive, or the strip has more LEDs than the border has
    /// positions.
    ConfigurationError,
    /// The frame does not have the size that the plan was built for.
    DimensionMismatch,
}

/// What a plan is built from. `width` and `height` locate the interior corner
/// of the border: the frame is `width + thickness` × `height + thickness`
/// pixels.
#[derive(Clone, Copy, Debug, PartialEq, Eq, Structural)]
pub struct Layout {
    pub start_corner: StartCorner,
    pub direction: Direction,
    pub width: usize,
    pub height: usize,
    pub thickness: usize,
    pub led_count: usize,
}

impl Layout {
    /// Sizes for which a plan exists.
    pub open spec fn valid(self) -> bool {
        &&& self.thickness > 0
        &&& 2 * self.thickness < self.width
        &&& 2 * self.thickness < self.height
        &&& self.led_count > 0
        &&& self.led_count <= self.perimeter()
    }

    /// Number of positions along the four bands together.
    pub open spec fn perimeter(self) -> int {
        2 * self.width + 2 * self.height
    }

    /// Number of consecutive positions averaged into one LED.
    pub open spec fn pixels_per_led(self) -> int {
        self.perimeter() / self.led_count as int
    }

    pub open spec fn frame_width(self) -> int {
        self.width + self.thickness
    }

    pub open spec fn frame_height(self) -> int {
        self.height + self.thickness
    }

    /// The band walked `k`-th.
    pub open spec fn region(self, k: int) -> Region {
        border_region(
            self.direction,
            edge_at(self.start_corner, self.direction, k),
            self.width,
            self.height,
            self.thickness,
        )
    }

    /// How the band walked `k`-th is scanned.
    pub open spec fn scan(self, k: int) -> ScanDirection {
        scan_at(self.start_corner, self.direction, k)
    }

    /// Number of whole runs of `pixels_per_led` positions in the `k`-th band.
    pub open spec fn runs(self, k: int) -> int {
        major_extent(self.region(k), self.scan(k)) / self.pixels_per_led()
    }

    /// First LED of the `k`-th band; `offset(4)` is the number of LEDs that
    /// the four bands fill.
    pub open spec fn offset(self, k: int) -> int
        decreases k, 0int,
    {
        if k <= 0 {
            0
        } else {
            self.offset(k - 1) + self.count(k - 1)
        }
    }

    /// Number of LEDs of the `k`-th band: one per whole run, as far as the
    /// strip reaches.
    pub open spec fn count(self, k: int) -> int
        decreases k, 1int,
    {
        let room = self.led_count - self.offset(k);
        if self.runs(k) < room {
            self.runs(k)
        } else {
            room
        }
    }

    /// The `k`-th step of the plan.
    pub open spec fn step(self, k: int) -> EdgeStep {
        EdgeStep {
            region: self.region(k),
            scan: self.scan(k),
            output_offset: self.offset(k) as usize,
            sample_count: self.count(k) as usize,
        }
    }

    /// Colour of LED `i` for a frame with pixels `pixels`: the sample of the
    /// band that covers it, black past the last band.
    pub open spec fn led_color(self, pixels: Seq<Rgb>, i: int) -> Rgb {
        let fw = self.frame_width();
        let ppl = self.pixels_per_led();
        if i < self.offset(1) {
            edge_sample(pixels, fw, self.step(0), ppl, i - self.offset(0))
        } else if i < self.offset(2) {
            edge_sample(pixels, fw, self.step(1), ppl, i - self.offset(1))
        } else if i < self.offset(3) {
            edge_sample(pixels, fw, self.step(2), ppl, i - self.offset(2))
        } else if i < self.offset(4) {
            edge_sample(pixels, fw, self.step(3), ppl, i - self.offset(3))
        } else {
            (0u8, 0u8, 0u8)
        }
    }
}

proof fn lemma_pixels_per_led(layout: Layout)
    requires
        layout.valid(),
    ensures
        1 <= layout.pixels_per_led(),
{
    let n = layout.led_count as int;
    vstd::arithmetic::div_mod::lemma_div_is_ordered(n, layout.perimeter(), n);
    vstd::arithmetic::div_mod::lemma_div_by_self(n);
}

/// The steps follow one another without gap or overlap and stay on the strip.
proof fn lemma_offsets(layout: Layout)
    requires
        layout.valid(),
    ensures
        layout.offset(0) == 0,
        forall|k: int|
            0 <= k < 4 ==> 0 <= #[trigger] layout.count(k) && layout.offset(k + 1) == layout.offset(k)
                + layout.count(k) && layout.offset(k + 1) <= layout.led_count,
{
    lemma_pixels_per_led(layout);
    assert forall|k: int| 0 <= k < 4 implies 0 <= #[trigger] layout.runs(k) by {
        vstd::arithmetic::div_mod::lemma_div_pos_is_pos(
            major_extent(layout.region(k), layout.scan(k)),
            layout.pixels_per_led(),
        );
    }
    assert(layout.offset(1) == layout.offset(0) + layout.count(0));
    assert(layout.offset(2) == layout.offset(1) + layout.count(1));
    assert(layout.offset(3) == layout.offset(2) + layout.count(2));
    assert(layout.offset(4) == layout.offset(3) + layout.count(3));
}

proof fn lemma_whole_runs(m: int, ppl: int, count: int)
    requires
        0 <= m,
        1 <= ppl,
        0 <= count <= m / ppl,
    ensures
        count * ppl <= m,
{
    vstd::arithmetic::div_mod::lemma_fundamental_div_mod(m, ppl);
    vstd::arithmetic::div_mod::lemma_mod_pos_bound(m, ppl);
    vstd::arithmetic::mul::lemma_mul_inequality(count, m / ppl, ppl);
    assert((m / ppl) * ppl == ppl * (m / ppl)) by (nonlinear_arith);
}

/// The `k`-th step of a plan reads only inside the frame.
/// The `k`-th band lies in the frame, is `thickness` deep across its walk, and
/// is `width` or `height` long along it.
proof fn lemma_band_shape(layout: Layout, k: int)
    requires
        layout.valid(),
        0 <= k < 4,
    ensures
        crate::region::inside(layout.region(k), layout.frame_width(), layout.frame_height()),
        minor_extent(layout.region(k), layout.scan(k)) == layout.thickness,
        major_extent(layout.region(k), layout.scan(k)) == if layout.scan(k).is_horizontal() {
            layout.width
        } else {
            layout.height
        },
{
    if k == 0 {
    } else if k == 1 {
    } else if k == 2 {
    } else {
    }
}

proof fn lemma_step_fits(layout: Layout, k: int)
    requires
        layout.valid(),
        0 <= k < 4,
        0 <= layout.count(k),
    ensures
        step_fits(layout.step(k), layout.pixels_per_led(), layout.frame_width(), layout.frame_height()),
{
    lemma_pixels_per_led(layout);
    lemma_band_shape(layout, k);
    let ppl = layout.pixels_per_led();
    let m = major_extent(layout.region(k), layout.scan(k));
    assert(layout.count(k) <= layout.runs(k));
    vstd::arithmetic::div_mod::lemma_div_is_ordered_by_denominator(m, 1, ppl);
    assert(m / 1 == m);
    assert(layout.step(k).sample_count == layout.count(k));
    lemma_whole_runs(m, ppl, layout.count(k));
}

/// Each step of a plan reads only inside the frame.
proof fn lemma_steps_fit(layout: Layout)
    requires
        layout.valid(),
    ensures
        forall|k: int|
            0 <= k < 4 ==> step_fits(
                #[trigger] layout.step(k),
                layout.pixels_per_led(),
                layout.frame_width(),
                layout.frame_height(),
            ),
{
    assert forall|k: int| 0 <= k < 4 implies step_fits(
        #[trigger] layout.step(k),
        layout.pixels_per_led(),
        layout.frame_width(),
        layout.frame_height(),
    ) by {
        lemma_offsets(layout);
        lemma_step_fits(layout, k);
    }
}

/// LED `i` of a step's range takes that step's sample.
proof fn lemma_led_color_in_step(layout: Layout, pixels: Seq<Rgb>, k: int, i: int)
    requires
        layout.valid(),
        0 <= k < 4,
        layout.offset(k) <= i < layout.offset(k + 1),
    ensures
        layout.led_color(pixels, i) == edge_sample(
            pixels,
            layout.frame_width(),
            layout.step(k),
            layout.pixels_per_led(),
            i - layout.offset(k),
        ),
{
    lemma_offsets(layout);
    assert(layout.count(0) >= 0 && layout.count(1) >= 0 && layout.count(2) >= 0 && layout.count(3) >= 0);
}

/// The first two bands of any walk are one horizontal and one vertical band.
proof fn lemma_first_two_bands(layout: Layout)
    requires
        layout.valid(),
    ensures
        major_extent(layout.region(0), layout.scan(0)) + major_extent(layout.region(1), layout.scan(1))
            == layout.width + layout.height,
{
    lemma_band_shape(layout, 0);
    lemma_band_shape(layout, 1);
}

/// The interior's half perimeter is shorter than the positions that the strip
/// averages.
proof fn lemma_half_perimeter_below_strip(layout: Layout)
    requires
        layout.valid(),
    ensures
        layout.width + layout.height < layout.led_count * layout.pixels_per_led(),
{
    lemma_pixels_per_led(layout);
    let n = layout.led_count as int;
    let p = layout.perimeter();
    let ppl = layout.pixels_per_led();
    let half = layout.width + layout.height;
    vstd::arithmetic::div_mod::lemma_fundamental_div_mod(p, n);
    vstd::arithmetic::div_mod::lemma_mod_pos_bound(p, n);
    assert(half < n * ppl) by (nonlinear_arith)
        requires
            p == n * ppl + p % n,
            0 <= p % n < n,
            p == 2 * half,
            ppl >= 1,
            n >= 1,
    ;
}

/// For every start corner and winding, the steps of the plan follow one
/// another along the strip without gap or overlap: the first begins at LED 0,
/// each next one where the previous one ended, and the last ends where the
/// LEDs that the plan fills end, which is at most the strip's length. When
/// every band holds at least one whole run of `pixels_per_led` positions, the
/// four first LEDs are strictly increasing.
pub proof fn plan_steps_tile_strip(layout: Layout)
    requires
        layout.valid(),
    ensures
        layout.step(0).output_offset == 0,
        forall|k: int|
            0 <= k < 3 ==> (#[trigger] layout.step(k)).output_offset + layout.step(k).sample_count == layout.step(
                k + 1,
            ).output_offset,
        layout.step(3).output_offset + layout.step(3).sample_count == layout.step(0).sample_count
            + layout.step(1).sample_count + layout.step(2).sample_count + layout.step(3).sample_count,
        layout.step(3).output_offset + layout.step(3).sample_count <= layout.led_count,
        layout.pixels_per_led() <= layout.width && layout.pixels_per_led() <= layout.height ==> {
            &&& layout.step(0).output_offset < layout.step(1).output_offset
            &&& layout.step(1).output_offset < layout.step(2).output_offset
            &&& layout.step(2).output_offset < layout.step(3).output_offset
        },
{
    lemma_offsets(layout);
    lemma_pixels_per_led(layout);
    let ppl = layout.pixels_per_led();
    let n = layout.led_count as int;
    if ppl <= layout.width && ppl <= layout.height {
        lemma_band_shape(layout, 0);
        lemma_band_shape(layout, 1);
        lemma_band_shape(layout, 2);
        lemma_first_two_bands(layout);
        lemma_half_perimeter_below_strip(layout);
        let m0 = major_extent(layout.region(0), layout.scan(0));
        let m1 = major_extent(layout.region(1), layout.scan(1));
        let m2 = major_extent(layout.region(2), layout.scan(2));
        vstd::arithmetic::div_mod::lemma_div_is_ordered(ppl, m0, ppl);
        vstd::arithmetic::div_mod::lemma_div_is_ordered(ppl, m1, ppl);
        vstd::arithmetic::div_mod::lemma_div_is_ordered(ppl, m2, ppl);
        vstd::arithmetic::div_mod::lemma_div_by_self(ppl);
        lemma_whole_runs(m0, ppl, layout.runs(0));
        lemma_whole_runs(m1, ppl, layout.runs(1));
        let r0 = layout.runs(0);
        let r1 = layout.runs(1);
        assert(r0 + r1 < n) by (nonlinear_arith)
            requires
                r0 * ppl <= m0,
                r1 * ppl <= m1,
                m0 + m1 < n * ppl,
                ppl >= 1,
        ;
        assert(layout.count(0) == r0);
        assert(layout.count(1) == r1);
    }
}

/// A black frame lights every LED of the strip black, whatever the layout.
pub proof fn black_frame_gives_dark_strip(layout: Layout, pixels: Seq<Rgb>)
    requires
        layout.valid(),
        pixels.len() == layout.frame_width() * layout.frame_height(),
        forall|i: int| 0 <= i < pixels.len() ==> #[trigger] pixels[i] == (0u8, 0u8, 0u8),
    ensures
        forall|i: int| 0 <= i < layout.led_count ==> #[trigger] layout.led_color(pixels, i) == (0u8, 0u8, 0u8),
{
    let fw = layout.frame_width();
    let fh = layout.frame_height();
    let ppl = layout.pixels_per_led();
    let black = (0u8, 0u8, 0u8);
    lemma_offsets(layout);
    lemma_steps_fit(layout);
    assert forall|k: int| 0 <= k < 4 implies forall|j: int|
        0 <= j < (#[trigger] layout.step(k)).sample_count ==> edge_sample(pixels, fw, layout.step(k), ppl, j)
            == black by {
        let r = layout.step(k).region;
        assert(step_fits(layout.step(k), ppl, fw, fh));
        assert forall|x: int, y: int| crate::region::contains(r, x, y) implies #[trigger] crate::sampler::pixel_at(
            pixels,
            fw,
            x,
            y,
        ) == black by {
            assert(0 <= y * fw + x < fw * fh) by (nonlinear_arith)
                requires
                    0 <= x < fw,
                    0 <= y < fh,
            ;
        }
        crate::sampler::uniform_band_gives_its_color(pixels, fw, layout.step(k), ppl, black);
    }
    assert forall|i: int| 0 <= i < layout.led_count implies #[trigger] layout.led_color(pixels, i) == black by {
        if i < layout.offset(4) {
            let k = if i < layout.offset(1) {
                0int
            } else if i < layout.offset(2) {
                1int
            } else if i < layout.offset(3) {
                2int
            } else {
                3int
            };
            lemma_led_color_in_step(layout, pixels, k, i);
            assert(layout.step(k).sample_count == layout.count(k));
        }
    }
}

/// A fixed plan that maps the border of frames of one size to a strip.
pub struct TranslationEngine {
    layout: Layout,
    pixels_per_led: u64,
    steps: [EdgeStep; 4],
}

impl View for TranslationEngine {
    type V = Layout;

    closed spec fn view(&self) -> Layout {
        self.layout
    }
}

impl TranslationEngine {
    #[verifier::type_invariant]
    spec fn inv(self) -> bool {
        &&& self.layout.valid()
        &&& self.layout.width <= i32::MAX
        &&& self.layout.height <= i32::MAX
        &&& self.layout.thickness <= i32::MAX
        &&& self.pixels_per_led == self.layout.pixels_per_led()
        &&& forall|k: int| 0 <= k < 4 ==> self.steps@[k] == self.layout.step(k)
    }

    /// Builds the plan for a strip of `led_count` LEDs that starts at corner
    /// `start` and winds in `direction`, around a border `thickness` pixels
    /// deep whose interior corner lies at `(width, height)`.
    pub fn new(
        start: StartCorner,
        direction: Direction,
        width: i32,
        height: i32,
        thickness: i32,
        led_count: i32,
    ) -> (r: Result<TranslationEngine, EngineError>)
        ensures
            r is Ok <==> (thickness > 0 && 2 * thickness < width && 2 * thickness < height && led_count > 0
                && led_count <= 2 * width + 2 * height),
            r matches Ok(e) ==> e@ == (Layout {
                start_corner: start,
                direction: direction,
                width: width as usize,
                height: height as usize,
                thickness: thickness as usize,
                led_count: led_count as usize,
            }),
            r matches Ok(e) ==> e@.valid(),
            r matches Err(err) ==> err == EngineError::ConfigurationError,
    {
        if thickness <= 0 || led_count <= 0 || (width as i64) <= 2 * (thickness as i64) || (height as i64)
            <= 2 * (thickness as i64) {
            return Err(EngineError::ConfigurationError);
        }
        let w = width as usize;
        let h = height as usize;
        let t = thickness as usize;
        let n = led_count as usize;
        let perimeter: u64 = 2 * (w as u64) + 2 * (h as u64);
        if (n as u64) > perimeter {
            return Err(EngineError::ConfigurationError);
        }
        let layout = Layout {
            start_corner: start,
            direction: direction,
            width: w,
            height: h,
            thickness: t,
            led_count: n,
        };
        let ppl: u64 = perimeter / (n as u64);
        proof {
            lemma_pixels_per_led(layout);
        }
        let regions = border_regions(direction, w, h, t);
        let order = resolve_orientation(start, direction);
        let empty = EdgeStep {
            region: Region { x: 0, y: 0, width: 0, height: 0 },
            scan: ScanDirection::LeftToRight,
            output_offset: 0,
            sample_count: 0,
        };
        let mut steps = [empty; 4];
        let mut offset: usize = 0;
        let mut k: usize = 0;
        while k < 4
            invariant
                layout.valid(),
                layout.start_corner == start,
                layout.direction == direction,
                layout.width == w,
                layout.height == h,
                layout.thickness == t,
                layout.led_count == n,
                ppl == layout.pixels_per_led(),
                ppl >= 1,
                forall|e: int| 0 <= e < 4 ==> regions@[e] == border_region(direction, e as usize, w, h, t),
                forall|i: int|
                    0 <= i < 4 ==> order@[i] == (edge_at(start, direction, i), scan_at(start, direction, i)),
                k <= 4,
                offset == layout.offset(k as int),
                offset <= n,
                forall|i: int| 0 <= i < k ==> steps@[i] == layout.step(i),
            decreases 4 - k,
        {
            let (edge, scan) = order[k];
            proof {
                crate::region::walk_visits_each_band_once(start, direction);
            }
            let region = regions[edge];
            let extent: usize = match scan {
                ScanDirection::LeftToRight | ScanDirection::RightToLeft => region.width,
                ScanDirection::TopToBottom | ScanDirection::BottomToTop => region.height,
            };
            let runs: u64 = (extent as u64) / ppl;
            let room: usize = n - offset;
            let count: usize = if runs < (room as u64) {
                runs as usize
            } else {
                room
            };
            assert(region == layout.region(k as int));
            assert(extent == major_extent(region, scan));
            assert(count == layout.count(k as int));
            steps[k] = EdgeStep { region: region, scan: scan, output_offset: offset, sample_count: count };
            offset = offset + count;
            k = k + 1;
        }
        Ok(TranslationEngine { layout, pixels_per_led: ppl, steps })
    }
}

impl TranslationEngine {
    /// Samples the border of `frame` into `leds`: afterwards `leds` holds one
    /// colour per LED of the strip, each LED past the last band black. A frame
    /// of another size than the plan's is refused and `leds` left as it was.
    pub fn translate(&self, frame: &Frame, leds: &mut Vec<Rgb>) -> (r: Result<(), EngineError>)
        ensures
            r is Ok <==> (frame.width == self@.frame_width() && frame.height == self@.frame_height()
                && frame.wf()),
            r matches Err(e) ==> e == EngineError::DimensionMismatch && final(leds)@ == old(leds)@,
            r is Ok ==> final(leds)@.len() == self@.led_count,
            r is Ok ==> forall|i: int|
                0 <= i < self@.led_count ==> #[trigger] final(leds)@[i] == self@.led_color(frame.pixels@, i),
    {
        proof {
            use_type_invariant(self);
            lemma_offsets(self.layout);
            lemma_steps_fit(self.layout);
        }
        let layout = self.layout;
        let fw: usize = layout.width + layout.thickness;
        let fh: usize = layout.height + layout.thickness;
        proof {
            assert((fw as int) * (fh as int) <= u64::MAX) by (nonlinear_arith)
                requires
                    fw <= 2 * i32::MAX,
                    fh <= 2 * i32::MAX,
            ;
        }
        if frame.width != fw || frame.height != fh || (frame.pixels.len() as u64) != (fw as u64) * (fh as u64) {
            return Err(EngineError::DimensionMismatch);
        }
        leds.clear();
        let mut i: usize = 0;
        while i < layout.led_count
            invariant
                i <= layout.led_count,
                leds@.len() == i,
                forall|j: int| 0 <= j < i ==> leds@[j] == (0u8, 0u8, 0u8),
            decreases layout.led_count - i,
        {
            leds.push((0, 0, 0));
            i = i + 1;
        }
        let mut k: usize = 0;
        while k < 4
            invariant
                layout == self.layout,
                layout == self@,
                layout.valid(),
                frame.wf(),
                frame.width == layout.frame_width(),
                frame.height == layout.frame_height(),
                self.pixels_per_led == layout.pixels_per_led(),
                forall|s: int| 0 <= s < 4 ==> self.steps@[s] == layout.step(s),
                layout.offset(0) == 0,
                forall|s: int|
                    0 <= s < 4 ==> 0 <= #[trigger] layout.count(s) && layout.offset(s + 1) == layout.offset(s)
                        + layout.count(s) && layout.offset(s + 1) <= layout.led_count,
                forall|s: int|
                    0 <= s < 4 ==> step_fits(
                        #[trigger] layout.step(s),
                        layout.pixels_per_led(),
                        layout.frame_width(),
                        layout.frame_height(),
                    ),
                k <= 4,
                leds@.len() == layout.led_count,
                forall|j: int|
                    0 <= j < layout.led_count ==> #[trigger] leds@[j] == if j < layout.offset(k as int) {
                        layout.led_color(frame.pixels@, j)
                    } else {
                        (0u8, 0u8, 0u8)
                    },
            decreases 4 - k,
        {
            let step = self.steps[k];
            assert(step == layout.step(k as int));
            if step.sample_count > 0 {
                proof {
                    assert(step.sample_count * self.pixels_per_led <= major_extent(step.region, step.scan));
                    assert(self.pixels_per_led <= step.sample_count * self.pixels_per_led) by (nonlinear_arith)
                        requires
                            step.sample_count >= 1,
                            self.pixels_per_led >= 1,
                    ;
                }
                let ppl = self.pixels_per_led as usize;
                let ghost before = leds@;
                sample_edge(frame, &step, ppl, leds);
                proof {
                    assert forall|j: int| 0 <= j < layout.led_count implies #[trigger] leds@[j] == if j
                        < layout.offset(k + 1) {
                        layout.led_color(frame.pixels@, j)
                    } else {
                        (0u8, 0u8, 0u8)
                    } by {
                        if layout.offset(k as int) <= j < layout.offset(k + 1) {
                            lemma_led_color_in_step(layout, frame.pixels@, k as int, j);
                        } else {
                            assert(leds@[j] == before[j]);
                        }
                    }
                }
            }
            k = k + 1;
        }
        Ok(())
    }
}

impl TranslationEngine {
    /// The layout that the plan was built from.
    pub fn layout(&self) -> (r: Layout)
        ensures
            r == self@,
    {
        self.layout
    }

    /// The four steps of the plan, in the order in which the strip walks them.
    pub fn steps(&self) -> (r: [EdgeStep; 4])
        ensures
            forall|k: int| 0 <= k < 4 ==> r@[k] == self@.step(k),
    {
        proof {
            use_type_invariant(self);
        }
        self.steps
    }

    /// Number of consecutive border positions averaged into one LED.
    pub fn pixels_per_led(&self) -> (r: u64)
        ensures
            r == self@.pixels_per_led(),
    {
        proof {
            use_type_invariant(self);
        }
        self.pixels_per_led
    }
}

} // verus!
