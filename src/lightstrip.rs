//! A strip of LEDs that is written one LED after the other.

use vstd::prelude::*;

verus! {

/// The colours of a strip, with a cursor on the LED that is written next.
pub struct Lightstrip {
    pub leds: Vec<(u8, u8, u8)>,
    current: i32,
}

impl Lightstrip {
    /// The colours of the strip, first LED first.
    pub closed spec fn colors(&self) -> Seq<(u8, u8, u8)> {
        self.leds@
    }

    /// Index of the LED that `set` writes.
    pub closed spec fn cursor(&self) -> int {
        self.current as int
    }

    /// A dark strip of `num_leds` LEDs with the cursor on the first one.
    pub fn new(num_leds: i32) -> (r: Self)
        requires
            num_leds >= 0,
        ensures
            r.colors().len() == num_leds,
            forall|i: int| 0 <= i < num_leds ==> r.colors()[i] == (0u8, 0u8, 0u8),
            r.cursor() == 0,
    {
        let mut leds: Vec<(u8, u8, u8)> = Vec::new();
        let mut i: i32 = 0;
        while i < num_leds
            invariant
                0 <= i <= num_leds,
                leds@.len() == i,
                forall|k: int| 0 <= k < i ==> leds@[k] == (0u8, 0u8, 0u8),
            decreases num_leds - i,
        {
            leds.push((0, 0, 0));
            i = i + 1;
        }
        Lightstrip { leds, current: 0 }
    }

    /// Sets the LED under the cursor to `p`.
    pub fn set(&mut self, p: (u8, u8, u8))
        requires
            0 <= old(self).cursor() < old(self).colors().len(),
        ensures
            final(self).colors() == old(self).colors().update(old(self).cursor(), p),
            final(self).cursor() == old(self).cursor(),
    {
        let i = self.current as usize;
        self.leds.set(i, p);
    }

    /// Moves the cursor to the next LED.
    pub fn next(&mut self)
        requires
            old(self).cursor() < i32::MAX,
        ensures
            final(self).colors() == old(self).colors(),
            final(self).cursor() == old(self).cursor() + 1,
    {
        self.current = self.current + 1;
    }
}

} // verus!
