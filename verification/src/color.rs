//! Eight-bit RGB colours and per-channel brightness ramps.

use vstd::prelude::*;

verus! {

/// A colour of three 8-bit channels.
#[derive(Debug, PartialEq, Eq, Structural, Copy, Clone, Hash)]
pub struct Color {
    pub r: u8,
    pub g: u8,
    pub b: u8,
}

impl Color {
    /// The colour with the given channels.
    pub fn new(r: u8, g: u8, b: u8) -> (c: Color)
        ensures
            c == (Color { r, g, b }),
    {
        Color { r, g, b }
    }

    pub fn white() -> (c: Color)
        ensures
            c == (Color { r: 255, g: 255, b: 255 }),
    {
        Color::new(255, 255, 255)
    }

    pub fn black() -> (c: Color)
        ensures
            c == (Color { r: 0, g: 0, b: 0 }),
    {
        Color::new(0, 0, 0)
    }

    pub fn red() -> (c: Color)
        ensures
            c == (Color { r: 255, g: 0, b: 0 }),
    {
        Color::new(255, 0, 0)
    }

    pub fn green() -> (c: Color)
        ensures
            c == (Color { r: 0, g: 255, b: 0 }),
    {
        Color::new(0, 255, 0)
    }

    pub fn blue() -> (c: Color)
        ensures
            c == (Color { r: 0, g: 0, b: 255 }),
    {
        Color::new(0, 0, 255)
    }

    /// This colour with every channel looked up in `ramp`.
    pub open spec fn lit(self, ramp: LightRamp) -> Color {
        Color {
            r: ramp.levels[self.r as int],
            g: ramp.levels[self.g as int],
            b: ramp.levels[self.b as int],
        }
    }

    /// Applies a brightness ramp to each channel.
    pub fn shaded(&self, ramp: &LightRamp) -> (c: Color)
        ensures
            c == self.lit(*ramp),
    {
        Color {
            r: ramp.levels[self.r as usize],
            g: ramp.levels[self.g as usize],
            b: ramp.levels[self.b as usize],
        }
    }
}

/// A brightness factor tabulated over the 256 channel values: entry `v` is
/// the channel value that `v` becomes under the light.
#[derive(Debug, Copy, Clone)]
pub struct LightRamp {
    pub levels: [u8; 256],
}

impl LightRamp {
    /// The ramp that leaves every channel as it is.
    pub fn identity() -> (ramp: LightRamp)
        ensures
            forall|v: int| 0 <= v < 256 ==> #[trigger] ramp.levels[v] == v,
    {
        let mut levels: [u8; 256] = [0u8; 256];
        let mut v: usize = 0;
        while v < 256
            invariant
                v <= 256,
                forall|k: int| 0 <= k < v ==> #[trigger] levels[k] == k,
            decreases 256 - v,
        {
            levels[v] = v as u8;
            v += 1;
        }
        LightRamp { levels }
    }
}

} // verus!
