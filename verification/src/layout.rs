//! Where the LEDs are.
use vstd::prelude::*;

verus! {

/// LED positions on the 0..=255 grid that effects are computed on, in frame
/// buffer order.
pub trait LedLayout {
    /// The positions as a sequence.
    spec fn leds(&self) -> Seq<(u8, u8)>;

    /// Number of LEDs.
    fn count(&self) -> (n: usize)
        ensures
            n == self.leds().len(),
    ;

    /// Position of one LED as `(x, y)`.
    fn position(&self, index: usize) -> (at: (u8, u8))
        requires
            index < self.leds().len(),
        ensures
            at == self.leds()[index as int],
    ;
}

/// A layout read from a slice of positions.
#[derive(Copy, Clone, Debug)]
pub struct SliceLayout<'a> {
    positions: &'a [(u8, u8)],
}

impl<'a> SliceLayout<'a> {
    pub fn new(positions: &'a [(u8, u8)]) -> (layout: Self)
        ensures
            layout.leds() == positions@,
    {
        Self { positions }
    }
}

impl<'a> LedLayout for SliceLayout<'a> {
    closed spec fn leds(&self) -> Seq<(u8, u8)> {
        self.positions@
    }

    fn count(&self) -> (n: usize) {
        self.positions.len()
    }

    fn position(&self, index: usize) -> (at: (u8, u8)) {
        self.positions[index]
    }
}

} // verus!
