use vstd::prelude::*;

verus! {

/// An RGBA colour with eight bits per channel.
#[derive(Clone, Copy, Debug, PartialEq, Eq, Structural)]
pub struct Color {
    pub r: u8,
    pub g: u8,
    pub b: u8,
    pub a: u8,
}

impl Color {
    /// A fully opaque colour.
    pub fn opaque(r: u8, g: u8, b: u8) -> (c: Color)
        ensures
            c == (Color { r, g, b, a: 255 }),
    {
        Color { r, g, b, a: 255 }
    }

    /// The channels in the order red, green, blue, alpha.
    pub fn channels(&self) -> (ch: [u8; 4])
        ensures
            ch@ == seq![self.r, self.g, self.b, self.a],
    {
        [self.r, self.g, self.b, self.a]
    }
}

/// The colour a cell shows until it is clicked.
pub open spec fn spec_idle() -> Color {
    Color { r: 20, g: 80, b: 240, a: 255 }
}

/// The colour a clicked cell turns to.
pub open spec fn spec_marked() -> Color {
    Color { r: 20, g: 240, b: 80, a: 255 }
}

#[verifier::when_used_as_spec(spec_idle)]
pub fn idle() -> (c: Color)
    ensures
        c == spec_idle(),
{
    Color { r: 20, g: 80, b: 240, a: 255 }
}

#[verifier::when_used_as_spec(spec_marked)]
pub fn marked() -> (c: Color)
    ensures
        c == spec_marked(),
{
    Color { r: 20, g: 240, b: 80, a: 255 }
}

/// The colour a click turns `c` to: the idle colour becomes the marked one,
/// and every other colour becomes the idle one.
pub fn toggled(c: Color) -> (t: Color)
    ensures
        t == (if c == spec_idle() { spec_marked() } else { spec_idle() }),
{
    if c == idle() {
        marked()
    } else {
        idle()
    }
}

/// The least time, in milliseconds, that must pass after an accepted click
/// before another one is accepted.
pub const CLICK_INTERVAL_MS: i64 = 300;

/// Whether a click that comes `elapsed_ms` milliseconds after the last
/// accepted one is accepted.
pub fn accepts_click(elapsed_ms: i64) -> (ok: bool)
    ensures
        ok == (elapsed_ms > CLICK_INTERVAL_MS),
{
    elapsed_ms > CLICK_INTERVAL_MS
}

} // verus!
