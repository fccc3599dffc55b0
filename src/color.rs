use vstd::prelude::*;

verus! {

/// An 8-bit RGBA colour.
#[derive(Copy, Clone, Debug, PartialEq, Eq, Structural, Hash)]
pub struct Color {
    pub r: u8,
    pub g: u8,
    pub b: u8,
    pub a: u8,
}

/// A colour as its four channels, red first.
pub type ColorRaw = [u8; 4];

/// The colour of the given channels.
pub fn rgba(r: u8, g: u8, b: u8, a: u8) -> (c: Color)
    ensures
        c == (Color { r, g, b, a }),
{
    Color { r, g, b, a }
}

/// The opaque colour of the given channels.
pub fn rgb(r: u8, g: u8, b: u8) -> (c: Color)
    ensures
        c == (Color { r, g, b, a: 255 }),
{
    Color { r, g, b, a: 255 }
}

impl Color {
    /// The channels in the order red, green, blue, alpha.
    pub fn raw(&self) -> (c: ColorRaw)
        ensures
            c@ == seq![self.r, self.g, self.b, self.a],
    {
        let c = [self.r, self.g, self.b, self.a];
        assert(c@ =~= seq![self.r, self.g, self.b, self.a]);
        c
    }

    /// The channels in the order red, green, blue, alpha.
    pub fn tup(&self) -> (c: (u8, u8, u8, u8))
        ensures
            c == (self.r, self.g, self.b, self.a),
    {
        (self.r, self.g, self.b, self.a)
    }
}

} // verus!
