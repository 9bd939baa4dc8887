use vstd::prelude::*;

verus! {

/// An 8-bit colour with straight (not premultiplied) alpha.
#[derive(Clone, Copy, Debug, PartialEq, Eq, Structural)]
pub struct Rgba {
    pub r: u8,
    pub g: u8,
    pub b: u8,
    pub a: u8,
}

impl Rgba {
    pub fn new(r: u8, g: u8, b: u8, a: u8) -> (c: Rgba)
        ensures
            c == (Rgba { r, g, b, a }),
    {
        Rgba { r, g, b, a }
    }

    pub fn black() -> (c: Rgba)
        ensures
            c == (Rgba { r: 0, g: 0, b: 0, a: 255 }),
    {
        Rgba { r: 0, g: 0, b: 0, a: 255 }
    }

    pub fn white() -> (c: Rgba)
        ensures
            c == (Rgba { r: 255, g: 255, b: 255, a: 255 }),
    {
        Rgba { r: 255, g: 255, b: 255, a: 255 }
    }

    /// The colour as `[r, g, b, a]`.
    pub fn to_array(&self) -> (out: [u8; 4])
        ensures
            out@ == seq![self.r, self.g, self.b, self.a],
    {
        [self.r, self.g, self.b, self.a]
    }

    pub fn from_array(v: [u8; 4]) -> (c: Rgba)
        ensures
            c == (Rgba { r: v@[0], g: v@[1], b: v@[2], a: v@[3] }),
    {
        Rgba { r: v[0], g: v[1], b: v[2], a: v[3] }
    }

    /// The same colour with another alpha.
    pub fn with_alpha(&self, a: u8) -> (c: Rgba)
        ensures
            c == (Rgba { a, ..*self }),
    {
        Rgba { r: self.r, g: self.g, b: self.b, a }
    }
}

/// Equality of two pixels, where `None` is an unpainted pixel.
pub fn same_pixel(p: Option<Rgba>, q: Option<Rgba>) -> (eq: bool)
    ensures
        eq == (p == q),
{
    match (p, q) {
        (None, None) => true,
        (Some(a), Some(b)) => a == b,
        _ => false,
    }
}

} // verus!
