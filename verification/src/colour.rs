//! An RGBA colour, one byte per channel.

use vstd::prelude::*;

verus! {

#[derive(Clone, Copy, PartialEq, Eq, Structural, Debug)]
pub struct Colour {
    pub red: u8,
    pub green: u8,
    pub blue: u8,
    pub alpha: u8,
}

impl Colour {
    pub fn new(red: u8, green: u8, blue: u8, alpha: u8) -> (c: Colour)
        ensures
            c == (Colour { red, green, blue, alpha }),
    {
        Colour { red, green, blue, alpha }
    }
}

} // verus!
