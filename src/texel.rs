use vstd::prelude::*;

verus! {

/// One texel, channels in the order blue, green, red, alpha.
#[derive(Clone, Copy, Debug, PartialEq, Eq, Structural)]
pub struct Texel {
    pub b: u32,
    pub g: u32,
    pub r: u32,
    pub a: u32,
}

impl Texel {
    /// A texel from its channels, given in layout order.
    pub fn new(b_u32: u32, g_u32: u32, r_u32: u32, a_u32: u32) -> (t: Texel)
        ensures
            t.b == b_u32,
            t.g == g_u32,
            t.r == r_u32,
            t.a == a_u32,
    {
        Texel { b: b_u32, g: g_u32, r: r_u32, a: a_u32 }
    }
}

} // verus!
