use vstd::arithmetic::div_mod::{
    lemma_fundamental_div_mod_converse_div, lemma_fundamental_div_mod_converse_mod,
};
use vstd::prelude::*;

verus! {

/// The word that packs red, green, blue and alpha, most significant first.
pub open spec fn rgba(r: int, g: int, b: int, a: int) -> int {
    r * 0x100_0000 + g * 0x1_0000 + b * 0x100 + a
}

/// Red channel of a packed word.
pub open spec fn red_of(c: u32) -> u8 {
    (c as int / 0x100_0000) as u8
}

/// Green channel of a packed word.
pub open spec fn green_of(c: u32) -> u8 {
    ((c as int / 0x1_0000) % 0x100) as u8
}

/// Blue channel of a packed word.
pub open spec fn blue_of(c: u32) -> u8 {
    ((c as int / 0x100) % 0x100) as u8
}

/// Alpha channel of a packed word.
pub open spec fn alpha_of(c: u32) -> u8 {
    (c as int % 0x100) as u8
}

/// The channels of a packed word are the ones packed into it.
pub proof fn lemma_rgba_channels(r: int, g: int, b: int, a: int)
    requires
        0 <= r < 256,
        0 <= g < 256,
        0 <= b < 256,
        0 <= a < 256,
    ensures
        0 <= rgba(r, g, b, a) <= 0xffff_ffff,
        rgba(r, g, b, a) / 0x100_0000 == r,
        (rgba(r, g, b, a) / 0x1_0000) % 0x100 == g,
        (rgba(r, g, b, a) / 0x100) % 0x100 == b,
        rgba(r, g, b, a) % 0x100 == a,
{
    let c = rgba(r, g, b, a);
    lemma_fundamental_div_mod_converse_div(c, 0x100_0000, r, g * 0x1_0000 + b * 0x100 + a);
    lemma_fundamental_div_mod_converse_div(c, 0x1_0000, r * 0x100 + g, b * 0x100 + a);
    lemma_fundamental_div_mod_converse_mod(r * 0x100 + g, 0x100, r, g);
    lemma_fundamental_div_mod_converse_div(c, 0x100, (r * 0x100 + g) * 0x100 + b, a);
    lemma_fundamental_div_mod_converse_mod((r * 0x100 + g) * 0x100 + b, 0x100, r * 0x100 + g, b);
    lemma_fundamental_div_mod_converse_mod(c, 0x100, (r * 0x100 + g) * 0x100 + b, a);
}

/// Pack four channels into one word.
pub fn pack(r: u8, g: u8, b: u8, a: u8) -> (c: u32)
    ensures
        c == rgba(r as int, g as int, b as int, a as int),
        red_of(c) == r,
        green_of(c) == g,
        blue_of(c) == b,
        alpha_of(c) == a,
{
    let c = (r as u32) * 0x100_0000 + (g as u32) * 0x1_0000 + (b as u32) * 0x100 + (a as u32);
    proof {
        lemma_rgba_channels(r as int, g as int, b as int, a as int);
    }
    c
}

/// Split a word into its four channels.
pub fn unpack(c: u32) -> (r: (u8, u8, u8, u8))
    ensures
        r == (red_of(c), green_of(c), blue_of(c), alpha_of(c)),
        c == rgba(r.0 as int, r.1 as int, r.2 as int, r.3 as int),
{
    let r = (c / 0x100_0000) as u8;
    let g = ((c / 0x1_0000) % 0x100) as u8;
    let b = ((c / 0x100) % 0x100) as u8;
    let a = (c % 0x100) as u8;
    proof {
        let ci = c as int;
        assert(ci / 0x100_0000 < 0x100);
        let hi = ci / 0x1_0000;
        let mid = ci / 0x100;
        assert(ci == 0x100 * mid + ci % 0x100);
        assert(mid == 0x100 * (mid / 0x100) + mid % 0x100);
        assert(mid / 0x100 == hi) by {
            vstd::arithmetic::div_mod::lemma_div_denominator(ci, 0x100, 0x100);
        }
        assert(hi == 0x100 * (hi / 0x100) + hi % 0x100);
        assert(hi / 0x100 == ci / 0x100_0000) by {
            vstd::arithmetic::div_mod::lemma_div_denominator(ci, 0x1_0000, 0x100);
        }
    }
    (r, g, b, a)
}

} // verus!
