//! Colours of eight bits for each channel and their packed 24-bit form.

use vstd::prelude::*;

verus! {

/// A colour quantised to eight bits per channel.
#[derive(Clone, Copy, Debug, PartialEq, Eq, Structural)]
pub struct Rgb {
    pub red: u8,
    pub green: u8,
    pub blue: u8,
}

/// One of the three channels of a colour.
pub enum Channel {
    Red,
    Green,
    Blue,
}

impl Rgb {
    /// The value of one channel, between 0 and 255.
    pub open spec fn channel(self, c: Channel) -> int {
        match c {
            Channel::Red => self.red as int,
            Channel::Green => self.green as int,
            Channel::Blue => self.blue as int,
        }
    }
}

/// The packed 24-bit value of a colour: red in bits 16..24, green in bits 8..16, blue in bits 0..8.
pub open spec fn pack_spec(color: Rgb) -> u32 {
    (color.red as u32 * 65536 + color.green as u32 * 256 + color.blue as u32) as u32
}

/// The colour held in the low 24 bits of a packed value.
pub open spec fn unpack_spec(packed: u32) -> Rgb {
    Rgb {
        red: ((packed / 65536) % 256) as u8,
        green: ((packed / 256) % 256) as u8,
        blue: (packed % 256) as u8,
    }
}

pub fn packed_color(color: Rgb) -> (packed: u32)
    ensures
        packed == pack_spec(color),
        packed < 0x100_0000,
{
    let red: u32 = color.red as u32;
    let green: u32 = color.green as u32;
    let blue: u32 = color.blue as u32;
    assert((red << 16) | (green << 8) | blue == red * 65536 + green * 256 + blue) by (bit_vector)
        requires
            red < 256,
            green < 256,
            blue < 256,
    ;
    (red << 16) | (green << 8) | blue
}

pub fn unpack_color(color: u32) -> (rgb: Rgb)
    ensures
        rgb == unpack_spec(color),
{
    assert((color >> 16) & 0xff == (color / 65536) % 256) by (bit_vector);
    assert((color >> 8) & 0xff == (color / 256) % 256) by (bit_vector);
    assert(color & 0xff == color % 256) by (bit_vector);
    let red: u8 = ((color >> 16) & 0xff) as u8;
    let green: u8 = ((color >> 8) & 0xff) as u8;
    let blue: u8 = (color & 0xff) as u8;
    Rgb { red, green, blue }
}

/// Unpacking a packed colour gives the colour back.
pub proof fn lemma_unpack_pack(color: Rgb)
    ensures
        unpack_spec(pack_spec(color)) == color,
{
    let r = color.red as int;
    let g = color.green as int;
    let b = color.blue as int;
    let p = r * 65536 + g * 256 + b;
    assert(pack_spec(color) == p);
    vstd::arithmetic::div_mod::lemma_fundamental_div_mod_converse(p, 65536, r, g * 256 + b);
    vstd::arithmetic::div_mod::lemma_fundamental_div_mod_converse(p, 256, r * 256 + g, b);
    vstd::arithmetic::div_mod::lemma_fundamental_div_mod_converse(r * 256 + g, 256, r, g);
    vstd::arithmetic::div_mod::lemma_fundamental_div_mod_converse(r, 256, 0, r);
}

/// Packing the colour of a 24-bit value gives the value back.
pub proof fn lemma_pack_unpack(packed: u32)
    requires
        packed < 0x100_0000,
    ensures
        pack_spec(unpack_spec(packed)) == packed,
{
    let p = packed as int;
    vstd::arithmetic::div_mod::lemma_fundamental_div_mod(p, 256);
    vstd::arithmetic::div_mod::lemma_fundamental_div_mod(p / 256, 256);
    assert((p / 256) / 256 == p / 65536) by (nonlinear_arith)
        requires
            0 <= p,
    ;
    assert(p / 65536 < 256);
    vstd::arithmetic::div_mod::lemma_fundamental_div_mod_converse(p / 65536, 256, 0, p / 65536);
}

} // verus!
