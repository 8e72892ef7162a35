//! Colours and the mapping from text to tiles of the character set.
use vstd::prelude::*;

verus! {

/// A colour as red, green, blue and alpha bytes. Alpha 255 is opaque; alpha 0 with colour
/// bytes marks a colour that is added to what lies below.
#[derive(Clone, Copy, Debug)]
pub struct Color(pub [u8; 4]);

impl Color {
    /// An opaque colour.
    pub fn from_rgb(r: u8, g: u8, b: u8) -> (c: Color)
        ensures
            c.0@ == seq![r, g, b, 255u8],
    {
        let c = Color([r, g, b, 255]);
        proof {
            assert(c.0@ =~= seq![r, g, b, 255u8]);
        }
        c
    }

    /// A colour with the given alpha.
    pub fn from_rgba(r: u8, g: u8, b: u8, a: u8) -> (c: Color)
        ensures
            c.0@ == seq![r, g, b, a],
    {
        let c = Color([r, g, b, a]);
        proof {
            assert(c.0@ =~= seq![r, g, b, a]);
        }
        c
    }

    /// A colour that is added to what lies below it.
    pub fn from_rgb_additive(r: u8, g: u8, b: u8) -> (c: Color)
        ensures
            c.0@ == seq![r, g, b, 0u8],
    {
        let c = Color([r, g, b, 0]);
        proof {
            assert(c.0@ =~= seq![r, g, b, 0u8]);
        }
        c
    }

    /// Nothing: every byte zero.
    pub fn clear() -> (c: Color)
        ensures
            c.0@ == seq![0u8, 0u8, 0u8, 0u8],
    {
        let c = Color([0, 0, 0, 0]);
        proof {
            assert(c.0@ =~= seq![0u8, 0u8, 0u8, 0u8]);
        }
        c
    }

    /// The four bytes.
    pub fn get_inner(&self) -> (r: &[u8; 4])
        ensures
            r@ == self.0@,
    {
        &self.0
    }

    /// Alpha is 255.
    pub fn is_opaque(&self) -> (r: bool)
        ensures
            r == (self.0@[3] == 255),
    {
        self.0[3] == 255
    }

    /// The alpha byte.
    pub fn get_alpha(&self) -> (r: u8)
        ensures
            r == self.0@[3],
    {
        self.0[3]
    }

    /// The colour packed as `0x00BBGGRR`, the form the screen takes.
    pub fn to_u32(&self) -> (r: u32)
        ensures
            r == self.0@[0] as u32 + self.0@[1] as u32 * 0x100 + self.0@[2] as u32 * 0x1_0000,
    {
        let r = self.0[0] as u32;
        let g = self.0[1] as u32;
        let b = self.0[2] as u32;
        let v = r | (g << 8) | (b << 16);
        assert(v == r + g * 0x100 + b * 0x1_0000) by (bit_vector)
            requires
                v == r | (g << 8u32) | (b << 16u32),
                r < 256,
                g < 256,
                b < 256,
        ;
        v
    }

    /// The opaque colour packed in the low three bytes of `v` as `0x00BBGGRR`.
    pub fn from_u32(v: u32) -> (c: Color)
        ensures
            c.0@ == seq![(v % 0x100) as u8, ((v / 0x100) % 0x100) as u8, ((v / 0x1_0000) % 0x100) as u8, 255u8],
    {
        let r = v & 255;
        let g = (v >> 8) & 255;
        let b = (v >> 16) & 255;
        assert(r == v % 0x100 && g == (v / 0x100) % 0x100 && b == (v / 0x1_0000) % 0x100) by (bit_vector)
            requires
                r == v & 255u32,
                g == (v >> 8u32) & 255u32,
                b == (v >> 16u32) & 255u32,
        ;
        Color::from_rgb(r as u8, g as u8, b as u8)
    }
}

/// The tile of the character set that shows byte `c`: letters, digits, space, `!`, `#`, `/`
/// and `~`; every other byte shows as tile 0, a blank.
pub open spec fn tile_of(c: u8) -> u8 {
    if 97 <= c <= 122 {
        (c - 97 + 65) as u8
    } else if 65 <= c <= 90 {
        (c - 65 + 33) as u8
    } else if 48 <= c <= 57 {
        (c - 48 + 16) as u8
    } else if c == 33 {
        1
    } else if c == 35 {
        3
    } else if c == 47 {
        15
    } else if c == 126 {
        94
    } else {
        0
    }
}

/// The tile of byte `c`.
fn char_tile(c: u8) -> (r: u8)
    ensures
        r == tile_of(c),
{
    if 97 <= c && c <= 122 {
        c - 97 + 65
    } else if 65 <= c && c <= 90 {
        c - 65 + 33
    } else if 48 <= c && c <= 57 {
        c - 48 + 16
    } else if c == 33 {
        1
    } else if c == 35 {
        3
    } else if c == 47 {
        15
    } else if c == 126 {
        94
    } else {
        0
    }
}

/// The tiles that show the bytes of `s`, one for one.
pub fn convert_str<const S: usize>(s: &[u8; S]) -> (r: [u8; S])
    ensures
        forall|i: int| 0 <= i < S ==> r[i] == tile_of(#[trigger] s[i]),
{
    let mut conv = [0u8; S];
    let mut i: usize = 0;
    while i < S
        invariant
            0 <= i <= S,
            forall|j: int| 0 <= j < i ==> conv[j] == tile_of(#[trigger] s[j]),
        decreases S - i,
    {
        conv[i] = char_tile(s[i]);
        i += 1;
    }
    conv
}

} // verus!
