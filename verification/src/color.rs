//! Colours and their textual forms.

use vstd::prelude::*;
use crate::text::{dec, hex2, push_char, push_dec, push_hex2, push_str, digit_char};

verus! {

/// An 8-bit-per-channel colour with alpha.
#[derive(Debug, Clone, Copy, PartialEq, Eq, Structural)]
pub struct ColorRgba {
    pub r: u8,
    pub g: u8,
    pub b: u8,
    pub a: u8,
}

impl Default for ColorRgba {
    /// Fully transparent black.
    fn default() -> (c: Self)
        ensures
            c == (ColorRgba { r: 0, g: 0, b: 0, a: 0 }),
    {
        ColorRgba { r: 0, g: 0, b: 0, a: 0 }
    }
}

/// The alpha channel as a fraction of 255, in hundredths, rounded to the
/// nearest hundredth. (A value exactly half-way between two hundredths
/// cannot occur, since 255 = 3 * 5 * 17 and `a * 100 / 255` has no
/// remainder of one half.)
pub open spec fn alpha_hundredths(a: u8) -> int {
    (a as int * 200 + 255) / 510
}

/// `X.YY` for a number of hundredths below 1000.
pub open spec fn fixed2(h: int) -> Seq<char> {
    dec((h / 100) as nat) + seq!['.', digit_char((h % 100) / 10), digit_char(h % 10)]
}

impl ColorRgba {
    pub fn new(r: u8, g: u8, b: u8, a: u8) -> (c: Self)
        ensures
            c == (ColorRgba { r, g, b, a }),
    {
        Self { r, g, b, a }
    }

    /// An opaque colour.
    pub fn rgb(r: u8, g: u8, b: u8) -> (c: Self)
        ensures
            c == (ColorRgba { r, g, b, a: 255 }),
    {
        Self { r, g, b, a: 255 }
    }

    pub open spec fn spec_hex_rgb(self) -> Seq<char> {
        seq!['#'] + hex2(self.r) + hex2(self.g) + hex2(self.b)
    }

    pub open spec fn spec_hex_rgba(self) -> Seq<char> {
        self.spec_hex_rgb() + hex2(self.a)
    }

    pub open spec fn spec_rgb_str(self) -> Seq<char> {
        "rgb("@ + dec(self.r as nat) + ", "@ + dec(self.g as nat) + ", "@ + dec(self.b as nat)
            + ")"@
    }

    pub open spec fn spec_rgba_str(self) -> Seq<char> {
        "rgba("@ + dec(self.r as nat) + ", "@ + dec(self.g as nat) + ", "@ + dec(self.b as nat)
            + ", "@ + fixed2(alpha_hundredths(self.a)) + ")"@
    }

    /// `#RRGGBB` in upper-case hexadecimal.
    pub fn to_hex_rgb(&self) -> (s: String)
        ensures
            s@ == self.spec_hex_rgb(),
    {
        let mut s = String::new();
        push_char(&mut s, '#');
        push_hex2(&mut s, self.r);
        push_hex2(&mut s, self.g);
        push_hex2(&mut s, self.b);
        s
    }

    /// `#RRGGBBAA` in upper-case hexadecimal.
    pub fn to_hex_rgba(&self) -> (s: String)
        ensures
            s@ == self.spec_hex_rgba(),
    {
        let mut s = self.to_hex_rgb();
        push_hex2(&mut s, self.a);
        s
    }

    /// `rgb(R, G, B)` in decimal.
    pub fn to_rgb_str(&self) -> (s: String)
        ensures
            s@ == self.spec_rgb_str(),
    {
        let mut s = String::new();
        push_str(&mut s, "rgb(");
        push_dec(&mut s, self.r as u64);
        push_str(&mut s, ", ");
        push_dec(&mut s, self.g as u64);
        push_str(&mut s, ", ");
        push_dec(&mut s, self.b as u64);
        push_str(&mut s, ")");
        s
    }

    /// `rgba(R, G, B, A)` with the alpha written as a fraction of 255 with two
    /// decimals.
    pub fn to_rgba_str(&self) -> (s: String)
        ensures
            s@ == self.spec_rgba_str(),
    {
        let mut s = String::new();
        push_str(&mut s, "rgba(");
        push_dec(&mut s, self.r as u64);
        push_str(&mut s, ", ");
        push_dec(&mut s, self.g as u64);
        push_str(&mut s, ", ");
        push_dec(&mut s, self.b as u64);
        push_str(&mut s, ", ");
        let h: u64 = (self.a as u64 * 200 + 255) / 510;
        assert(h <= 100);
        push_dec(&mut s, h / 100);
        push_char(&mut s, '.');
        push_dec(&mut s, (h % 100) / 10);
        push_dec(&mut s, h % 10);
        push_str(&mut s, ")");
        assert(dec(((h % 100) / 10) as nat) == seq![digit_char((h % 100) as int / 10)]);
        assert(dec((h % 10) as nat) == seq![digit_char(h as int % 10)]);
        s
    }
}

} // verus!
