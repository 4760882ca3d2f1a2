//! Colors as plain 8-bit RGB triples, with the 24-bit packed form used by the
//! triangle file format and the hex notation accepted on the command line.

use vstd::prelude::*;
use crate::text::chars_of;

verus! {

#[derive(PartialEq, Eq, Structural, Clone, Copy, Debug, Hash)]
pub struct Color {
    pub r: u8,
    pub g: u8,
    pub b: u8,
}

impl Color {
    /// The color packed as an unsigned 24-bit integer, `0xRRGGBB`.
    pub open spec fn spec_rgb_u32(self) -> u32 {
        (self.r * 0x10000 + self.g * 0x100 + self.b) as u32
    }

    /// The color held in the low 24 bits of `v`; higher bits are ignored.
    pub open spec fn spec_from_rgb_u32(v: u32) -> Color {
        Color {
            r: ((v / 0x10000) % 0x100) as u8,
            g: ((v / 0x100) % 0x100) as u8,
            b: (v % 0x100) as u8,
        }
    }

    pub fn to_rgb_u32(&self) -> (v: u32)
        ensures
            v == self.spec_rgb_u32(),
            v <= 0xFFFFFF,
    {
        (self.r as u32) * 0x10000 + (self.g as u32) * 0x100 + (self.b as u32)
    }

    pub fn from_rgb_u32(v: u32) -> (c: Color)
        ensures
            c == Color::spec_from_rgb_u32(v),
    {
        Color { r: ((v / 0x10000) % 0x100) as u8, g: ((v / 0x100) % 0x100) as u8, b: (v % 0x100) as u8 }
    }
}

/// Packing a color into its 24-bit integer and unpacking it again restores
/// the color.
pub proof fn lemma_rgb_u32_round_trip(c: Color)
    ensures
        Color::spec_from_rgb_u32(c.spec_rgb_u32()) == c,
{
    let v = c.r * 0x10000 + c.g * 0x100 + c.b;
    assert(v / 0x10000 % 0x100 == c.r && v / 0x100 % 0x100 == c.g && v % 0x100 == c.b)
        by (nonlinear_arith)
        requires
            v == c.r * 0x10000 + c.g * 0x100 + c.b,
            c.r < 0x100,
            c.g < 0x100,
            c.b < 0x100,
    ;
}

pub open spec fn is_hex_digit(c: char) -> bool {
    ('0' <= c && c <= '9') || ('a' <= c && c <= 'f') || ('A' <= c && c <= 'F')
}

pub open spec fn hex_val(c: char) -> int {
    if '0' <= c && c <= '9' {
        c as int - '0' as int
    } else if 'a' <= c && c <= 'f' {
        c as int - 'a' as int + 10
    } else {
        c as int - 'A' as int + 10
    }
}

/// The notation with any leading `#` marks removed.
pub open spec fn strip_hashes(s: Seq<char>) -> Seq<char>
    decreases s.len(),
{
    if s.len() > 0 && s[0] == '#' {
        strip_hashes(s.drop_first())
    } else {
        s
    }
}

/// A hex color notation: optional leading `#` marks, then hex digits only,
/// at least six of them.
pub open spec fn valid_hex_color(s: Seq<char>) -> bool {
    &&& strip_hashes(s).len() >= 6
    &&& forall|j: int| 0 <= j < strip_hashes(s).len() ==> is_hex_digit(#[trigger] strip_hashes(s)[j])
}

/// The color written by a hex notation: the first six stripped digits, as
/// three two-digit components.
pub open spec fn color_of_hex(s: Seq<char>) -> Color {
    let t = strip_hashes(s);
    Color {
        r: (hex_val(t[0]) * 16 + hex_val(t[1])) as u8,
        g: (hex_val(t[2]) * 16 + hex_val(t[3])) as u8,
        b: (hex_val(t[4]) * 16 + hex_val(t[5])) as u8,
    }
}

proof fn lemma_strip_hashes_skip(s: Seq<char>, i: int)
    requires
        0 <= i <= s.len(),
        forall|j: int| 0 <= j < i ==> s[j] == '#',
        i == s.len() || s[i] != '#',
    ensures
        strip_hashes(s) == s.skip(i),
    decreases i,
{
    if i == 0 {
        assert(strip_hashes(s) =~= s.skip(0));
    } else {
        lemma_strip_hashes_skip(s.drop_first(), i - 1);
        assert(s.drop_first().skip(i - 1) =~= s.skip(i));
    }
}

fn hex_digit_value(c: char) -> (v: u8)
    requires
        is_hex_digit(c),
    ensures
        v == hex_val(c),
        v < 16,
{
    let u = c as u32;
    if u >= '0' as u32 && u <= '9' as u32 {
        (u - '0' as u32) as u8
    } else if u >= 'a' as u32 && u <= 'f' as u32 {
        (u - 'a' as u32 + 10) as u8
    } else {
        (u - 'A' as u32 + 10) as u8
    }
}

/// Reads a hex color notation such as `#ff00aa`, taking the first six hex
/// digits after any leading `#` marks as the three color components.
pub fn str2col(s: &str) -> (c: Color)
    requires
        valid_hex_color(s@),
    ensures
        c == color_of_hex(s@),
{
    let v = chars_of(s);
    let mut i: usize = 0;
    while i < v.len() && v[i] == '#'
        invariant
            v@ == s@,
            0 <= i <= v.len(),
            forall|j: int| 0 <= j < i ==> v@[j] == '#',
        decreases v.len() - i,
    {
        i += 1;
    }
    proof {
        lemma_strip_hashes_skip(s@, i as int);
        let t = strip_hashes(s@);
        assert(forall|j: int| 0 <= j < t.len() ==> #[trigger] t[j] == s@[i + j]);
        assert(is_hex_digit(t[0]) && is_hex_digit(t[1]) && is_hex_digit(t[2])
            && is_hex_digit(t[3]) && is_hex_digit(t[4]) && is_hex_digit(t[5]));
    }
    let r = hex_digit_value(v[i]) * 16 + hex_digit_value(v[i + 1]);
    let g = hex_digit_value(v[i + 2]) * 16 + hex_digit_value(v[i + 3]);
    let b = hex_digit_value(v[i + 4]) * 16 + hex_digit_value(v[i + 5]);
    Color { r, g, b }
}

} // verus!
