//! SVG colour values as 8-bit sRGB triples: `#rgb`, `#rrggbb` and a set of
//! named colours.
use vstd::prelude::*;

use crate::text::{ascii_lower, char_to_lower, chars_of, trim, trim_range};

verus! {

/// The value of a hexadecimal digit (`char::to_digit(16)`).
pub open spec fn hex_digit(c: char) -> Option<u8> {
    if '0' <= c <= '9' {
        Some(((c as u32) - 0x30) as u8)
    } else if 'a' <= c <= 'f' {
        Some(((c as u32) - 0x61 + 10) as u8)
    } else if 'A' <= c <= 'F' {
        Some(((c as u32) - 0x41 + 10) as u8)
    } else {
        None
    }
}

/// The value of hexadecimal digit `c`.
pub fn hex_digit_exec(c: char) -> (r: Option<u8>)
    ensures
        r == hex_digit(c),
        r matches Some(d) ==> d < 16,
{
    if '0' <= c && c <= '9' {
        Some(((c as u32) - 0x30) as u8)
    } else if 'a' <= c && c <= 'f' {
        Some(((c as u32) - 0x61 + 10) as u8)
    } else if 'A' <= c && c <= 'F' {
        Some(((c as u32) - 0x41 + 10) as u8)
    } else {
        None
    }
}

/// The value of the hexadecimal digit in byte `c`.
pub fn nibble(c: u8) -> (r: Option<u8>)
    ensures
        r == hex_digit(c as char),
        r matches Some(d) ==> d < 16,
{
    hex_digit_exec(c as char)
}

/// The byte written as the two hexadecimal digits `hi` and `lo`.
pub fn byte(hi: u8, lo: u8) -> (r: Option<u8>)
    ensures
        r == match (hex_digit(hi as char), hex_digit(lo as char)) {
            (Some(h), Some(l)) => Some((h * 16 + l) as u8),
            _ => None,
        },
{
    let h = nibble(hi)?;
    let l = nibble(lo)?;
    Some(h * 16 + l)
}

/// An sRGB colour with 8 bits per channel.
pub type Srgb8 = (u8, u8, u8);

/// The colour written in hexadecimal: three digits, each doubled, or six
/// digits, two per channel.
pub open spec fn hex_color(hex: Seq<char>) -> Option<Srgb8> {
    if hex.len() == 3 && hex_digit(hex[0]) is Some && hex_digit(hex[1]) is Some && hex_digit(hex[2]) is Some {
        Some(
            (
                (hex_digit(hex[0])->0 * 17) as u8,
                (hex_digit(hex[1])->0 * 17) as u8,
                (hex_digit(hex[2])->0 * 17) as u8,
            ),
        )
    } else if hex.len() == 6 && (forall|i: int| 0 <= i < 6 ==> #[trigger] hex_digit(hex[i]) is Some) {
        Some(
            (
                (hex_digit(hex[0])->0 * 16 + hex_digit(hex[1])->0) as u8,
                (hex_digit(hex[2])->0 * 16 + hex_digit(hex[3])->0) as u8,
                (hex_digit(hex[4])->0 * 16 + hex_digit(hex[5])->0) as u8,
            ),
        )
    } else {
        None
    }
}

/// The supported named colours, by lower-case name.
pub open spec fn named_color(name: Seq<char>) -> Option<Srgb8> {
    if name == "black"@ {
        Some((0x00, 0x00, 0x00))
    } else if name == "white"@ {
        Some((0xff, 0xff, 0xff))
    } else if name == "red"@ {
        Some((0xff, 0x00, 0x00))
    } else if name == "green"@ {
        Some((0x00, 0x80, 0x00))
    } else if name == "blue"@ {
        Some((0x00, 0x00, 0xff))
    } else if name == "yellow"@ {
        Some((0xff, 0xff, 0x00))
    } else if name == "cyan"@ || name == "aqua"@ {
        Some((0x00, 0xff, 0xff))
    } else if name == "magenta"@ || name == "fuchsia"@ {
        Some((0xff, 0x00, 0xff))
    } else if name == "gray"@ || name == "grey"@ {
        Some((0x80, 0x80, 0x80))
    } else if name == "silver"@ {
        Some((0xc0, 0xc0, 0xc0))
    } else if name == "maroon"@ {
        Some((0x80, 0x00, 0x00))
    } else if name == "navy"@ {
        Some((0x00, 0x00, 0x80))
    } else if name == "orange"@ {
        Some((0xff, 0xa5, 0x00))
    } else if name == "purple"@ {
        Some((0x80, 0x00, 0x80))
    } else if name == "lime"@ {
        Some((0x00, 0xff, 0x00))
    } else if name == "teal"@ {
        Some((0x00, 0x80, 0x80))
    } else {
        None
    }
}

/// A colour value: trimmed, then `#` and hexadecimal digits, or a named
/// colour in any ASCII case.
pub open spec fn color_spec(value: Seq<char>) -> Option<Srgb8> {
    let t = trim(value);
    if t.len() > 0 && t[0] == '#' {
        hex_color(t.drop_first())
    } else {
        named_color(ascii_lower(t))
    }
}

/// Hexadecimal colour over `v[a..b]`.
fn parse_hex(v: &Vec<char>, a: usize, b: usize) -> (r: Option<Srgb8>)
    requires
        a <= b <= v@.len(),
    ensures
        r == hex_color(v@.subrange(a as int, b as int)),
{
    let ghost s = v@.subrange(a as int, b as int);
    if b - a == 3 {
        assert(s[0] == v@[a as int] && s[1] == v@[a + 1] && s[2] == v@[a + 2]);
        let r = hex_digit_exec(v[a])?;
        let g = hex_digit_exec(v[a + 1])?;
        let bl = hex_digit_exec(v[a + 2])?;
        Some((r * 17, g * 17, bl * 17))
    } else if b - a == 6 {
        assert(forall|i: int| 0 <= i < 6 ==> s[i] == v@[a + i]);
        let mut digits: Vec<u8> = Vec::new();
        let mut i: usize = 0;
        while i < 6
            invariant
                a + 6 == b <= v@.len(),
                s == v@.subrange(a as int, b as int),
                i <= 6,
                digits@.len() == i,
                forall|k: int| 0 <= k < i ==> hex_digit(s[k]) == Some(#[trigger] digits@[k]) && digits@[k] < 16,
            decreases 6 - i,
        {
            match hex_digit_exec(v[a + i]) {
                Some(d) => digits.push(d),
                None => {
                    assert(hex_digit(s[i as int]) is None);
                    return None;
                },
            }
            i = i + 1;
        }
        Some((digits[0] * 16 + digits[1], digits[2] * 16 + digits[3], digits[4] * 16 + digits[5]))
    } else {
        None
    }
}

/// Whether `v` holds exactly the characters of `lit`.
fn eq(v: &Vec<char>, lit: &str) -> (r: bool)
    ensures
        r == (v@ == lit@),
{
    assert(v@.subrange(0, v@.len() as int) =~= v@);
    crate::text::range_eq(v, 0, v.len(), lit)
}

/// Named colour over `v[a..b]`, ignoring ASCII case.
fn parse_named(v: &Vec<char>, a: usize, b: usize) -> (r: Option<Srgb8>)
    requires
        a <= b <= v@.len(),
    ensures
        r == named_color(ascii_lower(v@.subrange(a as int, b as int))),
{
    let mut lower: Vec<char> = Vec::new();
    let mut i = a;
    while i < b
        invariant
            a <= i <= b <= v@.len(),
            lower@ == ascii_lower(v@.subrange(a as int, i as int)),
        decreases b - i,
    {
        lower.push(char_to_lower(v[i]));
        i = i + 1;
        assert(lower@ =~= ascii_lower(v@.subrange(a as int, i as int)));
    }
    if eq(&lower, "black") {
        Some((0x00, 0x00, 0x00))
    } else if eq(&lower, "white") {
        Some((0xff, 0xff, 0xff))
    } else if eq(&lower, "red") {
        Some((0xff, 0x00, 0x00))
    } else if eq(&lower, "green") {
        Some((0x00, 0x80, 0x00))
    } else if eq(&lower, "blue") {
        Some((0x00, 0x00, 0xff))
    } else if eq(&lower, "yellow") {
        Some((0xff, 0xff, 0x00))
    } else if eq(&lower, "cyan") || eq(&lower, "aqua") {
        Some((0x00, 0xff, 0xff))
    } else if eq(&lower, "magenta") || eq(&lower, "fuchsia") {
        Some((0xff, 0x00, 0xff))
    } else if eq(&lower, "gray") || eq(&lower, "grey") {
        Some((0x80, 0x80, 0x80))
    } else if eq(&lower, "silver") {
        Some((0xc0, 0xc0, 0xc0))
    } else if eq(&lower, "maroon") {
        Some((0x80, 0x00, 0x00))
    } else if eq(&lower, "navy") {
        Some((0x00, 0x00, 0x80))
    } else if eq(&lower, "orange") {
        Some((0xff, 0xa5, 0x00))
    } else if eq(&lower, "purple") {
        Some((0x80, 0x00, 0x80))
    } else if eq(&lower, "lime") {
        Some((0x00, 0xff, 0x00))
    } else if eq(&lower, "teal") {
        Some((0x00, 0x80, 0x80))
    } else {
        None
    }
}

/// Parse a colour value into 8-bit sRGB (see [`color_spec`]).
pub fn parse_color_srgb8(value: &str) -> (r: Option<Srgb8>)
    ensures
        r == color_spec(value@),
{
    let v = chars_of(value);
    assert(v@.subrange(0, v@.len() as int) =~= value@);
    let (a, b) = trim_range(&v, 0, v.len());
    let ghost t = v@.subrange(a as int, b as int);
    if a < b && v[a] == '#' {
        assert(t.drop_first() =~= v@.subrange(a + 1, b as int));
        parse_hex(&v, a + 1, b)
    } else {
        proof {
            if t.len() > 0 {
                assert(t[0] == v@[a as int]);
            }
        }
        parse_named(&v, a, b)
    }
}

} // verus!
