//! Hex color parsing.
//!
//! The validator uses this to refuse a spec whose brand color is not a real
//! color, and to find the literal colors whose contrast must be checked. The
//! WCAG luminance / contrast math itself is floating point and lives with the
//! command-line program.

use vstd::prelude::*;
use crate::text::chars_of;

verus! {

/// An 8-bit-per-channel sRGB color.
#[derive(Debug, Clone, Copy, PartialEq, Eq, Structural)]
pub struct Rgb {
    /// Red channel (0–255).
    pub r: u8,
    /// Green channel (0–255).
    pub g: u8,
    /// Blue channel (0–255).
    pub b: u8,
}

/// The value of one ASCII hex digit byte.
pub open spec fn nibble(c: u8) -> Option<u8> {
    if 48 <= c <= 57 {
        Some((c - 48) as u8)
    } else if 97 <= c <= 102 {
        Some((c - 97 + 10) as u8)
    } else if 65 <= c <= 70 {
        Some((c - 65 + 10) as u8)
    } else {
        None
    }
}

/// The value of one hex digit character (never one outside ASCII).
pub open spec fn char_nibble(c: char) -> Option<u8> {
    if (c as u32) < 128 {
        nibble(c as u32 as u8)
    } else {
        None
    }
}

/// `#rgb` (each digit doubled) or `#rrggbb`; `None` for anything else.
pub open spec fn hex_color(s: Seq<char>) -> Option<Rgb> {
    if s.len() == 4 && s[0] == '#' {
        match (char_nibble(s[1]), char_nibble(s[2]), char_nibble(s[3])) {
            (Some(r), Some(g), Some(b)) => Some(
                Rgb { r: (r * 17) as u8, g: (g * 17) as u8, b: (b * 17) as u8 },
            ),
            _ => None,
        }
    } else if s.len() == 7 && s[0] == '#' {
        match (
            char_nibble(s[1]),
            char_nibble(s[2]),
            char_nibble(s[3]),
            char_nibble(s[4]),
            char_nibble(s[5]),
            char_nibble(s[6]),
        ) {
            (Some(r1), Some(r0), Some(g1), Some(g0), Some(b1), Some(b0)) => Some(
                Rgb {
                    r: (r1 * 16 + r0) as u8,
                    g: (g1 * 16 + g0) as u8,
                    b: (b1 * 16 + b0) as u8,
                },
            ),
            _ => None,
        }
    } else {
        None
    }
}

/// Parse a `#rgb` or `#rrggbb` color. Returns `None` for anything else.
pub fn parse_hex(s: &str) -> (r: Option<Rgb>)
    ensures
        r == hex_color(s@),
{
    let v = chars_of(s);
    if v.len() == 0 || v[0] != '#' {
        return None;
    }
    if v.len() == 4 {
        let r = char_hex(v[1]);
        let g = char_hex(v[2]);
        let b = char_hex(v[3]);
        match (r, g, b) {
            (Some(r), Some(g), Some(b)) => Some(Rgb { r: r * 17, g: g * 17, b: b * 17 }),
            _ => None,
        }
    } else if v.len() == 7 {
        let r = hex_pair(v[1], v[2]);
        let g = hex_pair(v[3], v[4]);
        let b = hex_pair(v[5], v[6]);
        match (r, g, b) {
            (Some(r), Some(g), Some(b)) => Some(Rgb { r, g, b }),
            _ => None,
        }
    } else {
        None
    }
}

/// One hex digit character.
fn char_hex(c: char) -> (r: Option<u8>)
    ensures
        r == char_nibble(c),
        r matches Some(n) ==> n < 16,
{
    if (c as u32) < 128 {
        hex_nibble(c as u32 as u8)
    } else {
        None
    }
}

/// Two hex digit characters as one byte.
fn hex_pair(hi: char, lo: char) -> (r: Option<u8>)
    ensures
        r == (match (char_nibble(hi), char_nibble(lo)) {
            (Some(h), Some(l)) => Some((h * 16 + l) as u8),
            _ => None,
        }),
{
    if (hi as u32) < 128 && (lo as u32) < 128 {
        hex_byte(hi as u32 as u8, lo as u32 as u8)
    } else {
        None
    }
}

/// The value of one ASCII hex digit byte.
fn hex_nibble(c: u8) -> (r: Option<u8>)
    ensures
        r == nibble(c),
        r matches Some(n) ==> n < 16,
{
    if 48 <= c && c <= 57 {
        Some(c - 48)
    } else if 97 <= c && c <= 102 {
        Some(c - 97 + 10)
    } else if 65 <= c && c <= 70 {
        Some(c - 65 + 10)
    } else {
        None
    }
}

/// Two ASCII hex digit bytes as one byte.
fn hex_byte(hi: u8, lo: u8) -> (r: Option<u8>)
    ensures
        r == (match (nibble(hi), nibble(lo)) {
            (Some(h), Some(l)) => Some((h * 16 + l) as u8),
            _ => None,
        }),
{
    match (hex_nibble(hi), hex_nibble(lo)) {
        (Some(h), Some(l)) => Some(h * 16 + l),
        _ => None,
    }
}

} // verus!
