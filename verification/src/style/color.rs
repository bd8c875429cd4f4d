//! Terminal colours.

use vstd::prelude::*;
use crate::text::str_to_chars;

verus! {

/// A terminal color value.
#[derive(Copy, Clone, Debug, PartialEq, Eq, Hash, Structural)]
pub enum Color {
    /// Black.
    Black,
    /// Dark grey.
    DarkGrey,
    /// Red.
    Red,
    /// Dark red.
    DarkRed,
    /// Green.
    Green,
    /// Dark green.
    DarkGreen,
    /// Yellow.
    Yellow,
    /// Dark yellow.
    DarkYellow,
    /// Blue.
    Blue,
    /// Dark blue.
    DarkBlue,
    /// Magenta.
    Magenta,
    /// Dark magenta.
    DarkMagenta,
    /// Cyan.
    Cyan,
    /// Dark cyan.
    DarkCyan,
    /// White.
    White,
    /// Grey.
    Grey,
    /// RGB color.
    Rgb {
        /// Red channel.
        r: u8,
        /// Green channel.
        g: u8,
        /// Blue channel.
        b: u8,
    },
    /// An ANSI-256 color index.
    AnsiValue(u8),
}

/// The value of one hexadecimal digit, if it is one.
pub open spec fn hex_digit_value(c: u8) -> Option<u8> {
    if 48 <= c <= 57 {
        Some((c - 48) as u8)
    } else if 97 <= c <= 102 {
        Some((c - 97 + 10) as u8)
    } else if 65 <= c <= 70 {
        Some((c - 65 + 10) as u8)
    } else {
        None
    }
}

fn hex_digit(c: u8) -> (r: Option<u8>)
    ensures
        r == hex_digit_value(c),
{
    if 48 <= c && c <= 57 {
        Some(c - 48)
    } else if 97 <= c && c <= 102 {
        Some(c - 97 + 10)
    } else if 65 <= c && c <= 70 {
        Some(c - 65 + 10)
    } else {
        None
    }
}

/// Parse one hex byte from its two ASCII digits.
pub fn hex_byte(high: u8, low: u8) -> (r: u8)
    requires
        hex_digit_value(high) is Some,
        hex_digit_value(low) is Some,
    ensures
        r == hex_digit_value(high).unwrap() * 16 + hex_digit_value(low).unwrap(),
{
    let h = hex_digit(high).unwrap();
    let l = hex_digit(low).unwrap();
    h * 16 + l
}

/// The value of a hexadecimal digit character, if it is one.
pub open spec fn hex_char_value(c: char) -> Option<u8> {
    if '0' <= c <= '9' || 'a' <= c <= 'f' || 'A' <= c <= 'F' {
        hex_digit_value(c as u8)
    } else {
        None
    }
}

/// The byte spelled by two hexadecimal digit characters.
pub open spec fn hex_pair(s: Seq<char>, i: int) -> Option<u8> {
    match (hex_char_value(s[i]), hex_char_value(s[i + 1])) {
        (Some(h), Some(l)) => Some((h * 16 + l) as u8),
        _ => None,
    }
}

/// The colour spelled by `#RRGGBB` or `RRGGBB`, if the string is one.
pub open spec fn hex_color_spec(s: Seq<char>) -> Option<Color> {
    let start: int = if s.len() > 0 && s[0] == '#' { 1 } else { 0 };
    if s.len() - start != 6 {
        None
    } else {
        match (hex_pair(s, start), hex_pair(s, start + 2), hex_pair(s, start + 4)) {
            (Some(r), Some(g), Some(b)) => Some(Color::Rgb { r, g, b }),
            _ => None,
        }
    }
}

fn hex_char(c: char) -> (r: Option<u8>)
    ensures
        r == hex_char_value(c),
{
    if ('0' <= c && c <= '9') || ('a' <= c && c <= 'f') || ('A' <= c && c <= 'F') {
        hex_digit(c as u8)
    } else {
        None
    }
}

fn hex_pair_at(v: &Vec<char>, i: usize) -> (r: Option<u8>)
    requires
        i + 1 < v@.len(),
    ensures
        r == hex_pair(v@, i as int),
{
    let _n = v.len();
    match (hex_char(v[i]), hex_char(v[i + 1])) {
        (Some(h), Some(l)) => {
            assert(h < 16 && l < 16);
            Some(h * 16 + l)
        },
        _ => None,
    }
}

/// Build a colour from a `#RRGGBB` or `RRGGBB` hex literal; `None` when the
/// string is not six hex digits with an optional leading `#`.
pub fn rgb_from_hex(s: &str) -> (r: Option<Color>)
    ensures
        r == hex_color_spec(s@),
{
    let v = str_to_chars(s);
    let start: usize = if v.len() > 0 && v[0] == '#' { 1 } else { 0 };
    if v.len() - start != 6 {
        return None;
    }
    match (hex_pair_at(&v, start), hex_pair_at(&v, start + 2), hex_pair_at(&v, start + 4)) {
        (Some(r), Some(g), Some(b)) => Some(Color::Rgb { r, g, b }),
        _ => None,
    }
}

/// RGB values for the sixteen named and ANSI-16 colors, in ANSI order.
pub open spec fn ansi16(i: int) -> (u8, u8, u8) {
    if i == 0 { (0, 0, 0) }
    else if i == 1 { (128, 0, 0) }
    else if i == 2 { (0, 128, 0) }
    else if i == 3 { (128, 128, 0) }
    else if i == 4 { (0, 0, 128) }
    else if i == 5 { (128, 0, 128) }
    else if i == 6 { (0, 128, 128) }
    else if i == 7 { (192, 192, 192) }
    else if i == 8 { (128, 128, 128) }
    else if i == 9 { (255, 0, 0) }
    else if i == 10 { (0, 255, 0) }
    else if i == 11 { (255, 255, 0) }
    else if i == 12 { (0, 0, 255) }
    else if i == 13 { (255, 0, 255) }
    else if i == 14 { (0, 255, 255) }
    else { (255, 255, 255) }
}

/// One channel level of the 6x6x6 colour cube.
pub open spec fn cube_level(v: int) -> u8 {
    if v == 0 { 0 } else { (55 + v * 40) as u8 }
}

/// The RGB value of an ANSI-256 colour index: the sixteen base colours, the
/// 6x6x6 colour cube, then the grayscale ramp.
pub open spec fn ansi_rgb(n: u8) -> (u8, u8, u8) {
    if n <= 15 {
        ansi16(n as int)
    } else if n <= 231 {
        let m = n - 16;
        (cube_level((m / 36) % 6), cube_level((m / 6) % 6), cube_level(m % 6))
    } else {
        let v = (8 + (n - 232) * 10) as u8;
        (v, v, v)
    }
}

/// The RGB value of a colour.
pub open spec fn color_rgb(c: Color) -> (u8, u8, u8) {
    match c {
        Color::Rgb { r, g, b } => (r, g, b),
        Color::Black => ansi16(0),
        Color::DarkRed => ansi16(1),
        Color::DarkGreen => ansi16(2),
        Color::DarkYellow => ansi16(3),
        Color::DarkBlue => ansi16(4),
        Color::DarkMagenta => ansi16(5),
        Color::DarkCyan => ansi16(6),
        Color::Grey => ansi16(7),
        Color::DarkGrey => ansi16(8),
        Color::Red => ansi16(9),
        Color::Green => ansi16(10),
        Color::Yellow => ansi16(11),
        Color::Blue => ansi16(12),
        Color::Magenta => ansi16(13),
        Color::Cyan => ansi16(14),
        Color::White => ansi16(15),
        Color::AnsiValue(n) => ansi_rgb(n),
    }
}

fn ansi16_value(i: u8) -> (r: (u8, u8, u8))
    ensures
        r == ansi16(i as int),
{
    if i == 0 { (0, 0, 0) }
    else if i == 1 { (128, 0, 0) }
    else if i == 2 { (0, 128, 0) }
    else if i == 3 { (128, 128, 0) }
    else if i == 4 { (0, 0, 128) }
    else if i == 5 { (128, 0, 128) }
    else if i == 6 { (0, 128, 128) }
    else if i == 7 { (192, 192, 192) }
    else if i == 8 { (128, 128, 128) }
    else if i == 9 { (255, 0, 0) }
    else if i == 10 { (0, 255, 0) }
    else if i == 11 { (255, 255, 0) }
    else if i == 12 { (0, 0, 255) }
    else if i == 13 { (255, 0, 255) }
    else if i == 14 { (0, 255, 255) }
    else { (255, 255, 255) }
}

fn cube_value(v: u8) -> (r: u8)
    requires
        v < 6,
    ensures
        r == cube_level(v as int),
{
    if v == 0 { 0 } else { 55 + v * 40 }
}

/// Convert an ANSI 256-color index to RGB.
fn ansi_to_rgb(n: u8) -> (r: (u8, u8, u8))
    ensures
        r == ansi_rgb(n),
{
    if n <= 15 {
        ansi16_value(n)
    } else if n <= 231 {
        let m = n - 16;
        (cube_value((m / 36) % 6), cube_value((m / 6) % 6), cube_value(m % 6))
    } else {
        let v = 8 + (n - 232) * 10;
        (v, v, v)
    }
}

impl Color {
    /// Return this color's RGB channels.
    ///
    /// Named colors and ANSI-256 values use the standard palette mappings.
    pub fn rgb(self) -> (r: (u8, u8, u8))
        ensures
            r == color_rgb(self),
    {
        match self {
            Color::Rgb { r, g, b } => (r, g, b),
            Color::Black => ansi16_value(0),
            Color::DarkRed => ansi16_value(1),
            Color::DarkGreen => ansi16_value(2),
            Color::DarkYellow => ansi16_value(3),
            Color::DarkBlue => ansi16_value(4),
            Color::DarkMagenta => ansi16_value(5),
            Color::DarkCyan => ansi16_value(6),
            Color::Grey => ansi16_value(7),
            Color::DarkGrey => ansi16_value(8),
            Color::Red => ansi16_value(9),
            Color::Green => ansi16_value(10),
            Color::Yellow => ansi16_value(11),
            Color::Blue => ansi16_value(12),
            Color::Magenta => ansi16_value(13),
            Color::Cyan => ansi16_value(14),
            Color::White => ansi16_value(15),
            Color::AnsiValue(n) => ansi_to_rgb(n),
        }
    }

    /// Invert RGB channels (255 - value for each channel).
    pub fn invert_rgb(self) -> (r: Self)
        ensures
            r == (Color::Rgb {
                r: (255 - color_rgb(self).0) as u8,
                g: (255 - color_rgb(self).1) as u8,
                b: (255 - color_rgb(self).2) as u8,
            }),
    {
        let (r, g, b) = self.rgb();
        Color::Rgb { r: 255 - r, g: 255 - g, b: 255 - b }
    }
}

/// Law: inverting a colour twice gives back its RGB value.
pub proof fn law_invert_rgb_involutive(c: Color)
    ensures
        ({
            let i = Color::Rgb {
                r: (255 - color_rgb(c).0) as u8,
                g: (255 - color_rgb(c).1) as u8,
                b: (255 - color_rgb(c).2) as u8,
            };
            let ii = Color::Rgb {
                r: (255 - color_rgb(i).0) as u8,
                g: (255 - color_rgb(i).1) as u8,
                b: (255 - color_rgb(i).2) as u8,
            };
            color_rgb(ii) == color_rgb(c)
        }),
{
}


/// Law: the sixteen named colours have the standard ANSI palette values:
/// the dark colours use channel level 128 (grey 192), the bright ones 255
/// (dark grey 128), and black is all zero.
pub proof fn law_named_colours_use_the_ansi_palette()
    ensures
        color_rgb(Color::Black) == (0u8, 0u8, 0u8),
        color_rgb(Color::DarkRed) == (128u8, 0u8, 0u8),
        color_rgb(Color::DarkGreen) == (0u8, 128u8, 0u8),
        color_rgb(Color::DarkYellow) == (128u8, 128u8, 0u8),
        color_rgb(Color::DarkBlue) == (0u8, 0u8, 128u8),
        color_rgb(Color::DarkMagenta) == (128u8, 0u8, 128u8),
        color_rgb(Color::DarkCyan) == (0u8, 128u8, 128u8),
        color_rgb(Color::Grey) == (192u8, 192u8, 192u8),
        color_rgb(Color::DarkGrey) == (128u8, 128u8, 128u8),
        color_rgb(Color::Red) == (255u8, 0u8, 0u8),
        color_rgb(Color::Green) == (0u8, 255u8, 0u8),
        color_rgb(Color::Yellow) == (255u8, 255u8, 0u8),
        color_rgb(Color::Blue) == (0u8, 0u8, 255u8),
        color_rgb(Color::Magenta) == (255u8, 0u8, 255u8),
        color_rgb(Color::Cyan) == (0u8, 255u8, 255u8),
        color_rgb(Color::White) == (255u8, 255u8, 255u8),
{
}

/// Law: the first sixteen ANSI-256 indices are the named colours, in ANSI
/// order.
pub proof fn law_low_ansi_values_are_the_named_colours()
    ensures
        color_rgb(Color::AnsiValue(0)) == color_rgb(Color::Black),
        color_rgb(Color::AnsiValue(1)) == color_rgb(Color::DarkRed),
        color_rgb(Color::AnsiValue(2)) == color_rgb(Color::DarkGreen),
        color_rgb(Color::AnsiValue(3)) == color_rgb(Color::DarkYellow),
        color_rgb(Color::AnsiValue(4)) == color_rgb(Color::DarkBlue),
        color_rgb(Color::AnsiValue(5)) == color_rgb(Color::DarkMagenta),
        color_rgb(Color::AnsiValue(6)) == color_rgb(Color::DarkCyan),
        color_rgb(Color::AnsiValue(7)) == color_rgb(Color::Grey),
        color_rgb(Color::AnsiValue(8)) == color_rgb(Color::DarkGrey),
        color_rgb(Color::AnsiValue(9)) == color_rgb(Color::Red),
        color_rgb(Color::AnsiValue(10)) == color_rgb(Color::Green),
        color_rgb(Color::AnsiValue(11)) == color_rgb(Color::Yellow),
        color_rgb(Color::AnsiValue(12)) == color_rgb(Color::Blue),
        color_rgb(Color::AnsiValue(13)) == color_rgb(Color::Magenta),
        color_rgb(Color::AnsiValue(14)) == color_rgb(Color::Cyan),
        color_rgb(Color::AnsiValue(15)) == color_rgb(Color::White),
{
}

} // verus!
