//! Parsing textual color specifications into a 4-channel color value.
//!
//! The grammar is the CSS-like one: `#` followed by 3, 4, 6 or 8 hex
//! digits (`#rgb`, `#rgba`, `#rrggbb`, `#rrggbbaa`), or one of the sixteen
//! basic CSS color keywords, lowercase. A short hex digit `d` expands to
//! the byte `dd`; the alpha channel is fully opaque unless the
//! specification carries one. The extended CSS keyword table is outside
//! this grammar.

use crate::error::Error;
use crate::text::str_eq;
use vstd::prelude::*;
use vstd::string::*;

verus! {

/// An RGBA color, one byte per channel.
#[derive(Clone, Copy, Debug, PartialEq, Eq, Structural)]
pub struct Rgba {
    pub r: u8,
    pub g: u8,
    pub b: u8,
    pub a: u8,
}

/// Whether `c` is an ASCII hexadecimal digit.
pub open spec fn is_hex_digit(c: char) -> bool {
    ('0' <= c && c <= '9') || ('a' <= c && c <= 'f') || ('A' <= c && c <= 'F')
}

/// The value of the hexadecimal digit `c`.
pub open spec fn hex_val(c: char) -> int {
    if '0' <= c && c <= '9' {
        c as int - '0' as int
    } else if 'a' <= c && c <= 'f' {
        c as int - 'a' as int + 10
    } else {
        c as int - 'A' as int + 10
    }
}

/// Whether every character of `s` is a hexadecimal digit.
pub open spec fn all_hex(s: Seq<char>) -> bool {
    forall|i: int| 0 <= i < s.len() ==> is_hex_digit(s[i])
}

/// The byte written as the two hexadecimal digits `h` `l`.
pub open spec fn hex_byte(h: char, l: char) -> u8 {
    (hex_val(h) * 16 + hex_val(l)) as u8
}

/// The byte a single short-form digit expands to (`d` stands for `dd`).
pub open spec fn hex_short(d: char) -> u8 {
    (hex_val(d) * 17) as u8
}

/// The color a basic CSS color keyword denotes, if the string is one.
pub open spec fn spec_named_color(s: Seq<char>) -> Option<Rgba> {
    if s == "black"@ {
        Some(Rgba { r: 0, g: 0, b: 0, a: 255 })
    } else if s == "silver"@ {
        Some(Rgba { r: 192, g: 192, b: 192, a: 255 })
    } else if s == "gray"@ {
        Some(Rgba { r: 128, g: 128, b: 128, a: 255 })
    } else if s == "white"@ {
        Some(Rgba { r: 255, g: 255, b: 255, a: 255 })
    } else if s == "maroon"@ {
        Some(Rgba { r: 128, g: 0, b: 0, a: 255 })
    } else if s == "red"@ {
        Some(Rgba { r: 255, g: 0, b: 0, a: 255 })
    } else if s == "purple"@ {
        Some(Rgba { r: 128, g: 0, b: 128, a: 255 })
    } else if s == "fuchsia"@ {
        Some(Rgba { r: 255, g: 0, b: 255, a: 255 })
    } else if s == "green"@ {
        Some(Rgba { r: 0, g: 128, b: 0, a: 255 })
    } else if s == "lime"@ {
        Some(Rgba { r: 0, g: 255, b: 0, a: 255 })
    } else if s == "olive"@ {
        Some(Rgba { r: 128, g: 128, b: 0, a: 255 })
    } else if s == "yellow"@ {
        Some(Rgba { r: 255, g: 255, b: 0, a: 255 })
    } else if s == "navy"@ {
        Some(Rgba { r: 0, g: 0, b: 128, a: 255 })
    } else if s == "blue"@ {
        Some(Rgba { r: 0, g: 0, b: 255, a: 255 })
    } else if s == "teal"@ {
        Some(Rgba { r: 0, g: 128, b: 128, a: 255 })
    } else if s == "aqua"@ {
        Some(Rgba { r: 0, g: 255, b: 255, a: 255 })
    } else {
        None
    }
}

/// Looks a basic CSS color keyword up, as [`spec_named_color`] describes.
fn named_color(s: &str) -> (r: Option<Rgba>)
    ensures
        r == spec_named_color(s@),
{
    if str_eq(s, "black") {
        Some(Rgba { r: 0, g: 0, b: 0, a: 255 })
    } else if str_eq(s, "silver") {
        Some(Rgba { r: 192, g: 192, b: 192, a: 255 })
    } else if str_eq(s, "gray") {
        Some(Rgba { r: 128, g: 128, b: 128, a: 255 })
    } else if str_eq(s, "white") {
        Some(Rgba { r: 255, g: 255, b: 255, a: 255 })
    } else if str_eq(s, "maroon") {
        Some(Rgba { r: 128, g: 0, b: 0, a: 255 })
    } else if str_eq(s, "red") {
        Some(Rgba { r: 255, g: 0, b: 0, a: 255 })
    } else if str_eq(s, "purple") {
        Some(Rgba { r: 128, g: 0, b: 128, a: 255 })
    } else if str_eq(s, "fuchsia") {
        Some(Rgba { r: 255, g: 0, b: 255, a: 255 })
    } else if str_eq(s, "green") {
        Some(Rgba { r: 0, g: 128, b: 0, a: 255 })
    } else if str_eq(s, "lime") {
        Some(Rgba { r: 0, g: 255, b: 0, a: 255 })
    } else if str_eq(s, "olive") {
        Some(Rgba { r: 128, g: 128, b: 0, a: 255 })
    } else if str_eq(s, "yellow") {
        Some(Rgba { r: 255, g: 255, b: 0, a: 255 })
    } else if str_eq(s, "navy") {
        Some(Rgba { r: 0, g: 0, b: 128, a: 255 })
    } else if str_eq(s, "blue") {
        Some(Rgba { r: 0, g: 0, b: 255, a: 255 })
    } else if str_eq(s, "teal") {
        Some(Rgba { r: 0, g: 128, b: 128, a: 255 })
    } else if str_eq(s, "aqua") {
        Some(Rgba { r: 0, g: 255, b: 255, a: 255 })
    } else {
        None
    }
}

/// The color a specification string denotes, if it parses.
pub open spec fn spec_parse_color(s: Seq<char>) -> Option<Rgba> {
    if !(s.len() >= 1 && s[0] == '#') {
        spec_named_color(s)
    } else {
        let d = s.subrange(1, s.len() as int);
        if !all_hex(d) {
            None
        } else if d.len() == 3 {
            Some(Rgba { r: hex_short(d[0]), g: hex_short(d[1]), b: hex_short(d[2]), a: 255 })
        } else if d.len() == 4 {
            Some(
                Rgba {
                    r: hex_short(d[0]),
                    g: hex_short(d[1]),
                    b: hex_short(d[2]),
                    a: hex_short(d[3]),
                },
            )
        } else if d.len() == 6 {
            Some(
                Rgba {
                    r: hex_byte(d[0], d[1]),
                    g: hex_byte(d[2], d[3]),
                    b: hex_byte(d[4], d[5]),
                    a: 255,
                },
            )
        } else if d.len() == 8 {
            Some(
                Rgba {
                    r: hex_byte(d[0], d[1]),
                    g: hex_byte(d[2], d[3]),
                    b: hex_byte(d[4], d[5]),
                    a: hex_byte(d[6], d[7]),
                },
            )
        } else {
            None
        }
    }
}

/// The value of the hexadecimal digit `c`, as a byte.
fn hex_digit_val(c: char) -> (v: u8)
    requires
        is_hex_digit(c),
    ensures
        v == hex_val(c),
        v < 16,
{
    let u = c as u32;
    if 48 <= u && u <= 57 {
        (u - 48) as u8
    } else if 97 <= u && u <= 102 {
        (u - 87) as u8
    } else {
        (u - 55) as u8
    }
}

/// Parses a color specification — a hex form or a basic CSS color keyword.
/// Returns the denoted color exactly when the string fits the grammar, and
/// `InvalidColor` carrying the offending string otherwise.
pub fn parse_str_color(s: &str) -> (r: Result<Rgba, Error>)
    ensures
        match r {
            Ok(c) => spec_parse_color(s@) == Some(c),
            Err(e) => {
                &&& spec_parse_color(s@) is None
                &&& e matches Error::InvalidColor(t) && t@ == s@
            },
        },
{
    let n = s.unicode_len();
    if n == 0 || s.get_char(0) != '#' {
        return match named_color(s) {
            Some(c) => Ok(c),
            None => Err(Error::InvalidColor(String::from_str(s))),
        };
    }
    let digits = n - 1;
    if !(digits == 3 || digits == 4 || digits == 6 || digits == 8) {
        assert(s@.subrange(1, s@.len() as int).len() == digits);
        return Err(Error::InvalidColor(String::from_str(s)));
    }
    let mut i: usize = 1;
    while i < n
        invariant
            1 <= i <= n,
            n == s@.len(),
            s@[0] == '#',
            forall|j: int| 1 <= j < i ==> is_hex_digit(#[trigger] s@[j]),
        decreases n - i,
    {
        let c = s.get_char(i);
        let is_hex = ('0' <= c && c <= '9') || ('a' <= c && c <= 'f') || ('A' <= c && c <= 'F');
        if !is_hex {
            proof {
                let d = s@.subrange(1, s@.len() as int);
                assert(d[i - 1] == s@[i as int]);
                assert(!all_hex(d));
            }
            return Err(Error::InvalidColor(String::from_str(s)));
        }
        i += 1;
    }
    proof {
        let d = s@.subrange(1, s@.len() as int);
        assert forall|j: int| 0 <= j < d.len() implies is_hex_digit(d[j]) by {
            assert(d[j] == s@[j + 1]);
        }
        assert(all_hex(d));
    }
    let c = if digits == 3 {
        let v0 = hex_digit_val(s.get_char(1));
        let v1 = hex_digit_val(s.get_char(2));
        let v2 = hex_digit_val(s.get_char(3));
        Rgba { r: v0 * 17, g: v1 * 17, b: v2 * 17, a: 255 }
    } else if digits == 4 {
        let v0 = hex_digit_val(s.get_char(1));
        let v1 = hex_digit_val(s.get_char(2));
        let v2 = hex_digit_val(s.get_char(3));
        let v3 = hex_digit_val(s.get_char(4));
        Rgba { r: v0 * 17, g: v1 * 17, b: v2 * 17, a: v3 * 17 }
    } else if digits == 6 {
        let v0 = hex_digit_val(s.get_char(1));
        let v1 = hex_digit_val(s.get_char(2));
        let v2 = hex_digit_val(s.get_char(3));
        let v3 = hex_digit_val(s.get_char(4));
        let v4 = hex_digit_val(s.get_char(5));
        let v5 = hex_digit_val(s.get_char(6));
        Rgba { r: v0 * 16 + v1, g: v2 * 16 + v3, b: v4 * 16 + v5, a: 255 }
    } else {
        let v0 = hex_digit_val(s.get_char(1));
        let v1 = hex_digit_val(s.get_char(2));
        let v2 = hex_digit_val(s.get_char(3));
        let v3 = hex_digit_val(s.get_char(4));
        let v4 = hex_digit_val(s.get_char(5));
        let v5 = hex_digit_val(s.get_char(6));
        let v6 = hex_digit_val(s.get_char(7));
        let v7 = hex_digit_val(s.get_char(8));
        Rgba { r: v0 * 16 + v1, g: v2 * 16 + v3, b: v4 * 16 + v5, a: v6 * 16 + v7 }
    };
    proof {
        let d = s@.subrange(1, s@.len() as int);
        assert forall|j: int| 0 <= j < d.len() implies d[j] == s@[j + 1] by {}
    }
    Ok(c)
}

} // verus!
