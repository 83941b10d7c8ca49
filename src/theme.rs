//! Colours: the built-in dark theme, or one taken from a pywal colour
//! scheme.

use vstd::prelude::*;

use crate::text::chars_of;

verus! {

/// An RGB colour.
#[derive(Debug, Clone, Copy, PartialEq, Eq, Structural)]
pub struct Rgb {
    pub r: u8,
    pub g: u8,
    pub b: u8,
}

/// The special colours of a pywal scheme.
#[derive(Debug, Clone)]
pub struct SpecialColors {
    pub background: String,
    pub foreground: String,
    pub cursor: String,
}

/// The sixteen palette colours of a pywal scheme.
#[derive(Debug, Clone)]
pub struct ColorPalette {
    pub color0: String,
    pub color1: String,
    pub color2: String,
    pub color3: String,
    pub color4: String,
    pub color5: String,
    pub color6: String,
    pub color7: String,
    pub color8: String,
    pub color9: String,
    pub color10: String,
    pub color11: String,
    pub color12: String,
    pub color13: String,
    pub color14: String,
    pub color15: String,
}

/// A pywal colour scheme.
#[derive(Debug, Clone)]
pub struct PywalColors {
    pub wallpaper: Option<String>,
    pub special: SpecialColors,
    pub colors: ColorPalette,
}

/// The colours the interface is drawn with.
#[derive(Debug, Clone, Copy, PartialEq, Eq, Structural)]
pub struct Theme {
    pub bg: Rgb,
    pub fg: Rgb,
    pub accent: Rgb,
    pub secondary: Rgb,
    pub success: Rgb,
    pub error: Rgb,
    pub warning: Rgb,
    pub muted: Rgb,
    pub highlight_bg: Rgb,
    pub border: Rgb,
}

/// The value of a hexadecimal digit.
pub open spec fn hex_value(c: char) -> Option<nat> {
    if '0' <= c && c <= '9' {
        Some((c as u32 - '0' as u32) as nat)
    } else if 'a' <= c && c <= 'f' {
        Some((c as u32 - 'a' as u32 + 10) as nat)
    } else if 'A' <= c && c <= 'F' {
        Some((c as u32 - 'A' as u32 + 10) as nat)
    } else {
        None
    }
}

/// The byte two characters give in base 16: two digits, or a `+` sign and
/// one digit.
pub open spec fn hex_pair(a: char, b: char) -> Option<u8> {
    if a == '+' && hex_value(b) is Some {
        Some(hex_value(b)->0 as u8)
    } else if hex_value(a) is Some && hex_value(b) is Some {
        Some((hex_value(a)->0 * 16 + hex_value(b)->0) as u8)
    } else {
        None
    }
}

/// `s` without its leading `#` characters.
pub open spec fn strip_hashes(s: Seq<char>) -> Seq<char>
    decreases s.len(),
{
    if s.len() > 0 && s[0] == '#' {
        strip_hashes(s.drop_first())
    } else {
        s
    }
}

/// The colour a `#rrggbb` text gives.
pub open spec fn hex_color(s: Seq<char>) -> Option<Rgb> {
    let h = strip_hashes(s);
    if h.len() != 6 {
        None
    } else {
        match (hex_pair(h[0], h[1]), hex_pair(h[2], h[3]), hex_pair(h[4], h[5])) {
            (Some(r), Some(g), Some(b)) => Some(Rgb { r, g, b }),
            _ => None,
        }
    }
}

fn hex_digit(c: char) -> (r: Option<u8>)
    ensures
        r matches Some(v) ==> hex_value(c) == Some(v as nat),
        r is None ==> hex_value(c) is None,
{
    if '0' <= c && c <= '9' {
        Some((c as u32 - '0' as u32) as u8)
    } else if 'a' <= c && c <= 'f' {
        Some((c as u32 - 'a' as u32 + 10) as u8)
    } else if 'A' <= c && c <= 'F' {
        Some((c as u32 - 'A' as u32 + 10) as u8)
    } else {
        None
    }
}

fn pair_value(a: char, b: char) -> (r: Option<u8>)
    ensures
        r == hex_pair(a, b),
{
    match hex_digit(b) {
        None => None,
        Some(low) => {
            if a == '+' {
                Some(low)
            } else {
                match hex_digit(a) {
                    Some(high) => Some(high * 16 + low),
                    None => None,
                }
            }
        },
    }
}

/// Parses a colour written `#rrggbb`, the `#` optional.
pub fn parse_hex_color(hex: &str) -> (r: Option<Rgb>)
    ensures
        r == hex_color(hex@),
{
    let chars = chars_of(hex);
    let mut from: usize = 0;
    assert(chars@.subrange(0, chars@.len() as int) =~= hex@);
    while from < chars.len() && chars[from] == '#'
        invariant
            from <= chars@.len(),
            chars@ == hex@,
            strip_hashes(hex@) == strip_hashes(chars@.subrange(from as int, chars@.len() as int)),
        decreases chars@.len() - from,
    {
        assert(chars@.subrange(from as int, chars@.len() as int).drop_first() =~= chars@.subrange(
            from + 1,
            chars@.len() as int,
        ));
        from = from + 1;
    }
    let ghost h = chars@.subrange(from as int, chars@.len() as int);
    assert(strip_hashes(h) == h);
    if chars.len() - from != 6 {
        return None;
    }
    let r = pair_value(chars[from], chars[from + 1]);
    let g = pair_value(chars[from + 2], chars[from + 3]);
    let b = pair_value(chars[from + 4], chars[from + 5]);
    match (r, g, b) {
        (Some(r), Some(g), Some(b)) => Some(Rgb { r, g, b }),
        _ => None,
    }
}

impl Default for Theme {
    fn default() -> (r: Self)
        ensures
            r.bg == (Rgb { r: 31, g: 36, b: 40 }),
            r.fg == (Rgb { r: 225, g: 228, b: 232 }),
            r.accent == (Rgb { r: 152, g: 195, b: 121 }),
            r.secondary == (Rgb { r: 209, g: 154, b: 102 }),
            r.success == (Rgb { r: 152, g: 195, b: 121 }),
            r.error == (Rgb { r: 224, g: 108, b: 117 }),
            r.warning == (Rgb { r: 229, g: 192, b: 123 }),
            r.muted == (Rgb { r: 92, g: 99, b: 112 }),
            r.highlight_bg == (Rgb { r: 40, g: 44, b: 52 }),
            r.border == (Rgb { r: 62, g: 68, b: 81 }),
    {
        Theme {
            bg: Rgb { r: 31, g: 36, b: 40 },
            fg: Rgb { r: 225, g: 228, b: 232 },
            accent: Rgb { r: 152, g: 195, b: 121 },
            secondary: Rgb { r: 209, g: 154, b: 102 },
            success: Rgb { r: 152, g: 195, b: 121 },
            error: Rgb { r: 224, g: 108, b: 117 },
            warning: Rgb { r: 229, g: 192, b: 123 },
            muted: Rgb { r: 92, g: 99, b: 112 },
            highlight_bg: Rgb { r: 40, g: 44, b: 52 },
            border: Rgb { r: 62, g: 68, b: 81 },
        }
    }
}

impl Theme {
    /// The theme a pywal scheme gives: background and foreground from its
    /// special colours, the rest from its palette; none when one of those
    /// colours does not parse.
    pub fn from_pywal(pywal: &PywalColors) -> (r: Option<Self>)
        ensures
            ({
                let p = pywal;
                let all = (hex_color(p.special.background@), hex_color(p.special.foreground@),
                hex_color(p.colors.color0@), hex_color(p.colors.color1@), hex_color(
                    p.colors.color2@,
                ), hex_color(p.colors.color3@), hex_color(p.colors.color8@));
                match all {
                    (Some(bg), Some(fg), Some(c0), Some(c1), Some(c2), Some(c3), Some(c8)) => r
                        == Some(
                        Theme {
                            bg,
                            fg,
                            accent: c2,
                            secondary: c3,
                            success: c2,
                            error: c1,
                            warning: c3,
                            muted: c8,
                            highlight_bg: c0,
                            border: c8,
                        },
                    ),
                    _ => r is None,
                }
            }),
    {
        let bg = match parse_hex_color(pywal.special.background.as_str()) {
            Some(c) => c,
            None => {
                return None;
            },
        };
        let fg = match parse_hex_color(pywal.special.foreground.as_str()) {
            Some(c) => c,
            None => {
                return None;
            },
        };
        let c2 = match parse_hex_color(pywal.colors.color2.as_str()) {
            Some(c) => c,
            None => {
                return None;
            },
        };
        let c3 = match parse_hex_color(pywal.colors.color3.as_str()) {
            Some(c) => c,
            None => {
                return None;
            },
        };
        let c1 = match parse_hex_color(pywal.colors.color1.as_str()) {
            Some(c) => c,
            None => {
                return None;
            },
        };
        let c8 = match parse_hex_color(pywal.colors.color8.as_str()) {
            Some(c) => c,
            None => {
                return None;
            },
        };
        let c0 = match parse_hex_color(pywal.colors.color0.as_str()) {
            Some(c) => c,
            None => {
                return None;
            },
        };
        Some(
            Theme {
                bg,
                fg,
                accent: c2,
                secondary: c3,
                success: c2,
                error: c1,
                warning: c3,
                muted: c8,
                highlight_bg: c0,
                border: c8,
            },
        )
    }
}

} // verus!
