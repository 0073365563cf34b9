use vstd::prelude::*;

use crate::text::chars_to_string;

verus! {

/// An RGB colour, one byte per channel. Emitted as `#rrggbb` in frames.
#[derive(Clone, Copy, PartialEq, Eq, Structural, Debug)]
pub struct Color {
    pub r: u8,
    pub g: u8,
    pub b: u8,
}

/// The fixed 16-entry terminal palette, as RGB triples.
pub open spec fn palette_color(index: int) -> Color {
    if index == 0 {
        Color { r: 0x00, g: 0x00, b: 0x00 }
    } else if index == 1 {
        Color { r: 0xcd, g: 0x31, b: 0x31 }
    } else if index == 2 {
        Color { r: 0x0d, g: 0xbc, b: 0x79 }
    } else if index == 3 {
        Color { r: 0xe5, g: 0xe5, b: 0x10 }
    } else if index == 4 {
        Color { r: 0x24, g: 0x72, b: 0xc8 }
    } else if index == 5 {
        Color { r: 0xbc, g: 0x3f, b: 0xbc }
    } else if index == 6 {
        Color { r: 0x11, g: 0xa8, b: 0xcd }
    } else if index == 7 {
        Color { r: 0xe5, g: 0xe5, b: 0xe5 }
    } else if index == 8 {
        Color { r: 0x66, g: 0x66, b: 0x66 }
    } else if index == 9 {
        Color { r: 0xf1, g: 0x4c, b: 0x4c }
    } else if index == 10 {
        Color { r: 0x23, g: 0xd1, b: 0x8b }
    } else if index == 11 {
        Color { r: 0xf5, g: 0xf5, b: 0x43 }
    } else if index == 12 {
        Color { r: 0x3b, g: 0x8e, b: 0xea }
    } else if index == 13 {
        Color { r: 0xd6, g: 0x70, b: 0xd6 }
    } else if index == 14 {
        Color { r: 0x29, g: 0xb8, b: 0xdb }
    } else {
        Color { r: 0xff, g: 0xff, b: 0xff }
    }
}

/// Look up one of the 16 base palette colours; `None` past the palette's end.
pub fn ansi_16_color(index: usize) -> (c: Option<Color>)
    ensures
        index < 16 ==> c == Some(palette_color(index as int)),
        index >= 16 ==> c is None,
{
    if index == 0 {
        Some(Color { r: 0x00, g: 0x00, b: 0x00 })
    } else if index == 1 {
        Some(Color { r: 0xcd, g: 0x31, b: 0x31 })
    } else if index == 2 {
        Some(Color { r: 0x0d, g: 0xbc, b: 0x79 })
    } else if index == 3 {
        Some(Color { r: 0xe5, g: 0xe5, b: 0x10 })
    } else if index == 4 {
        Some(Color { r: 0x24, g: 0x72, b: 0xc8 })
    } else if index == 5 {
        Some(Color { r: 0xbc, g: 0x3f, b: 0xbc })
    } else if index == 6 {
        Some(Color { r: 0x11, g: 0xa8, b: 0xcd })
    } else if index == 7 {
        Some(Color { r: 0xe5, g: 0xe5, b: 0xe5 })
    } else if index == 8 {
        Some(Color { r: 0x66, g: 0x66, b: 0x66 })
    } else if index == 9 {
        Some(Color { r: 0xf1, g: 0x4c, b: 0x4c })
    } else if index == 10 {
        Some(Color { r: 0x23, g: 0xd1, b: 0x8b })
    } else if index == 11 {
        Some(Color { r: 0xf5, g: 0xf5, b: 0x43 })
    } else if index == 12 {
        Some(Color { r: 0x3b, g: 0x8e, b: 0xea })
    } else if index == 13 {
        Some(Color { r: 0xd6, g: 0x70, b: 0xd6 })
    } else if index == 14 {
        Some(Color { r: 0x29, g: 0xb8, b: 0xdb })
    } else if index == 15 {
        Some(Color { r: 0xff, g: 0xff, b: 0xff })
    } else {
        None
    }
}

/// The styling attributes of one grid cell.
#[derive(Clone, Copy, PartialEq, Eq, Structural, Debug)]
pub struct CellStyle {
    pub fg: Option<Color>,
    pub bg: Option<Color>,
    pub bold: bool,
    pub italic: bool,
    pub underline: bool,
    pub inverse: bool,
}

pub open spec fn default_style() -> CellStyle {
    CellStyle { fg: None, bg: None, bold: false, italic: false, underline: false, inverse: false }
}

impl Default for CellStyle {
    /// The default style: no colours, no attributes.
    fn default() -> (s: CellStyle)
        ensures
            s == default_style(),
    {
        CellStyle { fg: None, bg: None, bold: false, italic: false, underline: false, inverse: false }
    }
}

/// The style as emitted: inverse video is folded away by swapping the colours.
pub open spec fn spec_applied_style(s: CellStyle) -> CellStyle {
    if s.inverse {
        CellStyle {
            fg: s.bg,
            bg: s.fg,
            bold: s.bold,
            italic: s.italic,
            underline: s.underline,
            inverse: false,
        }
    } else {
        s
    }
}

/// Fold inverse video into the emitted colours: swap `fg` and `bg`, drop the flag.
pub fn applied_style(style: &CellStyle) -> (r: CellStyle)
    ensures
        r == spec_applied_style(*style),
{
    if !style.inverse {
        *style
    } else {
        CellStyle {
            fg: style.bg,
            bg: style.fg,
            bold: style.bold,
            italic: style.italic,
            underline: style.underline,
            inverse: false,
        }
    }
}

/// The lower-case hex digit for a value in `[0, 16)`.
pub open spec fn hex_digit_char(v: int) -> char {
    if v == 0 {
        '0'
    } else if v == 1 {
        '1'
    } else if v == 2 {
        '2'
    } else if v == 3 {
        '3'
    } else if v == 4 {
        '4'
    } else if v == 5 {
        '5'
    } else if v == 6 {
        '6'
    } else if v == 7 {
        '7'
    } else if v == 8 {
        '8'
    } else if v == 9 {
        '9'
    } else if v == 10 {
        'a'
    } else if v == 11 {
        'b'
    } else if v == 12 {
        'c'
    } else if v == 13 {
        'd'
    } else if v == 14 {
        'e'
    } else {
        'f'
    }
}

fn hex_digit(v: u8) -> (c: char)
    requires
        v < 16,
    ensures
        c == hex_digit_char(v as int),
{
    if v == 0 {
        '0'
    } else if v == 1 {
        '1'
    } else if v == 2 {
        '2'
    } else if v == 3 {
        '3'
    } else if v == 4 {
        '4'
    } else if v == 5 {
        '5'
    } else if v == 6 {
        '6'
    } else if v == 7 {
        '7'
    } else if v == 8 {
        '8'
    } else if v == 9 {
        '9'
    } else if v == 10 {
        'a'
    } else if v == 11 {
        'b'
    } else if v == 12 {
        'c'
    } else if v == 13 {
        'd'
    } else if v == 14 {
        'e'
    } else {
        'f'
    }
}

pub open spec fn clamp_255(v: int) -> int {
    if v < 0 {
        0
    } else if v > 255 {
        255
    } else {
        v
    }
}

/// The seven characters `#rrggbb` for a colour, lower-case hex.
pub open spec fn color_hex_chars(c: Color) -> Seq<char> {
    seq![
        '#',
        hex_digit_char(c.r as int / 16),
        hex_digit_char(c.r as int % 16),
        hex_digit_char(c.g as int / 16),
        hex_digit_char(c.g as int % 16),
        hex_digit_char(c.b as int / 16),
        hex_digit_char(c.b as int % 16),
    ]
}

/// Render one colour as its `#rrggbb` string.
pub fn color_hex(c: Color) -> (s: String)
    ensures
        s@ == color_hex_chars(c),
{
    let mut v: Vec<char> = Vec::new();
    v.push('#');
    v.push(hex_digit(c.r / 16));
    v.push(hex_digit(c.r % 16));
    v.push(hex_digit(c.g / 16));
    v.push(hex_digit(c.g % 16));
    v.push(hex_digit(c.b / 16));
    v.push(hex_digit(c.b % 16));
    let s = chars_to_string(&v);
    proof {
        assert(v@ =~= color_hex_chars(c));
    }
    s
}

/// The `#rrggbb` string for arbitrary components, each clamped into `[0, 255]`.
pub fn rgb_hex(r: i32, g: i32, b: i32) -> (s: String)
    ensures
        s@ == color_hex_chars(
            Color {
                r: clamp_255(r as int) as u8,
                g: clamp_255(g as int) as u8,
                b: clamp_255(b as int) as u8,
            },
        ),
{
    color_hex(clamp_color(r, g, b))
}

/// Clamp arbitrary components into a `Color`.
pub fn clamp_color(r: i32, g: i32, b: i32) -> (c: Color)
    ensures
        c.r == clamp_255(r as int),
        c.g == clamp_255(g as int),
        c.b == clamp_255(b as int),
{
    Color { r: clamp_byte(r), g: clamp_byte(g), b: clamp_byte(b) }
}

fn clamp_byte(v: i32) -> (r: u8)
    ensures
        r == clamp_255(v as int),
{
    if v < 0 {
        0
    } else if v > 255 {
        255
    } else {
        v as u8
    }
}

/// The colour the xterm 256-colour scheme gives to an index, if it is in `[0, 255]`.
pub open spec fn xterm_color(index: int) -> Option<Color> {
    if index < 0 || index > 255 {
        None
    } else if index < 16 {
        Some(palette_color(index))
    } else if index >= 232 {
        Some(
            Color {
                r: (8 + (index - 232) * 10) as u8,
                g: (8 + (index - 232) * 10) as u8,
                b: (8 + (index - 232) * 10) as u8,
            },
        )
    } else {
        Some(
            Color {
                r: cube_level((index - 16) / 36) as u8,
                g: cube_level(((index - 16) % 36) / 6) as u8,
                b: cube_level((index - 16) % 6) as u8,
            },
        )
    }
}

/// The channel value for one axis of the 6x6x6 colour cube.
pub open spec fn cube_level(i: int) -> int {
    if i == 0 {
        0
    } else if i == 1 {
        95
    } else if i == 2 {
        135
    } else if i == 3 {
        175
    } else if i == 4 {
        215
    } else {
        255
    }
}

fn cube_level_exec(i: i32) -> (r: u8)
    requires
        0 <= i < 6,
    ensures
        r == cube_level(i as int),
{
    if i == 0 {
        0
    } else if i == 1 {
        95
    } else if i == 2 {
        135
    } else if i == 3 {
        175
    } else if i == 4 {
        215
    } else {
        255
    }
}

/// Resolve an extended-colour palette index through the xterm 256-colour scheme.
pub fn xterm_256_color(index: i32) -> (c: Option<Color>)
    ensures
        c == xterm_color(index as int),
{
    if index < 0 || index > 255 {
        return None;
    }
    if index < 16 {
        return ansi_16_color(index as usize);
    }
    if index >= 232 {
        let v = (8 + (index - 232) * 10) as u8;
        return Some(Color { r: v, g: v, b: v });
    }
    let i = index - 16;
    Some(
        Color {
            r: cube_level_exec(i / 36),
            g: cube_level_exec((i % 36) / 6),
            b: cube_level_exec(i % 6),
        },
    )
}

/// The characters of the equivalence key a style is coalesced by: the emitted
/// colours and flags, joined with `|`.
pub open spec fn style_key_chars(s: CellStyle) -> Seq<char> {
    (match s.fg {
        Some(c) => color_hex_chars(c),
        None => Seq::<char>::empty(),
    }) + seq!['|'] + (match s.bg {
        Some(c) => color_hex_chars(c),
        None => Seq::<char>::empty(),
    }) + seq!['|'] + seq![if s.bold { '1' } else { '0' }] + seq!['|'] + seq![
        if s.italic {
            '1'
        } else {
            '0'
        },
    ] + seq!['|'] + seq![if s.underline { '1' } else { '0' }]
}

/// The key by which cells are coalesced into segments: `fg|bg|bold|italic|underline`,
/// with each colour as `#rrggbb` or empty. `inverse` does not take part; it is folded
/// away before coalescing.
#[verifier::rlimit(50)]
pub fn style_key(style: &CellStyle) -> (s: String)
    ensures
        s@ == style_key_chars(*style),
{
    let mut v: Vec<char> = Vec::new();
    push_color_chars(&mut v, &style.fg);
    v.push('|');
    push_color_chars(&mut v, &style.bg);
    v.push('|');
    v.push(if style.bold { '1' } else { '0' });
    v.push('|');
    v.push(if style.italic { '1' } else { '0' });
    v.push('|');
    v.push(if style.underline { '1' } else { '0' });
    let s = chars_to_string(&v);
    proof {
        assert(v@ =~= style_key_chars(*style));
    }
    s
}

fn push_color_chars(v: &mut Vec<char>, c: &Option<Color>)
    ensures
        final(v)@ == old(v)@ + (match *c {
            Some(col) => color_hex_chars(col),
            None => Seq::<char>::empty(),
        }),
{
    match c {
        None => {
            proof {
                assert(v@ =~= old(v)@ + Seq::<char>::empty());
            }
        }
        Some(col) => {
            v.push('#');
            v.push(hex_digit(col.r / 16));
            v.push(hex_digit(col.r % 16));
            v.push(hex_digit(col.g / 16));
            v.push(hex_digit(col.g % 16));
            v.push(hex_digit(col.b / 16));
            v.push(hex_digit(col.b % 16));
            proof {
                assert(v@ =~= old(v)@ + color_hex_chars(*col));
            }
        }
    }
}

} // verus!
