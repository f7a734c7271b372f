//! Configuration values consumed by the terminal: default colors, the
//! 256-entry palette, scrollback and glyph-cache capacities, and the cursor
//! appearance. Parsing a configuration file is the caller's business; only
//! plain values arrive here.

use vstd::prelude::*;
use crate::style::Rgba;

verus! {

/// The shape the cursor is drawn with.
#[derive(Clone, Copy, Debug, PartialEq, Eq, Structural)]
pub enum Shape {
    Block,
    Line,
    Beam,
}

/// Immutable configuration handed to `Terminal::open`.
#[derive(Clone, Debug)]
pub struct Config {
    pub foreground: Rgba,
    pub background: Rgba,
    pub cursor_background: Rgba,
    pub palette: Vec<Rgba>,
    pub scrollback: u32,
    pub glyph_capacity: usize,
}

impl Config {
    pub open spec fn wf(&self) -> bool {
        &&& self.palette@.len() == 256
        &&& self.glyph_capacity >= 1
    }

    pub fn new(
        foreground: Rgba,
        background: Rgba,
        cursor_background: Rgba,
        palette: Vec<Rgba>,
        scrollback: u32,
        glyph_capacity: usize,
    ) -> (c: Config)
        requires
            palette@.len() == 256,
            glyph_capacity >= 1,
        ensures
            c.wf(),
            c.foreground == foreground,
            c.background == background,
            c.cursor_background == cursor_background,
            c.palette == palette,
            c.scrollback == scrollback,
            c.glyph_capacity == glyph_capacity,
    {
        Config { foreground, background, cursor_background, palette, scrollback, glyph_capacity }
    }

    /// A ready-made configuration: white on black, the standard 256-color
    /// palette, and modest scrollback and cache bounds.
    pub fn standard() -> (c: Config)
        ensures
            c.wf(),
            c.foreground == (Rgba { r: 229, g: 229, b: 229, a: 255 }),
            c.background == (Rgba { r: 0, g: 0, b: 0, a: 255 }),
            c.cursor_background == (Rgba { r: 229, g: 229, b: 229, a: 255 }),
            forall|i: int| 0 <= i < 256 ==> c.palette@[i] == #[trigger] standard_palette(i),
            c.scrollback == 1000,
            c.glyph_capacity == 128,
    {
        Config {
            foreground: Rgba { r: 229, g: 229, b: 229, a: 255 },
            background: Rgba { r: 0, g: 0, b: 0, a: 255 },
            cursor_background: Rgba { r: 229, g: 229, b: 229, a: 255 },
            palette: standard_palette_vec(),
            scrollback: 1000,
            glyph_capacity: 128,
        }
    }
}

/// The classic 16 ANSI colors.
pub open spec fn ansi_color(i: int) -> Rgba {
    if i == 0 {
        Rgba { r: 0, g: 0, b: 0, a: 255 }
    } else if i == 1 {
        Rgba { r: 205, g: 0, b: 0, a: 255 }
    } else if i == 2 {
        Rgba { r: 0, g: 205, b: 0, a: 255 }
    } else if i == 3 {
        Rgba { r: 205, g: 205, b: 0, a: 255 }
    } else if i == 4 {
        Rgba { r: 0, g: 0, b: 238, a: 255 }
    } else if i == 5 {
        Rgba { r: 205, g: 0, b: 205, a: 255 }
    } else if i == 6 {
        Rgba { r: 0, g: 205, b: 205, a: 255 }
    } else if i == 7 {
        Rgba { r: 229, g: 229, b: 229, a: 255 }
    } else if i == 8 {
        Rgba { r: 127, g: 127, b: 127, a: 255 }
    } else if i == 9 {
        Rgba { r: 255, g: 0, b: 0, a: 255 }
    } else if i == 10 {
        Rgba { r: 0, g: 255, b: 0, a: 255 }
    } else if i == 11 {
        Rgba { r: 255, g: 255, b: 0, a: 255 }
    } else if i == 12 {
        Rgba { r: 92, g: 92, b: 255, a: 255 }
    } else if i == 13 {
        Rgba { r: 255, g: 0, b: 255, a: 255 }
    } else if i == 14 {
        Rgba { r: 0, g: 255, b: 255, a: 255 }
    } else {
        Rgba { r: 255, g: 255, b: 255, a: 255 }
    }
}

/// One level of the 6x6x6 color cube, as xterm scales it.
pub open spec fn cube_level(v: int) -> u8 {
    if v == 0 {
        0u8
    } else {
        (55 + 40 * v) as u8
    }
}

/// Entry `i` of the standard 256-color palette: 16 ANSI colors, a 6x6x6
/// color cube, and a 24-step grayscale ramp.
pub open spec fn standard_palette(i: int) -> Rgba {
    if 0 <= i < 16 {
        ansi_color(i)
    } else if 16 <= i < 232 {
        let n = i - 16;
        Rgba {
            r: cube_level(n / 36),
            g: cube_level((n / 6) % 6),
            b: cube_level(n % 6),
            a: 255,
        }
    } else {
        Rgba { r: (8 + 10 * (i - 232)) as u8, g: (8 + 10 * (i - 232)) as u8, b: (8 + 10 * (i - 232)) as u8, a: 255 }
    }
}

fn cube_level_exec(v: u8) -> (r: u8)
    requires
        v < 6,
    ensures
        r == cube_level(v as int),
{
    if v == 0 {
        0
    } else {
        55 + 40 * v
    }
}

/// Builds the standard 256-color palette.
pub fn standard_palette_vec() -> (p: Vec<Rgba>)
    ensures
        p@.len() == 256,
        forall|i: int| 0 <= i < 256 ==> p@[i] == #[trigger] standard_palette(i),
{
    let mut p: Vec<Rgba> = Vec::new();
    let ansi: [Rgba; 16] = [
        Rgba { r: 0, g: 0, b: 0, a: 255 },
        Rgba { r: 205, g: 0, b: 0, a: 255 },
        Rgba { r: 0, g: 205, b: 0, a: 255 },
        Rgba { r: 205, g: 205, b: 0, a: 255 },
        Rgba { r: 0, g: 0, b: 238, a: 255 },
        Rgba { r: 205, g: 0, b: 205, a: 255 },
        Rgba { r: 0, g: 205, b: 205, a: 255 },
        Rgba { r: 229, g: 229, b: 229, a: 255 },
        Rgba { r: 127, g: 127, b: 127, a: 255 },
        Rgba { r: 255, g: 0, b: 0, a: 255 },
        Rgba { r: 0, g: 255, b: 0, a: 255 },
        Rgba { r: 255, g: 255, b: 0, a: 255 },
        Rgba { r: 92, g: 92, b: 255, a: 255 },
        Rgba { r: 255, g: 0, b: 255, a: 255 },
        Rgba { r: 0, g: 255, b: 255, a: 255 },
        Rgba { r: 255, g: 255, b: 255, a: 255 },
    ];
    let mut i: usize = 0;
    while i < 16
        invariant
            i <= 16,
            p@.len() == i,
            forall|j: int| 0 <= j < i ==> p@[j] == #[trigger] standard_palette(j),
            forall|j: int| 0 <= j < 16 ==> ansi@[j] == ansi_color(j),
        decreases 16 - i,
    {
        p.push(ansi[i]);
        i = i + 1;
    }
    let mut n: u8 = 0;
    while n < 216
        invariant
            n <= 216,
            p@.len() == 16 + n as int,
            forall|j: int| 0 <= j < p@.len() ==> p@[j] == #[trigger] standard_palette(j),
        decreases 216 - n,
    {
        let r = cube_level_exec(n / 36);
        let g = cube_level_exec((n / 6) % 6);
        let b = cube_level_exec(n % 6);
        p.push(Rgba { r, g, b, a: 255 });
        n = n + 1;
    }
    let mut k: u8 = 0;
    while k < 24
        invariant
            k <= 24,
            p@.len() == 232 + k as int,
            forall|j: int| 0 <= j < p@.len() ==> p@[j] == #[trigger] standard_palette(j),
        decreases 24 - k,
    {
        let v = 8 + 10 * k;
        p.push(Rgba { r: v, g: v, b: v, a: 255 });
        k = k + 1;
    }
    p
}

/// The value of a hexadecimal digit, or 16 when the byte is not one.
pub open spec fn hex_val(b: u8) -> u8 {
    if 48 <= b <= 57 {
        (b - 48) as u8
    } else if 97 <= b <= 102 {
        (b - 97 + 10) as u8
    } else if 65 <= b <= 70 {
        (b - 65 + 10) as u8
    } else {
        16u8
    }
}

pub open spec fn is_hex(b: u8) -> bool {
    hex_val(b) < 16
}

fn hex_val_exec(b: u8) -> (r: u8)
    ensures
        r == hex_val(b),
{
    if 48 <= b && b <= 57 {
        b - 48
    } else if 97 <= b && b <= 102 {
        b - 97 + 10
    } else if 65 <= b && b <= 70 {
        b - 65 + 10
    } else {
        16
    }
}

/// The byte pair `(s[i], s[i+1])` read as a hexadecimal component.
pub open spec fn hex_byte(s: Seq<u8>, i: int) -> u8 {
    (hex_val(s[i]) * 16 + hex_val(s[i + 1])) as u8
}

/// What a color description denotes: `#rrggbb` or `#rrggbbaa`, else nothing.
pub open spec fn spec_to_color(s: Seq<u8>) -> Option<Rgba> {
    if s.len() == 7 && s[0] == 35 && (forall|i: int| 1 <= i < 7 ==> is_hex(#[trigger] s[i])) {
        Some(Rgba { r: hex_byte(s, 1), g: hex_byte(s, 3), b: hex_byte(s, 5), a: 255 })
    } else if s.len() == 9 && s[0] == 35 && (forall|i: int| 1 <= i < 9 ==> is_hex(#[trigger] s[i])) {
        Some(Rgba { r: hex_byte(s, 1), g: hex_byte(s, 3), b: hex_byte(s, 5), a: hex_byte(s, 7) })
    } else {
        None
    }
}

fn hex_component(s: &[u8], i: usize) -> (r: Option<u8>)
    requires
        i + 2 <= s@.len(),
    ensures
        r is Some <==> is_hex(s@[i as int]) && is_hex(s@[i + 1]),
        r is Some ==> r->0 == hex_byte(s@, i as int),
{
    let hi = hex_val_exec(s[i]);
    let lo = hex_val_exec(s[i + 1]);
    if hi < 16 && lo < 16 {
        Some(hi * 16 + lo)
    } else {
        None
    }
}

/// Parses a `#rrggbb` or `#rrggbbaa` color description.
pub fn to_color(desc: &[u8]) -> (r: Option<Rgba>)
    ensures
        r == spec_to_color(desc@),
{
    let n = desc.len();
    if (n == 7 || n == 9) && desc[0] == 35 {
        let red = hex_component(desc, 1);
        let green = hex_component(desc, 3);
        let blue = hex_component(desc, 5);
        let alpha = if n == 9 {
            hex_component(desc, 7)
        } else {
            Some(255)
        };
        match (red, green, blue, alpha) {
            (Some(cr), Some(cg), Some(cb), Some(ca)) => {
                if n == 9 {
                    Some(Rgba { r: cr, g: cg, b: cb, a: ca })
                } else {
                    Some(Rgba { r: cr, g: cg, b: cb, a: 255 })
                }
            },
            _ => None,
        }
    } else {
        None
    }
}

} // verus!
