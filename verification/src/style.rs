//! Styles attached to terminal cells: a color, a set of text attributes, and
//! the pair of optional foreground/background colors.

use vstd::prelude::*;

verus! {

/// An RGBA color with 8-bit components.
#[derive(Clone, Copy, Debug, PartialEq, Eq, Structural)]
pub struct Rgba {
    pub r: u8,
    pub g: u8,
    pub b: u8,
    pub a: u8,
}

impl Rgba {
    pub fn new(r: u8, g: u8, b: u8, a: u8) -> (c: Rgba)
        ensures
            c == (Rgba { r, g, b, a }),
    {
        Rgba { r, g, b, a }
    }
}

/// The text attributes a cell style can carry.
#[derive(Clone, Copy, Debug, PartialEq, Eq, Structural, Default)]
pub struct Attributes {
    pub bold: bool,
    pub faint: bool,
    pub italic: bool,
    pub underline: bool,
    pub blink: bool,
    pub reverse: bool,
    pub invisible: bool,
    pub struck: bool,
}

impl Attributes {
    pub fn none() -> (a: Attributes)
        ensures
            a == Attributes::empty_spec(),
    {
        Attributes {
            bold: false,
            faint: false,
            italic: false,
            underline: false,
            blink: false,
            reverse: false,
            invisible: false,
            struck: false,
        }
    }

    pub open spec fn empty_spec() -> Attributes {
        Attributes {
            bold: false,
            faint: false,
            italic: false,
            underline: false,
            blink: false,
            reverse: false,
            invisible: false,
            struck: false,
        }
    }
}

/// A cell style: optional foreground and background colors plus attributes.
/// `None` for a color means the terminal's configured default applies.
#[derive(Clone, Copy, Debug, PartialEq, Eq, Structural)]
pub struct Style {
    pub foreground: Option<Rgba>,
    pub background: Option<Rgba>,
    pub attributes: Attributes,
}

impl Style {
    pub open spec fn default_spec() -> Style {
        Style { foreground: None, background: None, attributes: Attributes::empty_spec() }
    }
}

impl Default for Style {
    fn default() -> (s: Style)
        ensures
            s == Style::default_spec(),
    {
        Style { foreground: None, background: None, attributes: Attributes::none() }
    }
}

/// Structural comparison of two colors.
pub fn rgba_eq(a: &Rgba, b: &Rgba) -> (r: bool)
    ensures
        r == (a == b),
{
    a.r == b.r && a.g == b.g && a.b == b.b && a.a == b.a
}

/// Structural comparison of two attribute sets.
pub fn attributes_eq(a: &Attributes, b: &Attributes) -> (r: bool)
    ensures
        r == (a == b),
{
    a.bold == b.bold && a.faint == b.faint && a.italic == b.italic && a.underline == b.underline
        && a.blink == b.blink && a.reverse == b.reverse && a.invisible == b.invisible && a.struck
        == b.struck
}

fn opt_rgba_eq(a: &Option<Rgba>, b: &Option<Rgba>) -> (r: bool)
    ensures
        r == (a == b),
{
    match (a, b) {
        (Some(x), Some(y)) => rgba_eq(x, y),
        (None, None) => true,
        _ => false,
    }
}

/// Structural comparison of two styles.
pub fn style_eq(a: &Style, b: &Style) -> (r: bool)
    ensures
        r == (a == b),
{
    opt_rgba_eq(&a.foreground, &b.foreground) && opt_rgba_eq(&a.background, &b.background)
        && attributes_eq(&a.attributes, &b.attributes)
}

} // verus!
