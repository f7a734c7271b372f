//! Control items produced by the byte-stream parser: raw text runs, C0
//! controls, escape-level DEC controls, CSI sequences with their decoded
//! variants, OSC strings, SGR attributes and SIXEL command streams.

use vstd::prelude::*;

verus! {

/// A single-byte C0 control. ESC never reaches the orchestrator: the parser
/// folds it into multi-byte sequences.
#[derive(Clone, Copy, Debug, PartialEq, Eq, Structural)]
pub enum C0 {
    Bell,
    Backspace,
    HorizontalTab,
    LineFeed,
    VerticalTab,
    FormFeed,
    CarriageReturn,
    ShiftOut,
    ShiftIn,
    Cancel,
    Substitute,
    Unknown(u8),
}

/// An escape-level control outside the CSI/OSC families.
#[derive(Clone, Copy, Debug, PartialEq, Eq, Structural)]
pub enum Dec {
    SaveCursor,
    RestoreCursor,
    ApplicationKeypad(bool),
    Alignment,
    BackIndex,
    ForwardIndex,
    Unknown(u8),
}

/// The region an erase control acts on.
#[derive(Clone, Copy, Debug, PartialEq, Eq, Structural)]
pub enum Erase {
    ToEnd,
    ToStart,
    All,
}

/// A color as it appears in an SGR parameter list.
#[derive(Clone, Copy, Debug, PartialEq, Eq, Structural)]
pub enum SgrColor {
    Default,
    Transparent,
    Index(u8),
    Rgb(u8, u8, u8),
}

/// One decoded SGR attribute, applied left to right.
#[derive(Clone, Copy, Debug, PartialEq, Eq, Structural)]
pub enum Sgr {
    Reset,
    Bold,
    Faint,
    NormalWeight,
    Italic(bool),
    Underline(bool),
    Blink(bool),
    Reverse(bool),
    Invisible(bool),
    Struck(bool),
    Foreground(SgrColor),
    Background(SgrColor),
}

/// A color definition inside a SIXEL stream. Hue is in degrees, saturation
/// and lightness in percent; RGB components are 0 to 255.
#[derive(Clone, Copy, Debug, PartialEq, Eq, Structural)]
pub enum SixelColor {
    Hsl(u16, u8, u8),
    Rgb(u8, u8, u8),
    Rgba(u8, u8, u8, u8),
}

/// One step of a SIXEL stream. `Draw` carries the six-row column bitmap.
#[derive(Clone, Copy, Debug, PartialEq, Eq, Structural)]
pub enum SixelCommand {
    Aspect(u32, u32),
    Enable(u32),
    Define(u32, SixelColor),
    Start,
    Next,
    Draw(u8),
}

/// The raster header of a SIXEL stream.
#[derive(Clone, Copy, Debug, PartialEq, Eq, Structural)]
pub struct SixelHeader {
    pub aspect_num: u32,
    pub aspect_den: u32,
    pub background: bool,
}

/// A decoded CSI sequence. Coordinates are already zero-based and counts
/// already defaulted, so the orchestrator applies them as they stand.
#[derive(Clone, Debug)]
pub enum Csi {
    CursorPosition { x: u32, y: u32 },
    CursorUp(u32),
    CursorDown(u32),
    CursorForward(u32),
    CursorBack(u32),
    LinePosition(u32),
    EraseDisplay(Erase),
    EraseLine(Erase),
    InsertLine(u32),
    DeleteLine(u32),
    DeviceAttributes(u32),
    SetMode(Vec<u32>),
    ResetMode(Vec<u32>),
    Private(u8, Vec<u32>),
    SaveCursor,
    RestoreCursor,
    SelectGraphicalRendition(Vec<Sgr>),
    Unknown(u8, Option<u8>, Vec<u32>),
}

/// The mathematical value of a CSI sequence.
pub ghost enum CsiV {
    CursorPosition { x: u32, y: u32 },
    CursorUp(u32),
    CursorDown(u32),
    CursorForward(u32),
    CursorBack(u32),
    LinePosition(u32),
    EraseDisplay(Erase),
    EraseLine(Erase),
    InsertLine(u32),
    DeleteLine(u32),
    DeviceAttributes(u32),
    SetMode(Seq<u32>),
    ResetMode(Seq<u32>),
    Private(u8, Seq<u32>),
    SaveCursor,
    RestoreCursor,
    SelectGraphicalRendition(Seq<Sgr>),
    Unknown(u8, Option<u8>, Seq<u32>),
}

impl View for Csi {
    type V = CsiV;

    open spec fn view(&self) -> CsiV {
        match self {
            Csi::CursorPosition { x, y } => CsiV::CursorPosition { x: *x, y: *y },
            Csi::CursorUp(n) => CsiV::CursorUp(*n),
            Csi::CursorDown(n) => CsiV::CursorDown(*n),
            Csi::CursorForward(n) => CsiV::CursorForward(*n),
            Csi::CursorBack(n) => CsiV::CursorBack(*n),
            Csi::LinePosition(n) => CsiV::LinePosition(*n),
            Csi::EraseDisplay(e) => CsiV::EraseDisplay(*e),
            Csi::EraseLine(e) => CsiV::EraseLine(*e),
            Csi::InsertLine(n) => CsiV::InsertLine(*n),
            Csi::DeleteLine(n) => CsiV::DeleteLine(*n),
            Csi::DeviceAttributes(n) => CsiV::DeviceAttributes(*n),
            Csi::SetMode(v) => CsiV::SetMode(v@),
            Csi::ResetMode(v) => CsiV::ResetMode(v@),
            Csi::Private(f, v) => CsiV::Private(*f, v@),
            Csi::SaveCursor => CsiV::SaveCursor,
            Csi::RestoreCursor => CsiV::RestoreCursor,
            Csi::SelectGraphicalRendition(v) => CsiV::SelectGraphicalRendition(v@),
            Csi::Unknown(f, i, v) => CsiV::Unknown(*f, *i, v@),
        }
    }
}

/// A control from the C1 family.
#[derive(Clone, Debug)]
pub enum C1 {
    ControlSequence(Csi),
    OperatingSystemCommand(Vec<u8>),
    NextLine,
    Unknown(u8),
}

pub ghost enum C1V {
    ControlSequence(CsiV),
    OperatingSystemCommand(Seq<u8>),
    NextLine,
    Unknown(u8),
}

impl View for C1 {
    type V = C1V;

    open spec fn view(&self) -> C1V {
        match self {
            C1::ControlSequence(c) => C1V::ControlSequence(c@),
            C1::OperatingSystemCommand(v) => C1V::OperatingSystemCommand(v@),
            C1::NextLine => C1V::NextLine,
            C1::Unknown(b) => C1V::Unknown(*b),
        }
    }
}

/// One parsed item: a raw text run (UTF-8 bytes) or a control.
#[derive(Clone, Debug)]
pub enum Control {
    Text(Vec<u8>),
    C0(C0),
    C1(C1),
    Dec(Dec),
    Sixel(SixelHeader, Vec<SixelCommand>),
}

pub ghost enum ControlV {
    Text(Seq<u8>),
    C0(C0),
    C1(C1V),
    Dec(Dec),
    Sixel(SixelHeader, Seq<SixelCommand>),
}

impl View for Control {
    type V = ControlV;

    open spec fn view(&self) -> ControlV {
        match self {
            Control::Text(v) => ControlV::Text(v@),
            Control::C0(c) => ControlV::C0(*c),
            Control::C1(c) => ControlV::C1(c@),
            Control::Dec(d) => ControlV::Dec(*d),
            Control::Sixel(h, v) => ControlV::Sixel(*h, v@),
        }
    }
}

/// What one parsing step yields: a complete item and how many bytes it took,
/// a request for more input, or a malformed sequence.
#[derive(Clone, Debug)]
pub enum ParseResult {
    Done(usize, Control),
    Incomplete,
    Error,
}

pub ghost enum ParseResultV {
    Done(int, ControlV),
    Incomplete,
    Error,
}

impl View for ParseResult {
    type V = ParseResultV;

    open spec fn view(&self) -> ParseResultV {
        match self {
            ParseResult::Done(n, c) => ParseResultV::Done(*n as int, c@),
            ParseResult::Incomplete => ParseResultV::Incomplete,
            ParseResult::Error => ParseResultV::Error,
        }
    }
}

/// A font expansion selector, as carried by some SGR-adjacent sequences.
#[derive(Eq, PartialEq, Copy, Clone, Debug, Structural)]
pub enum Expansion {
    Normal,
    Expanded,
    Condensed,
}

/// The error a rejected selector value yields.
#[derive(Eq, PartialEq, Copy, Clone, Debug, Structural)]
pub struct BadValue {
    pub value: u32,
}

impl Expansion {
    /// Decodes a numeric expansion selector; values past the known range are
    /// rejected.
    pub fn parse(value: u32) -> (r: Result<Expansion, BadValue>)
        ensures
            value == 0 ==> r == Result::<Expansion, BadValue>::Ok(Expansion::Normal),
            value == 1 ==> r == Result::<Expansion, BadValue>::Ok(Expansion::Expanded),
            value == 2 ==> r == Result::<Expansion, BadValue>::Ok(Expansion::Condensed),
            value > 2 ==> r == Result::<Expansion, BadValue>::Err(BadValue { value }),
    {
        match value {
            0 => Ok(Expansion::Normal),
            1 => Ok(Expansion::Expanded),
            2 => Ok(Expansion::Condensed),
            _ => Err(BadValue { value }),
        }
    }
}

} // verus!
