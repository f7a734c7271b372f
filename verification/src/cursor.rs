//! The cursor: a position inside the visible window, its style and
//! appearance, and the travel rules that clamp motion to the window and
//! signal when the grid must grow.

use vstd::prelude::*;
use crate::config::Shape;
use crate::style::{Rgba, Style};

verus! {

/// The cursor state. `cols` and `rows` are the dimensions of the visible
/// window the cursor is clamped to.
#[derive(Clone, Copy, Debug, PartialEq, Eq, Structural)]
pub struct Cursor {
    pub x: u32,
    pub y: u32,
    pub cols: u32,
    pub rows: u32,
    pub style: Style,
    pub visible: bool,
    pub blink: bool,
    pub shape: Shape,
    pub background: Rgba,
}

/// A cursor motion. `Position` coordinates are zero-based and already
/// decoded; `None` leaves that axis alone.
#[derive(Clone, Copy, Debug)]
pub enum Travel {
    Up(u32),
    Down(u32),
    Left(u32),
    Right(u32),
    Position(Option<u32>, Option<u32>),
}

pub open spec fn cursor_wf(c: Cursor) -> bool {
    &&& c.cols >= 1
    &&& c.rows >= 1
    &&& c.x < c.cols
    &&& c.y < c.rows
}

/// The cursor moved to `(x, y)`, everything else kept.
pub open spec fn with_xy(c: Cursor, x: u32, y: u32) -> Cursor {
    Cursor {
        x,
        y,
        cols: c.cols,
        rows: c.rows,
        style: c.style,
        visible: c.visible,
        blink: c.blink,
        shape: c.shape,
        background: c.background,
    }
}

/// Where a travel op puts the cursor, and how many fresh rows the grid must
/// gain: moving down past the last row scrolls, everything else clamps.
pub open spec fn spec_travel(c: Cursor, t: Travel) -> (Cursor, u32) {
    match t {
        Travel::Up(n) => (
            with_xy(
                c,
                c.x,
                if n > c.y {
                    0u32
                } else {
                    (c.y - n) as u32
                },
            ),
            0u32,
        ),
        Travel::Down(n) => if n <= c.rows - 1 - c.y {
            (with_xy(c, c.x, (c.y + n) as u32), 0u32)
        } else {
            (with_xy(c, c.x, (c.rows - 1) as u32), (n - (c.rows - 1 - c.y)) as u32)
        },
        Travel::Left(n) => (
            with_xy(
                c,
                if n > c.x {
                    0u32
                } else {
                    (c.x - n) as u32
                },
                c.y,
            ),
            0u32,
        ),
        Travel::Right(n) => (
            with_xy(
                c,
                if n >= c.cols - c.x {
                    (c.cols - 1) as u32
                } else {
                    (c.x + n) as u32
                },
                c.y,
            ),
            0u32,
        ),
        Travel::Position(px, py) => {
            let nx = match px {
                Some(v) => if v >= c.cols {
                    (c.cols - 1) as u32
                } else {
                    v
                },
                None => c.x,
            };
            let ny = match py {
                Some(v) => if v >= c.rows {
                    (c.rows - 1) as u32
                } else {
                    v
                },
                None => c.y,
            };
            (with_xy(c, nx, ny), 0u32)
        },
    }
}

impl Cursor {
    /// A cursor at the origin of a `cols` by `rows` window.
    pub fn new(cols: u32, rows: u32, style: Style, shape: Shape, background: Rgba) -> (c: Cursor)
        requires
            cols >= 1,
            rows >= 1,
        ensures
            c == (Cursor {
                x: 0u32,
                y: 0u32,
                cols,
                rows,
                style,
                visible: true,
                blink: false,
                shape,
                background,
            }),
            cursor_wf(c),
    {
        Cursor { x: 0, y: 0, cols, rows, style, visible: true, blink: false, shape, background }
    }

    pub fn x(&self) -> (r: u32)
        ensures
            r == self.x,
    {
        self.x
    }

    pub fn y(&self) -> (r: u32)
        ensures
            r == self.y,
    {
        self.y
    }

    pub fn position(&self) -> (r: (u32, u32))
        ensures
            r == (self.x, self.y),
    {
        (self.x, self.y)
    }

    pub fn style(&self) -> (s: Style)
        ensures
            s == self.style,
    {
        self.style
    }

    /// Replaces the style later writes will use.
    pub fn update(&mut self, style: Style)
        ensures
            *final(self) == (Cursor { style, ..*old(self) }),
    {
        self.style = style;
    }

    /// Applies a travel op; returns how many fresh rows the caller must
    /// append to the grid (zero when none).
    pub fn travel(&mut self, t: Travel) -> (scroll: u32)
        requires
            cursor_wf(*old(self)),
        ensures
            (*final(self), scroll) == spec_travel(*old(self), t),
            cursor_wf(*final(self)),
            final(self).style == old(self).style,
    {
        match t {
            Travel::Up(n) => {
                if n > self.y {
                    self.y = 0;
                } else {
                    self.y = self.y - n;
                }
                0
            },
            Travel::Down(n) => {
                let room = self.rows - 1 - self.y;
                if n <= room {
                    self.y = self.y + n;
                    0
                } else {
                    self.y = self.rows - 1;
                    n - room
                }
            },
            Travel::Left(n) => {
                if n > self.x {
                    self.x = 0;
                } else {
                    self.x = self.x - n;
                }
                0
            },
            Travel::Right(n) => {
                if n >= self.cols - self.x {
                    self.x = self.cols - 1;
                } else {
                    self.x = self.x + n;
                }
                0
            },
            Travel::Position(px, py) => {
                match px {
                    Some(v) => {
                        if v >= self.cols {
                            self.x = self.cols - 1;
                        } else {
                            self.x = v;
                        }
                    },
                    None => {},
                }
                match py {
                    Some(v) => {
                        if v >= self.rows {
                            self.y = self.rows - 1;
                        } else {
                            self.y = v;
                        }
                    },
                    None => {},
                }
                0
            },
        }
    }
}

/// The cursor together with the cell it sits on, as handed to the renderer.
pub struct Cell<'a> {
    pub cursor: &'a Cursor,
    pub cell: crate::cell::Position<'a>,
}

impl<'a> Cell<'a> {
    pub fn new(cursor: &'a Cursor, cell: crate::cell::Position<'a>) -> (r: Cell<'a>)
        ensures
            r.cursor == cursor,
            r.cell == cell,
    {
        Cell { cursor, cell }
    }

    pub fn x(&self) -> (r: u32)
        ensures
            r == self.cursor.x,
    {
        self.cursor.x
    }

    pub fn y(&self) -> (r: u32)
        ensures
            r == self.cursor.y,
    {
        self.cursor.y
    }

    pub fn visible(&self) -> (r: bool)
        ensures
            r == self.cursor.visible,
    {
        self.cursor.visible
    }

    pub fn blink(&self) -> (r: bool)
        ensures
            r == self.cursor.blink,
    {
        self.cursor.blink
    }

    pub fn shape(&self) -> (r: Shape)
        ensures
            r == self.cursor.shape,
    {
        self.cursor.shape
    }

    pub fn style(&self) -> (s: Style)
        ensures
            s == self.cursor.style,
    {
        self.cursor.style
    }

    pub fn background(&self) -> (r: Rgba)
        ensures
            r == self.cursor.background,
    {
        self.cursor.background
    }

    pub fn cell(&self) -> (c: &crate::cell::Position<'a>)
        ensures
            c == self.cell,
    {
        &self.cell
    }
}

} // verus!
