//! The terminal orchestrator: owns the grid with its scrollback, the cursor,
//! the saved cursor, the mode flags, the damage set and the cache of
//! incomplete input, and applies parsed control items to them.

use vstd::prelude::*;
use crate::cell::{Cell, CellV, Position, row_wf, rview, spec_clear, spec_write, disp_width,
    clear_span, write_glyph, cstyle, cvalue, cwidth, coffset};
use crate::config::{Config, Shape};
use crate::cursor::{Cursor, Travel, cursor_wf, spec_travel, with_xy};
use crate::control::{C0, C1, Control, Csi, CsiV, Dec, Erase};
use crate::mode::Mode;
use crate::style::{Rgba, Style};
use crate::touched::{Touched, TouchV, twf, tv_all, tv_line, tv_mark, tv_empty, covers};
use crate::text::{utf8_of, graphemes_of, width_of};

verus! {

/// A side-band effect of `handle`: a window title change requested by an OSC
/// sequence.
#[derive(Debug)]
pub enum Action {
    Title(String),
}

pub ghost enum ActionV {
    Title(Seq<char>),
}

impl View for Action {
    type V = ActionV;

    open spec fn view(&self) -> ActionV {
        match self {
            Action::Title(s) => ActionV::Title(s@),
        }
    }
}

/// The terminal state.
#[derive(Debug)]
pub struct Terminal {
    pub config: Config,
    pub cols: u32,
    pub rows: u32,
    pub grid: Vec<Vec<Cell>>,
    pub scroll: Option<u32>,
    pub cursor: Cursor,
    pub saved: Option<Cursor>,
    pub mode: Mode,
    pub touched: Touched,
    pub cache: Vec<u8>,
}

/// The mathematical value of the terminal state.
pub ghost struct TermV {
    pub cols: u32,
    pub rows: u32,
    pub grid: Seq<Seq<CellV>>,
    pub scroll: Option<u32>,
    pub cursor: Cursor,
    pub saved: Option<Cursor>,
    pub mode: Mode,
    pub touched: TouchV,
    pub cache: Seq<u8>,
    pub fg: Rgba,
    pub bg: Rgba,
    pub cursor_bg: Rgba,
    pub palette: Seq<Rgba>,
    pub scrollback: u32,
}

impl View for Terminal {
    type V = TermV;

    open spec fn view(&self) -> TermV {
        TermV {
            cols: self.cols,
            rows: self.rows,
            grid: self.grid@.map_values(|r: Vec<Cell>| rview(r@)),
            scroll: self.scroll,
            cursor: self.cursor,
            saved: self.saved,
            mode: self.mode,
            touched: self.touched@,
            cache: self.cache@,
            fg: self.config.foreground,
            bg: self.config.background,
            cursor_bg: self.config.cursor_background,
            palette: self.config.palette@,
            scrollback: self.config.scrollback,
        }
    }
}

/// The cell shown at visible position `(x, y)`.
pub open spec fn cell_at(t: TermV, x: u32, y: u32) -> CellV {
    t.grid[base(t) + y][x as int]
}

/// The grid row where visible line `y` lives: the window floats at the end
/// of the grid unless a historical scroll offset is pinned.
pub open spec fn base(t: TermV) -> int {
    match t.scroll {
        Some(s) => s as int,
        None => t.grid.len() - t.rows,
    }
}

/// Well-formedness of the whole terminal.
pub open spec fn term_wf(t: TermV) -> bool {
    &&& t.cols >= 1
    &&& t.rows >= 1
    &&& t.grid.len() >= t.rows
    &&& (t.scroll matches Some(s) ==> s + t.rows <= t.grid.len())
    &&& forall|r: int|
        0 <= r < t.grid.len() ==> (#[trigger] t.grid[r]).len() == t.cols && row_wf(t.grid[r])
    &&& cursor_wf(t.cursor)
    &&& t.cursor.cols == t.cols
    &&& t.cursor.rows == t.rows
    &&& (t.saved matches Some(c) ==> cursor_wf(c) && c.cols == t.cols && c.rows == t.rows)
    &&& twf(t.touched, t.cols as int, t.rows as int)
    &&& t.palette.len() == 256
}

/// A fresh row of empty cells.
pub open spec fn blank_row(cols: u32, style: Style) -> Seq<CellV> {
    Seq::new(cols as nat, |i: int| CellV::Empty { style })
}

fn blank_row_exec(cols: u32, style: Style) -> (r: Vec<Cell>)
    ensures
        rview(r@) == blank_row(cols, style),
        r@.len() == cols,
{
    let mut row: Vec<Cell> = Vec::new();
    let mut x: u32 = 0;
    while x < cols
        invariant
            x <= cols,
            row@.len() == x,
            forall|i: int| 0 <= i < x ==> (#[trigger] row@[i])@ == (CellV::Empty { style }),
        decreases cols - x,
    {
        row.push(Cell::Empty { style });
        x = x + 1;
    }
    assert(rview(row@) =~= blank_row(cols, style));
    row
}

/// The state after one fresh row is appended: the oldest scrollback row is
/// dropped once the configured capacity is exceeded.
pub open spec fn sp_extend1(t: TermV) -> TermV {
    let g1 = t.grid.push(blank_row(t.cols, t.cursor.style));
    let g2 = if t.scroll is None && g1.len() - t.rows > t.scrollback {
        g1.subrange(1, g1.len() as int)
    } else {
        g1
    };
    TermV { grid: g2, ..t }
}

/// The state after `n` fresh rows are appended.
pub open spec fn sp_extend(t: TermV, n: u32) -> TermV
    decreases n,
{
    if n == 0 {
        t
    } else {
        sp_extend(sp_extend1(t), (n - 1) as u32)
    }
}

/// The state after a cursor travel op, the grid grown when the move scrolls.
pub open spec fn sp_travel(t: TermV, tr: Travel) -> TermV {
    let r = spec_travel(t.cursor, tr);
    if r.1 == 0 {
        TermV { cursor: r.0, ..t }
    } else {
        sp_extend(TermV { cursor: r.0, touched: tv_all(t.touched), ..t }, r.1)
    }
}

/// Everything but the grid, cursor, dirty set and cache is common to the
/// states before and after a step.
pub open spec fn frame_eq(a: TermV, b: TermV) -> bool {
    &&& a.cols == b.cols
    &&& a.rows == b.rows
    &&& a.scroll == b.scroll
    &&& a.fg == b.fg
    &&& a.bg == b.bg
    &&& a.cursor_bg == b.cursor_bg
    &&& a.palette == b.palette
    &&& a.scrollback == b.scrollback
}

proof fn lemma_extend1_wf(t: TermV)
    requires
        term_wf(t),
    ensures
        term_wf(sp_extend1(t)),
        frame_eq(sp_extend1(t), t),
{
    let t2 = sp_extend1(t);
    assert forall|r: int| 0 <= r < t2.grid.len() implies (#[trigger] t2.grid[r]).len() == t2.cols
        && row_wf(t2.grid[r]) by {
        let g1 = t.grid.push(blank_row(t.cols, t.cursor.style));
        assert(row_wf(blank_row(t.cols, t.cursor.style))) by {
            reveal(crate::cell::row_wf);
        }
        if t.scroll is None && g1.len() - t.rows > t.scrollback {
            assert(t2.grid[r] == g1[r + 1]);
        }
    }
}

pub proof fn lemma_extend_wf(t: TermV, n: u32)
    requires
        term_wf(t),
    ensures
        term_wf(sp_extend(t, n)),
        frame_eq(sp_extend(t, n), t),
        sp_extend(t, n).cursor == t.cursor,
        sp_extend(t, n).saved == t.saved,
        sp_extend(t, n).mode == t.mode,
        sp_extend(t, n).touched == t.touched,
        sp_extend(t, n).cache == t.cache,
    decreases n,
{
    if n > 0 {
        lemma_extend1_wf(t);
        lemma_extend_wf(sp_extend1(t), (n - 1) as u32);
    }
}

/// A travel step keeps the terminal well formed and the frame fields fixed.
pub proof fn lemma_travel_frame(t: TermV, tr: Travel)
    requires
        term_wf(t),
    ensures
        term_wf(sp_travel(t, tr)),
        frame_eq(sp_travel(t, tr), t),
        sp_travel(t, tr).saved == t.saved,
        sp_travel(t, tr).mode == t.mode,
        sp_travel(t, tr).cache == t.cache,
        sp_travel(t, tr).cursor == spec_travel(t.cursor, tr).0,
{
    let r = spec_travel(t.cursor, tr);
    if r.1 != 0 {
        lemma_extend_wf(TermV { cursor: r.0, touched: tv_all(t.touched), ..t }, r.1);
    }
}

/// A newline keeps the terminal well formed and the frame fields fixed.
pub proof fn lemma_newline_frame(t: TermV)
    requires
        term_wf(t),
    ensures
        term_wf(sp_newline(t)),
        frame_eq(sp_newline(t), t),
        sp_newline(t).saved == t.saved,
        sp_newline(t).mode == t.mode,
        sp_newline(t).cache == t.cache,
        sp_newline(t).cursor.x == 0,
{
    reveal(sp_newline);
    lemma_travel_frame(t, Travel::Down(1));
}

impl Terminal {
    /// Appends one fresh row, dropping the oldest scrollback row when the
    /// configured capacity is exceeded.
    fn extend1(&mut self)
        requires
            term_wf(old(self)@),
        ensures
            final(self)@ == sp_extend1(old(self)@),
            term_wf(final(self)@),
    {
        let row = blank_row_exec(self.cols, self.cursor.style);
        self.grid.push(row);
        assert(self@.grid =~= old(self)@.grid.push(blank_row(old(self)@.cols, old(
            self,
        )@.cursor.style)));
        let over = self.scroll.is_none() && self.grid.len() - (self.rows as usize) > (
        self.config.scrollback as usize);
        if over {
            let ghost g1 = self@.grid;
            let _ = self.grid.remove(0);
            assert(self@.grid =~= g1.subrange(1, g1.len() as int));
        }
        proof {
            lemma_extend1_wf(old(self)@);
        }
        assert(self@ == sp_extend1(old(self)@));
    }

    /// Applies a cursor travel op, growing the grid when the move scrolls.
    fn travel(&mut self, tr: Travel)
        requires
            term_wf(old(self)@),
        ensures
            final(self)@ == sp_travel(old(self)@, tr),
            term_wf(final(self)@),
    {
        let ghost t0 = self@;
        let n = self.cursor.travel(tr);
        if n > 0 {
            self.touched.all();
            assert(self@ == (TermV {
                cursor: spec_travel(t0.cursor, tr).0,
                touched: tv_all(t0.touched),
                ..t0
            }));
            let ghost tbase = self@;
            let mut k: u32 = 0;
            while k < n
                invariant
                    k <= n,
                    term_wf(self@),
                    self@ == sp_extend(tbase, k),
                    sp_travel(t0, tr) == sp_extend(tbase, n),
                decreases n - k,
            {
                self.extend1();
                k = k + 1;
                assert(sp_extend(tbase, k) == self@) by {
                    lemma_extend_chain(tbase, k);
                }
            }
        }
    }

    /// Creates a terminal with a `cols` by `rows` window of empty cells.
    pub fn open(config: Config, cols: u32, rows: u32) -> (t: Terminal)
        requires
            config.wf(),
            cols >= 1,
            rows >= 1,
        ensures
            term_wf(t@),
            t@.cols == cols,
            t@.rows == rows,
            t@.grid == Seq::new(rows as nat, |y: int| blank_row(cols, Style::default_spec())),
            t@.scroll is None,
            t@.cursor == (Cursor {
                x: 0u32,
                y: 0u32,
                cols,
                rows,
                style: Style::default_spec(),
                visible: true,
                blink: false,
                shape: Shape::Block,
                background: config.cursor_background,
            }),
            t@.saved is None,
            t@.mode == Mode::default_spec(),
            t@.touched == tv_empty(cols as int, rows as int),
            t@.cache == Seq::<u8>::empty(),
    {
        let style = Style::default();
        let mut grid: Vec<Vec<Cell>> = Vec::new();
        let mut y: u32 = 0;
        while y < rows
            invariant
                y <= rows,
                grid@.len() == y,
                style == Style::default_spec(),
                forall|r: int|
                    0 <= r < y ==> rview((#[trigger] grid@[r])@) == blank_row(
                        cols,
                        Style::default_spec(),
                    ),
            decreases rows - y,
        {
            let fresh = blank_row_exec(cols, style);
            grid.push(fresh);
            y = y + 1;
        }
        let cursor = Cursor::new(
            cols,
            rows,
            style,
            Shape::Block,
            config.cursor_background,
        );
        let touched = Touched::new(cols, rows);
        let t = Terminal {
            config,
            cols,
            rows,
            grid,
            scroll: None,
            cursor,
            saved: None,
            mode: Mode::default(),
            touched,
            cache: Vec::new(),
        };
        assert(t@.grid =~= Seq::new(rows as nat, |r: int| blank_row(cols, Style::default_spec())));
        assert forall|r: int| 0 <= r < t@.grid.len() implies (#[trigger] t@.grid[r]).len() == cols
            && row_wf(t@.grid[r]) by {
            assert(t@.grid[r] == blank_row(cols, Style::default_spec()));
            assert(row_wf(blank_row(cols, Style::default_spec()))) by {
                reveal(crate::cell::row_wf);
            }
        }
        t
    }

    pub fn columns(&self) -> (r: u32)
        ensures
            r == self@.cols,
    {
        self.cols
    }

    pub fn rows(&self) -> (r: u32)
        ensures
            r == self@.rows,
    {
        self.rows
    }

    pub fn mode(&self) -> (m: Mode)
        ensures
            m == self@.mode,
    {
        self.mode
    }

    /// The grid row index where visible line `y` lives.
    fn row_index(&self, y: u32) -> (r: usize)
        requires
            term_wf(self@),
            y < self@.rows,
        ensures
            r == base(self@) + y,
            r < self@.grid.len(),
    {
        let gl = self.grid.len();
        match self.scroll {
            Some(s) => {
                assert(s + self@.rows <= self@.grid.len());
                (s as usize) + (y as usize)
            },
            None => gl - (self.rows as usize) + (y as usize),
        }
    }

    /// The cell at visible position `(x, y)`.
    pub fn get(&self, x: u32, y: u32) -> (p: Position)
        requires
            term_wf(self@),
            x < self@.cols,
            y < self@.rows,
        ensures
            p.x_spec() == x,
            p.y_spec() == y,
            p.cell_spec() == self@.grid[base(self@) + y][x as int],
    {
        let r = self.row_index(y);
        Position::new(x, y, &self.grid[r][x as usize])
    }

    /// The cursor together with the cell under it.
    pub fn cursor(&self) -> (c: crate::cursor::Cell)
        requires
            term_wf(self@),
        ensures
            c.cursor == self.cursor,
            c.cell.x_spec() == self@.cursor.x,
            c.cell.y_spec() == self@.cursor.y,
            c.cell.cell_spec() == self@.grid[base(self@) + self@.cursor.y][self@.cursor.x as int],
    {
        let p = self.get(self.cursor.x, self.cursor.y);
        crate::cursor::Cell::new(&self.cursor, p)
    }

    /// Resizing is not applied to the grid; the window layer recreates the
    /// terminal instead. Nothing changes and nothing needs repainting.
    pub fn resize(&mut self, width: u32, height: u32) -> (dirty: Vec<(u32, u32)>)
        ensures
            *final(self) == *old(self),
            dirty@.len() == 0,
    {
        Vec::new()
    }
}

/// Extending one more row commutes with extending a prefix.
pub proof fn lemma_extend_chain(t: TermV, n: u32)
    requires
        n >= 1,
    ensures
        sp_extend(t, n) == sp_extend1(sp_extend(t, (n - 1) as u32)),
    decreases n,
{
    if n == 1 {
        assert(sp_extend(t, 1) == sp_extend(sp_extend1(t), 0));
        assert(sp_extend(sp_extend1(t), 0) == sp_extend1(t));
        assert(sp_extend(t, 0) == t);
    } else {
        lemma_extend_chain(sp_extend1(t), (n - 1) as u32);
        assert(sp_extend(t, n) == sp_extend(sp_extend1(t), (n - 1) as u32));
        assert(sp_extend(t, (n - 1) as u32) == sp_extend(sp_extend1(t), (n - 2) as u32));
    }
}


/// The state after columns `[a, b)` of visible line `y` are cleared to the
/// cursor style and the line is marked dirty.
pub open spec fn sp_clear_row(t: TermV, y: u32, a: int, b: int) -> TermV {
    let r = base(t) + y;
    TermV {
        grid: t.grid.update(r, spec_clear(t.grid[r], a, b, t.cursor.style)),
        touched: tv_line(t.touched, y as int),
        ..t
    }
}

/// The state after the visible lines `[y0, y1)` are fully cleared.
pub open spec fn sp_clear_rows(t: TermV, y0: u32, y1: u32) -> TermV
    decreases y1 - y0,
{
    if y0 >= y1 {
        t
    } else {
        sp_clear_rows(sp_clear_row(t, y0, 0, t.cols as int), (y0 + 1) as u32, y1)
    }
}

pub proof fn lemma_clear_row_wf(t: TermV, y: u32, a: int, b: int)
    requires
        term_wf(t),
        y < t.rows,
    ensures
        term_wf(sp_clear_row(t, y, a, b)),
        sp_clear_row(t, y, a, b).cols == t.cols,
        sp_clear_row(t, y, a, b).rows == t.rows,
        sp_clear_row(t, y, a, b).cursor == t.cursor,
{
    let r = base(t) + y;
    crate::cell::lemma_clear_wf(t.grid[r], a, b, t.cursor.style);
    let t2 = sp_clear_row(t, y, a, b);
    assert forall|i: int| 0 <= i < t2.grid.len() implies (#[trigger] t2.grid[i]).len() == t2.cols
        && row_wf(t2.grid[i]) by {
        if i != r {
            assert(t2.grid[i] == t.grid[i]);
        }
    }
}

impl Terminal {
    /// Clears columns `[a, b)` of visible line `y` to the cursor style.
    fn clear_row(&mut self, y: u32, a: usize, b: usize)
        requires
            term_wf(old(self)@),
            y < old(self)@.rows,
            a <= b <= old(self)@.cols,
        ensures
            final(self)@ == sp_clear_row(old(self)@, y, a as int, b as int),
            term_wf(final(self)@),
    {
        let ghost t0 = self@;
        let r = self.row_index(y);
        let style = self.cursor.style;
        let row = &mut self.grid[r];
        assert(rview(row@) == t0.grid[r as int]);
        clear_span(row, a, b, style);
        self.touched.line(y);
        assert(self@.grid =~= t0.grid.update(
            r as int,
            spec_clear(t0.grid[r as int], a as int, b as int, style),
        ));
        assert(self@ == sp_clear_row(t0, y, a as int, b as int));
        proof {
            lemma_clear_row_wf(t0, y, a as int, b as int);
        }
    }

    /// Fully clears the visible lines `[y0, y1)`.
    fn clear_rows(&mut self, y0: u32, y1: u32)
        requires
            term_wf(old(self)@),
            y1 <= old(self)@.rows,
        ensures
            final(self)@ == sp_clear_rows(old(self)@, y0, y1),
            term_wf(final(self)@),
    {
        let ghost t0 = self@;
        let mut y = y0;
        if y0 >= y1 {
            return ;
        }
        while y < y1
            invariant
                y0 <= y <= y1,
                y1 <= self@.rows,
                term_wf(self@),
                self@.cols == t0.cols,
                sp_clear_rows(t0, y0, y1) == sp_clear_rows(self@, y, y1),
            decreases y1 - y,
        {
            let cols = self.cols;
            self.clear_row(y, 0, cols as usize);
            y = y + 1;
        }
    }
}

/// The cursor moved down one line, scrolling if needed, then to column zero.
#[verifier::opaque]
pub open spec fn sp_newline(t: TermV) -> TermV {
    let t2 = sp_travel(t, Travel::Down(1));
    TermV { cursor: with_xy(t2.cursor, 0, t2.cursor.y), ..t2 }
}

/// The write stage at the cursor: skips the write when the cell already
/// shows the cluster in the current style, else lays the glyph down and
/// marks the line dirty. Writes always replace in place: the INSERT mode's
/// shift-right of the tail is not applied.
#[verifier::opaque]
pub open spec fn sp_put_write(t: TermV, cl: Seq<char>, w: int) -> TermV {
    let r = base(t) + t.cursor.y;
    let row = t.grid[r];
    let c = row[t.cursor.x as int];
    let keep = c is Occupied && cvalue(c) == cl && cstyle(c) == t.cursor.style;
    if keep {
        t
    } else {
        TermV {
            grid: t.grid.update(r, spec_write(row, t.cursor.x as int, w, cl, t.cursor.style)),
            touched: tv_line(t.touched, t.cursor.y as int),
            ..t
        }
    }
}

/// The state after one grapheme cluster is written at the cursor: wraps or
/// clamps at the right margin, writes, and advances the cursor by the width.
#[verifier::opaque]
pub open spec fn sp_put(t: TermV, cl: Seq<char>) -> TermV {
    let w = disp_width(cl, t.cols as int);
    let t1 = if t.cursor.x + w > t.cols {
        if t.mode.wrap {
            sp_newline(t)
        } else {
            TermV { cursor: with_xy(t.cursor, (t.cols - w) as u32, t.cursor.y), ..t }
        }
    } else {
        t
    };
    let t2 = sp_put_write(t1, cl, w);
    TermV { cursor: spec_travel(t2.cursor, Travel::Right(w as u32)).0, ..t2 }
}

/// The state after every cluster from index `i` on is written in order.
pub open spec fn sp_text_rec(t: TermV, cls: Seq<Seq<char>>, i: int) -> TermV
    decreases cls.len() - i,
{
    if i < 0 || i >= cls.len() {
        t
    } else {
        sp_text_rec(sp_put(t, cls[i]), cls, i + 1)
    }
}

/// The state after a raw text run is written: the bytes decode to UTF-8 and
/// split into grapheme clusters, written left to right.
#[verifier::opaque]
pub open spec fn sp_text(t: TermV, bytes: Seq<u8>) -> TermV {
    sp_text_rec(t, graphemes_of(utf8_of(bytes)), 0)
}

impl Terminal {
    /// Moves to the start of the next line, scrolling if needed.
    fn newline(&mut self)
        requires
            term_wf(old(self)@),
        ensures
            final(self)@ == sp_newline(old(self)@),
            term_wf(final(self)@),
    {
        proof {
            reveal(sp_newline);
        }
        self.travel(Travel::Down(1));
        self.cursor.x = 0;
    }

    /// The write stage: lays the cluster down at the cursor unless the cell
    /// already shows it in the current style.
    #[verifier::rlimit(100)]
    fn put_write(&mut self, cluster: String, w: u32)
        requires
            term_wf(old(self)@),
            w as int == disp_width(cluster@, old(self)@.cols as int),
            old(self)@.cursor.x + w <= old(self)@.cols,
        ensures
            final(self)@ == sp_put_write(old(self)@, cluster@, w as int),
            term_wf(final(self)@),
            final(self)@.cursor == old(self)@.cursor,
    {
        proof {
            reveal(sp_put_write);
        }
        let ghost t1 = self@;
        let y = self.cursor.y;
        let x = self.cursor.x;
        let style = self.cursor.style;
        let r = self.row_index(y);
        assert(self.grid@[r as int]@.len() == t1.cols);
        let keep = match &self.grid[r][x as usize] {
            Cell::Occupied { style: cs, value, .. } => crate::style::style_eq(cs, &style)
                && *value == cluster,
            _ => false,
        };
        assert(t1.grid[r as int][x as int] == self.grid@[r as int]@[x as int]@);
        assert(keep == {
            let c = t1.grid[r as int][x as int];
            c is Occupied && cvalue(c) == cluster@ && cstyle(c) == t1.cursor.style
        });
        if !keep {
            let row = &mut self.grid[r];
            assert(rview(row@) == t1.grid[r as int]);
            assert(t1.grid[r as int].len() == t1.cols);
            assert(w as int == disp_width(cluster@, rview(row@).len() as int));
            write_glyph(row, x as usize, w, cluster, style);
            self.touched.line(y);
            assert(self@.grid =~= t1.grid.update(
                r as int,
                spec_write(t1.grid[r as int], x as int, w as int, cluster@, style),
            ));
            assert forall|i: int|
                0 <= i < self@.grid.len() implies (#[trigger] self@.grid[i]).len() == self@.cols
                && row_wf(self@.grid[i]) by {
                if i != r {
                    assert(self@.grid[i] == t1.grid[i]);
                }
            }
        }
    }

    /// The margin stage: wraps to the next line or clamps to the right edge
    /// when the glyph does not fit at the cursor column.
    fn put_wrap(&mut self, w: u32)
        requires
            term_wf(old(self)@),
            1 <= w <= old(self)@.cols,
        ensures
            final(self)@ == (if old(self)@.cursor.x + w > old(self)@.cols {
                if old(self)@.mode.wrap {
                    sp_newline(old(self)@)
                } else {
                    TermV {
                        cursor: with_xy(
                            old(self)@.cursor,
                            (old(self)@.cols - w) as u32,
                            old(self)@.cursor.y,
                        ),
                        ..old(self)@
                    }
                }
            } else {
                old(self)@
            }),
            term_wf(final(self)@),
            final(self)@.cursor.x + w <= final(self)@.cols,
            frame_eq(final(self)@, old(self)@),
    {
        let ghost t0 = self@;
        let cols = self.cols;
        if (self.cursor.x as u64) + (w as u64) > (cols as u64) {
            if self.mode.wrap {
                proof {
                    lemma_newline_frame(t0);
                }
                self.newline();
            } else {
                self.cursor.x = cols - w;
            }
        }
    }

    /// Writes one grapheme cluster of raw width `w_raw` at the cursor.
    #[verifier::rlimit(100)]
    #[verifier::spinoff_prover]
    fn put(&mut self, cluster: String, w_raw: usize)
        requires
            term_wf(old(self)@),
            w_raw == width_of(cluster@),
        ensures
            final(self)@ == sp_put(old(self)@, cluster@),
            term_wf(final(self)@),
    {
        proof {
            reveal(sp_put);
        }
        let ghost t0 = self@;
        let cols = self.cols;
        let w: u32 = if w_raw == 0 {
            1
        } else if w_raw >= cols as usize {
            cols
        } else {
            w_raw as u32
        };
        assert(w as int == disp_width(cluster@, t0.cols as int));
        self.put_wrap(w);
        self.put_write(cluster, w);
        let ghost t2 = self@;
        let _ = self.cursor.travel(Travel::Right(w));
        assert(self@ == (TermV {
            cursor: spec_travel(t2.cursor, Travel::Right(w)).0,
            ..t2
        }));
    }

    /// Writes a raw text run: decodes it, splits it into grapheme clusters
    /// and writes them in order.
    fn write_text(&mut self, bytes: &Vec<u8>)
        requires
            term_wf(old(self)@),
        ensures
            final(self)@ == sp_text(old(self)@, bytes@),
            term_wf(final(self)@),
    {
        proof {
            reveal(sp_text);
        }
        let ghost t0 = self@;
        let s = crate::text::utf8_lossy(bytes.as_slice());
        let clusters = crate::text::graphemes(s.as_str());
        let ghost cls = graphemes_of(utf8_of(bytes@));
        assert(clusters@.map_values(|t: String| t@) == cls);
        let mut i: usize = 0;
        while i < clusters.len()
            invariant
                i <= clusters@.len(),
                term_wf(self@),
                cls == clusters@.map_values(|t: String| t@),
                sp_text_rec(t0, cls, 0) == sp_text_rec(self@, cls, i as int),
            decreases clusters@.len() - i,
        {
            let cluster = clusters[i].clone();
            assert(cluster@ == cls[i as int]);
            let w = crate::text::str_width(cluster.as_str());
            self.put(cluster, w);
            i = i + 1;
        }
    }
}


/// A plain line feed: down one line (scrolling if needed); in CRLF mode the
/// cursor also returns to column zero.
#[verifier::opaque]
pub open spec fn sp_lf(t: TermV) -> TermV {
    let t2 = sp_travel(t, Travel::Down(1));
    if t.mode.crlf {
        TermV { cursor: with_xy(t2.cursor, 0, t2.cursor.y), ..t2 }
    } else {
        t2
    }
}

/// The modes toggled by public CSI set/reset parameters.
pub open spec fn sp_modes(m: Mode, ps: Seq<u32>, i: int, on: bool) -> Mode
    decreases ps.len() - i,
{
    if i < 0 || i >= ps.len() {
        m
    } else {
        let p = ps[i];
        let m2 = if p == 2 {
            Mode { keyboard_lock: on, ..m }
        } else if p == 4 {
            Mode { insert: on, ..m }
        } else if p == 12 {
            Mode { echo: on, ..m }
        } else if p == 20 {
            Mode { crlf: on, ..m }
        } else {
            m
        };
        sp_modes(m2, ps, i + 1, on)
    }
}

/// The modes and cursor visibility toggled by DEC private set/reset.
pub open spec fn sp_private(m: Mode, vis: bool, ps: Seq<u32>, i: int, on: bool) -> (Mode, bool)
    decreases ps.len() - i,
{
    if i < 0 || i >= ps.len() {
        (m, vis)
    } else {
        let p = ps[i];
        let m2 = if p == 1 {
            Mode { application_cursor: on, ..m }
        } else if p == 5 {
            Mode { reverse: on, ..m }
        } else if p == 7 {
            Mode { wrap: on, ..m }
        } else if p == 1004 {
            Mode { focus: on, ..m }
        } else if p == 2004 {
            Mode { bracketed_paste: on, ..m }
        } else {
            m
        };
        let v2 = if p == 25 {
            on
        } else {
            vis
        };
        sp_private(m2, v2, ps, i + 1, on)
    }
}

/// The color an SGR color parameter selects.
pub open spec fn sp_to_rgba(
    c: crate::control::SgrColor,
    fg: Rgba,
    bg: Rgba,
    palette: Seq<Rgba>,
    foreground: bool,
) -> Rgba {
    match c {
        crate::control::SgrColor::Default => if foreground {
            fg
        } else {
            bg
        },
        crate::control::SgrColor::Transparent => Rgba { r: 0, g: 0, b: 0, a: 0 },
        crate::control::SgrColor::Index(i) => palette[i as int],
        crate::control::SgrColor::Rgb(r, g, b) => Rgba { r, g, b, a: 255 },
    }
}

/// Resolves an SGR color against the configured defaults and palette.
pub fn to_rgba(color: &crate::control::SgrColor, config: &Config, foreground: bool) -> (r: Rgba)
    requires
        config.palette@.len() == 256,
    ensures
        r == sp_to_rgba(
            *color,
            config.foreground,
            config.background,
            config.palette@,
            foreground,
        ),
{
    match color {
        crate::control::SgrColor::Default => if foreground {
            config.foreground
        } else {
            config.background
        },
        crate::control::SgrColor::Transparent => Rgba { r: 0, g: 0, b: 0, a: 0 },
        crate::control::SgrColor::Index(i) => config.palette[*i as usize],
        crate::control::SgrColor::Rgb(r, g, b) => Rgba { r: *r, g: *g, b: *b, a: 255 },
    }
}

/// One SGR attribute applied to a style.
pub open spec fn sp_sgr1(st: Style, a: crate::control::Sgr, fg: Rgba, bg: Rgba, pal: Seq<Rgba>) -> Style {
    match a {
        crate::control::Sgr::Reset => Style::default_spec(),
        crate::control::Sgr::Bold => Style {
            attributes: crate::style::Attributes { bold: true, faint: false, ..st.attributes },
            ..st
        },
        crate::control::Sgr::Faint => Style {
            attributes: crate::style::Attributes { bold: false, faint: true, ..st.attributes },
            ..st
        },
        crate::control::Sgr::NormalWeight => Style {
            attributes: crate::style::Attributes { bold: false, faint: false, ..st.attributes },
            ..st
        },
        crate::control::Sgr::Italic(b) => Style {
            attributes: crate::style::Attributes { italic: b, ..st.attributes },
            ..st
        },
        crate::control::Sgr::Underline(b) => Style {
            attributes: crate::style::Attributes { underline: b, ..st.attributes },
            ..st
        },
        crate::control::Sgr::Blink(b) => Style {
            attributes: crate::style::Attributes { blink: b, ..st.attributes },
            ..st
        },
        crate::control::Sgr::Reverse(b) => Style {
            attributes: crate::style::Attributes { reverse: b, ..st.attributes },
            ..st
        },
        crate::control::Sgr::Invisible(b) => Style {
            attributes: crate::style::Attributes { invisible: b, ..st.attributes },
            ..st
        },
        crate::control::Sgr::Struck(b) => Style {
            attributes: crate::style::Attributes { struck: b, ..st.attributes },
            ..st
        },
        crate::control::Sgr::Foreground(c) => Style {
            foreground: Some(sp_to_rgba(c, fg, bg, pal, true)),
            ..st
        },
        crate::control::Sgr::Background(c) => Style {
            background: Some(sp_to_rgba(c, fg, bg, pal, false)),
            ..st
        },
    }
}

/// A whole SGR list applied left to right.
pub open spec fn sp_sgr_rec(
    st: Style,
    attrs: Seq<crate::control::Sgr>,
    i: int,
    fg: Rgba,
    bg: Rgba,
    pal: Seq<Rgba>,
) -> Style
    decreases attrs.len() - i,
{
    if i < 0 || i >= attrs.len() {
        st
    } else {
        sp_sgr_rec(sp_sgr1(st, attrs[i], fg, bg, pal), attrs, i + 1, fg, bg, pal)
    }
}

/// The first index at or after `i` holding a colon, or the length.
pub open spec fn seg_end(s: Seq<u8>, i: int) -> int
    decreases s.len() - i,
{
    if i < 0 || i >= s.len() || s[i] == 0x3a {
        i
    } else {
        seg_end(s, i + 1)
    }
}

pub open spec fn osc_cursor_prefix() -> Seq<u8> {
    seq![99u8, 117u8, 114u8, 115u8, 111u8, 114u8, 58u8]
}

pub open spec fn osc_show() -> Seq<u8> {
    seq![115u8, 104u8, 111u8, 119u8]
}

pub open spec fn osc_hide() -> Seq<u8> {
    seq![104u8, 105u8, 100u8, 101u8]
}

pub open spec fn osc_background() -> Seq<u8> {
    seq![98u8, 97u8, 99u8, 107u8, 103u8, 114u8, 111u8, 117u8, 110u8, 100u8]
}

/// What an OSC payload does to the terminal, and the title it may emit.
#[verifier::opaque]
pub open spec fn sp_osc(t: TermV, p: Seq<u8>) -> (TermV, Seq<ActionV>) {
    if p.len() >= 7 && p.subrange(0, 7) == osc_cursor_prefix() {
        let k = seg_end(p, 7);
        let cmd = p.subrange(7, k);
        if cmd == osc_show() {
            (TermV { cursor: Cursor { visible: true, ..t.cursor }, ..t }, Seq::empty())
        } else if cmd == osc_hide() {
            (TermV { cursor: Cursor { visible: false, ..t.cursor }, ..t }, Seq::empty())
        } else if cmd == osc_background() {
            let arg = if k < p.len() {
                p.subrange(k + 1, p.len() as int)
            } else {
                Seq::empty()
            };
            let c = match crate::config::spec_to_color(arg) {
                Some(c) => c,
                None => t.cursor_bg,
            };
            (TermV { cursor: Cursor { background: c, ..t.cursor }, ..t }, Seq::empty())
        } else {
            (t, Seq::empty())
        }
    } else if p.len() >= 2 && (p[0] == 0x30 || p[0] == 0x6b) && p[1] == 0x3b {
        (t, seq![ActionV::Title(utf8_of(p.subrange(2, p.len() as int)))])
    } else {
        (t, Seq::empty())
    }
}

/// The cursor appearance selected by a DECSCUSR parameter.
pub open spec fn sp_cursor_style(t: TermV, p: u32) -> TermV {
    if p == 0 || p == 1 {
        TermV { cursor: Cursor { blink: true, shape: Shape::Block, ..t.cursor }, ..t }
    } else if p == 2 {
        TermV { cursor: Cursor { blink: false, shape: Shape::Block, ..t.cursor }, ..t }
    } else if p == 3 {
        TermV { cursor: Cursor { blink: true, shape: Shape::Line, ..t.cursor }, ..t }
    } else if p == 4 {
        TermV { cursor: Cursor { blink: false, shape: Shape::Line, ..t.cursor }, ..t }
    } else if p == 5 {
        TermV { cursor: Cursor { blink: true, shape: Shape::Beam, ..t.cursor }, ..t }
    } else if p == 6 {
        TermV { cursor: Cursor { blink: false, shape: Shape::Beam, ..t.cursor }, ..t }
    } else {
        t
    }
}

/// Rows removed at the cursor line and replaced by fresh rows at the bottom.
#[verifier::opaque]
pub open spec fn sp_delete_lines(t: TermV, n: u32) -> TermV {
    let y = t.cursor.y;
    let k: int = if n <= t.rows - y {
        n as int
    } else {
        (t.rows - y) as int
    };
    let r = base(t) + y;
    let g = t.grid.subrange(0, r).add(t.grid.subrange(r + k, t.grid.len() as int)).add(
        Seq::new(k as nat, |i: int| blank_row(t.cols, t.cursor.style)),
    );
    TermV { grid: g, touched: sp_touch_lines(t.touched, y, t.rows), ..t }
}

/// Fresh rows inserted at the cursor line; the tail of the window scrolls
/// off and the window keeps its height.
#[verifier::opaque]
pub open spec fn sp_insert_lines(t: TermV, n: u32) -> TermV {
    let y = t.cursor.y;
    let k: int = if n <= t.rows - y {
        n as int
    } else {
        (t.rows - y) as int
    };
    let r = base(t) + y;
    let g = t.grid.subrange(0, r).add(
        Seq::new(k as nat, |i: int| blank_row(t.cols, t.cursor.style)),
    ).add(t.grid.subrange(r, t.grid.len() - k));
    TermV { grid: g, touched: sp_touch_lines(t.touched, y, t.rows), ..t }
}

/// Lines `[y0, y1)` marked dirty.
pub open spec fn sp_touch_lines(tv: TouchV, y0: u32, y1: u32) -> TouchV
    decreases y1 - y0,
{
    if y0 >= y1 {
        tv
    } else {
        sp_touch_lines(tv_line(tv, y0 as int), (y0 + 1) as u32, y1)
    }
}

impl Terminal {
    /// Marks the visible lines `[y0, y1)` dirty.
    fn touch_lines(&mut self, y0: u32, y1: u32)
        requires
            term_wf(old(self)@),
            y1 <= old(self)@.rows,
        ensures
            final(self)@ == (TermV { touched: sp_touch_lines(old(self)@.touched, y0, y1), ..old(
                self,
            )@ }),
            term_wf(final(self)@),
    {
        let ghost t0 = self@;
        let mut y = y0;
        if y0 >= y1 {
            assert(sp_touch_lines(t0.touched, y0, y1) == t0.touched);
            assert(self@ == (TermV { touched: sp_touch_lines(t0.touched, y0, y1), ..t0 }));
            return ;
        }
        while y < y1
            invariant
                y0 <= y <= y1,
                y1 <= self@.rows,
                term_wf(self@),
                self@ == (TermV { touched: self@.touched, ..t0 }),
                sp_touch_lines(t0.touched, y0, y1) == sp_touch_lines(self@.touched, y, y1),
            decreases y1 - y,
        {
            self.touched.line(y);
            y = y + 1;
        }
    }

    /// Removes `n` lines at the cursor and appends fresh ones at the bottom.
    #[verifier::rlimit(100)]
    #[verifier::spinoff_prover]
    fn delete_lines(&mut self, n: u32)
        requires
            term_wf(old(self)@),
        ensures
            final(self)@ == sp_delete_lines(old(self)@, n),
            term_wf(final(self)@),
    {
        proof {
            reveal(sp_delete_lines);
        }
        let ghost t0 = self@;
        let y = self.cursor.y;
        let k: u32 = if n <= self.rows - y {
            n
        } else {
            self.rows - y
        };
        let r = self.row_index(y);
        assert(r + k <= t0.grid.len());
        let style = self.cursor.style;
        let mut rest = self.grid.split_off(r);
        let mut keep = rest.split_off(k as usize);
        self.grid.append(&mut keep);
        let ghost gmid = t0.grid.subrange(0, r as int).add(
            t0.grid.subrange(r + k, t0.grid.len() as int),
        );
        assert(self@.grid =~= gmid);
        let mut j: u32 = 0;
        while j < k
            invariant
                j <= k,
                style == t0.cursor.style,
                self@.cols == t0.cols,
                0 <= r,
                r + k <= t0.grid.len(),
                gmid == t0.grid.subrange(0, r as int).add(
                    t0.grid.subrange(r + k, t0.grid.len() as int),
                ),
                self@.grid.len() == gmid.len() + j,
                forall|q: int| 0 <= q < gmid.len() ==> #[trigger] self@.grid[q] == gmid[q],
                forall|q: int|
                    gmid.len() <= q < self@.grid.len() ==> #[trigger] self@.grid[q] == blank_row(
                        t0.cols,
                        style,
                    ),
                (TermV { grid: Seq::empty(), ..self@ }) == (TermV { grid: Seq::empty(), ..t0 }),
            decreases k - j,
        {
            let ghost gprev = self@.grid;
            let row = blank_row_exec(self.cols, style);
            self.grid.push(row);
            proof {
                assert(self@.grid =~= gprev.push(blank_row(t0.cols, style)));
            }
            j = j + 1;
        }
        assert(self@.grid =~= gmid.add(Seq::new(k as nat, |q: int| blank_row(t0.cols, style))));
        assert(self@.grid =~= sp_delete_lines(t0, n).grid);
        proof {
            lemma_blank_wf(t0.cols, style);
        }
        assert forall|q: int| 0 <= q < self@.grid.len() implies (#[trigger] self@.grid[q]).len()
            == self@.cols && row_wf(self@.grid[q]) by {
            if q < r {
                assert(self@.grid[q] == t0.grid[q]);
            } else if q < t0.grid.len() - k {
                assert(self@.grid[q] == t0.grid[q + k]);
            } else {
                assert(self@.grid[q] == blank_row(t0.cols, style));
            }
        }
        let rows = self.rows;
        self.touch_lines(y, rows);
        assert(self@ == sp_delete_lines(t0, n));
    }

    /// Inserts `n` fresh lines at the cursor; the window keeps its height.
    #[verifier::rlimit(100)]
    #[verifier::spinoff_prover]
    fn insert_lines(&mut self, n: u32)
        requires
            term_wf(old(self)@),
        ensures
            final(self)@ == sp_insert_lines(old(self)@, n),
            term_wf(final(self)@),
    {
        proof {
            reveal(sp_insert_lines);
        }
        let ghost t0 = self@;
        let y = self.cursor.y;
        let k: u32 = if n <= self.rows - y {
            n
        } else {
            self.rows - y
        };
        let r = self.row_index(y);
        assert(r + k <= t0.grid.len());
        let style = self.cursor.style;
        let mut rest = self.grid.split_off(r);
        let ghost gpre = t0.grid.subrange(0, r as int);
        assert(self@.grid =~= gpre);
        let mut j: u32 = 0;
        while j < k
            invariant
                j <= k,
                style == t0.cursor.style,
                self@.cols == t0.cols,
                0 <= r,
                r + k <= t0.grid.len(),
                gpre == t0.grid.subrange(0, r as int),
                self@.grid.len() == gpre.len() + j,
                forall|q: int| 0 <= q < gpre.len() ==> #[trigger] self@.grid[q] == gpre[q],
                forall|q: int|
                    gpre.len() <= q < self@.grid.len() ==> #[trigger] self@.grid[q] == blank_row(
                        t0.cols,
                        style,
                    ),
                (TermV { grid: Seq::empty(), ..self@ }) == (TermV { grid: Seq::empty(), ..t0 }),
            decreases k - j,
        {
            let ghost gprev = self@.grid;
            let row = blank_row_exec(self.cols, style);
            self.grid.push(row);
            proof {
                assert(self@.grid =~= gprev.push(blank_row(t0.cols, style)));
            }
            j = j + 1;
        }
        let keep = rest.len() - (k as usize);
        let ghost rest0 = rest@.map_values(|v: Vec<Cell>| rview(v@));
        assert(rest0 =~= t0.grid.subrange(r as int, t0.grid.len() as int));
        rest.truncate(keep);
        assert(rest@.map_values(|v: Vec<Cell>| rview(v@)) =~= rest0.subrange(0, keep as int));
        let ghost before = self@.grid;
        self.grid.append(&mut rest);
        assert(self@.grid =~= before.add(rest0.subrange(0, keep as int)));
        assert(self@.grid =~= gpre.add(Seq::new(k as nat, |q: int| blank_row(t0.cols, style))).add(
            t0.grid.subrange(r as int, t0.grid.len() - k),
        ));
        proof {
            lemma_blank_wf(t0.cols, style);
        }
        assert forall|q: int| 0 <= q < self@.grid.len() implies (#[trigger] self@.grid[q]).len()
            == self@.cols && row_wf(self@.grid[q]) by {
            if q < r {
                assert(self@.grid[q] == t0.grid[q]);
            } else if q < r + k {
                assert(self@.grid[q] == blank_row(t0.cols, style));
            } else {
                assert(self@.grid[q] == t0.grid[q - k]);
            }
        }
        let rows = self.rows;
        self.touch_lines(y, rows);
        assert(self@ == sp_insert_lines(t0, n));
    }
}

/// A fresh blank row is well formed.
pub proof fn lemma_blank_wf(cols: u32, style: Style)
    ensures
        row_wf(blank_row(cols, style)),
        blank_row(cols, style).len() == cols,
{
    reveal(crate::cell::row_wf);
}


/// The grapheme the screen alignment pattern is filled with.
pub open spec fn align_cluster() -> Seq<char> {
    seq!['E']
}

/// A row filled with copies of the cluster `e` of width `w` from column `x`
/// on, at stride `w`; the columns past the last full glyph are cleared.
pub open spec fn align_rec(row: Seq<CellV>, x: int, w: int, e: Seq<char>, style: Style) -> Seq<
    CellV,
>
    decreases row.len() - x,
{
    if w < 1 || x < 0 || x + w > row.len() {
        spec_clear(
            row,
            if x < 0 {
                0
            } else {
                x
            },
            row.len() as int,
            style,
        )
    } else {
        align_rec(spec_write(row, x, w, e, style), x + w, w, e, style)
    }
}

/// Fills one row with the alignment pattern.
fn fill_row(row: &mut Vec<Cell>, w: u32, e: &String, style: Style)
    requires
        row_wf(rview(old(row)@)),
        1 <= w,
        w as int == disp_width(e@, old(row)@.len() as int),
        w <= old(row)@.len(),
    ensures
        final(row)@.len() == old(row)@.len(),
        rview(final(row)@) == align_rec(rview(old(row)@), 0, w as int, e@, style),
        row_wf(rview(final(row)@)),
{
    let ghost rv0 = rview(old(row)@);
    let n = row.len();
    let mut x: usize = 0;
    while x <= n - (w as usize)
        invariant
            n == row@.len(),
            x <= n,
            1 <= w,
            row_wf(rview(row@)),
            w as int == disp_width(e@, n as int),
            w <= n,
            align_rec(rv0, 0, w as int, e@, style) == align_rec(
                rview(row@),
                x as int,
                w as int,
                e@,
                style,
            ),
        decreases n - x,
    {
        write_glyph(row, x, w, e.clone(), style);
        x = x + w as usize;
    }
    assert(x + w > n);
    clear_span(row, x, n, style);
}

/// The grid after every visible row is filled with the alignment pattern.
pub open spec fn sp_align_rows(t: TermV, y: u32, w: int, e: Seq<char>) -> TermV
    decreases t.rows - y,
{
    if y >= t.rows {
        t
    } else {
        let r = base(t) + y;
        let t2 = TermV { grid: t.grid.update(r, align_rec(t.grid[r], 0, w, e, t.cursor.style)), ..t };
        sp_align_rows(t2, (y + 1) as u32, w, e)
    }
}

/// The screen alignment pattern: the window filled with the cluster, all
/// lines marked dirty.
#[verifier::opaque]
pub open spec fn sp_align(t: TermV) -> TermV {
    sp_align_rows(
        TermV { touched: tv_all(t.touched), ..t },
        0,
        disp_width(align_cluster(), t.cols as int),
        align_cluster(),
    )
}

/// The row shifted one column to the right: an empty cell enters at the
/// left, the rightmost glyph is cleared before it falls off.
pub open spec fn shift_row_right(row: Seq<CellV>, style: Style) -> Seq<CellV> {
    Seq::new(
        row.len(),
        |i: int|
            if i == 0 {
                CellV::Empty { style }
            } else {
                spec_clear(row, row.len() - 1, row.len() as int, style)[i - 1]
            },
    )
}

/// The row shifted one column to the left: an empty cell enters at the
/// right, the leftmost glyph is cleared before it falls off.
pub open spec fn shift_row_left(row: Seq<CellV>, style: Style) -> Seq<CellV> {
    Seq::new(
        row.len(),
        |i: int|
            if i == row.len() - 1 {
                CellV::Empty { style }
            } else {
                spec_clear(row, 0, 1, style)[i + 1]
            },
    )
}

/// Shifting right keeps a row well formed.
#[verifier::rlimit(100)]
pub proof fn lemma_shift_right_wf(row: Seq<CellV>, style: Style)
    requires
        row_wf(row),
    ensures
        row_wf(shift_row_right(row, style)),
{
    reveal(crate::cell::row_wf);
    reveal(crate::cell::hit);
    let n = row.len() as int;
    let cleared = spec_clear(row, n - 1, n, style);
    let res = shift_row_right(row, style);
    crate::cell::lemma_clear_wf(row, n - 1, n, style);
    assert forall|u: int|
        0 <= u < res.len() && (#[trigger] res[u]) is Occupied implies 1 <= cwidth(res[u]) && u
        + cwidth(res[u]) <= res.len() && cwidth(res[u]) == disp_width(
        cvalue(res[u]),
        res.len() as int,
    ) by {
        assert(res[u] == cleared[u - 1]);
        let w = cwidth(cleared[u - 1]);
        if (u - 1) + w == n {
            if w >= 2 {
                assert(cleared[(u - 1) + w - 1] == (CellV::Reference {
                    offset: (w - 1) as u32,
                }));
                assert(cleared[n - 1] == (CellV::Empty { style })) by {
                    crate::cell::lemma_hit_covered(row, n - 1, n - 1, n);
                }
                assert(false);
            }
        }
    }
    assert forall|u: int, v: int|
        #![trigger res[u], res[v]]
        0 <= u < v < res.len() && res[u] is Occupied && v < u + cwidth(res[u]) implies res[v] == (
    CellV::Reference { offset: (v - u) as u32 }) by {
        assert(res[u] == cleared[u - 1]);
        assert(res[v] == cleared[v - 1]);
        assert(cleared[v - 1] == (CellV::Reference { offset: (v - u) as u32 }));
    }
    assert forall|y: int|
        0 <= y < res.len() && (#[trigger] res[y]) is Reference implies 1 <= coffset(res[y]) <= y
        && res[y - coffset(res[y])] is Occupied && y - (y - coffset(res[y])) < cwidth(
        res[y - coffset(res[y])],
    ) by {
        assert(res[y] == cleared[y - 1]);
        let k = coffset(cleared[y - 1]);
        assert(1 <= k <= y - 1);
        assert(cleared[(y - 1) - k] is Occupied && (y - 1) - ((y - 1) - k) < cwidth(
            cleared[(y - 1) - k],
        ));
        assert(res[y - k] == cleared[(y - 1) - k + 1 - 1]);
    }
}

/// Shifting left keeps a row well formed.
#[verifier::rlimit(100)]
pub proof fn lemma_shift_left_wf(row: Seq<CellV>, style: Style)
    requires
        row_wf(row),
    ensures
        row_wf(shift_row_left(row, style)),
{
    reveal(crate::cell::row_wf);
    reveal(crate::cell::hit);
    let n = row.len() as int;
    let cleared = spec_clear(row, 0, 1, style);
    let res = shift_row_left(row, style);
    crate::cell::lemma_clear_wf(row, 0, 1, style);
    assert forall|u: int|
        0 <= u < res.len() && (#[trigger] res[u]) is Occupied implies 1 <= cwidth(res[u]) && u
        + cwidth(res[u]) <= res.len() && cwidth(res[u]) == disp_width(
        cvalue(res[u]),
        res.len() as int,
    ) by {
        assert(res[u] == cleared[u + 1]);
        let w = cwidth(cleared[u + 1]);
        if u + w == n {
            if w >= 2 {
                assert(cleared[(u + 1) + w - 1] == (CellV::Reference {
                    offset: (w - 1) as u32,
                }));
            } else {
                assert(u + 1 == n);
            }
        }
    }
    assert forall|u: int, v: int|
        #![trigger res[u], res[v]]
        0 <= u < v < res.len() && res[u] is Occupied && v < u + cwidth(res[u]) implies res[v] == (
    CellV::Reference { offset: (v - u) as u32 }) by {
        assert(res[u] == cleared[u + 1]);
        assert(cleared[(u + 1) + cwidth(cleared[u + 1]) - 1] is Reference || cwidth(
            cleared[u + 1],
        ) == 1);
        assert(v + 1 < n) by {
            if v + 1 == n {
                assert(cleared[n - 1] == (CellV::Reference {
                    offset: ((v - u)) as u32,
                }) || (u + 1) + cwidth(cleared[u + 1]) > n);
            }
        }
        assert(res[v] == cleared[v + 1]);
        assert(cleared[v + 1] == (CellV::Reference { offset: (v - u) as u32 }));
    }
    assert forall|y: int|
        0 <= y < res.len() && (#[trigger] res[y]) is Reference implies 1 <= coffset(res[y]) <= y
        && res[y - coffset(res[y])] is Occupied && y - (y - coffset(res[y])) < cwidth(
        res[y - coffset(res[y])],
    ) by {
        assert(res[y] == cleared[y + 1]);
        let k = coffset(cleared[y + 1]);
        assert(1 <= k <= y + 1);
        assert(cleared[(y + 1) - k] is Occupied && (y + 1) - ((y + 1) - k) < cwidth(
            cleared[(y + 1) - k],
        ));
        if k == y + 1 {
            assert(cleared[0] == (CellV::Empty { style })) by {
                crate::cell::lemma_hit_covered(row, 0, 0, 1);
            }
            assert(false);
        }
        assert(res[y - k] == cleared[(y - k) + 1]);
    }
}

/// The grid after every visible row is shifted one column; `right` picks the
/// direction.
pub open spec fn sp_shift_rows(t: TermV, y: u32, right: bool) -> TermV
    decreases t.rows - y,
{
    if y >= t.rows {
        t
    } else {
        let r = base(t) + y;
        let row2 = if right {
            shift_row_right(t.grid[r], t.cursor.style)
        } else {
            shift_row_left(t.grid[r], t.cursor.style)
        };
        sp_shift_rows(TermV { grid: t.grid.update(r, row2), ..t }, (y + 1) as u32, right)
    }
}

/// Back-index: at the left margin the window scrolls one column right, else
/// the cursor moves one column left.
#[verifier::opaque]
pub open spec fn sp_back_index(t: TermV) -> TermV {
    if t.cursor.x == 0 {
        sp_shift_rows(TermV { touched: tv_all(t.touched), ..t }, 0, true)
    } else {
        sp_travel(t, Travel::Left(1))
    }
}

/// Forward-index: at the right margin the window scrolls one column left,
/// else the cursor moves one column right.
#[verifier::opaque]
pub open spec fn sp_forward_index(t: TermV) -> TermV {
    if t.cursor.x == t.cols - 1 {
        sp_shift_rows(TermV { touched: tv_all(t.touched), ..t }, 0, false)
    } else {
        sp_travel(t, Travel::Right(1))
    }
}

impl Terminal {
    /// Fills visible line `y` with the alignment pattern.
    fn align_row(&mut self, y: u32, w: u32, e: &String)
        requires
            term_wf(old(self)@),
            y < old(self)@.rows,
            1 <= w <= old(self)@.cols,
            w as int == disp_width(e@, old(self)@.cols as int),
        ensures
            final(self)@ == (TermV {
                grid: old(self)@.grid.update(
                    base(old(self)@) + y,
                    align_rec(
                        old(self)@.grid[base(old(self)@) + y],
                        0,
                        w as int,
                        e@,
                        old(self)@.cursor.style,
                    ),
                ),
                ..old(self)@
            }),
            term_wf(final(self)@),
    {
        let ghost t0 = self@;
        let r = self.row_index(y);
        let style = self.cursor.style;
        let row = &mut self.grid[r];
        assert(rview(row@) == t0.grid[r as int]);
        assert(t0.grid[r as int].len() == t0.cols);
        fill_row(row, w, e, style);
        assert(self@.grid =~= t0.grid.update(
            r as int,
            align_rec(t0.grid[r as int], 0, w as int, e@, style),
        ));
        assert forall|q: int| 0 <= q < self@.grid.len() implies (#[trigger] self@.grid[q]).len()
            == self@.cols && row_wf(self@.grid[q]) by {
            if q != r {
                assert(self@.grid[q] == t0.grid[q]);
            }
        }
    }

    /// The screen alignment pattern: fills the window with the cluster and
    /// marks everything dirty.
    fn align(&mut self)
        requires
            term_wf(old(self)@),
        ensures
            final(self)@ == sp_align(old(self)@),
            term_wf(final(self)@),
    {
        proof {
            reveal(sp_align);
        }
        let e: String = "E".to_owned();
        proof {
            reveal_strlit("E");
            assert(e@ =~= align_cluster());
        }
        let w_raw = crate::text::str_width(e.as_str());
        let cols = self.cols;
        let w: u32 = if w_raw == 0 {
            1
        } else if w_raw >= cols as usize {
            cols
        } else {
            w_raw as u32
        };
        assert(w as int == disp_width(align_cluster(), self@.cols as int));
        self.touched.all();
        let ghost tstart = self@;
        assert(tstart == (TermV { touched: tv_all(old(self)@.touched), ..old(self)@ }));
        let rows = self.rows;
        let mut y: u32 = 0;
        while y < rows
            invariant
                y <= rows,
                rows == self@.rows,
                term_wf(self@),
                e@ == align_cluster(),
                1 <= w <= self@.cols,
                w as int == disp_width(e@, self@.cols as int),
                sp_align_rows(tstart, 0, w as int, e@) == sp_align_rows(self@, y, w as int, e@),
            decreases rows - y,
        {
            self.align_row(y, w, &e);
            y = y + 1;
        }
    }

    /// Shifts visible line `y` one column in the given direction.
    fn shift_row(&mut self, y: u32, right: bool)
        requires
            term_wf(old(self)@),
            y < old(self)@.rows,
        ensures
            final(self)@ == (TermV {
                grid: old(self)@.grid.update(
                    base(old(self)@) + y,
                    if right {
                        shift_row_right(
                            old(self)@.grid[base(old(self)@) + y],
                            old(self)@.cursor.style,
                        )
                    } else {
                        shift_row_left(
                            old(self)@.grid[base(old(self)@) + y],
                            old(self)@.cursor.style,
                        )
                    },
                ),
                ..old(self)@
            }),
            term_wf(final(self)@),
    {
        let ghost t0 = self@;
        let r = self.row_index(y);
        let style = self.cursor.style;
        let row = &mut self.grid[r];
        assert(rview(row@) == t0.grid[r as int]);
        assert(t0.grid[r as int].len() == t0.cols);
        let ghost rv = rview(row@);
        let n = row.len();
        if right {
            clear_span(row, n - 1, n, style);
            row.insert(0, Cell::Empty { style });
            let _ = row.pop();
            assert(rview(row@) =~= shift_row_right(rv, style));
            proof {
                lemma_shift_right_wf(rv, style);
            }
        } else {
            clear_span(row, 0, 1, style);
            let _ = row.remove(0);
            row.push(Cell::Empty { style });
            assert(rview(row@) =~= shift_row_left(rv, style));
            proof {
                lemma_shift_left_wf(rv, style);
            }
        }
        assert(self@.grid =~= t0.grid.update(
            r as int,
            if right {
                shift_row_right(t0.grid[r as int], style)
            } else {
                shift_row_left(t0.grid[r as int], style)
            },
        ));
        assert forall|q: int| 0 <= q < self@.grid.len() implies (#[trigger] self@.grid[q]).len()
            == self@.cols && row_wf(self@.grid[q]) by {
            if q != r {
                assert(self@.grid[q] == t0.grid[q]);
            }
        }
    }

    /// Back-index: column scroll at the left margin, else a plain move.
    fn back_index(&mut self)
        requires
            term_wf(old(self)@),
        ensures
            final(self)@ == sp_back_index(old(self)@),
            term_wf(final(self)@),
    {
        proof {
            reveal(sp_back_index);
        }
        if self.cursor.x == 0 {
            self.touched.all();
            let ghost tstart = self@;
            let rows = self.rows;
            let mut y: u32 = 0;
            while y < rows
                invariant
                    y <= rows,
                    rows == self@.rows,
                    term_wf(self@),
                    sp_shift_rows(tstart, 0, true) == sp_shift_rows(self@, y, true),
                decreases rows - y,
            {
                self.shift_row(y, true);
                y = y + 1;
            }
        } else {
            self.travel(Travel::Left(1));
        }
    }

    /// Forward-index: column scroll at the right margin, else a plain move.
    fn forward_index(&mut self)
        requires
            term_wf(old(self)@),
        ensures
            final(self)@ == sp_forward_index(old(self)@),
            term_wf(final(self)@),
    {
        proof {
            reveal(sp_forward_index);
        }
        if self.cursor.x == self.cols - 1 {
            self.touched.all();
            let ghost tstart = self@;
            let rows = self.rows;
            let mut y: u32 = 0;
            while y < rows
                invariant
                    y <= rows,
                    rows == self@.rows,
                    term_wf(self@),
                    sp_shift_rows(tstart, 0, false) == sp_shift_rows(self@, y, false),
                decreases rows - y,
            {
                self.shift_row(y, false);
                y = y + 1;
            }
        } else {
            self.travel(Travel::Right(1));
        }
    }
}

/// The result of running a byte stream: the new state, the emitted actions
/// and the bytes owed to the tty.
pub ghost struct RunV {
    pub st: TermV,
    pub acts: Seq<ActionV>,
    pub out: Seq<u8>,
}

/// What one control item does to the terminal.
#[verifier::opaque]
pub open spec fn sp_step(t: TermV, item: crate::control::ControlV) -> RunV {
    let keep = RunV { st: t, acts: Seq::empty(), out: Seq::empty() };
    match item {
        crate::control::ControlV::Text(b) => RunV { st: sp_text(t, b), ..keep },
        crate::control::ControlV::C0(c) => match c {
            crate::control::C0::CarriageReturn => RunV {
                st: sp_travel(t, Travel::Position(Some(0u32), None)),
                ..keep
            },
            crate::control::C0::LineFeed => RunV { st: sp_lf(t), ..keep },
            crate::control::C0::Backspace => RunV { st: sp_travel(t, Travel::Left(1)), ..keep },
            _ => keep,
        },
        crate::control::ControlV::Dec(d) => match d {
            crate::control::Dec::SaveCursor => RunV {
                st: TermV { saved: Some(t.cursor), ..t },
                ..keep
            },
            crate::control::Dec::RestoreCursor => match t.saved {
                Some(c) => RunV { st: TermV { cursor: c, saved: None, ..t }, ..keep },
                None => keep,
            },
            crate::control::Dec::ApplicationKeypad(on) => RunV {
                st: TermV { mode: Mode { application_keypad: on, ..t.mode }, ..t },
                ..keep
            },
            crate::control::Dec::Alignment => RunV { st: sp_align(t), ..keep },
            crate::control::Dec::BackIndex => RunV { st: sp_back_index(t), ..keep },
            crate::control::Dec::ForwardIndex => RunV { st: sp_forward_index(t), ..keep },
            crate::control::Dec::Unknown(_) => keep,
        },
        crate::control::ControlV::C1(c1) => match c1 {
            crate::control::C1V::NextLine => RunV { st: sp_newline(t), ..keep },
            crate::control::C1V::OperatingSystemCommand(p) => RunV {
                st: sp_osc(t, p).0,
                acts: sp_osc(t, p).1,
                out: Seq::empty(),
            },
            crate::control::C1V::ControlSequence(csi) => sp_csi(t, csi),
            crate::control::C1V::Unknown(_) => keep,
        },
        crate::control::ControlV::Sixel(_, _) => keep,
    }
}

/// The identity reply to a device-attributes query.
pub open spec fn da_reply() -> Seq<u8> {
    seq![0x1bu8, 0x5bu8, 0x3fu8, 0x36u8, 0x63u8]
}

/// What one CSI sequence does to the terminal.
#[verifier::opaque]
pub open spec fn sp_csi(t: TermV, csi: crate::control::CsiV) -> RunV {
    let keep = RunV { st: t, acts: Seq::empty(), out: Seq::empty() };
    match csi {
        crate::control::CsiV::CursorPosition { x, y } => RunV {
            st: sp_travel(t, Travel::Position(Some(x), Some(y))),
            ..keep
        },
        crate::control::CsiV::CursorUp(n) => RunV { st: sp_travel(t, Travel::Up(n)), ..keep },
        crate::control::CsiV::CursorDown(n) => RunV { st: sp_travel(t, Travel::Down(n)), ..keep },
        crate::control::CsiV::CursorForward(n) => RunV {
            st: sp_travel(t, Travel::Right(n)),
            ..keep
        },
        crate::control::CsiV::CursorBack(n) => RunV { st: sp_travel(t, Travel::Left(n)), ..keep },
        crate::control::CsiV::LinePosition(n) => RunV {
            st: sp_travel(t, Travel::Position(None, Some(n))),
            ..keep
        },
        crate::control::CsiV::EraseDisplay(e) => match e {
            crate::control::Erase::ToEnd => RunV {
                st: sp_clear_rows(
                    sp_clear_row(t, t.cursor.y, t.cursor.x as int, t.cols as int),
                    (t.cursor.y + 1) as u32,
                    t.rows,
                ),
                ..keep
            },
            crate::control::Erase::ToStart => RunV {
                st: sp_clear_rows(sp_clear_row(t, t.cursor.y, 0, t.cursor.x as int), 0, t.cursor.y),
                ..keep
            },
            crate::control::Erase::All => RunV {
                st: sp_clear_rows(TermV { touched: tv_all(t.touched), ..t }, 0, t.rows),
                ..keep
            },
        },
        crate::control::CsiV::EraseLine(e) => match e {
            crate::control::Erase::ToEnd => RunV {
                st: sp_clear_row(t, t.cursor.y, t.cursor.x as int, t.cols as int),
                ..keep
            },
            crate::control::Erase::ToStart => RunV {
                st: sp_clear_row(t, t.cursor.y, 0, t.cursor.x as int),
                ..keep
            },
            crate::control::Erase::All => RunV {
                st: sp_clear_row(t, t.cursor.y, 0, t.cols as int),
                ..keep
            },
        },
        crate::control::CsiV::InsertLine(n) => RunV { st: sp_insert_lines(t, n), ..keep },
        crate::control::CsiV::DeleteLine(n) => RunV { st: sp_delete_lines(t, n), ..keep },
        crate::control::CsiV::DeviceAttributes(n) => if n == 0 {
            RunV { out: da_reply(), ..keep }
        } else {
            keep
        },
        crate::control::CsiV::SetMode(ps) => RunV {
            st: TermV { mode: sp_modes(t.mode, ps, 0, true), ..t },
            ..keep
        },
        crate::control::CsiV::ResetMode(ps) => RunV {
            st: TermV { mode: sp_modes(t.mode, ps, 0, false), ..t },
            ..keep
        },
        crate::control::CsiV::Private(f, ps) => {
            let on = f == 0x68;
            let r = sp_private(t.mode, t.cursor.visible, ps, 0, on);
            RunV {
                st: TermV { mode: r.0, cursor: Cursor { visible: r.1, ..t.cursor }, ..t },
                ..keep
            }
        },
        crate::control::CsiV::SaveCursor => RunV {
            st: TermV { saved: Some(t.cursor), ..t },
            ..keep
        },
        crate::control::CsiV::RestoreCursor => match t.saved {
            Some(c) => RunV { st: TermV { cursor: c, saved: None, ..t }, ..keep },
            None => keep,
        },
        crate::control::CsiV::SelectGraphicalRendition(attrs) => RunV {
            st: TermV {
                cursor: Cursor {
                    style: sp_sgr_rec(t.cursor.style, attrs, 0, t.fg, t.bg, t.palette),
                    ..t.cursor
                },
                ..t
            },
            ..keep
        },
        crate::control::CsiV::Unknown(f, i, ps) => if f == 0x71 && i == Some(0x20u8) {
            RunV { st: sp_cursor_style(t, param_or_v(ps, 0, 0)), ..keep }
        } else {
            keep
        },
    }
}

pub open spec fn param_or_v(ps: Seq<u32>, i: int, d: u32) -> u32 {
    if 0 <= i < ps.len() {
        ps[i]
    } else {
        d
    }
}

/// Running the bytes of one `handle` call: items are applied in order, an
/// incomplete tail is cached, and a malformed sequence drops the rest.
pub open spec fn sp_run(t: TermV, s: Seq<u8>, acts: Seq<ActionV>, out: Seq<u8>) -> RunV
    decreases s.len(),
{
    if s.len() == 0 {
        RunV { st: TermV { cache: Seq::empty(), ..t }, acts, out }
    } else {
        match crate::parser::spec_parse(s) {
            crate::control::ParseResultV::Incomplete => RunV {
                st: TermV { cache: s, ..t },
                acts,
                out,
            },
            crate::control::ParseResultV::Error => RunV {
                st: TermV { cache: Seq::empty(), ..t },
                acts,
                out,
            },
            crate::control::ParseResultV::Done(n, item) => if 1 <= n <= s.len() {
                let r = sp_step(t, item);
                sp_run(r.st, s.skip(n), acts.add(r.acts), out.add(r.out))
            } else {
                RunV { st: t, acts, out }
            },
        }
    }
}

/// What a whole `handle` call does: the cached tail is prepended to the
/// input and the result is run from a cleared cache.
pub open spec fn sp_handle(t: TermV, input: Seq<u8>) -> RunV {
    sp_run(TermV { cache: Seq::empty(), ..t }, t.cache.add(input), Seq::empty(), Seq::empty())
}

impl Terminal {
    /// Toggles the public modes named in the parameter list.
    #[verifier::rlimit(100)]
    #[verifier::spinoff_prover]
    fn set_modes(&mut self, ps: &Vec<u32>, on: bool)
        requires
            term_wf(old(self)@),
        ensures
            final(self)@ == (TermV { mode: sp_modes(old(self)@.mode, ps@, 0, on), ..old(self)@ }),
            term_wf(final(self)@),
    {
        let mut m = self.mode;
        let mut i: usize = 0;
        while i < ps.len()
            invariant
                i <= ps@.len(),
                sp_modes(old(self)@.mode, ps@, 0, on) == sp_modes(m, ps@, i as int, on),
            decreases ps@.len() - i,
        {
            let p = ps[i];
            if p == 2 {
                m.keyboard_lock = on;
            } else if p == 4 {
                m.insert = on;
            } else if p == 12 {
                m.echo = on;
            } else if p == 20 {
                m.crlf = on;
            }
            i = i + 1;
        }
        self.mode = m;
    }

    /// Toggles the DEC private modes named in the parameter list.
    #[verifier::rlimit(100)]
    #[verifier::spinoff_prover]
    fn set_private(&mut self, ps: &Vec<u32>, on: bool)
        requires
            term_wf(old(self)@),
        ensures
            final(self)@ == ({
                let r = sp_private(old(self)@.mode, old(self)@.cursor.visible, ps@, 0, on);
                TermV {
                    mode: r.0,
                    cursor: Cursor { visible: r.1, ..old(self)@.cursor },
                    ..old(self)@
                }
            }),
            term_wf(final(self)@),
    {
        let mut m = self.mode;
        let mut vis = self.cursor.visible;
        let mut i: usize = 0;
        while i < ps.len()
            invariant
                i <= ps@.len(),
                sp_private(old(self)@.mode, old(self)@.cursor.visible, ps@, 0, on) == sp_private(
                    m,
                    vis,
                    ps@,
                    i as int,
                    on,
                ),
            decreases ps@.len() - i,
        {
            let p = ps[i];
            if p == 1 {
                m.application_cursor = on;
            } else if p == 5 {
                m.reverse = on;
            } else if p == 7 {
                m.wrap = on;
            } else if p == 25 {
                vis = on;
            } else if p == 1004 {
                m.focus = on;
            } else if p == 2004 {
                m.bracketed_paste = on;
            }
            i = i + 1;
        }
        self.mode = m;
        self.cursor.visible = vis;
    }

    /// Folds an SGR list into the cursor style.
    #[verifier::rlimit(100)]
    #[verifier::spinoff_prover]
    fn sgr(&mut self, attrs: &Vec<crate::control::Sgr>)
        requires
            term_wf(old(self)@),
        ensures
            final(self)@ == (TermV {
                cursor: Cursor {
                    style: sp_sgr_rec(
                        old(self)@.cursor.style,
                        attrs@,
                        0,
                        old(self)@.fg,
                        old(self)@.bg,
                        old(self)@.palette,
                    ),
                    ..old(self)@.cursor
                },
                ..old(self)@
            }),
            term_wf(final(self)@),
    {
        let ghost t0 = self@;
        let mut style = self.cursor.style;
        let mut i: usize = 0;
        while i < attrs.len()
            invariant
                i <= attrs@.len(),
                self.config.palette@.len() == 256,
                self@.fg == t0.fg,
                self@.bg == t0.bg,
                self@.palette == t0.palette,
                sp_sgr_rec(t0.cursor.style, attrs@, 0, t0.fg, t0.bg, t0.palette) == sp_sgr_rec(
                    style,
                    attrs@,
                    i as int,
                    t0.fg,
                    t0.bg,
                    t0.palette,
                ),
            decreases attrs@.len() - i,
        {
            let a = attrs[i];
            match a {
                crate::control::Sgr::Reset => {
                    style = Style::default();
                },
                crate::control::Sgr::Bold => {
                    style.attributes.bold = true;
                    style.attributes.faint = false;
                },
                crate::control::Sgr::Faint => {
                    style.attributes.bold = false;
                    style.attributes.faint = true;
                },
                crate::control::Sgr::NormalWeight => {
                    style.attributes.bold = false;
                    style.attributes.faint = false;
                },
                crate::control::Sgr::Italic(b) => {
                    style.attributes.italic = b;
                },
                crate::control::Sgr::Underline(b) => {
                    style.attributes.underline = b;
                },
                crate::control::Sgr::Blink(b) => {
                    style.attributes.blink = b;
                },
                crate::control::Sgr::Reverse(b) => {
                    style.attributes.reverse = b;
                },
                crate::control::Sgr::Invisible(b) => {
                    style.attributes.invisible = b;
                },
                crate::control::Sgr::Struck(b) => {
                    style.attributes.struck = b;
                },
                crate::control::Sgr::Foreground(c) => {
                    style.foreground = Some(to_rgba(&c, &self.config, true));
                },
                crate::control::Sgr::Background(c) => {
                    style.background = Some(to_rgba(&c, &self.config, false));
                },
            }
            i = i + 1;
        }
        self.cursor.update(style);
    }
}


/// Compares a byte range of `s` with a pattern.
fn bytes_eq(s: &Vec<u8>, lo: usize, hi: usize, pat: &Vec<u8>) -> (r: bool)
    requires
        lo <= hi <= s@.len(),
    ensures
        r == (s@.subrange(lo as int, hi as int) == pat@),
{
    if hi - lo != pat.len() {
        assert(s@.subrange(lo as int, hi as int).len() != pat@.len());
        return false;
    }
    let mut i: usize = 0;
    while i < pat.len()
        invariant
            lo <= hi <= s@.len(),
            hi - lo == pat@.len(),
            i <= pat@.len(),
            forall|j: int| 0 <= j < i ==> s@.subrange(lo as int, hi as int)[j] == pat@[j],
        decreases pat@.len() - i,
    {
        if s[lo + i] != pat[i] {
            assert(s@.subrange(lo as int, hi as int)[i as int] != pat@[i as int]);
            return false;
        }
        i = i + 1;
    }
    assert(s@.subrange(lo as int, hi as int) =~= pat@);
    true
}

fn seg_end_exec(s: &Vec<u8>, i: usize) -> (r: usize)
    requires
        i <= s@.len(),
    ensures
        r == seg_end(s@, i as int),
        i <= r <= s@.len(),
{
    let mut j = i;
    while j < s.len() && s[j] != 0x3a
        invariant
            i <= j <= s@.len(),
            seg_end(s@, i as int) == seg_end(s@, j as int),
        decreases s@.len() - j,
    {
        j = j + 1;
    }
    j
}

impl Terminal {
    /// Interprets an OSC payload: cursor directives apply to the cursor, and
    /// title directives append a `Title` action.
    #[verifier::rlimit(100)]
    #[verifier::spinoff_prover]
    fn osc(&mut self, p: &Vec<u8>, actions: &mut Vec<Action>)
        requires
            term_wf(old(self)@),
        ensures
            final(self)@ == sp_osc(old(self)@, p@).0,
            term_wf(final(self)@),
            final(actions)@.map_values(|a: Action| a@) == old(actions)@.map_values(
                |a: Action| a@,
            ).add(sp_osc(old(self)@, p@).1),
    {
        proof {
            reveal(sp_osc);
        }
        let ghost t0 = self@;
        let ghost av0 = actions@.map_values(|a: Action| a@);
        let prefix: Vec<u8> = vec![99u8, 117u8, 114u8, 115u8, 111u8, 114u8, 58u8];
        assert(prefix@ =~= osc_cursor_prefix());
        if p.len() >= 7 && bytes_eq(p, 0, 7, &prefix) {
            let k = seg_end_exec(p, 7);
            let show: Vec<u8> = vec![115u8, 104u8, 111u8, 119u8];
            let hide: Vec<u8> = vec![104u8, 105u8, 100u8, 101u8];
            let background: Vec<u8> = vec![
                98u8,
                97u8,
                99u8,
                107u8,
                103u8,
                114u8,
                111u8,
                117u8,
                110u8,
                100u8,
            ];
            assert(show@ =~= osc_show());
            assert(hide@ =~= osc_hide());
            assert(background@ =~= osc_background());
            if bytes_eq(p, 7, k, &show) {
                self.cursor.visible = true;
            } else if bytes_eq(p, 7, k, &hide) {
                self.cursor.visible = false;
            } else if bytes_eq(p, 7, k, &background) {
                let arg: &[u8] = if k < p.len() {
                    vstd::slice::slice_subrange(p.as_slice(), k + 1, p.len())
                } else {
                    vstd::slice::slice_subrange(p.as_slice(), 0, 0)
                };
                assert(arg@ == (if k < p@.len() {
                    p@.subrange(k + 1, p@.len() as int)
                } else {
                    Seq::<u8>::empty()
                }));
                let c = match crate::config::to_color(arg) {
                    Some(c) => c,
                    None => self.config.cursor_background,
                };
                self.cursor.background = c;
            }
            proof {
                assert(actions@.map_values(|a: Action| a@) =~= av0.add(sp_osc(t0, p@).1));
            }
        } else if p.len() >= 2 && (p[0] == 0x30 || p[0] == 0x6b) && p[1] == 0x3b {
            let rest = vstd::slice::slice_subrange(p.as_slice(), 2, p.len());
            let title = crate::text::utf8_lossy(rest);
            actions.push(Action::Title(title));
            proof {
                let ghost av1 = actions@.map_values(|a: Action| a@);
                assert(av1 =~= av0.add(sp_osc(t0, p@).1));
            }
        } else {
            proof {
                assert(actions@.map_values(|a: Action| a@) =~= av0.add(sp_osc(t0, p@).1));
            }
        }
    }

    /// Encodes a key event to the bytes owed to the tty, honoring the
    /// keyboard-lock, application-cursor, CRLF and bracketed-paste modes.
    /// The caller writes them to the tty master.
    pub fn key(&self, key: &crate::key::Key) -> (r: Vec<u8>)
        ensures
            r@ == crate::key::spec_key_bytes(key@, self@.mode),
    {
        crate::key::encode_key(key, self.mode)
    }

    /// Turns global blinking on or off and returns the coordinates of the
    /// cells whose style blinks, which are the ones a renderer must repaint:
    /// exactly those cells, row-major, each once.
    pub fn blinking(&mut self, value: bool) -> (r: Vec<(u32, u32)>)
        requires
            term_wf(old(self)@),
        ensures
            term_wf(final(self)@),
            final(self)@ == (TermV {
                mode: Mode { blink: value, ..old(self)@.mode },
                ..old(self)@
            }),
            forall|i: u32, j: u32|
                i < final(self)@.cols && j < final(self)@.rows ==> (#[trigger] r@.contains(
                    (i, j),
                ) <==> ({
                    let c = cell_at(final(self)@, i, j);
                    !(c is Reference) && cstyle(c).attributes.blink
                })),
            forall|k1: int, k2: int|
                0 <= k1 < k2 < r@.len() ==> (r@[k1].1 < r@[k2].1 || (r@[k1].1 == r@[k2].1
                    && r@[k1].0 < r@[k2].0)),
    {
        self.mode.blink = value;
        let ghost t = self@;
        let mut out: Vec<(u32, u32)> = Vec::new();
        let mut y: u32 = 0;
        while y < self.rows
            invariant
                term_wf(self@),
                self@ == t,
                y <= t.rows,
                forall|i: u32, j: u32|
                    i < t.cols && j < t.rows ==> (#[trigger] out@.contains((i, j)) <==> (j < y && {
                        let c = cell_at(t, i, j);
                        !(c is Reference) && cstyle(c).attributes.blink
                    })),
                forall|k: int|
                    0 <= k < out@.len() ==> (#[trigger] out@[k]).0 < t.cols && out@[k].1 < y,
                forall|k1: int, k2: int|
                    0 <= k1 < k2 < out@.len() ==> (out@[k1].1 < out@[k2].1 || (out@[k1].1
                        == out@[k2].1 && out@[k1].0 < out@[k2].0)),
            decreases t.rows - y,
        {
            let mut x: u32 = 0;
            while x < self.cols
                invariant
                    term_wf(self@),
                    self@ == t,
                    y < t.rows,
                    x <= t.cols,
                    forall|i: u32, j: u32|
                        i < t.cols && j < t.rows ==> (#[trigger] out@.contains((i, j)) <==> ((j < y
                            || (j == y && i < x)) && {
                            let c = cell_at(t, i, j);
                            !(c is Reference) && cstyle(c).attributes.blink
                        })),
                    forall|k: int|
                        0 <= k < out@.len() ==> (#[trigger] out@[k]).0 < t.cols && (out@[k].1 < y
                            || (out@[k].1 == y && out@[k].0 < x)),
                    forall|k1: int, k2: int|
                        0 <= k1 < k2 < out@.len() ==> (out@[k1].1 < out@[k2].1 || (out@[k1].1
                            == out@[k2].1 && out@[k1].0 < out@[k2].0)),
                decreases t.cols - x,
            {
                let pos = self.get(x, y);
                let hit = !pos.is_reference() && pos.style().attributes.blink;
                let ghost out0 = out@;
                if hit {
                    out.push((x, y));
                }
                proof {
                    assert forall|i: u32, j: u32|
                        i < t.cols && j < t.rows implies (#[trigger] out@.contains((i, j)) <==> ((j
                        < y || (j == y && i < x + 1)) && {
                        let c = cell_at(t, i, j);
                        !(c is Reference) && cstyle(c).attributes.blink
                    })) by {
                        if hit {
                            vstd::seq_lib::lemma_seq_contains_after_push(out0, (x, y), (i, j));
                        }
                    }
                }
                x = x + 1;
            }
            y = y + 1;
        }
        out
    }

    /// The non-continuation cells of the rectangle `[x0, x1) x [y0, y1)`:
    /// exactly those positions, row-major, each once; wide glyphs are
    /// presented once, at their base column.
    pub fn iter<'a>(&'a self, x0: u32, y0: u32, x1: u32, y1: u32) -> (r: Vec<Position<'a>>)
        requires
            term_wf(self@),
            x1 <= self@.cols,
            y1 <= self@.rows,
        ensures
            forall|k: int|
                0 <= k < r@.len() ==> {
                    let p = #[trigger] r@[k];
                    &&& x0 <= p.x_spec() < x1
                    &&& y0 <= p.y_spec() < y1
                    &&& p.cell_spec() == cell_at(self@, p.x_spec(), p.y_spec())
                    &&& !(p.cell_spec() is Reference)
                },
            forall|i: u32, j: u32|
                x0 <= i < x1 && y0 <= j < y1 && !((#[trigger] cell_at(self@, i, j)) is Reference)
                    ==> exists|k: int|
                    0 <= k < r@.len() && ((#[trigger] r@[k]).x_spec() == i && r@[k].y_spec() == j),
            forall|k1: int, k2: int|
                0 <= k1 < k2 < r@.len() ==> (r@[k1].y_spec() < r@[k2].y_spec() || (r@[k1].y_spec()
                    == r@[k2].y_spec() && r@[k1].x_spec() < r@[k2].x_spec())),
    {
        let ghost tv = self@;
        let mut out: Vec<Position<'a>> = Vec::new();
        let mut y = y0;
        while y < y1
            invariant
                term_wf(tv),
                tv == self@,
                x1 <= tv.cols,
                y1 <= tv.rows,
                y0 <= y <= y1 || (y == y0 && y0 >= y1),
                forall|k: int|
                    0 <= k < out@.len() ==> {
                        let p = #[trigger] out@[k];
                        &&& x0 <= p.x_spec() < x1
                        &&& y0 <= p.y_spec() < y1
                        &&& p.y_spec() < y
                        &&& p.cell_spec() == cell_at(tv, p.x_spec(), p.y_spec())
                        &&& !(p.cell_spec() is Reference)
                    },
                forall|i: u32, j: u32|
                    x0 <= i < x1 && y0 <= j < y1 && j < y && !((#[trigger] cell_at(
                        tv,
                        i,
                        j,
                    )) is Reference) ==> exists|k: int|
                        0 <= k < out@.len() && ((#[trigger] out@[k]).x_spec() == i
                            && out@[k].y_spec() == j),
                forall|k1: int, k2: int|
                    0 <= k1 < k2 < out@.len() ==> (out@[k1].y_spec() < out@[k2].y_spec() || (
                    out@[k1].y_spec() == out@[k2].y_spec() && out@[k1].x_spec()
                        < out@[k2].x_spec())),
            decreases y1 - y,
        {
            let mut x = x0;
            while x < x1
                invariant
                    term_wf(tv),
                    tv == self@,
                    x1 <= tv.cols,
                    y1 <= tv.rows,
                    y0 <= y < y1,
                    x0 <= x <= x1 || (x == x0 && x0 >= x1),
                    forall|k: int|
                        0 <= k < out@.len() ==> {
                            let p = #[trigger] out@[k];
                            &&& x0 <= p.x_spec() < x1
                            &&& y0 <= p.y_spec() < y1
                            &&& (p.y_spec() < y || (p.y_spec() == y && p.x_spec() < x))
                            &&& p.cell_spec() == cell_at(tv, p.x_spec(), p.y_spec())
                            &&& !(p.cell_spec() is Reference)
                        },
                    forall|i: u32, j: u32|
                        x0 <= i < x1 && y0 <= j < y1 && (j < y || (j == y && i < x)) && !((
                        #[trigger] cell_at(tv, i, j)) is Reference) ==> exists|k: int|
                            0 <= k < out@.len() && ((#[trigger] out@[k]).x_spec() == i
                                && out@[k].y_spec() == j),
                    forall|k1: int, k2: int|
                        0 <= k1 < k2 < out@.len() ==> (out@[k1].y_spec() < out@[k2].y_spec() || (
                        out@[k1].y_spec() == out@[k2].y_spec() && out@[k1].x_spec()
                            < out@[k2].x_spec())),
                decreases x1 - x,
            {
                let pos = self.get(x, y);
                let keep = !pos.is_reference();
                let ghost out0 = out@;
                if keep {
                    out.push(pos);
                }
                proof {
                    assert forall|i: u32, j: u32|
                        x0 <= i < x1 && y0 <= j < y1 && (j < y || (j == y && i < x + 1)) && !((
                        #[trigger] cell_at(tv, i, j)) is Reference) implies exists|k: int|
                        0 <= k < out@.len() && ((#[trigger] out@[k]).x_spec() == i
                            && out@[k].y_spec() == j) by {
                        if i == x && j == y {
                            assert(out@[out@.len() - 1].x_spec() == i && out@[out@.len()
                                - 1].y_spec() == j);
                        } else {
                            let k = choose|k: int|
                                0 <= k < out0.len() && ((#[trigger] out0[k]).x_spec() == i
                                    && out0[k].y_spec() == j);
                            assert(out@[k].x_spec() == i && out@[k].y_spec() == j);
                        }
                    }
                }
                x = x + 1;
            }
            y = y + 1;
        }
        out
    }
}


/// A step changes neither the cached input nor the window dimensions.
pub open spec fn step_frame(a: TermV, b: TermV) -> bool {
    &&& a.cache == b.cache
    &&& a.cols == b.cols
    &&& a.rows == b.rows
}

proof fn lemma_extend_frame(t: TermV, n: u32)
    ensures
        step_frame(sp_extend(t, n), t),
    decreases n,
{
    if n > 0 {
        lemma_extend_frame(sp_extend1(t), (n - 1) as u32);
    }
}

proof fn lemma_travel_frame_p(t: TermV, tr: Travel)
    ensures
        step_frame(sp_travel(t, tr), t),
{
    let r = spec_travel(t.cursor, tr);
    if r.1 != 0 {
        lemma_extend_frame(TermV { cursor: r.0, touched: tv_all(t.touched), ..t }, r.1);
    }
}

proof fn lemma_newline_frame_p(t: TermV)
    ensures
        step_frame(sp_newline(t), t),
{
    reveal(sp_newline);
    lemma_travel_frame_p(t, Travel::Down(1));
}

proof fn lemma_put_frame(t: TermV, cl: Seq<char>)
    ensures
        step_frame(sp_put(t, cl), t),
{
    reveal(sp_put);
    reveal(sp_put_write);
    lemma_newline_frame_p(t);
}

proof fn lemma_text_rec_frame(t: TermV, cls: Seq<Seq<char>>, i: int)
    ensures
        step_frame(sp_text_rec(t, cls, i), t),
    decreases cls.len() - i,
{
    if 0 <= i < cls.len() {
        lemma_put_frame(t, cls[i]);
        lemma_text_rec_frame(sp_put(t, cls[i]), cls, i + 1);
    }
}

proof fn lemma_clear_rows_frame(t: TermV, y0: u32, y1: u32)
    ensures
        step_frame(sp_clear_rows(t, y0, y1), t),
    decreases y1 - y0,
{
    if y0 < y1 {
        lemma_clear_rows_frame(sp_clear_row(t, y0, 0, t.cols as int), (y0 + 1) as u32, y1);
    }
}

proof fn lemma_align_rows_frame(t: TermV, y: u32, w: int, e: Seq<char>)
    ensures
        step_frame(sp_align_rows(t, y, w, e), t),
    decreases t.rows - y,
{
    if y < t.rows {
        let r = base(t) + y;
        lemma_align_rows_frame(
            TermV { grid: t.grid.update(r, align_rec(t.grid[r], 0, w, e, t.cursor.style)), ..t },
            (y + 1) as u32,
            w,
            e,
        );
    }
}

proof fn lemma_shift_rows_frame(t: TermV, y: u32, right: bool)
    ensures
        step_frame(sp_shift_rows(t, y, right), t),
    decreases t.rows - y,
{
    if y < t.rows {
        let r = base(t) + y;
        let row2 = if right {
            shift_row_right(t.grid[r], t.cursor.style)
        } else {
            shift_row_left(t.grid[r], t.cursor.style)
        };
        lemma_shift_rows_frame(TermV { grid: t.grid.update(r, row2), ..t }, (y + 1) as u32, right);
    }
}

proof fn lemma_csi_frame(t: TermV, csi: CsiV)
    ensures
        step_frame(sp_csi(t, csi).st, t),
{
    reveal(sp_csi);
    reveal(sp_insert_lines);
    reveal(sp_delete_lines);
    match csi {
        CsiV::CursorPosition { x, y } => {
            lemma_travel_frame_p(t, Travel::Position(Some(x), Some(y)));
        },
        CsiV::CursorUp(n) => {
            lemma_travel_frame_p(t, Travel::Up(n));
        },
        CsiV::CursorDown(n) => {
            lemma_travel_frame_p(t, Travel::Down(n));
        },
        CsiV::CursorForward(n) => {
            lemma_travel_frame_p(t, Travel::Right(n));
        },
        CsiV::CursorBack(n) => {
            lemma_travel_frame_p(t, Travel::Left(n));
        },
        CsiV::LinePosition(n) => {
            lemma_travel_frame_p(t, Travel::Position(None, Some(n)));
        },
        CsiV::EraseDisplay(e) => {
            match e {
                Erase::ToEnd => {
                    lemma_clear_rows_frame(
                        sp_clear_row(t, t.cursor.y, t.cursor.x as int, t.cols as int),
                        (t.cursor.y + 1) as u32,
                        t.rows,
                    );
                },
                Erase::ToStart => {
                    lemma_clear_rows_frame(
                        sp_clear_row(t, t.cursor.y, 0, t.cursor.x as int),
                        0,
                        t.cursor.y,
                    );
                },
                Erase::All => {
                    lemma_clear_rows_frame(TermV { touched: tv_all(t.touched), ..t }, 0, t.rows);
                },
            }
        },
        _ => {},
    }
}

proof fn lemma_step_frame(t: TermV, item: crate::control::ControlV)
    ensures
        step_frame(sp_step(t, item).st, t),
{
    reveal(sp_step);
    reveal(sp_lf);
    reveal(sp_text);
    reveal(sp_osc);
    reveal(sp_align);
    reveal(sp_back_index);
    reveal(sp_forward_index);
    match item {
        crate::control::ControlV::Text(b) => {
            lemma_text_rec_frame(t, graphemes_of(utf8_of(b)), 0);
        },
        crate::control::ControlV::C0(c) => {
            match c {
                C0::CarriageReturn => {
                    lemma_travel_frame_p(t, Travel::Position(Some(0u32), None));
                },
                C0::LineFeed => {
                    lemma_travel_frame_p(t, Travel::Down(1));
                },
                C0::Backspace => {
                    lemma_travel_frame_p(t, Travel::Left(1));
                },
                _ => {},
            }
        },
        crate::control::ControlV::Dec(d) => {
            match d {
                Dec::Alignment => {
                    lemma_align_rows_frame(
                        TermV { touched: tv_all(t.touched), ..t },
                        0,
                        disp_width(align_cluster(), t.cols as int),
                        align_cluster(),
                    );
                },
                Dec::BackIndex => {
                    lemma_shift_rows_frame(TermV { touched: tv_all(t.touched), ..t }, 0, true);
                    lemma_travel_frame_p(t, Travel::Left(1));
                },
                Dec::ForwardIndex => {
                    lemma_shift_rows_frame(TermV { touched: tv_all(t.touched), ..t }, 0, false);
                    lemma_travel_frame_p(t, Travel::Right(1));
                },
                _ => {},
            }
        },
        crate::control::ControlV::C1(c1) => {
            match c1 {
                crate::control::C1V::NextLine => {
                    lemma_newline_frame_p(t);
                },
                crate::control::C1V::ControlSequence(csi) => {
                    lemma_csi_frame(t, csi);
                },
                _ => {},
            }
        },
        _ => {},
    }
}

proof fn lemma_run_frame(t: TermV, s: Seq<u8>, acts: Seq<ActionV>, out: Seq<u8>)
    ensures
        sp_run(t, s, acts, out).st.cols == t.cols,
        sp_run(t, s, acts, out).st.rows == t.rows,
    decreases s.len(),
{
    if s.len() > 0 {
        match crate::parser::spec_parse(s) {
            crate::control::ParseResultV::Done(n, item) => {
                if 1 <= n <= s.len() {
                    lemma_step_frame(t, item);
                    lemma_run_frame(
                        sp_step(t, item).st,
                        s.skip(n),
                        acts.add(sp_step(t, item).acts),
                        out.add(sp_step(t, item).out),
                    );
                }
            },
            _ => {},
        }
    }
}

/// A whole `handle` run keeps the window dimensions.
pub proof fn lemma_handle_frame(t: TermV, input: Seq<u8>)
    ensures
        sp_handle(t, input).st.cols == t.cols,
        sp_handle(t, input).st.rows == t.rows,
{
    lemma_run_frame(
        TermV { cache: Seq::<u8>::empty(), ..t },
        t.cache.add(input),
        Seq::empty(),
        Seq::empty(),
    );
}

/// A CSI step never emits actions.
proof fn lemma_csi_acts(t: TermV, csi: CsiV)
    ensures
        sp_csi(t, csi).acts == Seq::<ActionV>::empty(),
{
    reveal(sp_csi);
}

/// How each CSI variant unfolds, stated once so the executable dispatchers
/// never reveal the step function themselves.
proof fn lemma_csi_shape(t: TermV, c: CsiV)
    ensures
        sp_csi(t, c).acts == Seq::<ActionV>::empty(),
        c matches CsiV::CursorPosition { x, y } ==> sp_csi(t, c).st == sp_travel(
            t,
            Travel::Position(Some(x), Some(y)),
        ) && sp_csi(t, c).out == Seq::<u8>::empty(),
        c matches CsiV::CursorUp(n) ==> sp_csi(t, c).st == sp_travel(t, Travel::Up(n)) && sp_csi(
            t,
            c,
        ).out == Seq::<u8>::empty(),
        c matches CsiV::CursorDown(n) ==> sp_csi(t, c).st == sp_travel(t, Travel::Down(n))
            && sp_csi(t, c).out == Seq::<u8>::empty(),
        c matches CsiV::CursorForward(n) ==> sp_csi(t, c).st == sp_travel(t, Travel::Right(n))
            && sp_csi(t, c).out == Seq::<u8>::empty(),
        c matches CsiV::CursorBack(n) ==> sp_csi(t, c).st == sp_travel(t, Travel::Left(n))
            && sp_csi(t, c).out == Seq::<u8>::empty(),
        c matches CsiV::LinePosition(n) ==> sp_csi(t, c).st == sp_travel(
            t,
            Travel::Position(None, Some(n)),
        ) && sp_csi(t, c).out == Seq::<u8>::empty(),
        c matches CsiV::EraseDisplay(e) ==> sp_csi(t, c).st == (match e {
            Erase::ToEnd => sp_clear_rows(
                sp_clear_row(t, t.cursor.y, t.cursor.x as int, t.cols as int),
                (t.cursor.y + 1) as u32,
                t.rows,
            ),
            Erase::ToStart => sp_clear_rows(
                sp_clear_row(t, t.cursor.y, 0, t.cursor.x as int),
                0,
                t.cursor.y,
            ),
            Erase::All => sp_clear_rows(TermV { touched: tv_all(t.touched), ..t }, 0, t.rows),
        }) && sp_csi(t, c).out == Seq::<u8>::empty(),
        c matches CsiV::EraseLine(e) ==> sp_csi(t, c).st == (match e {
            Erase::ToEnd => sp_clear_row(t, t.cursor.y, t.cursor.x as int, t.cols as int),
            Erase::ToStart => sp_clear_row(t, t.cursor.y, 0, t.cursor.x as int),
            Erase::All => sp_clear_row(t, t.cursor.y, 0, t.cols as int),
        }) && sp_csi(t, c).out == Seq::<u8>::empty(),
        c matches CsiV::InsertLine(n) ==> sp_csi(t, c).st == sp_insert_lines(t, n) && sp_csi(
            t,
            c,
        ).out == Seq::<u8>::empty(),
        c matches CsiV::DeleteLine(n) ==> sp_csi(t, c).st == sp_delete_lines(t, n) && sp_csi(
            t,
            c,
        ).out == Seq::<u8>::empty(),
        c matches CsiV::DeviceAttributes(n) ==> sp_csi(t, c).st == t && sp_csi(t, c).out == (if n
            == 0 {
            da_reply()
        } else {
            Seq::<u8>::empty()
        }),
        c matches CsiV::SetMode(ps) ==> sp_csi(t, c).st == (TermV {
            mode: sp_modes(t.mode, ps, 0, true),
            ..t
        }) && sp_csi(t, c).out == Seq::<u8>::empty(),
        c matches CsiV::ResetMode(ps) ==> sp_csi(t, c).st == (TermV {
            mode: sp_modes(t.mode, ps, 0, false),
            ..t
        }) && sp_csi(t, c).out == Seq::<u8>::empty(),
        c matches CsiV::Private(f, ps) ==> sp_csi(t, c).st == ({
            let r = sp_private(t.mode, t.cursor.visible, ps, 0, f == 0x68);
            TermV { mode: r.0, cursor: Cursor { visible: r.1, ..t.cursor }, ..t }
        }) && sp_csi(t, c).out == Seq::<u8>::empty(),
        c matches CsiV::SaveCursor ==> sp_csi(t, c).st == (TermV { saved: Some(t.cursor), ..t })
            && sp_csi(t, c).out == Seq::<u8>::empty(),
        c matches CsiV::RestoreCursor ==> sp_csi(t, c).st == (match t.saved {
            Some(cu) => TermV { cursor: cu, saved: None, ..t },
            None => t,
        }) && sp_csi(t, c).out == Seq::<u8>::empty(),
        c matches CsiV::SelectGraphicalRendition(attrs) ==> sp_csi(t, c).st == (TermV {
            cursor: Cursor {
                style: sp_sgr_rec(t.cursor.style, attrs, 0, t.fg, t.bg, t.palette),
                ..t.cursor
            },
            ..t
        }) && sp_csi(t, c).out == Seq::<u8>::empty(),
        c matches CsiV::Unknown(f, i, ps) ==> sp_csi(t, c).st == (if f == 0x71 && i == Some(
            0x20u8,
        ) {
            sp_cursor_style(t, param_or_v(ps, 0, 0))
        } else {
            t
        }) && sp_csi(t, c).out == Seq::<u8>::empty(),
{
    reveal(sp_csi);
}

/// How each control family unfolds, stated once for the dispatcher.
proof fn lemma_step_shape(t: TermV, item: crate::control::ControlV)
    ensures
        item matches crate::control::ControlV::Text(b) ==> sp_step(t, item) == (RunV {
            st: sp_text(t, b),
            acts: Seq::empty(),
            out: Seq::empty(),
        }),
        item matches crate::control::ControlV::C0(c) ==> sp_step(t, item) == (RunV {
            st: match c {
                C0::CarriageReturn => sp_travel(t, Travel::Position(Some(0u32), None)),
                C0::LineFeed => sp_lf(t),
                C0::Backspace => sp_travel(t, Travel::Left(1)),
                _ => t,
            },
            acts: Seq::empty(),
            out: Seq::empty(),
        }),
        item matches crate::control::ControlV::Dec(d) ==> sp_step(t, item) == (RunV {
            st: match d {
                Dec::SaveCursor => TermV { saved: Some(t.cursor), ..t },
                Dec::RestoreCursor => match t.saved {
                    Some(c) => TermV { cursor: c, saved: None, ..t },
                    None => t,
                },
                Dec::ApplicationKeypad(on) => TermV {
                    mode: Mode { application_keypad: on, ..t.mode },
                    ..t
                },
                Dec::Alignment => sp_align(t),
                Dec::BackIndex => sp_back_index(t),
                Dec::ForwardIndex => sp_forward_index(t),
                Dec::Unknown(_) => t,
            },
            acts: Seq::empty(),
            out: Seq::empty(),
        }),
        item matches crate::control::ControlV::C1(c1) ==> sp_step(t, item) == (match c1 {
            crate::control::C1V::NextLine => RunV {
                st: sp_newline(t),
                acts: Seq::empty(),
                out: Seq::empty(),
            },
            crate::control::C1V::OperatingSystemCommand(p) => RunV {
                st: sp_osc(t, p).0,
                acts: sp_osc(t, p).1,
                out: Seq::empty(),
            },
            crate::control::C1V::ControlSequence(csi) => sp_csi(t, csi),
            crate::control::C1V::Unknown(_) => RunV {
                st: t,
                acts: Seq::empty(),
                out: Seq::empty(),
            },
        }),
        item matches crate::control::ControlV::Sixel(h, v) ==> sp_step(t, item) == (RunV {
            st: t,
            acts: Seq::empty(),
            out: Seq::empty(),
        }),
{
    reveal(sp_step);
}

impl Terminal {
    /// Applies one C0 control.
    #[verifier::rlimit(100)]
    #[verifier::spinoff_prover]
    fn step_c0(&mut self, c: C0)
        requires
            term_wf(old(self)@),
        ensures
            final(self)@ == sp_step(old(self)@, crate::control::ControlV::C0(c)).st,
            term_wf(final(self)@),
    {
        let ghost t0 = self@;
        proof {
            lemma_step_shape(t0, crate::control::ControlV::C0(c));
        }
        match c {
            C0::CarriageReturn => {
                self.travel(Travel::Position(Some(0), None));
            },
            C0::LineFeed => {
                proof {
                    reveal(sp_lf);
                    lemma_travel_frame(t0, Travel::Down(1));
                }
                self.travel(Travel::Down(1));
                if self.mode.crlf {
                    self.cursor.x = 0;
                }
                assert(self@ == sp_lf(t0)) by {
                    reveal(sp_lf);
                }
            },
            C0::Backspace => {
                self.travel(Travel::Left(1));
            },
            _ => {},
        }
    }

    /// Applies one escape-level DEC control.
    #[verifier::rlimit(100)]
    #[verifier::spinoff_prover]
    fn step_dec(&mut self, d: Dec)
        requires
            term_wf(old(self)@),
        ensures
            final(self)@ == sp_step(old(self)@, crate::control::ControlV::Dec(d)).st,
            term_wf(final(self)@),
    {
        let ghost t0 = self@;
        proof {
            lemma_step_shape(t0, crate::control::ControlV::Dec(d));
        }
        match d {
            Dec::SaveCursor => {
                self.saved = Some(self.cursor);
            },
            Dec::RestoreCursor => {
                match self.saved {
                    Some(c) => {
                        self.cursor = c;
                        self.saved = None;
                    },
                    None => {},
                }
            },
            Dec::ApplicationKeypad(on) => {
                self.mode.application_keypad = on;
            },
            Dec::Alignment => {
                self.align();
            },
            Dec::BackIndex => {
                self.back_index();
            },
            Dec::ForwardIndex => {
                self.forward_index();
            },
            Dec::Unknown(_) => {},
        }
    }

    /// Applies a cursor-motion CSI sequence.
    #[verifier::rlimit(100)]
    #[verifier::spinoff_prover]
    fn csi_nav(&mut self, csi: Csi)
        requires
            term_wf(old(self)@),
            csi@ matches CsiV::CursorPosition { .. } || csi@ matches CsiV::CursorUp(_) || csi@
                matches CsiV::CursorDown(_) || csi@ matches CsiV::CursorForward(_) || csi@
                matches CsiV::CursorBack(_) || csi@ matches CsiV::LinePosition(_),
        ensures
            final(self)@ == sp_csi(old(self)@, csi@).st,
            term_wf(final(self)@),
            sp_csi(old(self)@, csi@).out == Seq::<u8>::empty(),
    {
        let ghost t0 = self@;
        proof {
            lemma_csi_shape(t0, csi@);
        }
        match csi {
            Csi::CursorPosition { x, y } => {
                self.travel(Travel::Position(Some(x), Some(y)));
            },
            Csi::CursorUp(n) => {
                self.travel(Travel::Up(n));
            },
            Csi::CursorDown(n) => {
                self.travel(Travel::Down(n));
            },
            Csi::CursorForward(n) => {
                self.travel(Travel::Right(n));
            },
            Csi::CursorBack(n) => {
                self.travel(Travel::Left(n));
            },
            Csi::LinePosition(n) => {
                self.travel(Travel::Position(None, Some(n)));
            },
            _ => {
                proof {
                    assert(false);
                }
            },
        }
    }

    /// Applies an erase CSI sequence.
    #[verifier::rlimit(100)]
    #[verifier::spinoff_prover]
    fn csi_erase(&mut self, csi: Csi)
        requires
            term_wf(old(self)@),
            csi@ matches CsiV::EraseDisplay(_) || csi@ matches CsiV::EraseLine(_),
        ensures
            final(self)@ == sp_csi(old(self)@, csi@).st,
            term_wf(final(self)@),
            sp_csi(old(self)@, csi@).out == Seq::<u8>::empty(),
    {
        let ghost t0 = self@;
        proof {
            lemma_csi_shape(t0, csi@);
        }
        let cols = self.cols;
        let rows = self.rows;
        let x = self.cursor.x;
        let y = self.cursor.y;
        match csi {
            Csi::EraseDisplay(e) => {
                match e {
                    Erase::ToEnd => {
                        self.clear_row(y, x as usize, cols as usize);
                        self.clear_rows(y + 1, rows);
                    },
                    Erase::ToStart => {
                        self.clear_row(y, 0, x as usize);
                        self.clear_rows(0, y);
                    },
                    Erase::All => {
                        self.touched.all();
                        assert(self@ == (TermV { touched: tv_all(t0.touched), ..t0 }));
                        self.clear_rows(0, rows);
                    },
                }
            },
            Csi::EraseLine(e) => {
                match e {
                    Erase::ToEnd => {
                        self.clear_row(y, x as usize, cols as usize);
                    },
                    Erase::ToStart => {
                        self.clear_row(y, 0, x as usize);
                    },
                    Erase::All => {
                        self.clear_row(y, 0, cols as usize);
                    },
                }
            },
            _ => {
                proof {
                    assert(false);
                }
            },
        }
    }

    /// Applies a line-insertion, line-deletion or mode CSI sequence.
    #[verifier::rlimit(100)]
    #[verifier::spinoff_prover]
    fn csi_lines_modes(&mut self, csi: Csi)
        requires
            term_wf(old(self)@),
            csi@ matches CsiV::InsertLine(_) || csi@ matches CsiV::DeleteLine(_) || csi@
                matches CsiV::SetMode(_) || csi@ matches CsiV::ResetMode(_) || csi@
                matches CsiV::Private(_, _),
        ensures
            final(self)@ == sp_csi(old(self)@, csi@).st,
            term_wf(final(self)@),
            sp_csi(old(self)@, csi@).out == Seq::<u8>::empty(),
    {
        let ghost t0 = self@;
        proof {
            lemma_csi_shape(t0, csi@);
        }
        match csi {
            Csi::InsertLine(n) => {
                self.insert_lines(n);
            },
            Csi::DeleteLine(n) => {
                self.delete_lines(n);
            },
            Csi::SetMode(ps) => {
                self.set_modes(&ps, true);
            },
            Csi::ResetMode(ps) => {
                self.set_modes(&ps, false);
            },
            Csi::Private(f, ps) => {
                self.set_private(&ps, f == 0x68);
            },
            _ => {
                proof {
                    assert(false);
                }
            },
        }
    }

    /// Applies a device-attributes query or a cursor save/restore.
    #[verifier::rlimit(100)]
    #[verifier::spinoff_prover]
    fn csi_misc(&mut self, csi: Csi, output: &mut Vec<u8>)
        requires
            term_wf(old(self)@),
            csi@ matches CsiV::DeviceAttributes(_) || csi@ matches CsiV::SaveCursor || csi@
                matches CsiV::RestoreCursor,
        ensures
            final(self)@ == sp_csi(old(self)@, csi@).st,
            term_wf(final(self)@),
            final(output)@ == old(output)@.add(sp_csi(old(self)@, csi@).out),
    {
        let ghost t0 = self@;
        let ghost out0 = output@;
        proof {
            lemma_csi_shape(t0, csi@);
        }
        match csi {
            Csi::DeviceAttributes(n) => {
                if n == 0 {
                    output.push(0x1b);
                    output.push(0x5b);
                    output.push(0x3f);
                    output.push(0x36);
                    output.push(0x63);
                    assert(output@ =~= out0.add(da_reply()));
                }
            },
            Csi::SaveCursor => {
                self.saved = Some(self.cursor);
            },
            Csi::RestoreCursor => {
                match self.saved {
                    Some(c) => {
                        self.cursor = c;
                        self.saved = None;
                    },
                    None => {},
                }
            },
            _ => {
                proof {
                    assert(false);
                }
            },
        }
        proof {
            assert(output@ =~= old(output)@.add(sp_csi(t0, csi@).out));
        }
    }

    /// Selects the cursor blink and shape for one DECSCUSR code.
    #[verifier::rlimit(100)]
    #[verifier::spinoff_prover]
    fn cursor_style_sel(&mut self, p: u32)
        requires
            term_wf(old(self)@),
        ensures
            final(self)@ == sp_cursor_style(old(self)@, p),
            term_wf(final(self)@),
    {
        if p == 0 || p == 1 {
            self.cursor.blink = true;
            self.cursor.shape = Shape::Block;
        } else if p == 2 {
            self.cursor.blink = false;
            self.cursor.shape = Shape::Block;
        } else if p == 3 {
            self.cursor.blink = true;
            self.cursor.shape = Shape::Line;
        } else if p == 4 {
            self.cursor.blink = false;
            self.cursor.shape = Shape::Line;
        } else if p == 5 {
            self.cursor.blink = true;
            self.cursor.shape = Shape::Beam;
        } else if p == 6 {
            self.cursor.blink = false;
            self.cursor.shape = Shape::Beam;
        }
    }

    /// Applies a graphic-rendition list or a cursor-style selection.
    #[verifier::rlimit(100)]
    #[verifier::spinoff_prover]
    fn csi_style(&mut self, csi: Csi)
        requires
            term_wf(old(self)@),
            csi@ matches CsiV::SelectGraphicalRendition(_) || csi@ matches CsiV::Unknown(_, _, _),
        ensures
            final(self)@ == sp_csi(old(self)@, csi@).st,
            term_wf(final(self)@),
            sp_csi(old(self)@, csi@).out == Seq::<u8>::empty(),
    {
        let ghost t0 = self@;
        proof {
            lemma_csi_shape(t0, csi@);
        }
        match csi {
            Csi::SelectGraphicalRendition(attrs) => {
                self.sgr(&attrs);
            },
            Csi::Unknown(f, i, ps) => {
                if f == 0x71 && i == Some(0x20) {
                    let p: u32 = if ps.len() > 0 {
                        ps[0]
                    } else {
                        0
                    };
                    assert(p == param_or_v(ps@, 0, 0));
                    self.cursor_style_sel(p);
                }
            },
            _ => {
                proof {
                    assert(false);
                }
            },
        }
    }

    /// Applies one decoded CSI sequence; device-attribute queries append
    /// their reply to `output`.
    fn csi(&mut self, csi: Csi, output: &mut Vec<u8>)
        requires
            term_wf(old(self)@),
        ensures
            final(self)@ == sp_csi(old(self)@, csi@).st,
            term_wf(final(self)@),
            final(output)@ == old(output)@.add(sp_csi(old(self)@, csi@).out),
    {
        let group: u8 = match &csi {
            Csi::CursorPosition { .. } | Csi::CursorUp(_) | Csi::CursorDown(_)
                | Csi::CursorForward(_) | Csi::CursorBack(_) | Csi::LinePosition(_) => 0,
            Csi::EraseDisplay(_) | Csi::EraseLine(_) => 1,
            Csi::InsertLine(_) | Csi::DeleteLine(_) | Csi::SetMode(_) | Csi::ResetMode(_)
                | Csi::Private(_, _) => 2,
            Csi::DeviceAttributes(_) | Csi::SaveCursor | Csi::RestoreCursor => 3,
            _ => 4,
        };
        if group == 0 {
            self.csi_nav(csi);
            assert(output@ =~= old(output)@.add(Seq::<u8>::empty()));
        } else if group == 1 {
            self.csi_erase(csi);
            assert(output@ =~= old(output)@.add(Seq::<u8>::empty()));
        } else if group == 2 {
            self.csi_lines_modes(csi);
            assert(output@ =~= old(output)@.add(Seq::<u8>::empty()));
        } else if group == 3 {
            self.csi_misc(csi, output);
        } else {
            self.csi_style(csi);
            assert(output@ =~= old(output)@.add(Seq::<u8>::empty()));
        }
    }

    /// Applies one parsed control item, pushing any actions and reply bytes.
    #[verifier::rlimit(100)]
    #[verifier::spinoff_prover]
    fn apply(&mut self, item: Control, actions: &mut Vec<Action>, output: &mut Vec<u8>)
        requires
            term_wf(old(self)@),
        ensures
            final(self)@ == sp_step(old(self)@, item@).st,
            term_wf(final(self)@),
            final(actions)@.map_values(|a: Action| a@) == old(actions)@.map_values(
                |a: Action| a@,
            ).add(sp_step(old(self)@, item@).acts),
            final(output)@ == old(output)@.add(sp_step(old(self)@, item@).out),
    {
        let ghost t0 = self@;
        let ghost iv = item@;
        let ghost av0 = actions@.map_values(|a: Action| a@);
        proof {
            lemma_step_shape(t0, iv);
        }
        match item {
            Control::Text(b) => {
                self.write_text(&b);
            },
            Control::C0(c) => {
                self.step_c0(c);
            },
            Control::Dec(d) => {
                self.step_dec(d);
            },
            Control::C1(c1) => {
                match c1 {
                    C1::NextLine => {
                        self.newline();
                    },
                    C1::OperatingSystemCommand(p) => {
                        self.osc(&p, actions);
                    },
                    C1::ControlSequence(csi) => {
                        let ghost cv = csi@;
                        self.csi(csi, output);
                        proof {
                            lemma_csi_acts(t0, cv);
                        }
                    },
                    C1::Unknown(_) => {},
                }
            },
            Control::Sixel(_, _) => {},
        }
        proof {
            assert(av0.add(Seq::<ActionV>::empty()) =~= av0);
            assert(old(output)@.add(Seq::<u8>::empty()) =~= old(output)@);
            assert(actions@.map_values(|a: Action| a@) == av0.add(sp_step(t0, iv).acts));
        }
    }

    /// Consumes tty output: prepends any cached incomplete tail, applies each
    /// complete control item in order, caches a new incomplete tail, and
    /// returns the emitted actions, the bytes owed to the tty, and the
    /// drained dirty coordinates.
    #[verifier::rlimit(100)]
    #[verifier::spinoff_prover]
    pub fn handle(&mut self, input: &[u8]) -> (r: (Vec<Action>, Vec<u8>, Vec<(u32, u32)>))
        requires
            term_wf(old(self)@),
        ensures
            term_wf(final(self)@),
            final(self)@ == (TermV {
                touched: tv_empty(old(self)@.cols as int, old(self)@.rows as int),
                ..sp_handle(old(self)@, input@).st
            }),
            r.0@.map_values(|a: Action| a@) == sp_handle(old(self)@, input@).acts,
            r.1@ == sp_handle(old(self)@, input@).out,
            forall|i: int, j: int|
                0 <= i < old(self)@.cols && 0 <= j < old(self)@.rows ==> (r.2@.contains(
                    (i as u32, j as u32),
                ) <==> covers(sp_handle(old(self)@, input@).st.touched, i, j)),
            forall|k1: int, k2: int| 0 <= k1 < k2 < r.2@.len() ==> r.2@[k1] != r.2@[k2],
    {
        let ghost t0 = self@;
        let mut buf: Vec<u8> = vstd::slice::slice_to_vec(self.cache.as_slice());
        let mut bi: usize = 0;
        while bi < input.len()
            invariant
                bi <= input@.len(),
                buf@ == t0.cache.add(input@.subrange(0, bi as int)),
            decreases input@.len() - bi,
        {
            buf.push(input[bi]);
            bi = bi + 1;
            assert(buf@ =~= t0.cache.add(input@.subrange(0, bi as int)));
        }
        assert(buf@ =~= t0.cache.add(input@));
        self.cache = Vec::new();
        let ghost st0 = TermV { cache: Seq::<u8>::empty(), ..t0 };
        assert(self@ == st0);
        let mut actions: Vec<Action> = Vec::new();
        let mut output: Vec<u8> = Vec::new();
        let mut pos: usize = 0;
        let mut stop: u8 = 0;
        proof {
            assert(Seq::<ActionV>::empty() =~= actions@.map_values(|a: Action| a@));
            assert(buf@.skip(0) =~= buf@);
        }
        while stop == 0 && pos < buf.len()
            invariant
                term_wf(self@),
                pos <= buf@.len(),
                buf@ == t0.cache.add(input@),
                self@.cache == Seq::<u8>::empty(),
                self@.cols == t0.cols,
                self@.rows == t0.rows,
                stop == 0 || stop == 1 || stop == 2,
                stop == 0 ==> sp_handle(t0, input@) == sp_run(
                    self@,
                    buf@.skip(pos as int),
                    actions@.map_values(|a: Action| a@),
                    output@,
                ),
                stop == 1 ==> sp_handle(t0, input@) == (RunV {
                    st: TermV { cache: buf@.skip(pos as int), ..self@ },
                    acts: actions@.map_values(|a: Action| a@),
                    out: output@,
                }),
                stop == 2 ==> sp_handle(t0, input@) == (RunV {
                    st: self@,
                    acts: actions@.map_values(|a: Action| a@),
                    out: output@,
                }),
            decreases buf@.len() - pos, 3int - stop,
        {
            let rest = vstd::slice::slice_subrange(buf.as_slice(), pos, buf.len());
            assert(rest@ == buf@.skip(pos as int));
            let parsed = crate::parser::parse(rest);
            proof {
                crate::parser::lemma_parse_bounds(rest@);
            }
            match parsed {
                crate::control::ParseResult::Incomplete => {
                    stop = 1;
                },
                crate::control::ParseResult::Error => {
                    stop = 2;
                },
                crate::control::ParseResult::Done(n, item) => {
                    let ghost stp = self@;
                    let ghost itemv = item@;
                    proof {
                        lemma_step_frame(stp, itemv);
                    }
                    self.apply(item, &mut actions, &mut output);
                    pos = pos + n;
                    assert(buf@.skip(pos as int) =~= buf@.skip(pos - n).skip(n as int));
                },
            }
        }
        if stop == 1 {
            let ghost pre = self@;
            let tail = vstd::slice::slice_subrange(buf.as_slice(), pos, buf.len());
            self.cache = vstd::slice::slice_to_vec(tail);
            assert(self@.cache =~= buf@.skip(pos as int));
            assert(self@ == (TermV { cache: buf@.skip(pos as int), ..pre }));
        } else if stop == 0 {
            assert(buf@.skip(pos as int) =~= Seq::<u8>::empty());
        }
        let ghost run = sp_handle(t0, input@);
        assert(self@ == run.st);
        let cols = self.cols;
        let rows = self.rows;
        let dirty = self.touched.drain(cols, rows);
        assert(self@ == (TermV { touched: tv_empty(t0.cols as int, t0.rows as int), ..run.st }));
        (actions, output, dirty)
    }
}

} // verus!
