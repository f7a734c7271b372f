//! Damage tracking: the set of cells whose appearance may have changed since
//! the last drain. Kept as a per-row bitset plus a per-row flag and a
//! whole-screen flag, which is cheap at terminal sizes.

use vstd::prelude::*;
use vstd::pervasive::VecAdditionalExecFns;
use vstd::seq_lib::lemma_seq_contains_after_push;

verus! {

/// The dirty set.
#[derive(Debug)]
pub struct Touched {
    pub all: bool,
    pub lines: Vec<bool>,
    pub cells: Vec<Vec<bool>>,
}

/// Its mathematical value.
pub ghost struct TouchV {
    pub all: bool,
    pub lines: Seq<bool>,
    pub cells: Seq<Seq<bool>>,
}

impl View for Touched {
    type V = TouchV;

    open spec fn view(&self) -> TouchV {
        TouchV {
            all: self.all,
            lines: self.lines@,
            cells: self.cells@.map_values(|r: Vec<bool>| r@),
        }
    }
}

/// Dimension sanity: one flag per line, one bit per cell.
pub open spec fn twf(t: TouchV, cols: int, rows: int) -> bool {
    &&& 0 <= cols <= u32::MAX
    &&& 0 <= rows <= u32::MAX
    &&& t.lines.len() == rows
    &&& t.cells.len() == rows
    &&& forall|y: int| 0 <= y < rows ==> (#[trigger] t.cells[y]).len() == cols
}

/// Whether the dirty set covers the cell at `(x, y)`.
pub open spec fn covers(t: TouchV, x: int, y: int) -> bool {
    ||| t.all
    ||| 0 <= y < t.lines.len() && t.lines[y]
    ||| 0 <= y < t.cells.len() && 0 <= x < t.cells[y].len() && t.cells[y][x]
}

/// The empty dirty set for a `cols` by `rows` screen.
pub open spec fn tv_empty(cols: int, rows: int) -> TouchV {
    TouchV {
        all: false,
        lines: Seq::new(rows as nat, |y: int| false),
        cells: Seq::new(rows as nat, |y: int| Seq::new(cols as nat, |x: int| false)),
    }
}

/// The dirty set after one cell is marked.
pub open spec fn tv_mark(t: TouchV, x: int, y: int) -> TouchV {
    TouchV { all: t.all, lines: t.lines, cells: t.cells.update(y, t.cells[y].update(x, true)) }
}

/// The dirty set after a whole line is marked.
pub open spec fn tv_line(t: TouchV, y: int) -> TouchV {
    TouchV { all: t.all, lines: t.lines.update(y, true), cells: t.cells }
}

/// The dirty set after everything is marked.
pub open spec fn tv_all(t: TouchV) -> TouchV {
    TouchV { all: true, lines: t.lines, cells: t.cells }
}

/// Marking never uncovers a cell.
pub proof fn lemma_tv_monotone(t: TouchV, x: int, y: int, i: int, j: int)
    requires
        0 <= y < t.lines.len(),
        t.lines.len() == t.cells.len(),
        0 <= x < t.cells[y].len(),
    ensures
        covers(t, i, j) ==> covers(tv_mark(t, x, y), i, j),
        covers(t, i, j) ==> covers(tv_line(t, y), i, j),
        covers(t, i, j) ==> covers(tv_all(t), i, j),
{
}

/// Builds a `rows` by `cols` matrix of false bits, with the line flags.
fn blank_flags(cols: u32, rows: u32) -> (r: (Vec<bool>, Vec<Vec<bool>>))
    ensures
        r.0@ == Seq::new(rows as nat, |y: int| false),
        r.1@.map_values(|v: Vec<bool>| v@) == Seq::new(
            rows as nat,
            |y: int| Seq::new(cols as nat, |x: int| false),
        ),
{
    let mut lines: Vec<bool> = Vec::new();
    let mut cells: Vec<Vec<bool>> = Vec::new();
    let mut y: usize = 0;
    while y < rows as usize
        invariant
            y <= rows,
            lines@.len() == y,
            cells@.len() == y,
            forall|j: int| 0 <= j < y ==> #[trigger] lines@[j] == false,
            forall|j: int|
                0 <= j < y ==> #[trigger] cells@[j]@ == Seq::new(cols as nat, |x: int| false),
        decreases rows - y,
    {
        lines.push(false);
        let mut row: Vec<bool> = Vec::new();
        let mut x: usize = 0;
        while x < cols as usize
            invariant
                x <= cols,
                row@.len() == x,
                forall|i: int| 0 <= i < x ==> #[trigger] row@[i] == false,
            decreases cols - x,
        {
            row.push(false);
            x = x + 1;
        }
        assert(row@ =~= Seq::new(cols as nat, |x: int| false));
        cells.push(row);
        y = y + 1;
    }
    assert(lines@ =~= Seq::new(rows as nat, |y: int| false));
    assert(cells@.map_values(|v: Vec<bool>| v@) =~= Seq::new(
        rows as nat,
        |y: int| Seq::new(cols as nat, |x: int| false),
    ));
    (lines, cells)
}

impl Touched {
    /// An empty dirty set for a `cols` by `rows` screen.
    pub fn new(cols: u32, rows: u32) -> (t: Touched)
        ensures
            t@ == tv_empty(cols as int, rows as int),
            twf(t@, cols as int, rows as int),
            forall|i: int, j: int| !covers(t@, i, j),
    {
        let flags = blank_flags(cols, rows);
        let t = Touched { all: false, lines: flags.0, cells: flags.1 };
        assert(t@ == tv_empty(cols as int, rows as int));
        t
    }

    /// Marks one cell dirty.
    pub fn mark(&mut self, x: u32, y: u32)
        requires
            (y as int) < old(self)@.cells.len(),
            (x as int) < old(self)@.cells[y as int].len(),
        ensures
            final(self)@ == tv_mark(old(self)@, x as int, y as int),
    {
        let row = &mut self.cells[y as usize];
        row.set(x as usize, true);
        assert(self@.cells =~= tv_mark(old(self)@, x as int, y as int).cells);
    }

    /// Marks one whole line dirty.
    pub fn line(&mut self, y: u32)
        requires
            (y as int) < old(self)@.lines.len(),
        ensures
            final(self)@ == tv_line(old(self)@, y as int),
    {
        self.lines.set(y as usize, true);
    }

    /// Marks the whole screen dirty.
    pub fn all(&mut self)
        ensures
            final(self)@ == tv_all(old(self)@),
    {
        self.all = true;
    }

    /// Reports whether the cell at `(x, y)` is covered.
    pub fn is_covered(&self, x: u32, y: u32) -> (r: bool)
        ensures
            r == covers(self@, x as int, y as int),
    {
        if self.all {
            return true;
        }
        if (y as usize) < self.lines.len() && self.lines[y as usize] {
            return true;
        }
        (y as usize) < self.cells.len() && (x as usize) < self.cells[y as usize].len()
            && self.cells[y as usize][x as usize]
    }

    /// Empties the set and returns every covered coordinate, row-major and
    /// without duplicates.
    pub fn drain(&mut self, cols: u32, rows: u32) -> (out: Vec<(u32, u32)>)
        requires
            twf(old(self)@, cols as int, rows as int),
        ensures
            final(self)@ == tv_empty(cols as int, rows as int),
            twf(final(self)@, cols as int, rows as int),
            forall|i: int, j: int|
                0 <= i < cols && 0 <= j < rows ==> (out@.contains((i as u32, j as u32))
                    <==> covers(old(self)@, i, j)),
            forall|k: int|
                0 <= k < out@.len() ==> (#[trigger] out@[k]).0 < cols && out@[k].1 < rows,
            forall|k1: int, k2: int| 0 <= k1 < k2 < out@.len() ==> out@[k1] != out@[k2],
    {
        let ghost t0 = self@;
        let mut out: Vec<(u32, u32)> = Vec::new();
        let mut y: u32 = 0;
        while y < rows
            invariant
                twf(t0, cols as int, rows as int),
                self@ == t0,
                y <= rows,
                forall|i: int, j: int|
                    0 <= i < cols && 0 <= j < rows ==> (out@.contains((i as u32, j as u32)) <==> (
                    covers(t0, i, j) && j < y)),
                forall|k: int|
                    0 <= k < out@.len() ==> (#[trigger] out@[k]).0 < cols && out@[k].1 < y,
                forall|k1: int, k2: int|
                    0 <= k1 < k2 < out@.len() ==> (out@[k1].1 < out@[k2].1 || (out@[k1].1
                        == out@[k2].1 && out@[k1].0 < out@[k2].0)),
            decreases rows - y,
        {
            let whole = self.all || self.lines[y as usize];
            let mut x: u32 = 0;
            while x < cols
                invariant
                    twf(t0, cols as int, rows as int),
                    self@ == t0,
                    y < rows,
                    x <= cols,
                    whole == (t0.all || t0.lines[y as int]),
                    forall|i: int, j: int|
                        0 <= i < cols && 0 <= j < rows ==> (out@.contains((i as u32, j as u32))
                            <==> (covers(t0, i, j) && (j < y || (j == y && i < x)))),
                    forall|k: int|
                        0 <= k < out@.len() ==> (#[trigger] out@[k]).0 < cols && (out@[k].1 < y || (
                        out@[k].1 == y && out@[k].0 < x)),
                    forall|k1: int, k2: int|
                        0 <= k1 < k2 < out@.len() ==> (out@[k1].1 < out@[k2].1 || (out@[k1].1
                            == out@[k2].1 && out@[k1].0 < out@[k2].0)),
                decreases cols - x,
            {
                assert(t0.cells[y as int].len() == cols as int);
                let hit = whole || self.cells[y as usize][x as usize];
                assert(hit == covers(t0, x as int, y as int));
                if hit {
                    let ghost out0 = out@;
                    out.push((x, y));
                    assert forall|i: int, j: int|
                        0 <= i < cols && 0 <= j < rows implies (out@.contains((i as u32, j as u32))
                        <==> (covers(t0, i, j) && (j < y || (j == y && i < x + 1)))) by {
                        lemma_seq_contains_after_push(out0, (x, y), (i as u32, j as u32));
                        assert(out@ == out0.push((x, y)));
                    }
                } else {
                    assert forall|i: int, j: int|
                        0 <= i < cols && 0 <= j < rows implies (out@.contains((i as u32, j as u32))
                        <==> (covers(t0, i, j) && (j < y || (j == y && i < x + 1)))) by {}
                }
                x = x + 1;
            }
            y = y + 1;
        }
        self.all = false;
        let flags = blank_flags(cols, rows);
        self.lines = flags.0;
        self.cells = flags.1;
        assert(self@ == tv_empty(cols as int, rows as int));
        out
    }
}

} // verus!
