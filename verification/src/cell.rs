//! Grid cells. A cell is empty, holds one grapheme cluster together with its
//! display width, or is the continuation column of a wide glyph, recorded as
//! an offset back to the base cell.

use vstd::prelude::*;
use vstd::pervasive::VecAdditionalExecFns;
use crate::style::Style;
use crate::text::width_of;

verus! {

/// One column of the grid.
#[derive(Debug)]
pub enum Cell {
    Empty { style: Style },
    Occupied { style: Style, value: String, width: u32 },
    Reference { offset: u32 },
}

/// The mathematical value of a cell: the cluster is a character sequence.
pub ghost enum CellV {
    Empty { style: Style },
    Occupied { style: Style, value: Seq<char>, width: u32 },
    Reference { offset: u32 },
}

impl View for Cell {
    type V = CellV;

    open spec fn view(&self) -> CellV {
        match self {
            Cell::Empty { style } => CellV::Empty { style: *style },
            Cell::Occupied { style, value, width } => CellV::Occupied {
                style: *style,
                value: value@,
                width: *width,
            },
            Cell::Reference { offset } => CellV::Reference { offset: *offset },
        }
    }
}

impl Clone for Cell {
    fn clone(&self) -> (c: Cell)
        ensures
            c@ == self@,
    {
        match self {
            Cell::Empty { style } => Cell::Empty { style: *style },
            Cell::Occupied { style, value, width } => Cell::Occupied {
                style: *style,
                value: value.clone(),
                width: *width,
            },
            Cell::Reference { offset } => Cell::Reference { offset: *offset },
        }
    }
}

impl Cell {
    /// A fresh empty cell with the given style.
    pub fn empty(style: Style) -> (c: Cell)
        ensures
            c@ == (CellV::Empty { style }),
    {
        Cell::Empty { style }
    }

    pub fn is_empty(&self) -> (r: bool)
        ensures
            r == (self@ is Empty),
    {
        match self {
            Cell::Empty { .. } => true,
            _ => false,
        }
    }

    pub fn is_occupied(&self) -> (r: bool)
        ensures
            r == (self@ is Occupied),
    {
        match self {
            Cell::Occupied { .. } => true,
            _ => false,
        }
    }

    pub fn is_reference(&self) -> (r: bool)
        ensures
            r == (self@ is Reference),
    {
        match self {
            Cell::Reference { .. } => true,
            _ => false,
        }
    }

    /// The style of the cell; continuation cells carry no style of their own.
    pub fn style(&self) -> (s: Style)
        ensures
            s == cstyle(self@),
    {
        match self {
            Cell::Empty { style } => *style,
            Cell::Occupied { style, .. } => *style,
            Cell::Reference { .. } => Style::default(),
        }
    }

    /// The cluster held by an occupied cell.
    pub fn value(&self) -> (v: Option<&String>)
        ensures
            self@ is Occupied ==> v is Some && v->0@ == cvalue(self@),
            !(self@ is Occupied) ==> v is None,
    {
        match self {
            Cell::Occupied { value, .. } => Some(value),
            _ => None,
        }
    }

    /// The display width of an occupied cell.
    pub fn width(&self) -> (w: u32)
        ensures
            w == cwidth_u(self@),
    {
        match self {
            Cell::Occupied { width, .. } => *width,
            _ => 0,
        }
    }
}

/// A cell view bound to its coordinates, as handed to the renderer.
pub struct Position<'a> {
    pub x: u32,
    pub y: u32,
    pub cell: &'a Cell,
}

impl<'a> Position<'a> {
    pub fn new(x: u32, y: u32, cell: &'a Cell) -> (p: Position<'a>)
        ensures
            p.x_spec() == x,
            p.y_spec() == y,
            p.cell_spec() == cell@,
    {
        Position { x, y, cell }
    }

    pub open spec fn x_spec(&self) -> u32 {
        self.x
    }

    pub open spec fn y_spec(&self) -> u32 {
        self.y
    }

    pub open spec fn cell_spec(&self) -> CellV {
        self.cell@
    }

    pub fn x(&self) -> (r: u32)
        ensures
            r == self.x_spec(),
    {
        self.x
    }

    pub fn y(&self) -> (r: u32)
        ensures
            r == self.y_spec(),
    {
        self.y
    }

    pub fn cell(&self) -> (c: &'a Cell)
        ensures
            c@ == self.cell_spec(),
    {
        self.cell
    }

    pub fn is_empty(&self) -> (r: bool)
        ensures
            r == (self.cell_spec() is Empty),
    {
        self.cell.is_empty()
    }

    pub fn is_occupied(&self) -> (r: bool)
        ensures
            r == (self.cell_spec() is Occupied),
    {
        self.cell.is_occupied()
    }

    pub fn is_reference(&self) -> (r: bool)
        ensures
            r == (self.cell_spec() is Reference),
    {
        self.cell.is_reference()
    }

    pub fn style(&self) -> (s: Style)
        ensures
            s == cstyle(self.cell_spec()),
    {
        self.cell.style()
    }

    pub fn value(&self) -> (v: Option<&'a String>)
        ensures
            self.cell_spec() is Occupied ==> v is Some && v->0@ == cvalue(self.cell_spec()),
            !(self.cell_spec() is Occupied) ==> v is None,
    {
        match self.cell {
            Cell::Occupied { value, .. } => Some(value),
            _ => None,
        }
    }
}

pub open spec fn cstyle(c: CellV) -> Style {
    match c {
        CellV::Empty { style } => style,
        CellV::Occupied { style, .. } => style,
        CellV::Reference { .. } => Style::default_spec(),
    }
}

pub open spec fn cvalue(c: CellV) -> Seq<char> {
    match c {
        CellV::Occupied { value, .. } => value,
        _ => Seq::empty(),
    }
}

pub open spec fn cwidth_u(c: CellV) -> u32 {
    match c {
        CellV::Occupied { width, .. } => width,
        _ => 0u32,
    }
}

pub open spec fn cwidth(c: CellV) -> int {
    cwidth_u(c) as int
}

pub open spec fn coffset(c: CellV) -> int {
    match c {
        CellV::Reference { offset } => offset as int,
        _ => 0,
    }
}

/// The view of a whole row.
pub open spec fn rview(row: Seq<Cell>) -> Seq<CellV> {
    row.map_values(|c: Cell| c@)
}

/// The display width a cluster takes once clamped to the row: at least one
/// column, at most the whole row.
pub open spec fn disp_width(value: Seq<char>, cols: int) -> int {
    let w = width_of(value) as int;
    if w < 1 {
        1
    } else if w > cols {
        cols
    } else {
        w
    }
}

/// Well-formedness of a row: every occupied cell fits, records the clamped
/// display width of its cluster, and is followed by exactly its continuation
/// cells; every continuation cell points back into a live wide glyph.
#[verifier::opaque]
pub open spec fn row_wf(row: Seq<CellV>) -> bool {
    &&& forall|x: int|
        0 <= x < row.len() && (#[trigger] row[x]) is Occupied ==> 1 <= cwidth(row[x]) && x
            + cwidth(row[x]) <= row.len() && cwidth(row[x]) == disp_width(
            cvalue(row[x]),
            row.len() as int,
        )
    &&& forall|x: int, y: int| #![trigger row[x], row[y]]
        0 <= x < y < row.len() && row[x] is Occupied && y < x + cwidth(row[x]) ==> row[y] == (
        CellV::Reference { offset: (y - x) as u32 })
    &&& forall|y: int|
        0 <= y < row.len() && (#[trigger] row[y]) is Reference ==> 1 <= coffset(row[y]) <= y
    &&& forall|x: int, y: int| #![trigger row[x], row[y]]
        0 <= x < y < row.len() && row[y] is Reference && x == y - coffset(row[y]) ==> row[x] is Occupied
            && y - x < cwidth(row[x])
}

/// The first column of the glyph that covers column `i`.
pub open spec fn glyph_lo(row: Seq<CellV>, i: int) -> int {
    if row[i] is Reference {
        i - coffset(row[i])
    } else {
        i
    }
}

/// One past the last column of the glyph that covers column `i`.
pub open spec fn glyph_hi(row: Seq<CellV>, i: int) -> int {
    if row[i] is Occupied {
        i + cwidth(row[i])
    } else if row[i] is Reference {
        glyph_lo(row, i) + cwidth(row[glyph_lo(row, i)])
    } else {
        i + 1
    }
}

/// Whether clearing the span `[a, b)` must clear column `i`: it does when the
/// glyph covering `i` overlaps the span, so glyphs are never cut in half.
#[verifier::opaque]
pub open spec fn hit(row: Seq<CellV>, i: int, a: int, b: int) -> bool {
    glyph_lo(row, i) < b && a < glyph_hi(row, i)
}

/// The row after clearing `[a, b)` to empty cells of the given style,
/// widened to whole glyphs.
pub open spec fn spec_clear(row: Seq<CellV>, a: int, b: int, style: Style) -> Seq<CellV> {
    Seq::new(
        row.len(),
        |i: int|
            if hit(row, i, a, b) {
                CellV::Empty { style }
            } else {
                row[i]
            },
    )
}

/// Columns of one glyph agree on its extent.
proof fn lemma_glyph_extent(row: Seq<CellV>, x: int, y: int)
    requires
        row_wf(row),
        0 <= x <= y < row.len(),
        row[x] is Occupied,
        y < x + cwidth(row[x]),
    ensures
        glyph_lo(row, y) == x,
        glyph_hi(row, y) == x + cwidth(row[x]),
{
    reveal(row_wf);
    if y > x {
        assert(row[y] == (CellV::Reference { offset: (y - x) as u32 }));
    }
}

/// Clearing a span keeps the row well formed; the span itself becomes empty.
#[verifier::rlimit(80)]
pub proof fn lemma_clear_wf(row: Seq<CellV>, a: int, b: int, style: Style)
    requires
        row_wf(row),
    ensures
        row_wf(spec_clear(row, a, b, style)),
        forall|i: int| 0 <= i < row.len() && a <= i < b ==> spec_clear(row, a, b, style)[i] == (
        CellV::Empty { style }),
{
    reveal(row_wf);
    reveal(hit);
    let res = spec_clear(row, a, b, style);
    assert forall|i: int| 0 <= i < row.len() && a <= i < b implies res[i] == (CellV::Empty {
        style,
    }) by {
        lemma_hit_covered(row, i, a, b);
    }
    assert forall|x: int|
        0 <= x < res.len() && (#[trigger] res[x]) is Occupied implies 1 <= cwidth(res[x]) && x
        + cwidth(res[x]) <= res.len() && cwidth(res[x]) == disp_width(
        cvalue(res[x]),
        res.len() as int,
    ) by {
        assert(res[x] == row[x]);
    }
    assert forall|x: int, y: int| #![trigger res[x], res[y]]
        0 <= x < y < res.len() && res[x] is Occupied && y < x + cwidth(res[x]) implies res[y] == (
    CellV::Reference { offset: (y - x) as u32 }) by {
        assert(res[x] == row[x]);
        lemma_glyph_extent(row, x, y);
        lemma_glyph_extent(row, x, x);
        assert(!hit(row, x, a, b));
        assert(!hit(row, y, a, b));
        assert(res[y] == row[y]);
    }
    assert forall|y: int|
        0 <= y < res.len() && (#[trigger] res[y]) is Reference implies 1 <= coffset(res[y]) <= y
        && res[y - coffset(res[y])] is Occupied && y - (y - coffset(res[y])) < cwidth(
        res[y - coffset(res[y])],
    ) by {
        assert(res[y] == row[y]);
        let x = y - coffset(row[y]);
        assert(row[x] is Occupied && y - x < cwidth(row[x]));
        lemma_glyph_extent(row, x, y);
        lemma_glyph_extent(row, x, x);
        assert(!hit(row, y, a, b));
        assert(!hit(row, x, a, b));
        assert(res[x] == row[x]);
    }
}

/// Clears the columns `[a, b)` of the row to empty cells with the given
/// style, first widening the span to whole glyphs so none is cut in half.
pub fn clear_span(row: &mut Vec<Cell>, a: usize, b: usize, style: Style)
    requires
        row_wf(rview(old(row)@)),
        a <= b <= old(row)@.len(),
    ensures
        final(row)@.len() == old(row)@.len(),
        rview(final(row)@) == spec_clear(rview(old(row)@), a as int, b as int, style),
        row_wf(rview(final(row)@)),
{
    proof {
        reveal(row_wf);
        reveal(hit);
    }
    let ghost rv = rview(old(row)@);
    let n = row.len();
    let mut flags: Vec<bool> = Vec::new();
    let mut i: usize = 0;
    while i < n
        invariant
            n == row@.len(),
            rview(row@) == rv,
            row_wf(rv),
            a <= b <= n,
            i <= n,
            flags@.len() == i,
            forall|j: int| 0 <= j < i ==> flags@[j] == hit(rv, j, a as int, b as int),
        decreases n - i,
    {
        proof {
            reveal(row_wf);
            reveal(hit);
        }
        let lo: usize = match &row[i] {
            Cell::Reference { offset } => {
                assert(coffset(rv[i as int]) <= i);
                i - (*offset as usize)
            },
            _ => i,
        };
        let hi: usize = match &row[lo] {
            Cell::Occupied { width, .. } => {
                assert(lo + cwidth(rv[lo as int]) <= n);
                lo + (*width as usize)
            },
            _ => i + 1,
        };
        assert(lo == glyph_lo(rv, i as int) && hi == glyph_hi(rv, i as int));
        flags.push(lo < b && a < hi);
        i = i + 1;
    }
    let ghost cleared = spec_clear(rv, a as int, b as int, style);
    let mut k: usize = 0;
    while k < n
        invariant
            n == row@.len(),
            k <= n,
            flags@.len() == n,
            cleared == spec_clear(rv, a as int, b as int, style),
            cleared.len() == n,
            forall|j: int| 0 <= j < n ==> flags@[j] == hit(rv, j, a as int, b as int),
            forall|j: int| 0 <= j < k ==> rview(row@)[j] == cleared[j],
            forall|j: int| k <= j < n ==> rview(row@)[j] == rv[j],
        decreases n - k,
    {
        if flags[k] {
            row.set(k, Cell::Empty { style });
        }
        assert(rview(row@)[k as int] == cleared[k as int]);
        k = k + 1;
    }
    assert(rview(row@) =~= cleared);
    proof {
        lemma_clear_wf(rv, a as int, b as int, style);
    }
}

/// The cell at column `i` after a glyph of the given cluster, width and
/// style is written with its base at column `x`: the base, its continuation
/// cells, the rest of the overlapped glyphs cleared, all else kept.
pub open spec fn write_cell(
    row: Seq<CellV>,
    x: int,
    w: int,
    value: Seq<char>,
    style: Style,
    i: int,
) -> CellV {
    if i == x {
        CellV::Occupied { style, value, width: w as u32 }
    } else if x < i < x + w {
        CellV::Reference { offset: (i - x) as u32 }
    } else if hit(row, i, x, x + w) {
        CellV::Empty { style }
    } else {
        row[i]
    }
}

/// The row after a glyph is written with its base at column `x`.
pub open spec fn spec_write(row: Seq<CellV>, x: int, w: int, value: Seq<char>, style: Style) -> Seq<
    CellV,
> {
    Seq::new(row.len(), |i: int| write_cell(row, x, w, value, style, i))
}

/// Writes one grapheme cluster at column `x` of the row, clearing whatever
/// wide glyphs it overlaps, and keeps the row well formed.
pub fn write_glyph(row: &mut Vec<Cell>, x: usize, w: u32, value: String, style: Style)
    requires
        row_wf(rview(old(row)@)),
        1 <= w,
        x + w <= old(row)@.len(),
        w == disp_width(value@, old(row)@.len() as int),
    ensures
        final(row)@.len() == old(row)@.len(),
        rview(final(row)@) == spec_write(rview(old(row)@), x as int, w as int, value@, style),
        row_wf(rview(final(row)@)),
{
    let ghost rv = rview(old(row)@);
    let ghost target = spec_write(rv, x as int, w as int, value@, style);
    let ghost cleared = spec_clear(rv, x as int, x + w as int, style);
    proof {
        lemma_clear_wf(rv, x as int, x + w as int, style);
    }
    let n = row.len();
    assert(rv.len() == n);
    clear_span(row, x, x + w as usize, style);
    assert(row@.len() == n);
    row.set(x, Cell::Occupied { style, value, width: w });
    assert(rview(row@)[x as int] == target[x as int]);
    assert forall|i: int| 0 <= i < rv.len() && i != x implies rview(row@)[i] == cleared[i] by {}
    assert forall|i: int| 0 <= i < x implies rview(row@)[i] == target[i] by {
        assert(target[i] == cleared[i]);
    }
    let mut j: usize = 1;
    while j < w as usize
        invariant
            row@.len() == rv.len(),
            rv.len() == n,
            x + w <= n,
            1 <= j <= w,
            x + w <= rv.len(),
            target == spec_write(rv, x as int, w as int, value@, style),
            cleared == spec_clear(rv, x as int, x + w as int, style),
            target.len() == rv.len(),
            cleared.len() == rv.len(),
            forall|i: int| 0 <= i < x + j ==> rview(row@)[i] == target[i],
            forall|i: int| x + j <= i < rv.len() ==> rview(row@)[i] == cleared[i],
        decreases w - j,
    {
        row.set(x + j, Cell::Reference { offset: j as u32 });
        j = j + 1;
    }
    assert forall|i: int| 0 <= i < rv.len() implies rview(row@)[i] == target[i] by {
        if i >= x + w {
            assert(target[i] == cleared[i]);
        }
    }
    assert(rview(row@) =~= target);
    proof {
        lemma_write_wf(rv, x as int, w as int, value@, style);
    }
}

/// Every column inside a cleared span is hit by the clearing decision.
pub proof fn lemma_hit_covered(row: Seq<CellV>, u: int, a: int, b: int)
    requires
        row_wf(row),
        0 <= u < row.len(),
        a <= u < b,
    ensures
        hit(row, u, a, b),
{
    reveal(row_wf);
    reveal(hit);
    if row[u] is Reference {
        let x = u - coffset(row[u]);
        assert(row[x] is Occupied && u - x < cwidth(row[x]));
        lemma_glyph_extent(row, x, u);
    }
}

/// Writing a glyph keeps the row well formed, stated over any sequence that
/// matches the write pointwise.
#[verifier::rlimit(80)]
proof fn lemma_write_wf_pointwise(
    row: Seq<CellV>,
    x: int,
    w: int,
    value: Seq<char>,
    style: Style,
    res: Seq<CellV>,
)
    requires
        row_wf(row),
        1 <= w,
        x + w <= row.len(),
        0 <= x,
        w <= u32::MAX,
        w == disp_width(value, row.len() as int),
        res.len() == row.len(),
        forall|i: int| 0 <= i < res.len() ==> res[i] == write_cell(row, x, w, value, style, i),
    ensures
        row_wf(res),
{
    reveal(row_wf);
    reveal(hit);
    assert forall|u: int|
        0 <= u < res.len() && (#[trigger] res[u]) is Occupied implies 1 <= cwidth(res[u]) && u
        + cwidth(res[u]) <= res.len() && cwidth(res[u]) == disp_width(
        cvalue(res[u]),
        res.len() as int,
    ) by {
        if u != x {
            assert(res[u] == row[u]);
        }
    }
    assert forall|u: int, v: int|
        #![trigger res[u], res[v]]
        0 <= u < v < res.len() && res[u] is Occupied && v < u + cwidth(res[u]) implies res[v] == (
    CellV::Reference { offset: (v - u) as u32 }) by {
        if u != x {
            assert(res[u] == row[u]);
            assert(!hit(row, u, x, x + w));
            lemma_glyph_extent(row, u, v);
            lemma_glyph_extent(row, u, u);
            if x <= v < x + w {
                lemma_hit_covered(row, v, x, x + w);
                assert(false);
            } else {
                assert(!hit(row, v, x, x + w));
                assert(res[v] == row[v]);
            }
        }
    }
    assert forall|v: int|
        0 <= v < res.len() && (#[trigger] res[v]) is Reference implies 1 <= coffset(res[v]) <= v
        && res[v - coffset(res[v])] is Occupied && v - (v - coffset(res[v])) < cwidth(
        res[v - coffset(res[v])],
    ) by {
        if x < v < x + w {
            assert(res[v - coffset(res[v])] == res[x]);
        } else {
            assert(res[v] == row[v]);
            let u = v - coffset(row[v]);
            assert(row[u] is Occupied && v - u < cwidth(row[u]));
            if x <= u < x + w {
                lemma_hit_covered(row, u, x, x + w);
                lemma_glyph_extent(row, u, v);
                assert(hit(row, v, x, x + w));
                assert(res[v] != row[v]);
                assert(false);
            } else {
                assert(!hit(row, u, x, x + w)) by {
                    lemma_glyph_extent(row, u, v);
                    lemma_glyph_extent(row, u, u);
                    assert(!hit(row, v, x, x + w));
                }
                assert(res[u] == row[u]);
            }
        }
    }
}

/// Writing a glyph keeps the row well formed.
pub proof fn lemma_write_wf(row: Seq<CellV>, x: int, w: int, value: Seq<char>, style: Style)
    requires
        row_wf(row),
        1 <= w,
        x + w <= row.len(),
        0 <= x,
        w <= u32::MAX,
        w == disp_width(value, row.len() as int),
    ensures
        row_wf(spec_write(row, x, w, value, style)),
{
    lemma_write_wf_pointwise(row, x, w, value, style, spec_write(row, x, w, value, style));
}

} // verus!
