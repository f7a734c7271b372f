//! The renderer-side cache: a per-cell snapshot grid that decides whether a
//! cell needs repainting, and a least-recently-used map from glyph keys to
//! shaped-glyph records. The shaping itself is the font backend's business:
//! this module decides hits and misses and maintains the eviction order.

use vstd::prelude::*;
use std::hash::BuildHasherDefault;
use crate::cell::{cstyle, cvalue, CellV, Position};
use crate::style::{style_eq, Attributes, Style};

verus! {

/// The key a shaped glyph is cached under: the cluster and the attribute
/// bits that affect shaping (bold, faint, italic); colors do not.
#[derive(Clone, Debug, PartialEq, Eq, Hash)]
pub struct Glyph {
    pub value: String,
    pub bold: bool,
    pub faint: bool,
    pub italic: bool,
}

impl Glyph {
    /// Builds a key from a cluster and a style's attributes, keeping only
    /// the shaping bits.
    pub fn new(value: String, attrs: Attributes) -> (g: Glyph)
        ensures
            g.value@ == value@,
            g.bold == attrs.bold,
            g.faint == attrs.faint,
            g.italic == attrs.italic,
    {
        Glyph { value, bold: attrs.bold, faint: attrs.faint, italic: attrs.italic }
    }

    /// The key as plain values.
    pub open spec fn view_key(&self) -> (Seq<char>, bool, bool, bool) {
        (self.value@, self.bold, self.faint, self.italic)
    }
}

/// A shaped glyph as plain values: a handle for the chosen font and the
/// glyph identifiers the shaper produced. The font backend fills these in.
#[derive(Clone, Debug)]
pub struct Computed {
    pub font: u64,
    pub shape: Vec<u32>,
}

impl Computed {
    pub fn font(&self) -> (r: u64)
        ensures
            r == self.font,
    {
        self.font
    }

    pub fn shape(&self) -> (r: &Vec<u32>)
        ensures
            r == self.shape,
    {
        &self.shape
    }

    /// The record as plain values.
    pub open spec fn view_val(&self) -> (u64, Seq<u32>) {
        (self.font, self.shape@)
    }
}

/// The least-recently-used glyph map, most recent first.
#[verifier::external_body]
pub struct GlyphLru {
    inner: lru::LruCache<Glyph, Computed, BuildHasherDefault<fnv::FnvHasher>>,
}

/// The entries of the map, most recently used first, as plain values.
pub uninterp spec fn lru_entries(c: GlyphLru) -> Seq<
    ((Seq<char>, bool, bool, bool), (u64, Seq<u32>)),
>;

/// The fixed capacity the map was created with.
pub uninterp spec fn lru_capacity(c: GlyphLru) -> nat;

/// The first index holding the key, or -1.
pub open spec fn find_key(
    entries: Seq<((Seq<char>, bool, bool, bool), (u64, Seq<u32>))>,
    k: (Seq<char>, bool, bool, bool),
) -> int
    decreases entries.len(),
{
    if entries.len() == 0 {
        -1
    } else if entries[0].0 == k {
        0
    } else {
        let rest = find_key(entries.skip(1), k);
        if rest == -1 {
            -1
        } else {
            rest + 1
        }
    }
}

/// The entries after a lookup hit at index `i`: the entry moves to the front.
pub open spec fn lru_touch(
    entries: Seq<((Seq<char>, bool, bool, bool), (u64, Seq<u32>))>,
    i: int,
) -> Seq<((Seq<char>, bool, bool, bool), (u64, Seq<u32>))> {
    seq![entries[i]].add(entries.subrange(0, i)).add(
        entries.subrange(i + 1, entries.len() as int),
    )
}

/// The entries after an insertion: an existing key is updated and moved to
/// the front; a fresh key enters at the front and, at capacity, the least
/// recently used entry at the back leaves.
pub open spec fn lru_put_spec(
    entries: Seq<((Seq<char>, bool, bool, bool), (u64, Seq<u32>))>,
    k: (Seq<char>, bool, bool, bool),
    v: (u64, Seq<u32>),
    cap: nat,
) -> Seq<((Seq<char>, bool, bool, bool), (u64, Seq<u32>))> {
    let i = find_key(entries, k);
    if i >= 0 {
        seq![(k, v)].add(entries.subrange(0, i)).add(entries.subrange(i + 1, entries.len() as int))
    } else if entries.len() < cap {
        seq![(k, v)].add(entries)
    } else {
        seq![(k, v)].add(entries).take(cap as int)
    }
}

impl GlyphLru {
    /// Relies on `lru::LruCache::with_hasher` (lru 0.18): a fresh bounded
    /// map with no entries.
    #[verifier::external_body]
    pub fn new(capacity: usize) -> (c: GlyphLru)
        requires
            capacity >= 1,
        ensures
            lru_entries(c) == Seq::<((Seq<char>, bool, bool, bool), (u64, Seq<u32>))>::empty(),
            lru_capacity(c) == capacity,
    {
        let cap = std::num::NonZeroUsize::new(capacity).unwrap();
        GlyphLru { inner: lru::LruCache::with_hasher(cap, BuildHasherDefault::default()) }
    }

    /// Relies on `lru::LruCache::get`: a hit returns the value and marks the
    /// entry most recently used; a miss changes nothing.
    #[verifier::external_body]
    pub fn get(&mut self, g: &Glyph) -> (r: Option<Computed>)
        ensures
            lru_capacity(*final(self)) == lru_capacity(*old(self)),
            ({
                let i = find_key(lru_entries(*old(self)), g.view_key());
                if i >= 0 {
                    &&& r is Some
                    &&& r->0.view_val() == lru_entries(*old(self))[i].1
                    &&& lru_entries(*final(self)) == lru_touch(lru_entries(*old(self)), i)
                } else {
                    &&& r is None
                    &&& lru_entries(*final(self)) == lru_entries(*old(self))
                }
            }),
    {
        self.inner.get(g).cloned()
    }

    /// Relies on `lru::LruCache::put`: an existing key is updated and moved
    /// to the front; a fresh key enters at the front, evicting the least
    /// recently used entry once the map is full.
    #[verifier::external_body]
    pub fn put(&mut self, g: Glyph, v: Computed)
        ensures
            lru_capacity(*final(self)) == lru_capacity(*old(self)),
            lru_entries(*final(self)) == lru_put_spec(
                lru_entries(*old(self)),
                g.view_key(),
                v.view_val(),
                lru_capacity(*old(self)),
            ),
    {
        self.inner.put(g, v);
    }

    /// Relies on `lru::LruCache::len`: the number of entries.
    #[verifier::external_body]
    pub fn len(&self) -> (r: usize)
        ensures
            r == lru_entries(*self).len(),
    {
        self.inner.len()
    }
}

/// The per-cell snapshot the renderer compares against: the style and the
/// cluster last painted, and whether the entry is still trustworthy.
#[derive(Debug)]
pub struct Cell {
    pub style: Style,
    pub value: Option<String>,
    pub valid: bool,
}

/// The snapshot as plain values.
pub ghost struct SnapV {
    pub style: Style,
    pub value: Option<Seq<char>>,
    pub valid: bool,
}

impl View for Cell {
    type V = SnapV;

    open spec fn view(&self) -> SnapV {
        SnapV {
            style: self.style,
            value: match &self.value {
                Some(s) => Some(s@),
                None => None,
            },
            valid: self.valid,
        }
    }
}

impl Cell {
    /// A fresh, trusted snapshot of an empty cell.
    pub fn empty(style: Style) -> (c: Cell)
        ensures
            c@ == (SnapV { style, value: None, valid: true }),
    {
        Cell { style, value: None, valid: true }
    }
}

/// Whether a snapshot still shows the live cell: it must be valid and agree
/// on style, emptiness and cluster.
pub open spec fn snap_matches(s: SnapV, c: CellV) -> bool {
    &&& s.valid
    &&& s.style == cstyle(c)
    &&& match c {
        CellV::Empty { .. } => s.value is None,
        CellV::Occupied { .. } => s.value == Some(cvalue(c)),
        CellV::Reference { .. } => false,
    }
}

/// The snapshot a cell leaves behind once painted.
pub open spec fn snap_of(c: CellV) -> SnapV {
    SnapV {
        style: cstyle(c),
        value: match c {
            CellV::Occupied { .. } => Some(cvalue(c)),
            _ => None,
        },
        valid: true,
    }
}

/// The renderer cache: one snapshot per cell and the glyph map.
pub struct Cache {
    pub cols: u32,
    pub rows: u32,
    pub snaps: Vec<Cell>,
    pub glyphs: GlyphLru,
}

pub open spec fn cache_wf(c: Cache) -> bool {
    &&& c.snaps@.len() == c.cols as int * c.rows as int
    &&& c.cols as int * c.rows as int <= usize::MAX
}

fn blank_snaps(cols: u32, rows: u32) -> (r: Vec<Cell>)
    requires
        cols as int * rows as int <= usize::MAX,
    ensures
        r@.len() == cols as int * rows as int,
        forall|i: int|
            0 <= i < r@.len() ==> (#[trigger] r@[i])@ == (SnapV {
                style: Style::default_spec(),
                value: None,
                valid: true,
            }),
{
    let style = Style::default();
    let n: usize = (cols as usize) * (rows as usize);
    let mut snaps: Vec<Cell> = Vec::new();
    let mut i: usize = 0;
    while i < n
        invariant
            i <= n,
            style == Style::default_spec(),
            snaps@.len() == i,
            forall|j: int|
                0 <= j < i ==> (#[trigger] snaps@[j])@ == (SnapV {
                    style: Style::default_spec(),
                    value: None,
                    valid: true,
                }),
        decreases n - i,
    {
        let ghost prev = snaps@;
        snaps.push(Cell::empty(style));
        i = i + 1;
        assert forall|j: int|
            0 <= j < i implies (#[trigger] snaps@[j])@ == (SnapV {
            style: Style::default_spec(),
            value: None,
            valid: true,
        }) by {
            if j < i - 1 {
                assert(snaps@[j] == prev[j]);
            }
        }
    }
    snaps
}

impl Cache {
    /// A cache for a `cols` by `rows` window, with a glyph map of the given
    /// capacity. All snapshots start trusted and empty.
    pub fn new(capacity: usize, cols: u32, rows: u32) -> (c: Cache)
        requires
            capacity >= 1,
            cols as int * rows as int <= usize::MAX,
        ensures
            cache_wf(c),
            c.cols == cols,
            c.rows == rows,
            lru_entries(c.glyphs) == Seq::<
                ((Seq<char>, bool, bool, bool), (u64, Seq<u32>)),
            >::empty(),
            lru_capacity(c.glyphs) == capacity,
            forall|i: int|
                0 <= i < c.snaps@.len() ==> (#[trigger] c.snaps@[i])@ == (SnapV {
                    style: Style::default_spec(),
                    value: None,
                    valid: true,
                }),
    {
        Cache { cols, rows, snaps: blank_snaps(cols, rows), glyphs: GlyphLru::new(capacity) }
    }

    /// Resizes the snapshot grid; every entry starts over trusted and empty.
    pub fn resize(&mut self, cols: u32, rows: u32)
        requires
            cols as int * rows as int <= usize::MAX,
        ensures
            final(self).cols == cols,
            final(self).rows == rows,
            cache_wf(*final(self)),
            final(self).glyphs == old(self).glyphs,
            forall|i: int|
                0 <= i < final(self).snaps@.len() ==> (#[trigger] final(self).snaps@[i])@ == (
                SnapV { style: Style::default_spec(), value: None, valid: true }),
    {
        self.cols = cols;
        self.rows = rows;
        self.snaps = blank_snaps(cols, rows);
    }

    /// Marks the snapshot under the given cell stale, so the next `update`
    /// repaints it.
    pub fn invalidate(&mut self, cell: &Position)
        requires
            cache_wf(*old(self)),
            cell.x_spec() < old(self).cols,
            cell.y_spec() < old(self).rows,
        ensures
            cache_wf(*final(self)),
            final(self).cols == old(self).cols,
            final(self).rows == old(self).rows,
            final(self).glyphs == old(self).glyphs,
            ({
                let idx = cell.y_spec() * old(self).cols + cell.x_spec();
                &&& final(self).snaps@[idx as int]@ == (SnapV {
                    valid: false,
                    ..old(self).snaps@[idx as int]@
                })
                &&& forall|i: int|
                    0 <= i < old(self).snaps@.len() && i != idx
                        ==> #[trigger] final(self).snaps@[i] == old(self).snaps@[i]
            }),
    {
        proof {
            lemma_snap_index(cell.x_spec(), cell.y_spec(), self.cols, self.rows);
        }
        let idx: usize = (cell.y() as usize) * (self.cols as usize) + (cell.x() as usize);
        let snap = &mut self.snaps[idx];
        snap.valid = false;
    }

    /// Compares the live cell to its snapshot: returns false exactly when
    /// the snapshot is valid and agrees on style, emptiness and cluster;
    /// otherwise replaces the snapshot and returns true, asking for a
    /// repaint.
    pub fn update(&mut self, cell: &Position) -> (changed: bool)
        requires
            cache_wf(*old(self)),
            cell.x_spec() < old(self).cols,
            cell.y_spec() < old(self).rows,
            !(cell.cell_spec() is Reference),
        ensures
            cache_wf(*final(self)),
            final(self).cols == old(self).cols,
            final(self).rows == old(self).rows,
            final(self).glyphs == old(self).glyphs,
            ({
                let idx = cell.y_spec() * old(self).cols + cell.x_spec();
                &&& changed == !snap_matches(old(self).snaps@[idx as int]@, cell.cell_spec())
                &&& final(self).snaps@[idx as int]@ == (if changed {
                    snap_of(cell.cell_spec())
                } else {
                    old(self).snaps@[idx as int]@
                })
                &&& forall|i: int|
                    0 <= i < old(self).snaps@.len() && i != idx
                        ==> #[trigger] final(self).snaps@[i] == old(self).snaps@[i]
            }),
    {
        proof {
            lemma_snap_index(cell.x_spec(), cell.y_spec(), self.cols, self.rows);
        }
        let idx: usize = (cell.y() as usize) * (self.cols as usize) + (cell.x() as usize);
        let live_style = cell.style();
        let same = {
            let snap = &self.snaps[idx];
            snap.valid && style_eq(&snap.style, &live_style) && (match (cell.value(), &snap.value)
                {
                (Some(v), Some(sv)) => *sv == *v,
                (None, None) => true,
                _ => false,
            })
        };
        if same {
            false
        } else {
            let value: Option<String> = match cell.value() {
                Some(v) => Some(v.clone()),
                None => None,
            };
            let snap = &mut self.snaps[idx];
            snap.style = live_style;
            snap.value = value;
            snap.valid = true;
            true
        }
    }

    /// Looks a glyph up in the shaped-glyph map; a hit refreshes its recency.
    pub fn lookup(&mut self, value: String, attrs: Attributes) -> (r: Option<Computed>)
        ensures
            final(self).cols == old(self).cols,
            final(self).rows == old(self).rows,
            final(self).snaps == old(self).snaps,
            lru_capacity(final(self).glyphs) == lru_capacity(old(self).glyphs),
            ({
                let k = (value@, attrs.bold, attrs.faint, attrs.italic);
                let i = find_key(lru_entries(old(self).glyphs), k);
                if i >= 0 {
                    &&& r is Some
                    &&& r->0.view_val() == lru_entries(old(self).glyphs)[i].1
                    &&& lru_entries(final(self).glyphs) == lru_touch(
                        lru_entries(old(self).glyphs),
                        i,
                    )
                } else {
                    &&& r is None
                    &&& lru_entries(final(self).glyphs) == lru_entries(old(self).glyphs)
                }
            }),
    {
        let g = Glyph::new(value, attrs);
        self.glyphs.get(&g)
    }

    /// Stores a shaped glyph the font backend produced for this key, evicting
    /// the least recently used entry once the map is full.
    pub fn store(&mut self, value: String, attrs: Attributes, computed: Computed)
        ensures
            final(self).cols == old(self).cols,
            final(self).rows == old(self).rows,
            final(self).snaps == old(self).snaps,
            lru_capacity(final(self).glyphs) == lru_capacity(old(self).glyphs),
            lru_entries(final(self).glyphs) == lru_put_spec(
                lru_entries(old(self).glyphs),
                (value@, attrs.bold, attrs.faint, attrs.italic),
                computed.view_val(),
                lru_capacity(old(self).glyphs),
            ),
    {
        let g = Glyph::new(value, attrs);
        self.glyphs.put(g, computed);
    }
}

/// A cell's snapshot index lies inside the snapshot grid.
proof fn lemma_snap_index(x: u32, y: u32, cols: u32, rows: u32) by (nonlinear_arith)
    requires
        x < cols,
        y < rows,
    ensures
        (y as int) * (cols as int) + (x as int) < (cols as int) * (rows as int),
{
}

/// The entries after `i` distinct fresh keys are inserted, newest first.
pub open spec fn puts_rec(
    entries: Seq<((Seq<char>, bool, bool, bool), (u64, Seq<u32>))>,
    ks: Seq<(Seq<char>, bool, bool, bool)>,
    v: (u64, Seq<u32>),
    cap: nat,
    i: int,
) -> Seq<((Seq<char>, bool, bool, bool), (u64, Seq<u32>))>
    decreases ks.len() - i,
{
    if i < 0 || i >= ks.len() {
        entries
    } else {
        puts_rec(lru_put_spec(entries, ks[i], v, cap), ks, v, cap, i + 1)
    }
}

/// A key that appears in no entry is not found.
proof fn lemma_find_none(
    entries: Seq<((Seq<char>, bool, bool, bool), (u64, Seq<u32>))>,
    k: (Seq<char>, bool, bool, bool),
)
    requires
        forall|j: int| 0 <= j < entries.len() ==> (#[trigger] entries[j]).0 != k,
    ensures
        find_key(entries, k) == -1,
    decreases entries.len(),
{
    if entries.len() > 0 {
        lemma_find_none(entries.skip(1), k);
    }
}

/// After `n` insertions with pairwise distinct fresh keys into an empty map
/// of capacity `cap`, exactly `min(n, cap)` entries remain: the most recent
/// `min(n, cap)` keys, newest first — the least recently inserted were the
/// ones evicted.
pub proof fn lemma_lru_distinct_fill(
    ks: Seq<(Seq<char>, bool, bool, bool)>,
    v: (u64, Seq<u32>),
    cap: nat,
    i: int,
)
    requires
        cap >= 1,
        0 <= i <= ks.len(),
        forall|a: int, b: int| 0 <= a < b < ks.len() ==> ks[a] != ks[b],
    ensures
        puts_rec(Seq::empty(), ks, v, cap, 0).len() == (if ks.len() <= cap {
            ks.len() as int
        } else {
            cap as int
        }),
        forall|j: int|
            0 <= j < puts_rec(Seq::empty(), ks, v, cap, 0).len() ==> #[trigger] puts_rec(
                Seq::empty(),
                ks,
                v,
                cap,
                0,
            )[j] == (ks[ks.len() - 1 - j], v),
{
    lemma_lru_fill_from(ks, v, cap, 0);
}

/// The shape of the map after the puts from index `i` on, starting from the
/// map that the first `i` distinct puts produce.
proof fn lemma_lru_fill_from(
    ks: Seq<(Seq<char>, bool, bool, bool)>,
    v: (u64, Seq<u32>),
    cap: nat,
    i: int,
)
    requires
        cap >= 1,
        0 <= i <= ks.len(),
        forall|a: int, b: int| 0 <= a < b < ks.len() ==> ks[a] != ks[b],
    ensures
        ({
            let m = puts_rec(model_at(ks, v, cap, i), ks, v, cap, i);
            &&& m.len() == (if ks.len() <= cap {
                ks.len() as int
            } else {
                cap as int
            })
            &&& forall|j: int| 0 <= j < m.len() ==> #[trigger] m[j] == (ks[ks.len() - 1 - j], v)
        }),
        puts_rec(Seq::empty(), ks, v, cap, 0) == puts_rec(model_at(ks, v, cap, 0), ks, v, cap, 0),
    decreases ks.len() - i,
{
    let cur = model_at(ks, v, cap, i);
    assert(cur =~= model_at(ks, v, cap, i));
    if i == ks.len() {
        assert(puts_rec(cur, ks, v, cap, i) == cur);
    } else {
        assert forall|j: int| 0 <= j < cur.len() implies (#[trigger] cur[j]).0 != ks[i] by {
            assert(cur[j].0 == ks[i - 1 - j]);
        }
        lemma_find_none(cur, ks[i]);
        let next = lru_put_spec(cur, ks[i], v, cap);
        assert(next =~= model_at(ks, v, cap, i + 1));
        lemma_lru_fill_from(ks, v, cap, i + 1);
        assert(puts_rec(cur, ks, v, cap, i) == puts_rec(next, ks, v, cap, i + 1));
    }
    assert(model_at(ks, v, cap, 0) =~= Seq::<
        ((Seq<char>, bool, bool, bool), (u64, Seq<u32>)),
    >::empty());
}

/// The map the first `i` distinct puts produce: the newest `min(i, cap)`
/// keys, newest first.
pub open spec fn model_at(
    ks: Seq<(Seq<char>, bool, bool, bool)>,
    v: (u64, Seq<u32>),
    cap: nat,
    i: int,
) -> Seq<((Seq<char>, bool, bool, bool), (u64, Seq<u32>))> {
    Seq::new(
        (if i <= cap {
            i
        } else {
            cap as int
        }) as nat,
        |j: int| (ks[i - 1 - j], v),
    )
}

} // verus!
