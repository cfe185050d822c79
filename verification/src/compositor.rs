//! The compositor: double-buffered, diff-based redraw.
//!
//! The compositor keeps the previously rendered grid. On the first render
//! (or after a reset or a dimension change) every cell is written; on
//! subsequent renders only the cells that changed are written — exactly
//! those, no more and no fewer — and applying the writes to the previous
//! grid reproduces the new one. After each render the new grid becomes the
//! previous one by moving it, not by copying cells.

use vstd::prelude::*;
use crate::glyph::GlyphCell;

verus! {

/// One cell to rewrite: its row-major index and its new content.
#[derive(Clone, Copy, PartialEq, Eq, Structural, Debug)]
pub struct CellWrite {
    pub index: usize,
    pub cell: GlyphCell,
}

/// A rendered grid of `cols * rows` cells, row-major.
pub struct GlyphGrid {
    pub cols: usize,
    pub rows: usize,
    pub cells: Vec<GlyphCell>,
}

impl GlyphGrid {
    /// The buffer holds exactly one cell per grid position.
    pub open spec fn wf(self) -> bool {
        self.cells@.len() == self.cols * self.rows
    }

    /// Build a grid from a row-major cell buffer.
    pub fn new(cols: usize, rows: usize, cells: Vec<GlyphCell>) -> (r: Option<GlyphGrid>)
        ensures
            r is Some <==> cells@.len() == cols * rows,
            r matches Some(g) ==> {
                &&& g.wf()
                &&& g.cols == cols
                &&& g.rows == rows
                &&& g.cells@ == cells@
            },
    {
        // Binding the length keeps its usize bound available to the overflow case.
        let len = cells.len();
        match cols.checked_mul(rows) {
            Some(n) => {
                if cells.len() == n {
                    Some(GlyphGrid { cols, rows, cells })
                } else {
                    None
                }
            },
            None => None,
        }
    }
}

/// How many positions of the first `n` differ between two buffers.
pub open spec fn count_diff(p: Seq<GlyphCell>, c: Seq<GlyphCell>, n: int) -> int
    decreases n,
{
    if n <= 0 {
        0
    } else {
        count_diff(p, c, n - 1) + if p[n - 1] != c[n - 1] {
            1int
        } else {
            0int
        }
    }
}

/// The buffer after performing a list of cell writes, in order.
pub open spec fn apply_writes(base: Seq<GlyphCell>, ws: Seq<CellWrite>) -> Seq<GlyphCell>
    decreases ws.len(),
{
    if ws.len() == 0 {
        base
    } else {
        apply_writes(base, ws.drop_last()).update(ws.last().index as int, ws.last().cell)
    }
}

/// A difference count never exceeds the prefix length.
pub proof fn lemma_count_diff_bounds(p: Seq<GlyphCell>, c: Seq<GlyphCell>, n: int)
    ensures
        0 <= count_diff(p, c, n) <= (if n >= 0 { n } else { 0 }),
    decreases n,
{
    if n > 0 {
        lemma_count_diff_bounds(p, c, n - 1);
    }
}

/// Compute the minimal redraw from `prev` to `cur`: one write per differing
/// cell, in index order, whose application to `prev` reproduces `cur`.
pub fn diff(prev: &Vec<GlyphCell>, cur: &Vec<GlyphCell>) -> (ws: Vec<CellWrite>)
    requires
        prev@.len() == cur@.len(),
    ensures
        ws@.len() == count_diff(prev@, cur@, prev@.len() as int),
        forall|k: int|
            0 <= k < ws@.len() ==> {
                let w = #[trigger] ws@[k];
                &&& w.index < cur@.len()
                &&& prev@[w.index as int] != cur@[w.index as int]
                &&& w.cell == cur@[w.index as int]
            },
        forall|k1: int, k2: int|
            0 <= k1 < k2 < ws@.len() ==> #[trigger] ws@[k1].index < #[trigger] ws@[k2].index,
        apply_writes(prev@, ws@) == cur@,
{
    let n = prev.len();
    let mut ws: Vec<CellWrite> = Vec::new();
    let mut i: usize = 0;
    while i < n
        invariant
            prev@.len() == n,
            cur@.len() == n,
            i <= n,
            ws@.len() == count_diff(prev@, cur@, i as int),
            forall|k: int|
                0 <= k < ws@.len() ==> {
                    let w = #[trigger] ws@[k];
                    &&& w.index < i
                    &&& prev@[w.index as int] != cur@[w.index as int]
                    &&& w.cell == cur@[w.index as int]
                },
            forall|k1: int, k2: int|
                0 <= k1 < k2 < ws@.len() ==> #[trigger] ws@[k1].index < #[trigger] ws@[k2].index,
            apply_writes(prev@, ws@).len() == n,
            forall|j: int|
                0 <= j < n ==> #[trigger] apply_writes(prev@, ws@)[j] == (if j < i {
                    cur@[j]
                } else {
                    prev@[j]
                }),
        decreases n - i,
    {
        proof {
            lemma_count_diff_bounds(prev@, cur@, i as int);
        }
        if prev[i] != cur[i] {
            let w = CellWrite { index: i, cell: cur[i] };
            let ghost old_ws = ws@;
            ws.push(w);
            proof {
                assert(ws@.drop_last() =~= old_ws);
                assert(ws@.last() == w);
                assert(apply_writes(prev@, ws@) =~= apply_writes(prev@, old_ws).update(
                    i as int,
                    cur@[i as int],
                ));
            }
        }
        i += 1;
    }
    proof {
        assert(apply_writes(prev@, ws@) =~= cur@);
    }
    ws
}

/// Every cell of `cur`, as a full-grid write list.
pub fn full_writes(cur: &Vec<GlyphCell>) -> (ws: Vec<CellWrite>)
    ensures
        ws@.len() == cur@.len(),
        forall|k: int|
            0 <= k < ws@.len() ==> #[trigger] ws@[k] == (CellWrite {
                index: k as usize,
                cell: cur@[k],
            }),
{
    let n = cur.len();
    let mut ws: Vec<CellWrite> = Vec::new();
    let mut i: usize = 0;
    while i < n
        invariant
            cur@.len() == n,
            i <= n,
            ws@.len() == i,
            forall|k: int|
                0 <= k < i ==> #[trigger] ws@[k] == (CellWrite { index: k as usize, cell: cur@[k] }),
        decreases n - i,
    {
        ws.push(CellWrite { index: i, cell: cur[i] });
        i += 1;
    }
    ws
}

/// The double-buffered compositor: empty until the first render, then ready
/// with the grid last drawn.
pub struct Compositor {
    pub prev: Option<GlyphGrid>,
}

impl Compositor {
    /// The kept grid, when present, is well formed.
    pub open spec fn wf(self) -> bool {
        self.prev matches Some(g) ==> g.wf()
    }

    /// A compositor with nothing drawn yet.
    pub fn new() -> (r: Compositor)
        ensures
            r.prev is None,
            r.wf(),
    {
        Compositor { prev: None }
    }

    /// Forget the drawn grid, forcing the next render to redraw fully (used
    /// on resize and at stream end).
    pub fn reset(&mut self)
        ensures
            final(self).prev is None,
            final(self).wf(),
    {
        self.prev = None;
    }

    /// Render a grid: emit the cell writes the terminal needs, then keep the
    /// grid as the new previous buffer. A first render, or one whose
    /// dimensions differ from the kept grid's, rewrites every cell; any
    /// other render rewrites exactly the cells that changed.
    pub fn render(&mut self, cur: GlyphGrid) -> (ws: Vec<CellWrite>)
        requires
            cur.wf(),
            old(self).wf(),
        ensures
            final(self).wf(),
            (final(self).prev matches Some(g) && g.cols == cur.cols && g.rows == cur.rows
                && g.cells@ == cur.cells@),
            match old(self).prev {
                Some(g) => {
                    if g.cols == cur.cols && g.rows == cur.rows {
                        &&& ws@.len() == count_diff(g.cells@, cur.cells@, g.cells@.len() as int)
                        &&& apply_writes(g.cells@, ws@) == cur.cells@
                        &&& forall|k: int|
                            0 <= k < ws@.len() ==> {
                                let w = #[trigger] ws@[k];
                                &&& w.index < cur.cells@.len()
                                &&& g.cells@[w.index as int] != cur.cells@[w.index as int]
                                &&& w.cell == cur.cells@[w.index as int]
                            }
                    } else {
                        &&& ws@.len() == cur.cells@.len()
                        &&& forall|k: int|
                            0 <= k < ws@.len() ==> #[trigger] ws@[k] == (CellWrite {
                                index: k as usize,
                                cell: cur.cells@[k],
                            })
                    }
                },
                None => {
                    &&& ws@.len() == cur.cells@.len()
                    &&& forall|k: int|
                        0 <= k < ws@.len() ==> #[trigger] ws@[k] == CellWrite {
                            index: k as usize,
                            cell: cur.cells@[k],
                        }
                },
            },
    {
        let ws = match &self.prev {
            Some(g) => {
                if g.cols == cur.cols && g.rows == cur.rows {
                    diff(&g.cells, &cur.cells)
                } else {
                    full_writes(&cur.cells)
                }
            },
            None => full_writes(&cur.cells),
        };
        self.prev = Some(cur);
        ws
    }
}

} // verus!
