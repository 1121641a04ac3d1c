use vstd::prelude::*;
use vstd::arithmetic::div_mod::lemma_fundamental_div_mod_converse;

use crate::options::{RenderingOpts, TEXTURE_H, TEXTURE_W};

verus! {

/// One cell of a regular split of a view zone: the zone is cut into
/// `x_split` columns and `y_split` rows, and this is column `col`, row `row`.
#[derive(Debug, Clone, Copy, PartialEq, Eq)]
pub struct GridCell {
    pub col: u8,
    pub row: u8,
}

/// The cell at position `k` of a regular split with `y_split` rows: cells come
/// column by column, and within a column row by row.
pub open spec fn grid_cell(y_split: int, k: int) -> GridCell {
    GridCell { col: (k / y_split) as u8, row: (k % y_split) as u8 }
}

/// The cells of a regular split of a zone into `x_split` columns and `y_split`
/// rows, in the order in which the zones are listed: by column, then by row.
pub fn grid_cells(x_split: u8, y_split: u8) -> (cells: Vec<GridCell>)
    ensures
        cells@.len() == x_split * y_split,
        forall|k: int| 0 <= k < cells@.len() ==> #[trigger] cells@[k] == grid_cell(y_split as int, k),
{
    let mut cells: Vec<GridCell> = Vec::new();
    let mut i: u8 = 0;
    while i < x_split
        invariant
            i <= x_split,
            cells@.len() == i * y_split,
            forall|k: int| 0 <= k < cells@.len() ==> #[trigger] cells@[k] == grid_cell(y_split as int, k),
        decreases x_split - i,
    {
        let mut j: u8 = 0;
        while j < y_split
            invariant
                i < x_split,
                j <= y_split,
                cells@.len() == i * y_split + j,
                forall|k: int| 0 <= k < cells@.len() ==> #[trigger] cells@[k] == grid_cell(y_split as int, k),
            decreases y_split - j,
        {
            proof {
                lemma_fundamental_div_mod_converse(i * y_split + j, y_split as int, i as int, j as int);
            }
            cells.push(GridCell { col: i, row: j });
            j = j + 1;
        }
        assert((i + 1) * y_split == i * y_split + y_split) by (nonlinear_arith);
        i = i + 1;
    }
    cells
}

/// Every cell of an `x_split` by `y_split` grid appears in the split, at
/// position `col * y_split + row`.
pub proof fn lemma_grid_cell_positions(x_split: u8, y_split: u8, col: int, row: int)
    requires
        0 <= col < x_split,
        0 <= row < y_split,
    ensures
        0 <= col * y_split + row < x_split * y_split,
        grid_cell(y_split as int, col * y_split + row) == (GridCell { col: col as u8, row: row as u8 }),
{
    lemma_fundamental_div_mod_converse(col * y_split + row, y_split as int, col, row);
    assert(col * y_split + row < x_split * y_split) by (nonlinear_arith)
        requires 0 <= col < x_split, 0 <= row < y_split;
    assert(0 <= col * y_split) by (nonlinear_arith)
        requires 0 <= col, 0 <= y_split;
}

/// One zone of a bordered split: the zone shrunk `level` times by one texture
/// pixel on every side, drawn only along its border unless it is the innermost.
#[derive(Debug, Clone, Copy, PartialEq, Eq)]
pub struct BorderLevel {
    pub level: u8,
    pub border: bool,
}

/// The zones of a bordered split into `n_split` nested rings: ring `k` is the
/// zone shrunk `k` times; every ring but the innermost is a border ring.
pub fn border_levels(n_split: u8) -> (levels: Vec<BorderLevel>)
    requires
        n_split >= 1,
    ensures
        levels@.len() == n_split,
        forall|k: int| 0 <= k < levels@.len() ==> #[trigger] levels@[k] == (BorderLevel {
            level: k as u8,
            border: k + 1 < n_split,
        }),
{
    let mut levels: Vec<BorderLevel> = Vec::new();
    let mut k: u8 = 0;
    while k < n_split
        invariant
            k <= n_split,
            levels@.len() == k,
            forall|q: int| 0 <= q < levels@.len() ==> #[trigger] levels@[q] == (BorderLevel {
                level: q as u8,
                border: q + 1 < n_split,
            }),
        decreases n_split - k,
    {
        levels.push(BorderLevel { level: k, border: k + 1 < n_split });
        k = k + 1;
    }
    levels
}

/// How the screen is split into view zones.
#[derive(Debug, Clone, Copy, PartialEq, Eq)]
pub enum ViewLayout {
    /// Nested rings, shrunk by one pixel of a `texture_w` by `texture_h` texture each.
    Bordered { levels: u8, texture_w: u32, texture_h: u32 },
    /// A regular grid of `x_split` columns and `y_split` rows.
    Grid { x_split: u8, y_split: u8 },
}

/// The layout that the rendering options call for.
pub open spec fn layout_for(o: RenderingOpts) -> ViewLayout {
    if o.bordering_split {
        ViewLayout::Bordered { levels: o.split, texture_w: TEXTURE_W, texture_h: TEXTURE_H }
    } else {
        ViewLayout::Grid { x_split: o.split, y_split: o.split }
    }
}

/// The number of view zones of a layout.
pub open spec fn zone_count(layout: ViewLayout) -> int {
    match layout {
        ViewLayout::Bordered { levels, .. } => levels as int,
        ViewLayout::Grid { x_split, y_split } => x_split * y_split,
    }
}

/// The decision of rebuilding the views: nested rings of texture pixels when
/// the bordered split is on, else a square grid, both of the chosen fineness.
pub fn view_layout(opts: &RenderingOpts) -> (layout: ViewLayout)
    ensures
        layout == layout_for(*opts),
{
    if opts.bordering_split {
        ViewLayout::Bordered { levels: opts.split, texture_w: TEXTURE_W, texture_h: TEXTURE_H }
    } else {
        ViewLayout::Grid { x_split: opts.split, y_split: opts.split }
    }
}

/// With at least one zone asked for, every layout has at least one zone, and
/// a grid has the square of the asked fineness.
pub proof fn lemma_layout_nonempty(o: RenderingOpts)
    requires
        o.split >= 1,
    ensures
        zone_count(layout_for(o)) >= 1,
        !o.bordering_split ==> zone_count(layout_for(o)) == o.split * o.split,
        o.bordering_split ==> zone_count(layout_for(o)) == o.split,
{
    assert(o.split * o.split >= 1) by (nonlinear_arith)
        requires o.split >= 1;
}

/// The layout follows the options: rings exactly when the bordered split is on,
/// as many rings as the zone count, each shrunk by one pixel of the 16 by 16
/// zone texture; otherwise a square grid of the zone count on each side.
pub proof fn lemma_layout_follows_options(o: RenderingOpts)
    ensures
        layout_for(o) is Bordered <==> o.bordering_split,
        layout_for(o) matches ViewLayout::Bordered { levels, texture_w, texture_h } ==> {
            &&& levels == o.split
            &&& texture_w == TEXTURE_W && texture_h == TEXTURE_H
            &&& texture_w == 16 && texture_h == 16
        },
        layout_for(o) matches ViewLayout::Grid { x_split, y_split } ==> x_split == o.split && y_split == o.split,
{
}

} // verus!
