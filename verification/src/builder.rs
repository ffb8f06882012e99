//! The grid specification tree and the rectangle flattener.
//!
//! A [`GridBuilder`] accumulates rows of cells; a cell either becomes a
//! placement of its own or holds a nested grid whose placements replace it.
//! [`GridBuilder::into_real_cells`] resolves the tree against a bounding
//! rectangle into the flat, ordered list of placements.

use vstd::prelude::*;
use vstd::pervasive::VecAdditionalExecFns;
use crate::geom::{
    reflect, swap_spacing, Align, Layout, Margin, Pos2, Rect, RectG, Vec2, COORD_LIMIT, DRIFT_LIMIT,
};
use crate::sizing::{resolved_lengths, Size, Sizing, COUNT_LIMIT, DIM_LIMIT, LEN_LIMIT};

verus! {

/// A declarative description of a grid: rows of cells, grid-level spacing,
/// clipping and transposition settings, built incrementally.
pub struct GridBuilder {
    pub units: Vec<Row>,
    pub spacing: Vec2,
    pub row_as_col: bool,
    pub creation_cache: Vec<(usize, usize)>,
    pub clip: bool,
    pub use_default_spacing: bool,
    pub default_layout: Layout,
}

/// One row of cells, with its own extent along the primary axis and an
/// alignment for underfilled rows.
pub struct Row {
    pub size: Size,
    pub cells: Vec<Cell>,
    pub align: Align,
}

/// One cell of a row: its extent along the secondary axis, an inward
/// margin, a content layout, and optionally a nested grid that takes the
/// cell's place in the output.
pub struct Cell {
    pub size: Size,
    pub margin: Margin,
    pub layout: Layout,
    pub group: Option<GridBuilder>,
}

/// A resolved leaf placement: an absolute rectangle, the cell's content
/// layout, and whether the host should clip the cell's contents.
#[derive(Clone, Copy, PartialEq, Eq, Structural, Debug)]
pub struct PureCell {
    pub rect: Rect,
    pub layout: Layout,
    pub clip: bool,
}

/// The mathematical model of a [`PureCell`]: the same placement with
/// unbounded integer coordinates.
pub ghost struct Place {
    pub rect: RectG,
    pub layout: Layout,
    pub clip: bool,
}

impl View for PureCell {
    type V = Place;

    open spec fn view(&self) -> Place {
        Place { rect: self.rect@, layout: self.layout, clip: self.clip }
    }
}

/// The mathematical model of a [`GridBuilder`].
pub ghost struct GridG {
    pub rows: Seq<RowG>,
    pub spacing: Vec2,
    pub row_as_col: bool,
    pub creation_cache: Seq<(usize, usize)>,
    pub clip: bool,
    pub use_default_spacing: bool,
    pub default_layout: Layout,
}

/// The mathematical model of a [`Row`].
pub ghost struct RowG {
    pub size: Size,
    pub cells: Seq<CellG>,
    pub align: Align,
}

/// The mathematical model of a [`Cell`].
pub ghost struct CellG {
    pub size: Size,
    pub margin: Margin,
    pub layout: Layout,
    pub group: Option<GridG>,
}

/// Model of a grid builder.
pub open spec fn grid_view(g: GridBuilder) -> GridG
    decreases g, 0int,
{
    GridG {
        rows: rows_view_from(g.units@, 0),
        spacing: g.spacing,
        row_as_col: g.row_as_col,
        creation_cache: g.creation_cache@,
        clip: g.clip,
        use_default_spacing: g.use_default_spacing,
        default_layout: g.default_layout,
    }
}

/// Models of the rows from index `i` on.
pub open spec fn rows_view_from(rows: Seq<Row>, i: int) -> Seq<RowG>
    decreases rows, rows.len() - i,
{
    if 0 <= i < rows.len() {
        seq![row_view(rows[i])] + rows_view_from(rows, i + 1)
    } else {
        Seq::empty()
    }
}

/// Model of one row.
pub open spec fn row_view(r: Row) -> RowG
    decreases r, 0int,
{
    RowG { size: r.size, cells: cells_view_from(r.cells@, 0), align: r.align }
}

/// Models of the cells from index `j` on.
pub open spec fn cells_view_from(cells: Seq<Cell>, j: int) -> Seq<CellG>
    decreases cells, cells.len() - j,
{
    if 0 <= j < cells.len() {
        seq![cell_view(cells[j])] + cells_view_from(cells, j + 1)
    } else {
        Seq::empty()
    }
}

/// Model of one cell.
pub open spec fn cell_view(c: Cell) -> CellG
    decreases c, 0int,
{
    CellG {
        size: c.size,
        margin: c.margin,
        layout: c.layout,
        group: match c.group {
            Option::Some(g) => Option::Some(grid_view(g)),
            Option::None => Option::None,
        },
    }
}

impl View for GridBuilder {
    type V = GridG;

    open spec fn view(&self) -> GridG {
        grid_view(*self)
    }
}

impl View for Row {
    type V = RowG;

    open spec fn view(&self) -> RowG {
        row_view(*self)
    }
}

impl View for Cell {
    type V = CellG;

    open spec fn view(&self) -> CellG {
        cell_view(*self)
    }
}

/// The row models of a prefix walk have one entry per row, each the model
/// of the row at the same index.
pub proof fn lemma_rows_view_from(rows: Seq<Row>, i: int)
    requires
        0 <= i <= rows.len(),
    ensures
        rows_view_from(rows, i).len() == rows.len() - i,
        forall|k: int| i <= k < rows.len() ==> rows_view_from(rows, i)[k - i] == row_view(rows[k]),
    decreases rows.len() - i,
{
    if i < rows.len() {
        lemma_rows_view_from(rows, i + 1);
    }
}

/// The cell models of a prefix walk have one entry per cell, each the model
/// of the cell at the same index.
pub proof fn lemma_cells_view_from(cells: Seq<Cell>, j: int)
    requires
        0 <= j <= cells.len(),
    ensures
        cells_view_from(cells, j).len() == cells.len() - j,
        forall|k: int| j <= k < cells.len() ==> cells_view_from(cells, j)[k - j] == cell_view(cells[k]),
    decreases cells.len() - j,
{
    if j < cells.len() {
        lemma_cells_view_from(cells, j + 1);
    }
}

/// The models of a row list line up index for index.
pub proof fn lemma_rows_view(rows: Seq<Row>)
    ensures
        rows_view_from(rows, 0).len() == rows.len(),
        forall|k: int| 0 <= k < rows.len() ==> #[trigger] rows_view_from(rows, 0)[k] == row_view(
            rows[k],
        ),
{
    lemma_rows_view_from(rows, 0);
    assert forall|k: int| 0 <= k < rows.len() implies rows_view_from(rows, 0)[k] == row_view(
        rows[k],
    ) by {
        assert(rows_view_from(rows, 0)[k - 0] == row_view(rows[k]));
    }
}

/// The models of a cell list line up index for index.
pub proof fn lemma_cells_view(cells: Seq<Cell>)
    ensures
        cells_view_from(cells, 0).len() == cells.len(),
        forall|k: int| 0 <= k < cells.len() ==> #[trigger] cells_view_from(cells, 0)[k] == cell_view(
            cells[k],
        ),
{
    lemma_cells_view_from(cells, 0);
    assert forall|k: int| 0 <= k < cells.len() implies cells_view_from(cells, 0)[k] == cell_view(
        cells[k],
    ) by {
        assert(cells_view_from(cells, 0)[k - 0] == cell_view(cells[k]));
    }
}

/// The larger of two naturals.
pub open spec fn max_nat(a: nat, b: nat) -> nat {
    if a > b {
        a
    } else {
        b
    }
}

/// Nesting depth of a grid: one more than the deepest nested grid in any of
/// its cells, at least one.
pub open spec fn grid_depth(g: GridG) -> nat
    decreases g, g.rows.len() + 1,
{
    1 + rows_depth_from(g.rows, 0)
}

/// Deepest nesting among the rows from index `i` on.
pub open spec fn rows_depth_from(rows: Seq<RowG>, i: int) -> nat
    decreases rows, rows.len() - i,
{
    if 0 <= i < rows.len() {
        max_nat(row_depth(rows[i]), rows_depth_from(rows, i + 1))
    } else {
        0
    }
}

/// Deepest nesting among a row's cells.
pub open spec fn row_depth(r: RowG) -> nat
    decreases r, 0int,
{
    cells_depth_from(r.cells, 0)
}

/// Deepest nesting among the cells from index `j` on.
pub open spec fn cells_depth_from(cells: Seq<CellG>, j: int) -> nat
    decreases cells, cells.len() - j,
{
    if 0 <= j < cells.len() {
        max_nat(cell_depth(cells[j]), cells_depth_from(cells, j + 1))
    } else {
        0
    }
}

/// Nesting depth contributed by one cell: that of its nested grid, if any.
pub open spec fn cell_depth(c: CellG) -> nat
    decreases c, 0int,
{
    match c.group {
        Option::Some(g) => grid_depth(g),
        Option::None => 0,
    }
}

/// A nested grid sits strictly deeper than the grid that holds it.
pub proof fn lemma_nested_depth(g: GridG, i: int, j: int, sub: GridG)
    requires
        0 <= i < g.rows.len(),
        0 <= j < g.rows[i].cells.len(),
        g.rows[i].cells[j].group == Option::Some(sub),
    ensures
        grid_depth(sub) < grid_depth(g),
{
    lemma_rows_depth_covers(g.rows, 0, i);
    lemma_cells_depth_covers(g.rows[i].cells, 0, j);
}

/// The depth of the rows from index `k` on covers each single row at or
/// past `k`.
pub proof fn lemma_rows_depth_covers(rows: Seq<RowG>, k: int, i: int)
    requires
        0 <= k <= i < rows.len(),
    ensures
        row_depth(rows[i]) <= rows_depth_from(rows, k),
    decreases i - k,
{
    if k < i {
        lemma_rows_depth_covers(rows, k + 1, i);
    }
}

/// The depth of the cells from index `k` on covers each single cell at or
/// past `k`.
pub proof fn lemma_cells_depth_covers(cells: Seq<CellG>, k: int, j: int)
    requires
        0 <= k <= j < cells.len(),
    ensures
        cell_depth(cells[j]) <= cells_depth_from(cells, k),
    decreases j - k,
{
    if k < j {
        lemma_cells_depth_covers(cells, k + 1, j);
    }
}

/// Number of leaf placements a grid produces: one per cell without a
/// nested grid, and the nested grid's own count for the others.
pub open spec fn grid_leaf_count(g: GridG) -> nat
    decreases g, g.rows.len() + 1,
{
    rows_leaf_count(g.rows, g.rows.len() as int)
}

/// Leaf placements of the first `i` rows.
pub open spec fn rows_leaf_count(rows: Seq<RowG>, i: int) -> nat
    decreases rows, i,
{
    if 0 < i <= rows.len() {
        rows_leaf_count(rows, i - 1) + row_leaf_count(rows[i - 1])
    } else {
        0
    }
}

/// Leaf placements of one row.
pub open spec fn row_leaf_count(r: RowG) -> nat
    decreases r, 0int,
{
    cells_leaf_count(r.cells, r.cells.len() as int)
}

/// Leaf placements of the first `j` cells.
pub open spec fn cells_leaf_count(cells: Seq<CellG>, j: int) -> nat
    decreases cells, j,
{
    if 0 < j <= cells.len() {
        cells_leaf_count(cells, j - 1) + cell_leaf_count(cells[j - 1])
    } else {
        0
    }
}

/// Leaf placements of one cell: one for a leaf, the nested grid's count
/// otherwise.
pub open spec fn cell_leaf_count(c: CellG) -> nat
    decreases c, 0int,
{
    match c.group {
        Option::Some(g) => grid_leaf_count(g),
        Option::None => 1,
    }
}

/// Well-formed grid: bounded spacing, bounded row and cell counts, every
/// size and margin well formed, every creation-cache entry in bounds, and
/// every nested grid well formed in turn.
pub open spec fn grid_wf(g: GridG) -> bool
    decreases g, g.rows.len() + 1,
{
    &&& g.spacing.wf()
    &&& g.rows.len() <= COUNT_LIMIT
    &&& rows_wf_from(g.rows, 0)
    &&& forall|k: int| 0 <= k < g.creation_cache.len() ==> {
        let (ri, ci) = #[trigger] g.creation_cache[k];
        ri < g.rows.len() && ci < g.rows[ri as int].cells.len()
    }
}

/// All rows from index `i` on are well formed.
pub open spec fn rows_wf_from(rows: Seq<RowG>, i: int) -> bool
    decreases rows, rows.len() - i,
{
    if 0 <= i < rows.len() {
        row_wf(rows[i]) && rows_wf_from(rows, i + 1)
    } else {
        true
    }
}

/// A row is well formed: its size is, its cell count is bounded, and its
/// cells are.
pub open spec fn row_wf(r: RowG) -> bool
    decreases r, 0int,
{
    &&& r.size.wf()
    &&& r.cells.len() <= COUNT_LIMIT
    &&& cells_wf_from(r.cells, 0)
}

/// All cells from index `j` on are well formed.
pub open spec fn cells_wf_from(cells: Seq<CellG>, j: int) -> bool
    decreases cells, cells.len() - j,
{
    if 0 <= j < cells.len() {
        cell_wf(cells[j]) && cells_wf_from(cells, j + 1)
    } else {
        true
    }
}

/// A cell is well formed: its size and margin are, and so is its nested
/// grid, if any.
pub open spec fn cell_wf(c: CellG) -> bool
    decreases c, 0int,
{
    &&& c.size.wf()
    &&& c.margin.wf()
    &&& match c.group {
        Option::Some(g) => grid_wf(g),
        Option::None => true,
    }
}

/// Well-formedness of a row list reaches every single row.
pub proof fn lemma_rows_wf_covers(rows: Seq<RowG>, k: int, i: int)
    requires
        0 <= k <= i < rows.len(),
        rows_wf_from(rows, k),
    ensures
        row_wf(rows[i]),
    decreases i - k,
{
    if k < i {
        lemma_rows_wf_covers(rows, k + 1, i);
    }
}

/// Well-formedness of a cell list reaches every single cell.
pub proof fn lemma_cells_wf_covers(cells: Seq<CellG>, k: int, j: int)
    requires
        0 <= k <= j < cells.len(),
        cells_wf_from(cells, k),
    ensures
        cell_wf(cells[j]),
    decreases j - k,
{
    if k < j {
        lemma_cells_wf_covers(cells, k + 1, j);
    }
}

/// Effective spacing of a grid: its own if one was set, else the inherited
/// default, with the components exchanged when rows act as columns.
pub open spec fn eff_spacing(g: GridG, def_sx: int, def_sy: int) -> (int, int) {
    let sx = if g.use_default_spacing {
        def_sx
    } else {
        g.spacing.x as int
    };
    let sy = if g.use_default_spacing {
        def_sy
    } else {
        g.spacing.y as int
    };
    if g.row_as_col {
        (sy, sx)
    } else {
        (sx, sy)
    }
}

/// The primary-axis sizes of a list of rows.
pub open spec fn row_sizes(rows: Seq<RowG>) -> Seq<Size> {
    rows.map_values(|r: RowG| r.size)
}

/// The secondary-axis sizes of a list of cells.
pub open spec fn cell_sizes(cells: Seq<CellG>) -> Seq<Size> {
    cells.map_values(|c: CellG| c.size)
}

/// How far the cursor has advanced after `j` elements: each element's
/// resolved length plus one spacing.
pub open spec fn walk_sum(lens: Seq<int>, s: int, j: int) -> int
    decreases j,
{
    if 0 < j <= lens.len() {
        walk_sum(lens, s, j - 1) + lens[j - 1] + s
    } else {
        0
    }
}

/// Total extent of a row's cells: the sum of the lengths plus one spacing
/// between each neighbouring pair.
pub open spec fn span_of(lens: Seq<int>, s: int) -> int {
    -s + walk_sum(lens, s, lens.len() as int)
}

/// Half of `x`, rounded toward zero.
pub open spec fn half_trunc(x: int) -> int {
    if x >= 0 {
        x / 2
    } else {
        -((-x) / 2)
    }
}

/// How far a row's first cell is pushed right to realize the alignment,
/// given the leftover width.
pub open spec fn align_offset(a: Align, leftover: int) -> int {
    match a {
        Align::Min => 0,
        Align::Center => half_trunc(leftover),
        Align::Max => leftover,
    }
}

/// A rectangle shrunk inward by a margin.
pub open spec fn inset_rect(r: RectG, m: Margin) -> RectG {
    RectG {
        x0: r.x0 + m.left,
        y0: r.y0 + m.top,
        x1: r.x1 - m.right,
        y1: r.y1 - m.bottom,
    }
}

/// The full resolution of a grid against a bounding rectangle: the ordered
/// leaf placements of all rows, walked top to bottom and left to right,
/// with nested grids' placements substituted for their holding cells.
pub open spec fn flatten_spec(g: GridG, bounds: RectG, def_sx: int, def_sy: int) -> Seq<Place>
    decreases g, g.rows.len() + 1,
{
    flatten_rows(g, bounds, def_sx, def_sy, g.rows.len() as int)
}

/// Placements of the first `i` rows of a grid.
pub open spec fn flatten_rows(g: GridG, bounds: RectG, def_sx: int, def_sy: int, i: int) -> Seq<Place>
    decreases g, i,
{
    if 0 < i <= g.rows.len() {
        let (sx, sy) = eff_spacing(g, def_sx, def_sy);
        let whole_w = if g.row_as_col {
            bounds.height()
        } else {
            bounds.width()
        };
        let whole_h = if g.row_as_col {
            bounds.width()
        } else {
            bounds.height()
        };
        let rlens = resolved_lengths(row_sizes(g.rows), whole_h, sy);
        flatten_rows(g, bounds, def_sx, def_sy, i - 1) + row_places(
            g.rows[i - 1],
            bounds.y0 + walk_sum(rlens, sy, i - 1),
            rlens[i - 1],
            whole_w,
            sx,
            bounds.x0,
            bounds.y0,
            g.clip,
            g.row_as_col,
            def_sx,
            def_sy,
        )
    } else {
        Seq::empty()
    }
}

/// Placements of one row: its cells, pushed right by the alignment offset,
/// walked left to right at the row's vertical position.
pub open spec fn row_places(
    r: RowG,
    y: int,
    h: int,
    whole_w: int,
    sx: int,
    fx: int,
    fy: int,
    clip: bool,
    transpose: bool,
    def_sx: int,
    def_sy: int,
) -> Seq<Place>
    decreases r, 0int,
{
    let clens = resolved_lengths(cell_sizes(r.cells), whole_w, sx);
    let off = align_offset(r.align, whole_w - span_of(clens, sx));
    cells_places(
        r.cells,
        clens,
        fx + off,
        y,
        h,
        sx,
        fx,
        fy,
        clip,
        transpose,
        def_sx,
        def_sy,
        r.cells.len() as int,
    )
}

/// Placements of the first `j` cells of a row.
pub open spec fn cells_places(
    cells: Seq<CellG>,
    clens: Seq<int>,
    start_x: int,
    y: int,
    h: int,
    sx: int,
    fx: int,
    fy: int,
    clip: bool,
    transpose: bool,
    def_sx: int,
    def_sy: int,
    j: int,
) -> Seq<Place>
    decreases cells, j,
{
    if 0 < j <= cells.len() {
        cells_places(cells, clens, start_x, y, h, sx, fx, fy, clip, transpose, def_sx, def_sy, j - 1)
            + cell_places(
            cells[j - 1],
            start_x + walk_sum(clens, sx, j - 1),
            y,
            clens[j - 1],
            h,
            fx,
            fy,
            clip,
            transpose,
            def_sx,
            def_sy,
        )
    } else {
        Seq::empty()
    }
}

/// Placements of one cell: its rectangle is built at the cursor, reflected
/// about the focal point when rows act as columns, then shrunk by the
/// cell's margin; a leaf cell yields that one placement, a nested grid is
/// resolved against it instead.
pub open spec fn cell_places(
    c: CellG,
    x: int,
    y: int,
    w: int,
    h: int,
    fx: int,
    fy: int,
    clip: bool,
    transpose: bool,
    def_sx: int,
    def_sy: int,
) -> Seq<Place>
    decreases c, 0int,
{
    let raw = RectG { x0: x, y0: y, x1: x + w, y1: y + h };
    let oriented = if transpose {
        crate::geom::reflect_g(raw, fx, fy)
    } else {
        raw
    };
    let placed = inset_rect(oriented, c.margin);
    match c.group {
        Option::Some(sub) => flatten_spec(sub, placed, def_sx, def_sy),
        Option::None => seq![Place { rect: placed, layout: c.layout, clip }],
    }
}

/// Resolving a grid yields exactly one placement per leaf cell, nested
/// grids expanded, whatever the bounding rectangle and spacing.
pub proof fn lemma_flatten_cardinality(g: GridG, bounds: RectG, def_sx: int, def_sy: int)
    ensures
        flatten_spec(g, bounds, def_sx, def_sy).len() == grid_leaf_count(g),
    decreases g, g.rows.len() + 1,
{
    lemma_flatten_rows_count(g, bounds, def_sx, def_sy, g.rows.len() as int);
}

/// The first `i` rows yield exactly their own leaf count.
pub proof fn lemma_flatten_rows_count(g: GridG, bounds: RectG, def_sx: int, def_sy: int, i: int)
    requires
        i <= g.rows.len(),
    ensures
        flatten_rows(g, bounds, def_sx, def_sy, i).len() == rows_leaf_count(g.rows, i),
    decreases g, i,
{
    if 0 < i {
        let (sx, sy) = eff_spacing(g, def_sx, def_sy);
        let whole_w = if g.row_as_col {
            bounds.height()
        } else {
            bounds.width()
        };
        let whole_h = if g.row_as_col {
            bounds.width()
        } else {
            bounds.height()
        };
        let rlens = resolved_lengths(row_sizes(g.rows), whole_h, sy);
        lemma_flatten_rows_count(g, bounds, def_sx, def_sy, i - 1);
        lemma_row_places_count(
            g.rows[i - 1],
            bounds.y0 + walk_sum(rlens, sy, i - 1),
            rlens[i - 1],
            whole_w,
            sx,
            bounds.x0,
            bounds.y0,
            g.clip,
            g.row_as_col,
            def_sx,
            def_sy,
        );
    }
}

/// One row yields exactly its own leaf count.
pub proof fn lemma_row_places_count(
    r: RowG,
    y: int,
    h: int,
    whole_w: int,
    sx: int,
    fx: int,
    fy: int,
    clip: bool,
    transpose: bool,
    def_sx: int,
    def_sy: int,
)
    ensures
        row_places(r, y, h, whole_w, sx, fx, fy, clip, transpose, def_sx, def_sy).len()
            == row_leaf_count(r),
    decreases r, 0int,
{
    let clens = resolved_lengths(cell_sizes(r.cells), whole_w, sx);
    let off = align_offset(r.align, whole_w - span_of(clens, sx));
    lemma_cells_places_count(
        r.cells,
        clens,
        fx + off,
        y,
        h,
        sx,
        fx,
        fy,
        clip,
        transpose,
        def_sx,
        def_sy,
        r.cells.len() as int,
    );
}

/// The first `j` cells yield exactly their own leaf count.
pub proof fn lemma_cells_places_count(
    cells: Seq<CellG>,
    clens: Seq<int>,
    start_x: int,
    y: int,
    h: int,
    sx: int,
    fx: int,
    fy: int,
    clip: bool,
    transpose: bool,
    def_sx: int,
    def_sy: int,
    j: int,
)
    requires
        j <= cells.len(),
    ensures
        cells_places(cells, clens, start_x, y, h, sx, fx, fy, clip, transpose, def_sx, def_sy, j).len()
            == cells_leaf_count(cells, j),
    decreases cells, j,
{
    if 0 < j {
        lemma_cells_places_count(
            cells,
            clens,
            start_x,
            y,
            h,
            sx,
            fx,
            fy,
            clip,
            transpose,
            def_sx,
            def_sy,
            j - 1,
        );
        lemma_cell_places_count(
            cells[j - 1],
            start_x + walk_sum(clens, sx, j - 1),
            y,
            clens[j - 1],
            h,
            fx,
            fy,
            clip,
            transpose,
            def_sx,
            def_sy,
        );
    }
}

/// One cell yields exactly its own leaf count.
pub proof fn lemma_cell_places_count(
    c: CellG,
    x: int,
    y: int,
    w: int,
    h: int,
    fx: int,
    fy: int,
    clip: bool,
    transpose: bool,
    def_sx: int,
    def_sy: int,
)
    ensures
        cell_places(c, x, y, w, h, fx, fy, clip, transpose, def_sx, def_sy).len()
            == cell_leaf_count(c),
    decreases c, 0int,
{
    let raw = RectG { x0: x, y0: y, x1: x + w, y1: y + h };
    let oriented = if transpose {
        crate::geom::reflect_g(raw, fx, fy)
    } else {
        raw
    };
    let placed = inset_rect(oriented, c.margin);
    match c.group {
        Option::Some(sub) => {
            lemma_flatten_cardinality(sub, placed, def_sx, def_sy);
        },
        Option::None => {},
    }
}

/// Resolution is deterministic: the flattening of a grid is a function of
/// the grid, the bounding rectangle and the inherited spacing alone, so two
/// resolutions of the same inputs agree placement for placement.
pub proof fn lemma_resolve_deterministic(
    g: GridG,
    bounds: RectG,
    def_sx: int,
    def_sy: int,
    first: Seq<Place>,
    second: Seq<Place>,
)
    requires
        first == flatten_spec(g, bounds, def_sx, def_sy),
        second == flatten_spec(g, bounds, def_sx, def_sy),
    ensures
        first == second,
{
}

/// A copy of a grid with the same model, for reusing a sub-layout as a
/// nested-grid template.
fn clone_grid(g: &GridBuilder) -> (r: GridBuilder)
    ensures
        r@ == g@,
    decreases *g, 1int,
{
    let mut units: Vec<Row> = Vec::new();
    let n = g.units.len();
    let mut i: usize = 0;
    while i < n
        invariant
            0 <= i <= n,
            n == g.units@.len(),
            units@.len() == i,
            forall|k: int| 0 <= k < i ==> row_view(#[trigger] units@[k]) == row_view(g.units@[k]),
        decreases n - i,
    {
        let row = clone_row(&g.units[i]);
        units.push(row);
        i = i + 1;
    }
    let mut creation_cache: Vec<(usize, usize)> = Vec::new();
    let m = g.creation_cache.len();
    let mut k: usize = 0;
    while k < m
        invariant
            0 <= k <= m,
            m == g.creation_cache@.len(),
            creation_cache@ == g.creation_cache@.take(k as int),
        decreases m - k,
    {
        creation_cache.push(g.creation_cache[k]);
        proof {
            assert(creation_cache@ =~= g.creation_cache@.take(k as int + 1));
        }
        k = k + 1;
    }
    let r = GridBuilder {
        units,
        spacing: g.spacing,
        row_as_col: g.row_as_col,
        creation_cache,
        clip: g.clip,
        use_default_spacing: g.use_default_spacing,
        default_layout: g.default_layout,
    };
    proof {
        lemma_rows_view(r.units@);
        lemma_rows_view(g.units@);
        assert(grid_view(r).rows =~= grid_view(*g).rows);
        assert(r.creation_cache@ =~= g.creation_cache@);
    }
    r
}

/// A copy of a row with the same model.
fn clone_row(r: &Row) -> (c: Row)
    ensures
        row_view(c) == row_view(*r),
    decreases *r, 1int,
{
    let mut cells: Vec<Cell> = Vec::new();
    let n = r.cells.len();
    let mut j: usize = 0;
    while j < n
        invariant
            0 <= j <= n,
            n == r.cells@.len(),
            cells@.len() == j,
            forall|k: int| 0 <= k < j ==> cell_view(#[trigger] cells@[k]) == cell_view(r.cells@[k]),
        decreases n - j,
    {
        let cell = clone_cell(&r.cells[j]);
        cells.push(cell);
        j = j + 1;
    }
    let c = Row { size: r.size, cells, align: r.align };
    proof {
        lemma_cells_view(c.cells@);
        lemma_cells_view(r.cells@);
        assert(row_view(c).cells =~= row_view(*r).cells);
    }
    c
}

/// A copy of a cell with the same model, its nested grid copied in turn.
fn clone_cell(c: &Cell) -> (r: Cell)
    ensures
        cell_view(r) == cell_view(*c),
    decreases *c, 1int,
{
    let group = match &c.group {
        Option::Some(sub) => Option::Some(clone_grid(sub)),
        Option::None => Option::None,
    };
    Cell { size: c.size, margin: c.margin, layout: c.layout, group }
}

impl Clone for GridBuilder {
    /// A copy with the same model: it resolves to the same placements and
    /// can be nested as a template while the original is kept.
    fn clone(&self) -> (r: Self)
        ensures
            r@ == self@,
    {
        clone_grid(self)
    }
}

impl Clone for Row {
    /// A copy with the same model.
    fn clone(&self) -> (r: Self)
        ensures
            r@ == self@,
    {
        clone_row(self)
    }
}

impl Clone for Cell {
    /// A copy with the same model.
    fn clone(&self) -> (r: Self)
        ensures
            r@ == self@,
    {
        clone_cell(self)
    }
}

/// Rows are resolved top to bottom in creation order: taking one more row
/// appends exactly that row's placements after all earlier rows'.
pub proof fn lemma_flatten_rows_step(g: GridG, bounds: RectG, def_sx: int, def_sy: int, i: int)
    requires
        0 <= i < g.rows.len(),
    ensures
        ({
            let (sx, sy) = eff_spacing(g, def_sx, def_sy);
            let whole_w = if g.row_as_col {
                bounds.height()
            } else {
                bounds.width()
            };
            let whole_h = if g.row_as_col {
                bounds.width()
            } else {
                bounds.height()
            };
            let rlens = resolved_lengths(row_sizes(g.rows), whole_h, sy);
            flatten_rows(g, bounds, def_sx, def_sy, i + 1) == flatten_rows(
                g,
                bounds,
                def_sx,
                def_sy,
                i,
            ) + row_places(
                g.rows[i],
                bounds.y0 + walk_sum(rlens, sy, i),
                rlens[i],
                whole_w,
                sx,
                bounds.x0,
                bounds.y0,
                g.clip,
                g.row_as_col,
                def_sx,
                def_sy,
            )
        }),
{
}

/// Cells are resolved left to right in creation order: taking one more
/// cell appends exactly that cell's placements after its left neighbours'.
pub proof fn lemma_cells_places_step(
    cells: Seq<CellG>,
    clens: Seq<int>,
    start_x: int,
    y: int,
    h: int,
    sx: int,
    fx: int,
    fy: int,
    clip: bool,
    transpose: bool,
    def_sx: int,
    def_sy: int,
    j: int,
)
    requires
        0 <= j < cells.len(),
    ensures
        cells_places(cells, clens, start_x, y, h, sx, fx, fy, clip, transpose, def_sx, def_sy, j + 1)
            == cells_places(
            cells,
            clens,
            start_x,
            y,
            h,
            sx,
            fx,
            fy,
            clip,
            transpose,
            def_sx,
            def_sy,
            j,
        ) + cell_places(
            cells[j],
            start_x + walk_sum(clens, sx, j),
            y,
            clens[j],
            h,
            fx,
            fy,
            clip,
            transpose,
            def_sx,
            def_sy,
        ),
{
}

/// A nested grid's leaves take their holding cell's place in the output: a
/// cell that holds a nested grid contributes exactly the nested grid's own
/// resolution against the cell's oriented, margin-inset rectangle, while a
/// leaf cell contributes exactly one placement with that rectangle.
pub proof fn lemma_nested_cell_in_place(
    c: CellG,
    x: int,
    y: int,
    w: int,
    h: int,
    fx: int,
    fy: int,
    clip: bool,
    transpose: bool,
    def_sx: int,
    def_sy: int,
)
    ensures
        ({
            let raw = RectG { x0: x, y0: y, x1: x + w, y1: y + h };
            let oriented = if transpose {
                crate::geom::reflect_g(raw, fx, fy)
            } else {
                raw
            };
            let placed = inset_rect(oriented, c.margin);
            match c.group {
                Option::Some(sub) => cell_places(c, x, y, w, h, fx, fy, clip, transpose, def_sx, def_sy)
                    == flatten_spec(sub, placed, def_sx, def_sy),
                Option::None => cell_places(c, x, y, w, h, fx, fy, clip, transpose, def_sx, def_sy)
                    == seq![(Place { rect: placed, layout: c.layout, clip })],
            }
        }),
{
}

/// A row list is well formed exactly when each of its rows from `i` on is.
pub proof fn lemma_rows_wf_iff(rows: Seq<RowG>, i: int)
    requires
        0 <= i <= rows.len(),
    ensures
        rows_wf_from(rows, i) <==> (forall|k: int| i <= k < rows.len() ==> row_wf(#[trigger] rows[k])),
    decreases rows.len() - i,
{
    if i < rows.len() {
        lemma_rows_wf_iff(rows, i + 1);
    }
}

/// A cell list is well formed exactly when each of its cells from `j` on is.
pub proof fn lemma_cells_wf_iff(cells: Seq<CellG>, j: int)
    requires
        0 <= j <= cells.len(),
    ensures
        cells_wf_from(cells, j) <==> (forall|k: int| j <= k < cells.len() ==> cell_wf(
            #[trigger] cells[k],
        )),
    decreases cells.len() - j,
{
    if j < cells.len() {
        lemma_cells_wf_iff(cells, j + 1);
    }
}

/// Whether a creation-cache holds the coordinate `(i, j)`.
pub open spec fn cache_hits(cache: Seq<(usize, usize)>, i: int, j: int) -> bool {
    exists|k: int| 0 <= k < cache.len() && #[trigger] cache[k] == ((i as usize, j as usize))
}

impl Row {
    /// A row of the given size and alignment, with no cells yet.
    pub fn new(size: Size, align: Align) -> (r: Row)
        ensures
            r@ == (RowG { size, cells: Seq::<CellG>::empty(), align }),
    {
        Row { size, cells: Vec::new(), align }
    }
}

impl Cell {
    /// A leaf cell of the given size, margin and layout.
    pub fn new(size: Size, margin: Margin, layout: Layout) -> (c: Cell)
        ensures
            c@ == (CellG { size, margin, layout, group: Option::None }),
    {
        Cell { size, margin, layout, group: Option::None }
    }

    /// Nest a grid within this cell.
    pub fn nest(&mut self, grid: GridBuilder)
        ensures
            final(self)@ == (CellG { group: Option::Some(grid@), ..old(self)@ }),
    {
        self.group = Option::Some(grid);
    }

    /// Replace this cell's margin.
    pub fn edit_margin(&mut self, margin: Margin)
        ensures
            final(self)@ == (CellG { margin, ..old(self)@ }),
    {
        self.margin = margin;
    }

    /// Replace this cell's content layout.
    pub fn edit_layout(&mut self, layout: Layout)
        ensures
            final(self)@ == (CellG { layout, ..old(self)@ }),
    {
        self.layout = layout;
    }

    /// This cell's content layout.
    pub fn get_layout(&self) -> (l: Layout)
        ensures
            l == self@.layout,
    {
        self.layout
    }
}

impl PureCell {
    /// A placement descriptor from its parts.
    pub fn new(layout: Layout, clip: bool, rect: Rect) -> (p: PureCell)
        ensures
            p == (PureCell { rect, layout, clip }),
    {
        PureCell { rect, layout, clip }
    }

    /// The placement's absolute rectangle.
    pub fn rect(&self) -> (r: Rect)
        ensures
            r == self.rect,
    {
        self.rect
    }

    /// The placement's content layout.
    pub fn layout(&self) -> (l: Layout)
        ensures
            l == self.layout,
    {
        self.layout
    }

    /// Whether the host should clip the cell's contents.
    pub fn clip(&self) -> (c: bool)
        ensures
            c == self.clip,
    {
        self.clip
    }
}

impl GridBuilder {
    /// A fresh grid: no rows, zero spacing (deferring to the host default),
    /// no clipping, no transposition, standard layout for new cells.
    pub fn new() -> (r: GridBuilder)
        ensures
            r@.rows == Seq::<RowG>::empty(),
            r@.spacing == (Vec2 { x: 0, y: 0 }),
            r@.row_as_col == false,
            r@.creation_cache == Seq::<(usize, usize)>::empty(),
            r@.clip == false,
            r@.use_default_spacing == true,
            r@.default_layout == Layout::standard(),
            grid_wf(r@),
    {
        GridBuilder {
            units: Vec::new(),
            spacing: Vec2 { x: 0, y: 0 },
            row_as_col: false,
            creation_cache: Vec::new(),
            clip: false,
            use_default_spacing: true,
            default_layout: Layout {
                main_dir: crate::geom::Direction::TopDown,
                main_wrap: false,
                main_align: Align::Center,
                main_justify: false,
                cross_align: Align::Min,
                cross_justify: false,
            },
        }
    }

    /// Set the cell spacing on both axes. Until this (or
    /// [`Self::spacing_vec2`]) is called, the host's default spacing is
    /// used. Spacing does not propagate to nested grids.
    pub fn spacing(self, width: i64, height: i64) -> (r: Self)
        requires
            -crate::sizing::LEN_LIMIT <= width <= crate::sizing::LEN_LIMIT,
            -crate::sizing::LEN_LIMIT <= height <= crate::sizing::LEN_LIMIT,
            grid_wf(self@),
        ensures
            r@ == (GridG { spacing: Vec2 { x: width, y: height }, use_default_spacing: false, ..self@ }),
            grid_wf(r@),
    {
        let mut s = self;
        s.spacing = Vec2 { x: width, y: height };
        s.use_default_spacing = false;
        s
    }

    /// Set the cell spacing from a vector.
    pub fn spacing_vec2(self, spacing: Vec2) -> (r: Self)
        requires
            spacing.wf(),
            grid_wf(self@),
        ensures
            r@ == (GridG { spacing, use_default_spacing: false, ..self@ }),
            grid_wf(r@),
    {
        let mut s = self;
        s.spacing = spacing;
        s.use_default_spacing = false;
        s
    }

    /// Whether the host should clip each cell's contents to the cell.
    /// Does not propagate to nested grids.
    pub fn clip(self, clip: bool) -> (r: Self)
        requires
            grid_wf(self@),
        ensures
            r@ == (GridG { clip, ..self@ }),
            grid_wf(r@),
    {
        let mut s = self;
        s.clip = clip;
        s
    }

    /// Rows act as columns when resolved: cells run top-down instead of
    /// left-to-right. Creation order and margins are unaffected.
    pub fn rows_as_columns(self, vertical: bool) -> (r: Self)
        requires
            grid_wf(self@),
        ensures
            r@ == (GridG { row_as_col: vertical, ..self@ }),
            grid_wf(r@),
    {
        let mut s = self;
        s.row_as_col = vertical;
        s
    }

    /// The layout newly created cells get from now on. Cells created
    /// earlier keep theirs.
    pub fn layout_standard(self, layout: Layout) -> (r: Self)
        requires
            grid_wf(self@),
        ensures
            r@ == (GridG { default_layout: layout, ..self@ }),
            grid_wf(r@),
    {
        let mut s = self;
        s.default_layout = layout;
        s
    }

    /// Append a row, its cells aligned to the start. Starting a row
    /// invalidates the latest cell batch: a later batch edit touches
    /// nothing until cells are created again.
    pub fn new_row(self, size: Size) -> (r: Self)
        requires
            grid_wf(self@),
            size.wf(),
            self@.rows.len() < COUNT_LIMIT,
        ensures
            r@ == (GridG {
                rows: self@.rows.push(RowG { size, cells: Seq::empty(), align: Align::Min }),
                creation_cache: Seq::<(usize, usize)>::empty(),
                ..self@
            }),
            grid_wf(r@),
    {
        self.new_row_align(size, Align::Min)
    }

    /// Append a row with a custom alignment for its cells. Starting a row
    /// invalidates the latest cell batch, as [`Self::new_row`] does.
    pub fn new_row_align(self, size: Size, align: Align) -> (r: Self)
        requires
            grid_wf(self@),
            size.wf(),
            self@.rows.len() < COUNT_LIMIT,
        ensures
            r@ == (GridG {
                rows: self@.rows.push(RowG { size, cells: Seq::empty(), align }),
                creation_cache: Seq::<(usize, usize)>::empty(),
                ..self@
            }),
            grid_wf(r@),
    {
        let ghost gv = self@;
        let ghost old_units = self.units@;
        let mut s = self;
        let row = Row::new(size, align);
        s.units.push(row);
        s.creation_cache = Vec::new();
        proof {
            lemma_rows_view(s.units@);
            lemma_rows_view(old_units);
            assert(grid_view(s).rows =~= gv.rows.push(row_view(row)));
            lemma_rows_wf_iff(gv.rows, 0);
            lemma_rows_wf_iff(grid_view(s).rows, 0);
        }
        s
    }

    /// Change the alignment of the most recently appended row. Does
    /// nothing when no row exists yet.
    pub fn align(self, align: Align) -> (r: Self)
        requires
            grid_wf(self@),
        ensures
            self@.rows.len() == 0 ==> r@ == self@,
            self@.rows.len() > 0 ==> r@ == (GridG {
                rows: self@.rows.update(
                    self@.rows.len() - 1,
                    RowG { align, ..self@.rows.last() },
                ),
                ..self@
            }),
            grid_wf(r@),
    {
        let ghost gv = self@;
        let ghost old_units = self.units@;
        let mut s = self;
        let len = s.units.len();
        if len > 0 {
            let mut row = s.units.pop().unwrap();
            row.align = align;
            s.units.push(row);
            proof {
                assert(s.units@ =~= old_units.update(len - 1, s.units@.last()));
                lemma_rows_view(s.units@);
                lemma_rows_view(old_units);
                assert(grid_view(s).rows =~= gv.rows.update(
                    len - 1,
                    RowG { align, ..gv.rows.last() },
                ));
                lemma_rows_wf_iff(gv.rows, 0);
                lemma_rows_wf_iff(grid_view(s).rows, 0);
            }
        }
        s
    }

    /// Append `amount` cells, all of the given size and margin and with the
    /// current default layout, to the most recently appended row, and
    /// remember them as the latest batch. Does nothing when no row exists.
    fn add_cells(&mut self, size: Size, amount: i32, margin: Margin)
        requires
            grid_wf(old(self)@),
            size.wf(),
            margin.wf(),
            old(self)@.rows.len() > 0 ==> old(self)@.rows.last().cells.len() + count_nonneg(
                amount as int,
            ) <= COUNT_LIMIT,
        ensures
            old(self)@.rows.len() == 0 ==> final(self)@ == old(self)@,
            old(self)@.rows.len() > 0 ==> final(self)@ == (GridG {
                rows: old(self)@.rows.update(
                    old(self)@.rows.len() - 1,
                    RowG {
                        cells: old(self)@.rows.last().cells + added_cells(
                            size,
                            margin,
                            old(self)@.default_layout,
                            amount as int,
                        ),
                        ..old(self)@.rows.last()
                    },
                ),
                creation_cache: batch_cache(
                    old(self)@.rows.len() - 1,
                    old(self)@.rows.last().cells.len() as int,
                    amount as int,
                ),
                ..old(self)@
            }),
            grid_wf(final(self)@),
    {
        let ghost gv = old(self)@;
        let ghost old_units = self.units@;
        let len = self.units.len();
        if len > 0 {
            self.creation_cache = Vec::new();
            let mut row = self.units.pop().unwrap();
            let ghost old_row = old_units.last();
            let ghost old_cells = row.cells@;
            let cel_len = row.cells.len();
            proof {
                lemma_rows_view(old_units);
                lemma_cells_view(old_cells);
                assert(gv.rows.last() == row_view(old_units.last()));
                assert(gv.rows.last().cells.len() == old_cells.len());
            }
            let mut c: i32 = 0;
            while c < amount
                invariant
                    0 < len,
                    0 <= c,
                    amount > 0 ==> c <= amount,
                    amount <= 0 ==> c == 0,
                    cel_len == old_cells.len(),
                    cel_len + count_nonneg(amount as int) <= COUNT_LIMIT,
                    row.cells@.len() == cel_len + c,
                    forall|k: int| 0 <= k < cel_len ==> row.cells@[k] == old_cells[k],
                    forall|k: int| cel_len <= k < cel_len + c ==> #[trigger] row.cells@[k]
                        == (Cell { size, margin, layout: self.default_layout, group: Option::None }),
                    self.creation_cache@.len() == c,
                    forall|k: int| 0 <= k < c ==> #[trigger] self.creation_cache@[k] == ((
                        (len - 1) as usize,
                        (cel_len + k) as usize,
                    )),
                    row.size == old_row.size,
                    row.align == old_row.align,
                    self.units@ == old_units.drop_last(),
                    self.spacing == old(self).spacing,
                    self.row_as_col == old(self).row_as_col,
                    self.clip == old(self).clip,
                    self.use_default_spacing == old(self).use_default_spacing,
                    self.default_layout == old(self).default_layout,
                    len == old_units.len(),
                decreases amount - c,
            {
                row.cells.push(Cell::new(size, margin, self.default_layout));
                self.creation_cache.push((len - 1, cel_len + (c as usize)));
                c = c + 1;
            }
            self.units.push(row);
            proof {
                let ghost cnt = count_nonneg(amount as int);
                lemma_rows_view(self.units@);
                lemma_rows_view(old_units);
                lemma_cells_view(self.units@.last().cells@);
                lemma_cells_view(old_cells);
                assert(row_view(old_units.last()).cells == cells_view_from(old_cells, 0));
                assert(cell_view(Cell { size, margin, layout: gv.default_layout, group: Option::None })
                    == (CellG { size, margin, layout: gv.default_layout, group: Option::None }));
                assert(row_view(self.units@.last()).cells =~= row_view(old_units.last()).cells
                    + added_cells(size, margin, gv.default_layout, amount as int));
                assert(self.creation_cache@ =~= batch_cache(
                    len - 1,
                    old_cells.len() as int,
                    amount as int,
                ));
                assert(grid_view(*self).rows =~= gv.rows.update(
                    len - 1,
                    RowG {
                        cells: gv.rows.last().cells + added_cells(
                            size,
                            margin,
                            gv.default_layout,
                            amount as int,
                        ),
                        ..gv.rows.last()
                    },
                ));
                lemma_rows_wf_iff(gv.rows, 0);
                lemma_rows_wf_iff(grid_view(*self).rows, 0);
                lemma_cells_wf_iff(row_view(old_units.last()).cells, 0);
                lemma_cells_wf_iff(row_view(self.units@.last()).cells, 0);
                lemma_rows_wf_covers(gv.rows, 0, gv.rows.len() - 1);
            }
        }
    }

    /// Append one cell of the given size to the most recently appended
    /// row. Does nothing when no row exists.
    pub fn cell(self, size: Size) -> (r: Self)
        requires
            grid_wf(self@),
            size.wf(),
            self@.rows.len() > 0 ==> self@.rows.last().cells.len() + 1 <= COUNT_LIMIT,
        ensures
            self@.rows.len() == 0 ==> r@ == self@,
            self@.rows.len() > 0 ==> r@ == (GridG {
                rows: self@.rows.update(
                    self@.rows.len() - 1,
                    RowG {
                        cells: self@.rows.last().cells + added_cells(
                            size,
                            Margin { left: 0, top: 0, right: 0, bottom: 0 },
                            self@.default_layout,
                            1,
                        ),
                        ..self@.rows.last()
                    },
                ),
                creation_cache: batch_cache(
                    self@.rows.len() - 1,
                    self@.rows.last().cells.len() as int,
                    1,
                ),
                ..self@
            }),
            grid_wf(r@),
    {
        let mut s = self;
        s.add_cells(size, 1, Margin::zero());
        s
    }

    /// Append `amount` cells of the given size to the most recently
    /// appended row. Does nothing when no row exists.
    pub fn cells(self, size: Size, amount: i32) -> (r: Self)
        requires
            grid_wf(self@),
            size.wf(),
            self@.rows.len() > 0 ==> self@.rows.last().cells.len() + count_nonneg(amount as int)
                <= COUNT_LIMIT,
        ensures
            self@.rows.len() == 0 ==> r@ == self@,
            self@.rows.len() > 0 ==> r@ == (GridG {
                rows: self@.rows.update(
                    self@.rows.len() - 1,
                    RowG {
                        cells: self@.rows.last().cells + added_cells(
                            size,
                            Margin { left: 0, top: 0, right: 0, bottom: 0 },
                            self@.default_layout,
                            amount as int,
                        ),
                        ..self@.rows.last()
                    },
                ),
                creation_cache: batch_cache(
                    self@.rows.len() - 1,
                    self@.rows.last().cells.len() as int,
                    amount as int,
                ),
                ..self@
            }),
            grid_wf(r@),
    {
        let mut s = self;
        s.add_cells(size, amount, Margin::zero());
        s
    }

    /// Nest a grid in the most recently appended cell. Does nothing when
    /// no row exists or the last row has no cells.
    pub fn nest(self, grid: GridBuilder) -> (r: Self)
        requires
            grid_wf(self@),
            grid_wf(grid@),
        ensures
            self@.rows.len() == 0 ==> r@ == self@,
            self@.rows.len() > 0 && self@.rows.last().cells.len() == 0 ==> r@ == self@,
            self@.rows.len() > 0 && self@.rows.last().cells.len() > 0 ==> r@ == (GridG {
                rows: self@.rows.update(
                    self@.rows.len() - 1,
                    RowG {
                        cells: self@.rows.last().cells.update(
                            self@.rows.last().cells.len() - 1,
                            CellG { group: Option::Some(grid@), ..self@.rows.last().cells.last() },
                        ),
                        ..self@.rows.last()
                    },
                ),
                ..self@
            }),
            grid_wf(r@),
    {
        let ghost gv = self@;
        let ghost old_units = self.units@;
        let mut s = self;
        let len = s.units.len();
        if len > 0 {
            let mut row = s.units.pop().unwrap();
            let ghost old_cells = row.cells@;
            let cell_len = row.cells.len();
            if cell_len > 0 {
                let mut last_cell = row.cells.pop().unwrap();
                last_cell.nest(grid);
                row.cells.push(last_cell);
                proof {
                    assert(row.cells@ =~= old_cells.update(cell_len - 1, row.cells@.last()));
                    lemma_cells_view(row.cells@);
                    lemma_cells_view(old_cells);
                    assert(row_view(row).cells =~= row_view(old_units.last()).cells.update(
                        cell_len - 1,
                        CellG {
                            group: Option::Some(grid@),
                            ..row_view(old_units.last()).cells.last()
                        },
                    ));
                }
            }
            s.units.push(row);
            proof {
                assert(s.units@ =~= old_units.update(len - 1, s.units@.last()));
                lemma_rows_view(s.units@);
                lemma_rows_view(old_units);
                if old_cells.len() > 0 {
                    assert(grid_view(s).rows =~= gv.rows.update(
                        len - 1,
                        RowG {
                            cells: gv.rows.last().cells.update(
                                gv.rows.last().cells.len() - 1,
                                CellG { group: Option::Some(grid@), ..gv.rows.last().cells.last() },
                            ),
                            ..gv.rows.last()
                        },
                    ));
                    lemma_cells_wf_iff(gv.rows.last().cells, 0);
                    lemma_cells_wf_iff(grid_view(s).rows.last().cells, 0);
                    lemma_rows_wf_covers(gv.rows, 0, gv.rows.len() - 1);
                } else {
                    assert(grid_view(s).rows =~= gv.rows);
                }
                lemma_rows_wf_iff(gv.rows, 0);
                lemma_rows_wf_iff(grid_view(s).rows, 0);
            }
        }
        s
    }
}

/// How many cells a batch request creates: the requested amount, or none
/// for a negative request.
pub open spec fn count_nonneg(amount: int) -> nat {
    if amount >= 0 {
        amount as nat
    } else {
        0
    }
}

/// The cells one batch request appends: identical leaves of the given
/// size, margin and layout.
pub open spec fn added_cells(size: Size, margin: Margin, layout: Layout, amount: int) -> Seq<CellG> {
    Seq::new(count_nonneg(amount), |c: int| CellG { size, margin, layout, group: Option::None })
}

/// The creation-cache entries one batch request records: the row index
/// paired with each new cell's index.
pub open spec fn batch_cache(row: int, start: int, amount: int) -> Seq<(usize, usize)> {
    Seq::new(count_nonneg(amount), |c: int| ((row as usize, (start + c) as usize)))
}

/// The models of a list of placement descriptors.
pub open spec fn places_of(v: Seq<PureCell>) -> Seq<Place> {
    v.map_values(|p: PureCell| p@)
}

/// Placement models distribute over concatenation.
pub proof fn lemma_places_of_concat(a: Seq<PureCell>, b: Seq<PureCell>)
    ensures
        places_of(a + b) == places_of(a) + places_of(b),
{
    assert(places_of(a + b) =~= places_of(a) + places_of(b));
}

/// Placement models distribute over push.
pub proof fn lemma_places_of_push(a: Seq<PureCell>, p: PureCell)
    ensures
        places_of(a.push(p)) == places_of(a).push(p@),
{
    assert(places_of(a.push(p)) =~= places_of(a).push(p@));
}

/// The cursor walk over bounded lengths grows by at most twice the length
/// bound per element.
proof fn lemma_walk_sum_bound_idx(lens: Seq<int>, s: int, j: int)
    requires
        0 <= j <= lens.len(),
        -0x1000000 <= s <= 0x1000000,
        forall|k: int| 0 <= k < lens.len() ==> -0x1000000 <= #[trigger] lens[k] <= 0x1000000,
    ensures
        -0x2000000 * j <= walk_sum(lens, s, j) <= 0x2000000 * j,
    decreases j,
{
    if 0 < j {
        lemma_walk_sum_bound_idx(lens, s, j - 1);
        let w1 = walk_sum(lens, s, j - 1);
        let e = lens[j - 1];
        assert(walk_sum(lens, s, j) == w1 + e + s);
        assert(-0x2000000 * j <= w1 + e + s <= 0x2000000 * j) by (nonlinear_arith)
            requires
                -0x2000000 * (j - 1) <= w1 <= 0x2000000 * (j - 1),
                -0x1000000 <= e <= 0x1000000,
                -0x1000000 <= s <= 0x1000000,
                1 <= j,
        ;
    }
}

/// The cursor walk over a bounded number of bounded lengths stays far away
/// from any overflow.
pub proof fn lemma_walk_sum_bound(lens: Seq<int>, s: int, j: int)
    requires
        0 <= j <= lens.len(),
        lens.len() <= COUNT_LIMIT,
        -(LEN_LIMIT as int) <= s <= LEN_LIMIT as int,
        forall|k: int| 0 <= k < lens.len() ==> -(LEN_LIMIT as int) <= #[trigger] lens[k]
            <= LEN_LIMIT as int,
    ensures
        -0x20000000000 <= walk_sum(lens, s, j) <= 0x20000000000,
{
    lemma_walk_sum_bound_idx(lens, s, j);
    assert(-0x20000000000 <= 0x2000000 * j && 0x2000000 * j <= 0x20000000000)
        by (nonlinear_arith)
        requires
            0 <= j <= 0x10000,
    ;
}

/// Multiplying a nonnegative factor preserves order.
pub proof fn lemma_mul_le(k: int, a: int, b: int)
    requires
        0 <= k,
        a <= b,
    ensures
        k * a <= k * b,
{
    assert(k * a <= k * b) by (nonlinear_arith)
        requires
            0 <= k,
            a <= b,
    ;
}

/// Halving never grows a value's magnitude.
pub proof fn lemma_half_bound(x: int)
    ensures
        x >= 0 ==> 0 <= half_trunc(x) <= x,
        x < 0 ==> x <= half_trunc(x) <= 0,
{
    if x >= 0 {
        assert(0 <= x / 2 <= x) by (nonlinear_arith)
            requires
                x >= 0,
        ;
    } else {
        assert(0 <= (-x) / 2 <= -x) by (nonlinear_arith)
            requires
                -x >= 0,
        ;
    }
}

/// A bounding rectangle leaves enough headroom for `depth` levels of
/// nesting before any coordinate could overflow.
pub open spec fn rect_in_budget(r: RectG, depth: nat) -> bool {
    let m = COORD_LIMIT - depth * DRIFT_LIMIT;
    &&& -m <= r.x0 <= m
    &&& -m <= r.y0 <= m
    &&& -m <= r.x1 <= m
    &&& -m <= r.y1 <= m
}

/// `rv` is `gv` with `f` applied to every cell whose coordinate the first
/// `k` creation-cache entries name, and nothing else changed.
pub open spec fn batch_applied_upto(gv: GridG, rv: GridG, f: spec_fn(CellG) -> CellG, k: int) -> bool {
    &&& rv.rows.len() == gv.rows.len()
    &&& forall|i: int| 0 <= i < gv.rows.len() ==> {
        &&& (#[trigger] rv.rows[i]).size == gv.rows[i].size
        &&& rv.rows[i].align == gv.rows[i].align
        &&& rv.rows[i].cells.len() == gv.rows[i].cells.len()
        &&& forall|j: int| 0 <= j < gv.rows[i].cells.len() ==> #[trigger] rv.rows[i].cells[j] == (
        if cache_hits(gv.creation_cache.take(k), i, j) {
            f(gv.rows[i].cells[j])
        } else {
            gv.rows[i].cells[j]
        })
    }
    &&& rv.spacing == gv.spacing
    &&& rv.row_as_col == gv.row_as_col
    &&& rv.creation_cache == gv.creation_cache
    &&& rv.clip == gv.clip
    &&& rv.use_default_spacing == gv.use_default_spacing
    &&& rv.default_layout == gv.default_layout
}

/// `rv` is `gv` with `f` applied to every cell of the latest batch.
pub open spec fn batch_applied(gv: GridG, rv: GridG, f: spec_fn(CellG) -> CellG) -> bool {
    batch_applied_upto(gv, rv, f, gv.creation_cache.len() as int)
}

/// Extending the consulted cache prefix by one entry reaches exactly the
/// coordinates it reached before, plus that entry's own coordinate.
pub proof fn lemma_cache_hits_step(cache: Seq<(usize, usize)>, k: int, i: int, j: int)
    requires
        0 <= k < cache.len(),
        0 <= i,
        0 <= j,
    ensures
        cache_hits(cache.take(k + 1), i, j) <==> (cache_hits(cache.take(k), i, j) || cache[k] == ((
            i as usize,
            j as usize,
        ))),
{
    if cache_hits(cache.take(k), i, j) {
        let m = choose|m: int|
            0 <= m < cache.take(k).len() && #[trigger] cache.take(k)[m] == ((i as usize, j as usize));
        assert(cache.take(k + 1)[m] == ((i as usize, j as usize)));
        assert(cache_hits(cache.take(k + 1), i, j));
    }
    if cache[k] == ((i as usize, j as usize)) {
        assert(cache.take(k + 1)[k] == ((i as usize, j as usize)));
        assert(cache_hits(cache.take(k + 1), i, j));
    }
    if cache_hits(cache.take(k + 1), i, j) {
        let m = choose|m: int|
            0 <= m < cache.take(k + 1).len() && #[trigger] cache.take(k + 1)[m] == ((
                i as usize,
                j as usize,
            ));
        if m < k {
            assert(cache.take(k)[m] == ((i as usize, j as usize)));
            assert(cache_hits(cache.take(k), i, j));
        } else {
            assert(cache[k] == ((i as usize, j as usize)));
        }
    }
}

impl GridBuilder {
    /// Apply `f`'s field change to every cell of the latest batch: the
    /// shared body of the margin and layout batch editors.
    #[verifier::loop_isolation(false)]
    #[verifier::rlimit(60)]
    fn apply_to_batch(self, new_margin: Option<Margin>, new_layout: Option<Layout>) -> (r: Self)
        requires
            grid_wf(self@),
            match new_margin {
                Option::Some(m) => m.wf(),
                Option::None => true,
            },
        ensures
            batch_applied(
                self@,
                r@,
                |c: CellG| CellG {
                    margin: match new_margin {
                        Option::Some(m) => m,
                        Option::None => c.margin,
                    },
                    layout: match new_layout {
                        Option::Some(l) => l,
                        Option::None => c.layout,
                    },
                    ..c
                },
            ),
            grid_wf(r@),
    {
        let ghost gv = self@;
        let ghost f = |c: CellG| CellG {
            margin: match new_margin {
                Option::Some(m) => m,
                Option::None => c.margin,
            },
            layout: match new_layout {
                Option::Some(l) => l,
                Option::None => c.layout,
            },
            ..c
        };
        let mut s = self;
        let cache_len = s.creation_cache.len();
        proof {
            lemma_rows_view(s.units@);
            assert(gv.creation_cache.take(0) =~= Seq::<(usize, usize)>::empty());
            assert(batch_applied_upto(gv, grid_view(s), f, 0));
        }
        let mut k: usize = 0;
        while k < cache_len
            invariant
                0 <= k <= cache_len,
                s.creation_cache == self.creation_cache,
                s.spacing == self.spacing,
                s.row_as_col == self.row_as_col,
                s.clip == self.clip,
                s.use_default_spacing == self.use_default_spacing,
                s.default_layout == self.default_layout,
                batch_applied_upto(gv, grid_view(s), f, k as int),
                grid_wf(grid_view(s)),
            decreases cache_len - k,
        {
            let ghost pre = grid_view(s);
            let ghost pre_units = s.units@;
            let (a, b) = s.creation_cache[k];
            proof {
                lemma_rows_view(pre_units);
                assert(gv.creation_cache[k as int] == ((a, b)));
                assert(a < gv.rows.len() && b < gv.rows[a as int].cells.len());
                lemma_cells_view(pre_units[a as int].cells@);
            }
            let mut row = Row::new(Size::Absolute { initial: 0 }, Align::Min);
            s.units.set_and_swap(a, &mut row);
            let ghost pre_cells = row.cells@;
            let mut cl = Cell::new(
                Size::Absolute { initial: 0 },
                Margin { left: 0, top: 0, right: 0, bottom: 0 },
                s.default_layout,
            );
            row.cells.set_and_swap(b, &mut cl);
            match new_margin {
                Option::Some(m) => {
                    cl.edit_margin(m);
                },
                Option::None => {},
            }
            match new_layout {
                Option::Some(l) => {
                    cl.edit_layout(l);
                },
                Option::None => {},
            }
            row.cells.set_and_swap(b, &mut cl);
            s.units.set_and_swap(a, &mut row);
            proof {
                lemma_rows_view(s.units@);
                lemma_cells_view(s.units@[a as int].cells@);
                lemma_cells_view(pre_cells);
                assert(s.units@[a as int].cells@ == pre_cells.update(
                    b as int,
                    s.units@[a as int].cells@[b as int],
                ));
                assert(cell_view(s.units@[a as int].cells@[b as int]) == f(
                    pre.rows[a as int].cells[b as int],
                )) by {
                    assert(pre.rows[a as int].cells[b as int] == cell_view(pre_cells[b as int]));
                }
                assert forall|i: int| 0 <= i < gv.rows.len() implies {
                    &&& (#[trigger] grid_view(s).rows[i]).size == gv.rows[i].size
                    &&& grid_view(s).rows[i].align == gv.rows[i].align
                    &&& grid_view(s).rows[i].cells.len() == gv.rows[i].cells.len()
                } by {
                    assert(pre.rows[i].size == gv.rows[i].size);
                    if i != a as int {
                        assert(grid_view(s).rows[i] == pre.rows[i]);
                    }
                }
                assert forall|i: int, j: int|
                    0 <= i < gv.rows.len() && 0 <= j < gv.rows[i].cells.len() implies #[trigger]
                grid_view(s).rows[i].cells[j] == (if cache_hits(
                    gv.creation_cache.take(k + 1),
                    i,
                    j,
                ) {
                    f(gv.rows[i].cells[j])
                } else {
                    gv.rows[i].cells[j]
                }) by {
                    lemma_cache_hits_step(gv.creation_cache, k as int, i, j);
                    if i == a as int && j == b as int {
                        if cache_hits(gv.creation_cache.take(k as int), i, j) {
                            assert(pre.rows[i].cells[j] == f(gv.rows[i].cells[j]));
                        } else {
                            assert(pre.rows[i].cells[j] == gv.rows[i].cells[j]);
                        }
                    } else {
                        assert(grid_view(s).rows[i].cells[j] == pre.rows[i].cells[j]);
                        lemma_rows_wf_covers(gv.rows, 0, i);
                        assert(i as usize as int == i);
                        assert(j as usize as int == j);
                        assert(!(gv.creation_cache[k as int] == ((i as usize, j as usize))));
                    }
                }
                assert(batch_applied_upto(gv, grid_view(s), f, k as int + 1));
                lemma_rows_wf_iff(pre.rows, 0);
                lemma_rows_wf_iff(grid_view(s).rows, 0);
                assert forall|i: int| 0 <= i < grid_view(s).rows.len() implies row_wf(
                    #[trigger] grid_view(s).rows[i],
                ) by {
                    assert(row_wf(pre.rows[i]));
                    lemma_cells_wf_iff(pre.rows[i].cells, 0);
                    lemma_cells_wf_iff(grid_view(s).rows[i].cells, 0);
                    if i == a as int {
                        assert forall|j: int| 0 <= j < grid_view(s).rows[i].cells.len() implies cell_wf(
                            #[trigger] grid_view(s).rows[i].cells[j],
                        ) by {
                            assert(cell_wf(pre.rows[i].cells[j]));
                            if j == b as int {
                                assert(grid_view(s).rows[i].cells[j] == f(pre.rows[i].cells[j]));
                            } else {
                                assert(grid_view(s).rows[i].cells[j] == pre.rows[i].cells[j]);
                            }
                        }
                    } else {
                        assert(grid_view(s).rows[i] == pre.rows[i]);
                    }
                }
            }
            k = k + 1;
        }
        proof {
            assert(gv.creation_cache.take(cache_len as int) =~= gv.creation_cache);
        }
        s
    }

    /// Give every cell of the latest batch a custom margin. Does nothing
    /// when no cells were created yet.
    pub fn with_margin(self, margin: Margin) -> (r: Self)
        requires
            grid_wf(self@),
            margin.wf(),
        ensures
            batch_applied(self@, r@, |c: CellG| CellG { margin, ..c }),
            grid_wf(r@),
    {
        self.apply_to_batch(Option::Some(margin), Option::None)
    }

    /// Give every cell of the latest batch a custom content layout. Does
    /// nothing when no cells were created yet.
    pub fn with_layout(self, layout: Layout) -> (r: Self)
        requires
            grid_wf(self@),
        ensures
            batch_applied(self@, r@, |c: CellG| CellG { layout, ..c }),
            grid_wf(r@),
    {
        self.apply_to_batch(Option::None, Option::Some(layout))
    }

    /// Nest a grid in the cell at the given coordinates. Does nothing when
    /// no cell exists there (including negative coordinates).
    pub fn nest_at(self, row: i32, cell: i32, grid: GridBuilder) -> (r: Self)
        requires
            grid_wf(self@),
            grid_wf(grid@),
        ensures
            !(0 <= row && 0 <= cell && row < self@.rows.len() && cell < self@.rows[row as int].cells.len())
                ==> r@ == self@,
            0 <= row && 0 <= cell && row < self@.rows.len() && cell < self@.rows[row as int].cells.len()
                ==> r@ == (GridG {
                rows: self@.rows.update(
                    row as int,
                    RowG {
                        cells: self@.rows[row as int].cells.update(
                            cell as int,
                            CellG {
                                group: Option::Some(grid@),
                                ..self@.rows[row as int].cells[cell as int]
                            },
                        ),
                        ..self@.rows[row as int]
                    },
                ),
                ..self@
            }),
            grid_wf(r@),
    {
        let ghost gv = self@;
        let ghost old_units = self.units@;
        let mut s = self;
        if row < 0 || cell < 0 {
            return s;
        }
        let a = row as usize;
        let b = cell as usize;
        proof {
            lemma_rows_view(old_units);
        }
        if a >= s.units.len() {
            return s;
        }
        proof {
            lemma_cells_view(old_units[a as int].cells@);
        }
        if b >= s.units[a].cells.len() {
            return s;
        }
        let mut rw = Row::new(Size::Absolute { initial: 0 }, Align::Min);
        s.units.set_and_swap(a, &mut rw);
        let ghost pre_cells = rw.cells@;
        let mut cl = Cell::new(
            Size::Absolute { initial: 0 },
            Margin { left: 0, top: 0, right: 0, bottom: 0 },
            s.default_layout,
        );
        rw.cells.set_and_swap(b, &mut cl);
        cl.nest(grid);
        rw.cells.set_and_swap(b, &mut cl);
        s.units.set_and_swap(a, &mut rw);
        proof {
            lemma_rows_view(s.units@);
            lemma_cells_view(s.units@[a as int].cells@);
            lemma_cells_view(pre_cells);
            assert(pre_cells == old_units[a as int].cells@);
            assert(grid_view(s).rows[a as int].cells =~= gv.rows[a as int].cells.update(
                b as int,
                CellG { group: Option::Some(grid@), ..gv.rows[a as int].cells[b as int] },
            ));
            assert(grid_view(s).rows =~= gv.rows.update(
                a as int,
                RowG {
                    cells: gv.rows[a as int].cells.update(
                        b as int,
                        CellG { group: Option::Some(grid@), ..gv.rows[a as int].cells[b as int] },
                    ),
                    ..gv.rows[a as int]
                },
            ));
            lemma_rows_wf_iff(gv.rows, 0);
            lemma_rows_wf_iff(grid_view(s).rows, 0);
            assert forall|i: int| 0 <= i < grid_view(s).rows.len() implies row_wf(
                #[trigger] grid_view(s).rows[i],
            ) by {
                lemma_rows_wf_covers(gv.rows, 0, i);
                lemma_cells_wf_iff(gv.rows[i].cells, 0);
                lemma_cells_wf_iff(grid_view(s).rows[i].cells, 0);
            }
        }
        s
    }
}

/// Half of `x`, rounded toward zero.
fn half_of(x: i64) -> (r: i64)
    requires
        -0x7fff_ffff_ffff_ffff <= x,
    ensures
        r as int == half_trunc(x as int),
{
    if x >= 0 {
        ((x as u64) / 2) as i64
    } else {
        -((((-x) as u64) / 2) as i64)
    }
}

/// Resolve the primary-axis lengths of a list of rows.
fn row_set_lengths(rows: &Vec<Row>, spacing: i64, whole: i64) -> (r: Vec<i64>)
    requires
        rows@.len() <= COUNT_LIMIT,
        forall|k: int| 0 <= k < rows@.len() ==> (#[trigger] rows@[k]).size.wf(),
        -DIM_LIMIT <= whole <= DIM_LIMIT,
        -LEN_LIMIT <= spacing <= LEN_LIMIT,
    ensures
        r@.len() == rows@.len(),
        forall|k: int| 0 <= k < r@.len() ==> #[trigger] r@[k] as int == resolved_lengths(
            row_sizes(rows_view_from(rows@, 0)),
            whole as int,
            spacing as int,
        )[k],
        forall|k: int| 0 <= k < r@.len() ==> -LEN_LIMIT <= #[trigger] r@[k] <= LEN_LIMIT,
{
    let n = rows.len();
    let mut sizes: Vec<Size> = Vec::new();
    let mut k: usize = 0;
    while k < n
        invariant
            0 <= k <= n,
            n == rows@.len(),
            sizes@.len() == k,
            forall|m: int| 0 <= m < k ==> #[trigger] sizes@[m] == rows@[m].size,
        decreases n - k,
    {
        sizes.push(rows[k].size);
        k = k + 1;
    }
    let sizing = Sizing { sizes };
    proof {
        lemma_rows_view(rows@);
        assert(sizing.sizes@ =~= row_sizes(rows_view_from(rows@, 0)));
    }
    sizing.to_lengths(whole, spacing)
}

/// Resolve the secondary-axis lengths of a list of cells.
fn cell_set_lengths(cells: &Vec<Cell>, spacing: i64, whole: i64) -> (r: Vec<i64>)
    requires
        cells@.len() <= COUNT_LIMIT,
        forall|k: int| 0 <= k < cells@.len() ==> (#[trigger] cells@[k]).size.wf(),
        -DIM_LIMIT <= whole <= DIM_LIMIT,
        -LEN_LIMIT <= spacing <= LEN_LIMIT,
    ensures
        r@.len() == cells@.len(),
        forall|k: int| 0 <= k < r@.len() ==> #[trigger] r@[k] as int == resolved_lengths(
            cell_sizes(cells_view_from(cells@, 0)),
            whole as int,
            spacing as int,
        )[k],
        forall|k: int| 0 <= k < r@.len() ==> -LEN_LIMIT <= #[trigger] r@[k] <= LEN_LIMIT,
{
    let n = cells.len();
    let mut sizes: Vec<Size> = Vec::new();
    let mut k: usize = 0;
    while k < n
        invariant
            0 <= k <= n,
            n == cells@.len(),
            sizes@.len() == k,
            forall|m: int| 0 <= m < k ==> #[trigger] sizes@[m] == cells@[m].size,
        decreases n - k,
    {
        sizes.push(cells[k].size);
        k = k + 1;
    }
    let sizing = Sizing { sizes };
    proof {
        lemma_cells_view(cells@);
        assert(sizing.sizes@ =~= cell_sizes(cells_view_from(cells@, 0)));
    }
    sizing.to_lengths(whole, spacing)
}

/// Resolve one row: its cells walked left to right from the aligned start,
/// leaves emitted and nested grids resolved in place.
#[verifier::rlimit(100)]
fn row_cells(
    row: &Row,
    whole_rect: Rect,
    def_spacing: Vec2,
    spacing: Vec2,
    whole_w: i64,
    row_len: i64,
    py: i64,
    clip: bool,
    transpose: bool,
) -> (r: Vec<PureCell>)
    requires
        row_wf(row@),
        def_spacing.wf(),
        spacing.wf(),
        -DIM_LIMIT <= whole_w <= DIM_LIMIT,
        -LEN_LIMIT <= row_len <= LEN_LIMIT,
        rect_in_budget(whole_rect@, (row_depth(row@) + 1) as nat),
        whole_rect@.y0 - 0x20000000000 <= py as int <= whole_rect@.y0 + 0x20000000000,
    ensures
        places_of(r@) == row_places(
            row@,
            py as int,
            row_len as int,
            whole_w as int,
            spacing.x as int,
            whole_rect@.x0,
            whole_rect@.y0,
            clip,
            transpose,
            def_spacing.x as int,
            def_spacing.y as int,
        ),
    decreases *row, 0int,
{
    let ghost gr = row@;
    let ghost b = whole_rect@;
    let ghost gsx = spacing.x as int;
    let ghost dsx = def_spacing.x as int;
    let ghost dsy = def_spacing.y as int;
    let ghost rd = row_depth(gr);
    let ghost m = COORD_LIMIT - (rd + 1) * DRIFT_LIMIT;

    let mut out: Vec<PureCell> = Vec::new();
    proof {
        lemma_cells_view(row.cells@);
        lemma_cells_wf_iff(gr.cells, 0);
        assert forall|k: int| 0 <= k < row.cells@.len() implies (#[trigger] row.cells@[k]).size.wf() by {
            assert(cell_wf(gr.cells[k]));
            assert(gr.cells[k].size == row.cells@[k].size);
        }
    }
    let cell_lengths = cell_set_lengths(&row.cells, spacing.x, whole_w);
    let ghost gclens = resolved_lengths(cell_sizes(gr.cells), whole_w as int, gsx);
    proof {
        assert(cells_view_from(row.cells@, 0) == gr.cells);
        assert(forall|k: int| 0 <= k < gclens.len() ==> -(LEN_LIMIT as int) <= #[trigger] gclens[k]
            <= LEN_LIMIT as int) by {
            assert(forall|k: int| 0 <= k < cell_lengths@.len() ==> #[trigger] cell_lengths@[k] as int
                == gclens[k]);
        }
    }

    // Total extent of the cells, spacing included.
    let cell_count = cell_lengths.len();
    let mut length_sum: i64 = -spacing.x;
    let mut t: usize = 0;
    while t < cell_count
        invariant
            0 <= t <= cell_count,
            length_sum as int == -gsx + walk_sum(gclens, gsx, t as int),
            gsx == spacing.x as int,
            spacing.wf(),
            cell_count == gclens.len(),
            cell_count == cell_lengths@.len(),
            cell_count <= COUNT_LIMIT,
            forall|k: int| 0 <= k < cell_count ==> #[trigger] cell_lengths@[k] as int == gclens[k],
            forall|k: int| 0 <= k < cell_count ==> -LEN_LIMIT <= #[trigger] cell_lengths@[k]
                <= LEN_LIMIT,
            forall|k: int| 0 <= k < gclens.len() ==> -(LEN_LIMIT as int) <= #[trigger] gclens[k]
                <= LEN_LIMIT as int,
        decreases cell_count - t,
    {
        proof {
            lemma_walk_sum_bound(gclens, gsx, t as int);
        }
        length_sum = length_sum + cell_lengths[t] + spacing.x;
        t = t + 1;
    }
    proof {
        assert(length_sum as int == span_of(gclens, gsx));
        lemma_walk_sum_bound(gclens, gsx, gclens.len() as int);
        assert(-0x21000000000 <= length_sum as int <= 0x21000000000);
    }

    // Alignment offset for an underfilled row.
    let grand_offset: i64 = match row.align {
        Align::Min => 0,
        Align::Center => half_of(whole_w - length_sum),
        Align::Max => whole_w - length_sum,
    };
    proof {
        assert(grand_offset as int == align_offset(gr.align, whole_w as int - span_of(gclens, gsx)));
        lemma_half_bound(whole_w as int - span_of(gclens, gsx));
        assert(-0x40000000000 <= grand_offset as int <= 0x40000000000);
        lemma_mul_le(DRIFT_LIMIT as int, 0, rd as int + 1);
    }
    let mut px: i64 = whole_rect.min.x + grand_offset;
    let ghost start_x = b.x0 + align_offset(gr.align, whole_w as int - span_of(gclens, gsx));

    let mut j: usize = 0;
    while j < cell_count
        invariant
            0 <= j <= cell_count,
            places_of(out@) == cells_places(
                gr.cells,
                gclens,
                start_x,
                py as int,
                row_len as int,
                gsx,
                b.x0,
                b.y0,
                clip,
                transpose,
                dsx,
                dsy,
                j as int,
            ),
            px as int == start_x + walk_sum(gclens, gsx, j as int),
            gr == row_view(*row),
            row_wf(gr),
            rd == row_depth(gr),
            b == whole_rect@,
            gsx == spacing.x as int,
            dsx == def_spacing.x as int,
            dsy == def_spacing.y as int,
            spacing.wf(),
            def_spacing.wf(),
            -DIM_LIMIT <= whole_w <= DIM_LIMIT,
            -LEN_LIMIT <= row_len <= LEN_LIMIT,
            rect_in_budget(whole_rect@, (row_depth(row@) + 1) as nat),
            whole_rect@.y0 - 0x20000000000 <= py as int <= whole_rect@.y0 + 0x20000000000,
            b.x0 - 0x40000000000 <= start_x <= b.x0 + 0x40000000000,
            cell_count == gclens.len(),
            cell_count == cell_lengths@.len(),
            cell_count == row.cells@.len(),
            cell_count <= COUNT_LIMIT,
            forall|k: int| 0 <= k < cell_count ==> #[trigger] cell_lengths@[k] as int == gclens[k],
            forall|k: int| 0 <= k < gclens.len() ==> -(LEN_LIMIT as int) <= #[trigger] gclens[k]
                <= LEN_LIMIT as int,
        decreases cell_count - j,
    {
        proof {
            lemma_cells_view(row.cells@);
        }
        proof {
            lemma_walk_sum_bound(gclens, gsx, j as int);
            lemma_walk_sum_bound(gclens, gsx, j as int + 1);
            lemma_cells_wf_covers(gr.cells, 0, j as int);
            lemma_mul_le(DRIFT_LIMIT as int, 0, rd as int + 1);
            assert(-0x20000000000 <= walk_sum(gclens, gsx, j as int) <= 0x20000000000);
            assert(b.x0 - 0x40000000000 <= start_x <= b.x0 + 0x40000000000);
            assert(b.x0 - 0x80000000000 <= px as int <= b.x0 + 0x80000000000);
        }
        let cl = cell_lengths[j];
        let mut rect = Rect {
            min: Pos2 { x: px, y: py },
            max: Pos2 { x: px + cl, y: py + row_len },
        };
        if transpose {
            rect = reflect(rect, Pos2 { x: whole_rect.min.x, y: whole_rect.min.y });
        }
        let mgn = row.cells[j].margin;
        proof {
            assert(gr.cells[j as int].margin == mgn);
            assert(mgn.wf());
        }
        rect.min.x = rect.min.x + mgn.left;
        rect.min.y = rect.min.y + mgn.top;
        rect.max.x = rect.max.x - mgn.right;
        rect.max.y = rect.max.y - mgn.bottom;
        let ghost placed = cell_places(
            gr.cells[j as int],
            start_x + walk_sum(gclens, gsx, j as int),
            py as int,
            gclens[j as int],
            row_len as int,
            b.x0,
            b.y0,
            clip,
            transpose,
            dsx,
            dsy,
        );
        match &row.cells[j].group {
            Option::Some(sub) => {
                proof {
                    assert(gr.cells[j as int].group == Option::Some(grid_view(*sub)));
                    assert(cell_depth(gr.cells[j as int]) == grid_depth(grid_view(*sub)));
                    lemma_cells_depth_covers(gr.cells, 0, j as int);
                    let sd = grid_depth(grid_view(*sub));
                    assert(sd <= rd);
                    lemma_mul_le(DRIFT_LIMIT as int, sd as int, rd as int);
                    assert(b.x0 - 0x100000000000 <= rect@.x0 <= b.x0 + 0x100000000000);
                    assert(b.y0 - 0x100000000000 <= rect@.y0 <= b.y0 + 0x100000000000);
                    assert(b.x0 - 0x100000000000 <= rect@.x1 <= b.x0 + 0x100000000000);
                    assert(b.y0 - 0x100000000000 <= rect@.y1 <= b.y0 + 0x100000000000);
                    assert(rect_in_budget(rect@, grid_depth(grid_view(*sub))));
                    assert(-DIM_LIMIT <= rect@.width() <= DIM_LIMIT);
                    assert(-DIM_LIMIT <= rect@.height() <= DIM_LIMIT);
                }
                let mut sub_cells = sub.into_real_cells(rect, def_spacing);
                proof {
                    assert(places_of(sub_cells@) == placed);
                }
                let ghost pre_seq = out@;
                let ghost sub_seq = sub_cells@;
                out.append(&mut sub_cells);
                proof {
                    lemma_places_of_concat(pre_seq, sub_seq);
                    assert(places_of(out@) == places_of(pre_seq) + placed);
                }
            },
            Option::None => {
                let ghost pre_seq = out@;
                out.push(PureCell { rect, layout: row.cells[j].layout, clip });
                proof {
                    lemma_places_of_push(
                        pre_seq,
                        PureCell { rect, layout: row.cells@[j as int].layout, clip },
                    );
                    assert(placed == seq![
                        Place { rect: rect@, layout: gr.cells[j as int].layout, clip },
                    ]);
                }
            },
        }
        proof {
            assert(places_of(out@) =~= cells_places(
                gr.cells,
                gclens,
                start_x,
                py as int,
                row_len as int,
                gsx,
                b.x0,
                b.y0,
                clip,
                transpose,
                dsx,
                dsy,
                j as int + 1,
            ));
        }
        px = px + cl + spacing.x;
        j = j + 1;
    }
    proof {
        assert(places_of(out@) == row_places(
            gr,
            py as int,
            row_len as int,
            whole_w as int,
            gsx,
            b.x0,
            b.y0,
            clip,
            transpose,
            dsx,
            dsy,
        ));
    }
    out
}

impl GridBuilder {
    /// Resolve this grid against a bounding rectangle: one placement per
    /// leaf cell, in creation order, with nested grids' placements spliced
    /// in where their holding cells sit. `def_spacing` is the host's
    /// default item spacing, used by grids that never set their own.
    #[verifier::loop_isolation(false)]
    #[verifier::rlimit(100)]
    pub fn into_real_cells(&self, whole_rect: Rect, def_spacing: Vec2) -> (r: Vec<PureCell>)
        requires
            grid_wf(self@),
            def_spacing.wf(),
            rect_in_budget(whole_rect@, grid_depth(self@)),
            -DIM_LIMIT <= whole_rect@.width() <= DIM_LIMIT,
            -DIM_LIMIT <= whole_rect@.height() <= DIM_LIMIT,
        ensures
            places_of(r@) == flatten_spec(
                self@,
                whole_rect@,
                def_spacing.x as int,
                def_spacing.y as int,
            ),
        decreases *self, 1int,
    {
        let ghost gv = self@;
        let ghost b = whole_rect@;
        let ghost dsx = def_spacing.x as int;
        let ghost dsy = def_spacing.y as int;
        let ghost d = grid_depth(gv);

        let mut cells_final: Vec<PureCell> = Vec::new();

        let whole_h: i64;
        let whole_w: i64;
        if self.row_as_col {
            whole_w = whole_rect.height();
            whole_h = whole_rect.width();
        } else {
            whole_h = whole_rect.height();
            whole_w = whole_rect.width();
        }

        let spacing = if self.use_default_spacing {
            swap_spacing(def_spacing, self.row_as_col)
        } else {
            swap_spacing(self.spacing, self.row_as_col)
        };
        let ghost gsx = eff_spacing(gv, dsx, dsy).0;
        let ghost gsy = eff_spacing(gv, dsx, dsy).1;
        proof {
            assert(spacing.x as int == gsx && spacing.y as int == gsy);
            assert(-(LEN_LIMIT as int) <= gsx <= LEN_LIMIT as int);
            assert(-(LEN_LIMIT as int) <= gsy <= LEN_LIMIT as int);
            lemma_rows_view(self.units@);
            lemma_rows_wf_iff(gv.rows, 0);
            assert forall|k: int| 0 <= k < self.units@.len() implies (#[trigger] self.units@[k]).size.wf() by {
                assert(row_wf(gv.rows[k]));
                assert(gv.rows[k].size == self.units@[k].size);
            }
        }
        let row_lengths = row_set_lengths(&self.units, spacing.y, whole_h);
        let ghost grlens = resolved_lengths(row_sizes(gv.rows), whole_h as int, gsy);
        proof {
            assert(rows_view_from(self.units@, 0) == gv.rows);
            assert(forall|k: int| 0 <= k < grlens.len() ==> -(LEN_LIMIT as int)
                <= #[trigger] grlens[k] <= LEN_LIMIT as int) by {
                assert(forall|k: int| 0 <= k < row_lengths@.len() ==> #[trigger] row_lengths@[k] as int
                    == grlens[k]);
            }
        }

        let mut py: i64 = whole_rect.min.y;
        let n = self.units.len();
        let mut i: usize = 0;
        while i < n
            invariant
                0 <= i <= n,
                places_of(cells_final@) == flatten_rows(gv, b, dsx, dsy, i as int),
                py as int == b.y0 + walk_sum(grlens, gsy, i as int),
            decreases n - i,
        {
            proof {
                lemma_walk_sum_bound(grlens, gsy, i as int);
                lemma_walk_sum_bound(grlens, gsy, i as int + 1);
                lemma_rows_wf_covers(gv.rows, 0, i as int);
                lemma_rows_depth_covers(gv.rows, 0, i as int);
                lemma_mul_le(
                    DRIFT_LIMIT as int,
                    row_depth(gv.rows[i as int]) as int + 1,
                    d as int,
                );
                lemma_mul_le(DRIFT_LIMIT as int, 0, d as int);
            }
            let row = &self.units[i];
            let ghost gr = gv.rows[i as int];
            proof {
                assert(gr == row_view(self.units@[i as int]));
                assert(rect_in_budget(whole_rect@, (row_depth(gr) + 1) as nat));
            }
            let row_len = row_lengths[i];
            let mut rc = row_cells(
                row,
                whole_rect,
                def_spacing,
                spacing,
                whole_w,
                row_len,
                py,
                self.clip,
                self.row_as_col,
            );
            let ghost pre_seq = cells_final@;
            let ghost rc_seq = rc@;
            cells_final.append(&mut rc);
            proof {
                lemma_places_of_concat(pre_seq, rc_seq);
                assert(places_of(rc_seq) == row_places(
                    gr,
                    py as int,
                    row_len as int,
                    whole_w as int,
                    gsx,
                    b.x0,
                    b.y0,
                    gv.clip,
                    gv.row_as_col,
                    dsx,
                    dsy,
                ));
                assert(places_of(cells_final@) == flatten_rows(gv, b, dsx, dsy, i as int + 1));
            }
            py = py + row_len + spacing.y;
            i = i + 1;
        }
        proof {
            assert(places_of(cells_final@) == flatten_spec(gv, b, dsx, dsy));
        }
        cells_final
    }
}

} // verus!
