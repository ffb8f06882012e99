use egui_grid::{Align, GridBuilder, Grid, Margin, Pos2, Rect, Size, Sizing, Vec2};
use egui_grid::geom::reflect;

fn rect(x0: i64, y0: i64, x1: i64, y1: i64) -> Rect {
    Rect::new(x0, y0, x1, y1)
}

#[test]
fn sizing_empty_input_empty_output() {
    let s = Sizing { sizes: Vec::new() };
    let lengths = s.to_lengths(300, 5);
    assert!(lengths.is_empty());
}

#[test]
fn sizing_absolute_fidelity() {
    let s = Sizing { sizes: vec![Size::exact(85), Size::exact(200)] };
    assert_eq!(s.to_lengths(300, 0), vec![85, 200]);
    assert_eq!(s.to_lengths(5, 17), vec![85, 200]);
    assert_eq!(s.to_lengths(-300, 3), vec![85, 200]);
}

#[test]
fn sizing_relative_clamped_to_range() {
    // Half of 300 is 150, clamped into [0, 100].
    let s = Sizing {
        sizes: vec![Size::Relative { num: 1, den: 2, min: 0, max: 100 }],
    };
    assert_eq!(s.to_lengths(300, 0), vec![100]);
    // Half of 80 is 40, inside the range.
    assert_eq!(s.to_lengths(80, 0), vec![40]);
}

#[test]
fn sizing_remainder_split_evenly() {
    let s = Sizing {
        sizes: vec![Size::exact(85), Size::remainder(), Size::remainder()],
    };
    // 300 total, 85 fixed: 215 left, 107 each (floored).
    assert_eq!(s.to_lengths(300, 0), vec![85, 107, 107]);
}

#[test]
fn sizing_remainder_respects_minimum() {
    let s = Sizing {
        sizes: vec![
            Size::remainder_range(150, 0x100_0000),
            Size::remainder_range(0, 0x100_0000),
        ],
    };
    // First-pass average 100 violates the 150 minimum; the first entry is
    // clamped to 150 and the second gets what is left of 200 - 150.
    assert_eq!(s.to_lengths(200, 0), vec![150, 50]);
}

#[test]
fn sizing_remainder_clamped_into_range() {
    let s = Sizing { sizes: vec![Size::remainder_range(10, 20)] };
    assert_eq!(s.to_lengths(500, 0), vec![20]);
    assert_eq!(s.to_lengths(5, 0), vec![10]);
}

#[test]
fn reflect_swaps_width_and_height_at_focal() {
    let r = reflect(rect(0, 0, 30, 40), Pos2 { x: 0, y: 0 });
    assert_eq!(r, rect(0, 0, 40, 30));
}

#[test]
fn reflect_twice_restores_rectangle() {
    let focal = Pos2 { x: 7, y: -3 };
    let original = rect(10, 20, 110, 50);
    let back = reflect(reflect(original, focal), focal);
    assert_eq!(back, original);
}

#[test]
fn end_to_end_two_rows() {
    // Row of fixed height 200 with a fixed 85 cell plus a remainder cell,
    // then a remainder row with three remainder cells.
    let cells = GridBuilder::new()
        .new_row(Size::exact(200))
        .cell(Size::exact(85))
        .cell(Size::remainder())
        .new_row(Size::remainder())
        .cells(Size::remainder(), 3)
        .into_real_cells(rect(0, 0, 300, 400), Vec2::zero());
    let rects: Vec<Rect> = cells.iter().map(|c| c.rect()).collect();
    assert_eq!(
        rects,
        vec![
            rect(0, 0, 85, 200),
            rect(85, 0, 300, 200),
            rect(0, 200, 100, 400),
            rect(100, 200, 200, 400),
            rect(200, 200, 300, 400),
        ]
    );
}

#[test]
fn centered_row_offsets_cells() {
    let cells = GridBuilder::new()
        .new_row_align(Size::exact(100), Align::Center)
        .cell(Size::exact(50))
        .cell(Size::exact(50))
        .into_real_cells(rect(0, 0, 300, 100), Vec2::zero());
    let rects: Vec<Rect> = cells.iter().map(|c| c.rect()).collect();
    assert_eq!(rects, vec![rect(100, 0, 150, 100), rect(150, 0, 200, 100)]);
}

#[test]
fn max_aligned_row_pushes_cells_right() {
    let cells = GridBuilder::new()
        .new_row_align(Size::exact(100), Align::Max)
        .cell(Size::exact(50))
        .into_real_cells(rect(0, 0, 300, 100), Vec2::zero());
    assert_eq!(cells[0].rect(), rect(250, 0, 300, 100));
}

#[test]
fn nested_grid_replaces_its_cell() {
    let nested = GridBuilder::new()
        .new_row(Size::remainder())
        .cells(Size::remainder(), 2);
    let cells = GridBuilder::new()
        .new_row(Size::remainder())
        .cells(Size::remainder(), 2)
        .nest(nested)
        .into_real_cells(rect(0, 0, 200, 100), Vec2::zero());
    assert_eq!(cells.len(), 3);
    assert_eq!(cells[0].rect(), rect(0, 0, 100, 100));
    assert_eq!(cells[1].rect(), rect(100, 0, 150, 100));
    assert_eq!(cells[2].rect(), rect(150, 0, 200, 100));
}

#[test]
fn resolution_is_deterministic() {
    let build = || {
        GridBuilder::new()
            .new_row(Size::exact(40))
            .cells(Size::remainder(), 2)
            .new_row_align(Size::remainder(), Align::Center)
            .cell(Size::exact(30))
            .with_margin(Margin::same(2))
    };
    let first = build().into_real_cells(rect(0, 0, 120, 90), Vec2::zero());
    let second = build().into_real_cells(rect(0, 0, 120, 90), Vec2::zero());
    assert_eq!(first, second);
}

#[test]
fn margin_insets_the_cell_rectangle() {
    let cells = GridBuilder::new()
        .new_row(Size::exact(100))
        .cell(Size::exact(100))
        .with_margin(Margin::same(10))
        .into_real_cells(rect(0, 0, 100, 100), Vec2::zero());
    assert_eq!(cells[0].rect(), rect(10, 10, 90, 90));
}

#[test]
fn rows_as_columns_transposes_placements() {
    let cells = GridBuilder::new()
        .rows_as_columns(true)
        .new_row(Size::exact(50))
        .cell(Size::exact(30))
        .into_real_cells(rect(0, 0, 200, 100), Vec2::zero());
    // The row runs top-down with width 50, its cell extent 30 downward.
    assert_eq!(cells[0].rect(), rect(0, 0, 50, 30));
}

#[test]
fn spacing_separates_cells_and_rows() {
    let cells = GridBuilder::new()
        .spacing(10, 20)
        .new_row(Size::exact(40))
        .cells(Size::exact(30), 2)
        .new_row(Size::exact(40))
        .cell(Size::exact(30))
        .into_real_cells(rect(0, 0, 200, 100), Vec2::zero());
    assert_eq!(cells[0].rect(), rect(0, 0, 30, 40));
    assert_eq!(cells[1].rect(), rect(40, 0, 70, 40));
    assert_eq!(cells[2].rect(), rect(0, 60, 30, 100));
}

#[test]
fn consumer_hands_out_cells_in_order_and_tracks_bounds() {
    let cells = GridBuilder::new()
        .new_row(Size::exact(50))
        .cells(Size::exact(60), 2)
        .into_real_cells(rect(0, 0, 200, 50), Vec2::zero());
    let mut grid = Grid::new(cells);
    let first = grid.cell().unwrap();
    assert_eq!(first.rect(), rect(0, 0, 60, 50));
    grid.empty().unwrap();
    let b = grid.bounds();
    assert_eq!((b.x, b.y), (120, 50));
}

#[test]
fn consuming_more_cells_than_allocated_is_refused() {
    let cells = GridBuilder::new()
        .new_row(Size::remainder())
        .cells(Size::remainder(), 2)
        .into_real_cells(rect(0, 0, 100, 100), Vec2::zero());
    let mut grid = Grid::new(cells);
    assert_eq!(grid.preallocated(), 2);
    assert!(grid.cell().is_ok());
    assert!(grid.empty().is_ok());
    // The third take reports how many slots were pre-allocated.
    assert_eq!(grid.cell(), Err(2));
    assert_eq!(grid.empty(), Err(2));
}

#[test]
fn empty_grid_has_no_slots_to_consume() {
    let mut grid = Grid::new(Vec::new());
    assert_eq!(grid.preallocated(), 0);
    assert_eq!(grid.cell(), Err(0));
    let b = grid.bounds();
    assert_eq!((b.x, b.y), (0, 0));
}

#[test]
fn builder_edits_without_rows_do_nothing() {
    let cells = GridBuilder::new()
        .align(Align::Center)
        .cell(Size::exact(10))
        .with_margin(Margin::same(3))
        .into_real_cells(rect(0, 0, 100, 100), Vec2::zero());
    assert!(cells.is_empty());
}

#[test]
fn new_row_invalidates_latest_batch() {
    // The batch edit after a row creation must touch nothing: the first
    // row's cell keeps its full rectangle, with no margin inset.
    let cells = GridBuilder::new()
        .new_row(Size::exact(50))
        .cell(Size::exact(50))
        .new_row(Size::exact(50))
        .with_margin(Margin::same(5))
        .cell(Size::exact(50))
        .into_real_cells(rect(0, 0, 100, 100), Vec2::zero());
    assert_eq!(cells[0].rect(), rect(0, 0, 50, 50));
    assert_eq!(cells[1].rect(), rect(0, 50, 50, 100));
}

#[test]
fn nest_at_out_of_range_is_ignored() {
    let nested = GridBuilder::new().new_row(Size::remainder()).cell(Size::remainder());
    let cells = GridBuilder::new()
        .new_row(Size::remainder())
        .cell(Size::remainder())
        .nest_at(5, 0, nested)
        .into_real_cells(rect(0, 0, 100, 100), Vec2::zero());
    assert_eq!(cells.len(), 1);
}

#[test]
fn cloned_builder_resolves_identically() {
    let template = GridBuilder::new()
        .new_row(Size::remainder())
        .cells(Size::remainder(), 2)
        .with_margin(Margin::same(4));
    let copy = template.clone();
    let a = template.into_real_cells(rect(0, 0, 120, 60), Vec2::zero());
    let b = copy.into_real_cells(rect(0, 0, 120, 60), Vec2::zero());
    assert_eq!(a, b);
}

#[test]
fn cloned_template_nests_into_several_cells() {
    let template = GridBuilder::new().new_row(Size::remainder()).cell(Size::remainder());
    let cells = GridBuilder::new()
        .new_row(Size::remainder())
        .cells(Size::remainder(), 2)
        .nest_at(0, 0, template.clone())
        .nest_at(0, 1, template)
        .into_real_cells(rect(0, 0, 200, 100), Vec2::zero());
    assert_eq!(cells.len(), 2);
    assert_eq!(cells[0].rect(), rect(0, 0, 100, 100));
    assert_eq!(cells[1].rect(), rect(100, 0, 200, 100));
}

#[test]
fn default_spacing_is_inherited_until_set() {
    let cells = GridBuilder::new()
        .new_row(Size::exact(40))
        .cells(Size::exact(30), 2)
        .into_real_cells(rect(0, 0, 200, 100), Vec2 { x: 8, y: 4 });
    assert_eq!(cells[1].rect(), rect(38, 0, 68, 40));
}
