use layout_engine::error::LayoutError;
use layout_engine::style::{resolve, Direction, Grid, GridSpan, Margin, Rect, Style};

fn rect(x: i32, y: i32, width: u32, height: u32) -> Rect {
    Rect { x, y, width, height }
}

fn span(column_start: u32, column_end: u32, row_start: u32, row_end: u32) -> GridSpan {
    GridSpan { column_start, column_end, row_start, row_end }
}

#[test]
fn half_grid_children_split_container() {
    let parent = rect(0, 0, 1200, 1200);
    let first = resolve(parent, 12, 12, span(0, 6, 0, 6), Margin::default());
    assert_eq!(first, Ok(rect(0, 0, 600, 600)));
    let second = resolve(parent, 12, 12, span(6, 12, 6, 12), Margin::default());
    assert_eq!(second, Ok(rect(600, 600, 600, 600)));
}

#[test]
fn full_span_gives_parent_box() {
    let parent = rect(10, 20, 1200, 600);
    assert_eq!(resolve(parent, 12, 6, span(0, 12, 0, 6), Margin::default()), Ok(parent));
    let odd = rect(3, 4, 35, 14);
    assert_eq!(resolve(odd, 7, 2, span(0, 7, 0, 2), Margin::default()), Ok(odd));
}

#[test]
fn full_span_floors_uneven_parent() {
    let parent = rect(0, 0, 1201, 1205);
    assert_eq!(
        resolve(parent, 12, 12, span(0, 12, 0, 12), Margin::default()),
        Ok(rect(0, 0, 1200, 1200))
    );
}

#[test]
fn empty_span_covers_one_cell() {
    let parent = rect(0, 0, 1200, 600);
    assert_eq!(
        resolve(parent, 12, 6, span(3, 3, 2, 2), Margin::default()),
        Ok(rect(300, 200, 100, 100))
    );
    assert_eq!(
        resolve(parent, 12, 6, span(3, 3, 2, 4), Margin::default()),
        Ok(rect(300, 200, 100, 200))
    );
}

#[test]
fn empty_span_on_narrow_parent_is_margin_only() {
    let parent = rect(0, 0, 5, 5);
    let margin = Margin { top: 0, bottom: 1, left: 0, right: 2 };
    assert_eq!(resolve(parent, 12, 12, span(1, 1, 1, 1), margin), Ok(rect(0, 0, 2, 1)));
}

#[test]
fn margin_moves_left_top_and_widens_right_bottom() {
    let parent = rect(100, 50, 400, 200);
    let margin = Margin { top: 7, bottom: 2, left: 5, right: 3 };
    assert_eq!(resolve(parent, 4, 2, span(1, 3, 1, 2), margin), Ok(rect(205, 157, 203, 102)));
}

#[test]
fn sizes_are_span_times_cell_plus_margin() {
    let parent = rect(0, 0, 997, 503);
    for columns in 1..8u32 {
        for start in 0..columns {
            for end in start..=columns {
                let margin = Margin { top: 1, bottom: 2, left: 3, right: 4 };
                let b = resolve(parent, columns, 3, span(start, end, 0, 3), margin).unwrap();
                let cells = if end > start { end - start } else { 1 };
                assert_eq!(b.width, cells * (997 / columns) + 4);
                assert_eq!(b.height, 3 * (503 / 3) + 2);
                assert_eq!(b.x as u32, start * (997 / columns) + 3);
            }
        }
    }
}

#[test]
fn zero_columns_or_rows_is_division_by_zero() {
    let parent = rect(0, 0, 100, 100);
    assert_eq!(resolve(parent, 0, 4, span(0, 1, 0, 1), Margin::default()), Err(LayoutError::DivisionByZero));
    assert_eq!(resolve(parent, 4, 0, span(0, 1, 0, 1), Margin::default()), Err(LayoutError::DivisionByZero));
}

#[test]
fn reversed_span_is_invalid() {
    let parent = rect(0, 0, 100, 100);
    assert_eq!(resolve(parent, 4, 4, span(3, 1, 0, 1), Margin::default()), Err(LayoutError::InvalidSpan));
    assert_eq!(resolve(parent, 4, 4, span(0, 1, 2, 1), Margin::default()), Err(LayoutError::InvalidSpan));
}

#[test]
fn huge_box_is_coordinate_overflow() {
    let parent = rect(i32::MAX - 10, 0, 100, 100);
    assert_eq!(
        resolve(parent, 4, 4, span(2, 3, 0, 1), Margin::default()),
        Err(LayoutError::CoordinateOverflow)
    );
    let wide = rect(0, 0, u32::MAX, 10);
    let margin = Margin { top: 0, bottom: 0, left: 0, right: 1 };
    assert_eq!(resolve(wide, 1, 1, span(0, 1, 0, 1), margin), Err(LayoutError::CoordinateOverflow));
}

#[test]
fn grid_get_position_resolves() {
    let grid = Grid::new(12, 12);
    assert_eq!(
        grid.get_position(rect(0, 0, 1200, 1200), span(6, 12, 6, 12), Margin::default()),
        Ok(rect(600, 600, 600, 600))
    );
}

#[test]
fn calculate_style_keeps_child_fields() {
    let mut parent = Style::default();
    parent.width = 1200;
    parent.height = 1200;
    parent.columns = 12;
    parent.rows = 12;
    let mut child = Style::default();
    child.column_start = 6;
    child.column_end = 12;
    child.row_start = 0;
    child.row_end = 6;
    child.radius = 9;
    child.direction = Direction::Diagonal;
    child.margin = Margin { top: 1, bottom: 2, left: 3, right: 4 };
    let out = Style::calculate_style(parent, child).unwrap();
    assert_eq!((out.x, out.y, out.width, out.height), (603, 1, 604, 602));
    assert_eq!(out.radius, 9);
    assert_eq!(out.direction, Direction::Diagonal);
    assert_eq!(out.column_start, 6);
}

#[test]
fn calculate_style_on_gridless_parent_fails() {
    assert_eq!(
        Style::calculate_style(Style::default(), Style::default()),
        Err(LayoutError::DivisionByZero)
    );
}

#[test]
fn area_strings_split_into_numbers() {
    use_area();
}

fn use_area() {
    assert_eq!(layout_engine::area::convert_to_number("0/6/0/6"), Ok(vec![0, 6, 0, 6]));
    assert_eq!(layout_engine::area::convert_to_number("42"), Ok(vec![42]));
    assert_eq!(layout_engine::area::convert_to_number("4294967295/0"), Ok(vec![u32::MAX, 0]));
}

#[test]
fn malformed_area_strings_are_rejected() {
    for bad in ["", "1//2", "/1", "1/", "1/x", "1 /2", "4294967296", "-1/2", "1/2/3/4٣"] {
        assert_eq!(
            layout_engine::area::convert_to_number(bad),
            Err(LayoutError::MalformedArea),
            "{}",
            bad
        );
    }
}

#[test]
fn span_and_grid_from_area_strings() {
    assert_eq!(GridSpan::from_area("6/12/0/6"), Ok(span(6, 12, 0, 6)));
    assert_eq!(GridSpan::from_area("6/12/0"), Err(LayoutError::MalformedArea));
    assert_eq!(Grid::from_area("12/12"), Ok(Grid::new(12, 12)));
    assert_eq!(Grid::from_area("12/12/1"), Err(LayoutError::MalformedArea));
    assert_eq!(Grid::from_area("12/a"), Err(LayoutError::MalformedArea));
}

#[test]
fn boxes_may_start_left_of_and_above_origin() {
    let parent = rect(-600, -300, 1200, 600);
    assert_eq!(resolve(parent, 12, 6, span(0, 6, 0, 3), Margin::default()), Ok(rect(-600, -300, 600, 300)));
    assert_eq!(resolve(parent, 12, 6, span(6, 12, 3, 6), Margin::default()), Ok(rect(0, 0, 600, 300)));
    let far = rect(i32::MIN, 0, 100, 100);
    assert_eq!(resolve(far, 1, 1, span(0, 1, 0, 1), Margin::default()), Ok(far));
}
