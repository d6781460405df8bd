use vstd::prelude::*;
use crate::area::{area_numbers, convert_to_number};
use crate::error::LayoutError;
use vstd::arithmetic::div_mod::{lemma_div_is_ordered, lemma_div_by_self, lemma_fundamental_div_mod};

verus! {

/// A resolved rectangle in pixels: origin top-left, y grows downward. The corner may
/// lie left of or above the origin; the size is never negative.
#[derive(Clone, Copy, Debug, PartialEq, Eq, Structural)]
pub struct Rect {
    pub x: i32,
    pub y: i32,
    pub width: u32,
    pub height: u32,
}

/// Pixel insets added to a resolved box: `left`/`top` move it, `right`/`bottom` widen it.
#[derive(Clone, Copy, Debug, PartialEq, Eq, Structural)]
pub struct Margin {
    pub top: u32,
    pub bottom: u32,
    pub left: u32,
    pub right: u32,
}

/// A child's requested cells in its parent's grid, start inclusive, end exclusive.
#[derive(Clone, Copy, Debug, PartialEq, Eq, Structural)]
pub struct GridSpan {
    pub column_start: u32,
    pub column_end: u32,
    pub row_start: u32,
    pub row_end: u32,
}

/// Number of cells a span covers; an empty span counts as one cell.
pub open spec fn span_cells(start: int, end: int) -> int {
    if end - start > 0 {
        end - start
    } else {
        1
    }
}

/// Size of one grid cell along an axis: floor division of the parent's extent.
pub open spec fn cell_size(extent: int, count: int) -> int {
    extent / count
}

/// Left edge of a resolved box: the parent's, moved right by the cells before the span
/// and by the left margin.
pub open spec fn resolved_x(parent: Rect, columns: u32, span: GridSpan, margin: Margin) -> int {
    parent.x + span.column_start * cell_size(parent.width as int, columns as int) + margin.left
}

/// Top edge of a resolved box: the parent's, moved down by the rows before the span
/// and by the top margin.
pub open spec fn resolved_y(parent: Rect, rows: u32, span: GridSpan, margin: Margin) -> int {
    parent.y + span.row_start * cell_size(parent.height as int, rows as int) + margin.top
}

/// Width of a resolved box: the span's cells, widened by the right margin.
pub open spec fn resolved_width(parent: Rect, columns: u32, span: GridSpan, margin: Margin) -> int {
    span_cells(span.column_start as int, span.column_end as int) * cell_size(
        parent.width as int,
        columns as int,
    ) + margin.right
}

/// Height of a resolved box: the span's rows, widened by the bottom margin.
pub open spec fn resolved_height(parent: Rect, rows: u32, span: GridSpan, margin: Margin) -> int {
    span_cells(span.row_start as int, span.row_end as int) * cell_size(parent.height as int, rows as int)
        + margin.bottom
}

/// `v` is a valid 32-bit pixel size.
pub open spec fn fits_u32(v: int) -> bool {
    0 <= v <= u32::MAX
}

/// `v` is a valid 32-bit signed pixel position.
pub open spec fn fits_i32(v: int) -> bool {
    i32::MIN <= v <= i32::MAX
}

/// What resolving a span inside a parent's grid yields, errors included.
pub open spec fn resolve_outcome(
    parent: Rect,
    columns: u32,
    rows: u32,
    span: GridSpan,
    margin: Margin,
) -> Result<Rect, LayoutError> {
    if columns == 0 || rows == 0 {
        Err(LayoutError::DivisionByZero)
    } else if span.column_start > span.column_end || span.row_start > span.row_end {
        Err(LayoutError::InvalidSpan)
    } else if !(fits_i32(resolved_x(parent, columns, span, margin)) && fits_i32(
        resolved_y(parent, rows, span, margin),
    ) && fits_u32(resolved_width(parent, columns, span, margin)) && fits_u32(
        resolved_height(parent, rows, span, margin),
    )) {
        Err(LayoutError::CoordinateOverflow)
    } else {
        Ok(
            Rect {
                x: resolved_x(parent, columns, span, margin) as i32,
                y: resolved_y(parent, rows, span, margin) as i32,
                width: resolved_width(parent, columns, span, margin) as u32,
                height: resolved_height(parent, rows, span, margin) as u32,
            },
        )
    }
}

/// `a * b + c + d` for 32-bit operands never exceeds `u64::MAX`.
proof fn lemma_mul_add_fits(a: u32, b: u32, c: u32, d: u32)
    ensures
        (a as int) * (b as int) + c + d <= u64::MAX,
{
    assert((a as int) * (b as int) <= (u32::MAX as int) * (u32::MAX as int)) by (nonlinear_arith);
}

/// Computes `offset + start * cell + inset` along one axis, in 128 bits.
fn axis_offset(offset: i32, start: u32, cell: u32, inset: u32) -> (r: i128)
    ensures
        r == offset + start * cell + inset,
{
    proof {
        lemma_mul_add_fits(start, cell, 0, inset);
    }
    offset as i128 + (start as u64 * cell as u64) as i128 + inset as i128
}

/// Computes `max(1, end - start) * cell + extra` along one axis, in 64 bits.
fn axis_extent(start: u32, end: u32, cell: u32, extra: u32) -> (r: u64)
    requires
        start <= end,
    ensures
        r == span_cells(start as int, end as int) * cell + extra,
{
    let cells: u32 = if end - start > 0 {
        end - start
    } else {
        1
    };
    proof {
        lemma_mul_add_fits(cells, cell, extra, 0);
    }
    cells as u64 * cell as u64 + extra as u64
}

/// Resolves a child's box from its parent's box, the parent's grid and the child's span.
///
/// Cells are `parent.width / columns` by `parent.height / rows` pixels (floor division).
/// An empty span covers one cell. The margin's left and top move the box; its right and
/// bottom widen it.
pub fn resolve(parent: Rect, columns: u32, rows: u32, span: GridSpan, margin: Margin) -> (r: Result<
    Rect,
    LayoutError,
>)
    ensures
        r == resolve_outcome(parent, columns, rows, span, margin),
{
    if columns == 0 || rows == 0 {
        return Err(LayoutError::DivisionByZero);
    }
    if span.column_start > span.column_end || span.row_start > span.row_end {
        return Err(LayoutError::InvalidSpan);
    }
    let cell_w = parent.width / columns;
    let cell_h = parent.height / rows;
    let x = axis_offset(parent.x, span.column_start, cell_w, margin.left);
    let y = axis_offset(parent.y, span.row_start, cell_h, margin.top);
    let width = axis_extent(span.column_start, span.column_end, cell_w, margin.right);
    let height = axis_extent(span.row_start, span.row_end, cell_h, margin.bottom);
    if x < i32::MIN as i128 || x > i32::MAX as i128 || y < i32::MIN as i128 || y > i32::MAX as i128
        || width > u32::MAX as u64 || height > u32::MAX as u64 {
        return Err(LayoutError::CoordinateOverflow);
    }
    Ok(Rect { x: x as i32, y: y as i32, width: width as u32, height: height as u32 })
}

/// On a grid with columns and rows and a span whose starts do not pass its ends, the
/// resolved width and height are never negative: each is at least its margin. Such
/// inputs never fail for a reason other than a coordinate too large for 32 bits.
pub proof fn resolved_size_nonnegative(
    parent: Rect,
    columns: u32,
    rows: u32,
    span: GridSpan,
    margin: Margin,
)
    requires
        columns > 0,
        rows > 0,
        span.column_start <= span.column_end,
        span.row_start <= span.row_end,
    ensures
        resolved_width(parent, columns, span, margin) >= margin.right >= 0,
        resolved_height(parent, rows, span, margin) >= margin.bottom >= 0,
        resolve_outcome(parent, columns, rows, span, margin) is Ok || resolve_outcome(
            parent,
            columns,
            rows,
            span,
            margin,
        ) == Err::<Rect, LayoutError>(LayoutError::CoordinateOverflow),
{
    let cw = cell_size(parent.width as int, columns as int);
    let ch = cell_size(parent.height as int, rows as int);
    let sw = span_cells(span.column_start as int, span.column_end as int);
    let sh = span_cells(span.row_start as int, span.row_end as int);
    assert(cw >= 0 && ch >= 0);
    assert(sw * cw >= 0) by (nonlinear_arith)
        requires
            sw >= 1,
            cw >= 0,
    ;
    assert(sh * ch >= 0) by (nonlinear_arith)
        requires
            sh >= 1,
            ch >= 0,
    ;
}

/// A span over the whole grid with no margin gives back the parent's box, when the
/// parent's width and height divide evenly into the columns and rows.
pub proof fn full_span_is_parent(parent: Rect, columns: u32, rows: u32)
    requires
        columns > 0,
        rows > 0,
        parent.width % columns == 0,
        parent.height % rows == 0,
    ensures
        resolve_outcome(
            parent,
            columns,
            rows,
            GridSpan { column_start: 0, column_end: columns, row_start: 0, row_end: rows },
            Margin { top: 0, bottom: 0, left: 0, right: 0 },
        ) == Ok::<Rect, LayoutError>(parent),
{
    lemma_fundamental_div_mod(parent.width as int, columns as int);
    lemma_fundamental_div_mod(parent.height as int, rows as int);
    assert(columns * (parent.width / columns) == parent.width);
    assert(rows * (parent.height / rows) == parent.height);
}

/// An empty span (start equal to end) on an axis covers exactly one cell there, and
/// that cell is at least one pixel wide (high) whenever the parent is at least as wide
/// (high) as the grid has columns (rows).
pub proof fn empty_span_is_one_cell(
    parent: Rect,
    columns: u32,
    rows: u32,
    span: GridSpan,
    margin: Margin,
)
    requires
        columns > 0,
        rows > 0,
    ensures
        span.column_start == span.column_end ==> resolved_width(parent, columns, span, margin)
            == parent.width / columns + margin.right,
        span.row_start == span.row_end ==> resolved_height(parent, rows, span, margin)
            == parent.height / rows + margin.bottom,
        span.column_start == span.column_end && parent.width >= columns ==> resolved_width(
            parent,
            columns,
            span,
            margin,
        ) >= 1 + margin.right,
        span.row_start == span.row_end && parent.height >= rows ==> resolved_height(
            parent,
            rows,
            span,
            margin,
        ) >= 1 + margin.bottom,
{
    if parent.width >= columns {
        lemma_div_is_ordered(columns as int, parent.width as int, columns as int);
        lemma_div_by_self(columns as int);
    }
    if parent.height >= rows {
        lemma_div_is_ordered(rows as int, parent.height as int, rows as int);
        lemma_div_by_self(rows as int);
    }
}

/// The columns and rows a container divides its box into.
#[derive(Clone, Copy, Debug, PartialEq, Eq, Structural)]
pub struct Grid {
    pub columns: u32,
    pub rows: u32,
}

impl Grid {
    /// A grid of `columns` by `rows` cells.
    pub fn new(columns: u32, rows: u32) -> (r: Grid)
        ensures
            r.columns == columns,
            r.rows == rows,
    {
        Grid { columns, rows }
    }

    /// The box of `span` in this grid laid over `parent`, widened by `margin`.
    pub fn get_position(&self, parent: Rect, span: GridSpan, margin: Margin) -> (r: Result<
        Rect,
        LayoutError,
    >)
        ensures
            r == resolve_outcome(parent, self.columns, self.rows, span, margin),
    {
        resolve(parent, self.columns, self.rows, span, margin)
    }
}

/// How a container flows its children.
#[derive(Clone, Copy, Debug, PartialEq, Eq, Structural)]
pub enum Direction {
    Diagonal,
    Horizontal,
}

/// A node's box together with its own grid and its placement in its parent's grid.
#[derive(Clone, Copy, Debug, PartialEq, Eq, Structural)]
pub struct Style {
    pub width: u32,
    pub height: u32,
    pub x: i32,
    pub y: i32,
    pub radius: u32,
    pub margin: Margin,
    pub direction: Direction,
    pub row_gap: u32,
    pub column_gap: u32,
    pub columns: u32,
    pub rows: u32,
    pub row_start: u32,
    pub row_end: u32,
    pub column_start: u32,
    pub column_end: u32,
}

impl Style {
    /// The style's box.
    pub open spec fn rect(&self) -> Rect {
        Rect { x: self.x, y: self.y, width: self.width, height: self.height }
    }

    /// The style's placement in its parent's grid.
    pub open spec fn span(&self) -> GridSpan {
        GridSpan {
            column_start: self.column_start,
            column_end: self.column_end,
            row_start: self.row_start,
            row_end: self.row_end,
        }
    }

    /// `child` with its box resolved inside `parent`'s box and grid; every other field
    /// of `child` is kept.
    pub fn calculate_style(parent: Style, child: Style) -> (r: Result<Style, LayoutError>)
        ensures
            match resolve_outcome(parent.rect(), parent.columns, parent.rows, child.span(), child.margin) {
                Ok(b) => r == Ok::<Style, LayoutError>(
                    (Style { x: b.x, y: b.y, width: b.width, height: b.height, ..child }),
                ),
                Err(e) => r == Err::<Style, LayoutError>(e),
            },
    {
        let parent_box = Rect { x: parent.x, y: parent.y, width: parent.width, height: parent.height };
        let span = GridSpan {
            column_start: child.column_start,
            column_end: child.column_end,
            row_start: child.row_start,
            row_end: child.row_end,
        };
        match resolve(parent_box, parent.columns, parent.rows, span, child.margin) {
            Ok(b) => Ok(Style { x: b.x, y: b.y, width: b.width, height: b.height, ..child }),
            Err(e) => Err(e),
        }
    }
}

impl Default for Margin {
    fn default() -> (r: Margin)
        ensures
            r.top == 0 && r.bottom == 0 && r.left == 0 && r.right == 0,
    {
        Margin { top: 0, bottom: 0, left: 0, right: 0 }
    }
}

impl Default for Style {
    fn default() -> (r: Style)
        ensures
            r.width == 0 && r.height == 0 && r.x == 0 && r.y == 0 && r.radius == 0,
            r.margin.top == 0 && r.margin.bottom == 0 && r.margin.left == 0 && r.margin.right == 0,
            r.direction == Direction::Horizontal,
            r.row_gap == 0 && r.column_gap == 0,
            r.columns == 0 && r.rows == 0,
            r.row_start == 0 && r.row_end == 0 && r.column_start == 0 && r.column_end == 0,
    {
        Style {
            width: 0,
            height: 0,
            x: 0,
            y: 0,
            radius: 0,
            margin: Margin { top: 0, bottom: 0, left: 0, right: 0 },
            direction: Direction::Horizontal,
            row_gap: 0,
            column_gap: 0,
            columns: 0,
            rows: 0,
            row_start: 0,
            row_end: 0,
            column_start: 0,
            column_end: 0,
        }
    }
}

impl GridSpan {
    /// Reads `"column_start/column_end/row_start/row_end"`. Fails with `MalformedArea`
    /// unless the string is exactly four 32-bit decimal numbers separated by `/`.
    pub fn from_area(area: &str) -> (r: Result<GridSpan, LayoutError>)
        ensures
            match area_numbers(area@) {
                Some(ns) => if ns.len() == 4 {
                    r == Ok::<GridSpan, LayoutError>(
                        (GridSpan {
                            column_start: ns[0],
                            column_end: ns[1],
                            row_start: ns[2],
                            row_end: ns[3],
                        }),
                    )
                } else {
                    r == Err::<GridSpan, LayoutError>(LayoutError::MalformedArea)
                },
                None => r == Err::<GridSpan, LayoutError>(LayoutError::MalformedArea),
            },
    {
        let ns = match convert_to_number(area) {
            Ok(ns) => ns,
            Err(e) => {
                return Err(e);
            },
        };
        if ns.len() != 4 {
            return Err(LayoutError::MalformedArea);
        }
        Ok(GridSpan { column_start: ns[0], column_end: ns[1], row_start: ns[2], row_end: ns[3] })
    }
}

impl Grid {
    /// Reads `"columns/rows"`. Fails with `MalformedArea` unless the string is exactly
    /// two 32-bit decimal numbers separated by `/`.
    pub fn from_area(area: &str) -> (r: Result<Grid, LayoutError>)
        ensures
            match area_numbers(area@) {
                Some(ns) => if ns.len() == 2 {
                    r == Ok::<Grid, LayoutError>((Grid { columns: ns[0], rows: ns[1] }))
                } else {
                    r == Err::<Grid, LayoutError>(LayoutError::MalformedArea)
                },
                None => r == Err::<Grid, LayoutError>(LayoutError::MalformedArea),
            },
    {
        let ns = match convert_to_number(area) {
            Ok(ns) => ns,
            Err(e) => {
                return Err(e);
            },
        };
        if ns.len() != 2 {
            return Err(LayoutError::MalformedArea);
        }
        Ok(Grid { columns: ns[0], rows: ns[1] })
    }
}

} // verus!
