//! The cover as an external ueberzug process shows it.

use vstd::prelude::*;

use crate::geometry::{min, Vec2};
use crate::text::{decimal, decimal_text};

verus! {

/// The cells that an image gets.
#[derive(Clone, Copy, Debug, PartialEq, Eq, Structural)]
pub struct Placement {
    pub offset: Vec2,
    pub size: Vec2,
}

/// The width of the image in cells, with equal space on either side.
pub open spec fn image_columns(image_px: int, columns: int, cell_px: int) -> int {
    let cells = image_px / cell_px;
    if cells % 2 != columns % 2 {
        cells - 1
    } else {
        cells
    }
}

/// The height of the image in cells, so that its width is the bottleneck.
pub open spec fn image_rows(image_px: int, rows: int, cell_px: int) -> int {
    min(rows, image_px / cell_px + 1)
}

/// Whether an image of so many pixels on either side can be placed.
pub open spec fn placeable(image_px: Vec2, offset: Vec2, size: Vec2, cell_px: Vec2) -> bool {
    &&& cell_px.x > 0
    &&& cell_px.y > 0
    &&& 0 <= image_columns(image_px.x as int, size.x as int, cell_px.x as int) <= size.x
    &&& image_px.y as int / cell_px.y as int + 1 <= usize::MAX
    &&& offset.x + size.x <= usize::MAX
    &&& offset.y + size.y <= usize::MAX
}

/// Places an image of the given size in pixels in the given cells.
///
/// Ueberzug takes an area given in cells and fits the image to that area from the top left. The
/// space above is rounded up since the bottom might have empty space within the designated box.
pub fn place(image_px: Vec2, offset: Vec2, size: Vec2, cell_px: Vec2) -> (placement: Placement)
    requires
        placeable(image_px, offset, size, cell_px),
    ensures
        ({
            let columns = image_columns(image_px.x as int, size.x as int, cell_px.x as int);
            let rows = image_rows(image_px.y as int, size.y as int, cell_px.y as int);
            &&& placement.size.x == columns
            &&& placement.size.y == rows
            &&& placement.offset.x == offset.x + (size.x - columns) / 2
            &&& placement.offset.y == offset.y + ((size.y - rows) - (size.y - rows) / 2)
        }),
{
    let mut columns: usize = image_px.x / cell_px.x;
    if columns % 2 != size.x % 2 {
        columns = columns - 1;
    }
    let fitting: usize = image_px.y / cell_px.y + 1;
    let rows: usize = if size.y <= fitting {
        size.y
    } else {
        fitting
    };
    let left: usize = (size.x - columns) / 2;
    let above: usize = (size.y - rows) - (size.y - rows) / 2;
    Placement {
        offset: Vec2 { x: offset.x + left, y: offset.y + above },
        size: Vec2 { x: columns, y: rows },
    }
}

/// The command that shows the image of a file.
pub open spec fn add_command_spec(placement: Placement, path: Seq<char>) -> Seq<char> {
    "{\"action\":\"add\",\"scaler\":\"fit_contain\",\"identifier\":\"cover\",\"x\":"@ + decimal(
        placement.offset.x as nat,
    ) + ",\"y\":"@ + decimal(placement.offset.y as nat) + ",\"width\":"@ + decimal(
        placement.size.x as nat,
    ) + ",\"height\":"@ + decimal(placement.size.y as nat) + ",\"path\":\""@ + path + "\"}\n"@
}

pub fn add_command(placement: Placement, path: &str) -> (command: String)
    ensures
        command@ == add_command_spec(placement, path@),
{
    let mut command =
        "{\"action\":\"add\",\"scaler\":\"fit_contain\",\"identifier\":\"cover\",\"x\":".to_owned();
    command.append(decimal_text(placement.offset.x as u64).as_str());
    command.append(",\"y\":");
    command.append(decimal_text(placement.offset.y as u64).as_str());
    command.append(",\"width\":");
    command.append(decimal_text(placement.size.x as u64).as_str());
    command.append(",\"height\":");
    command.append(decimal_text(placement.size.y as u64).as_str());
    command.append(",\"path\":\"");
    command.append(path);
    command.append("\"}\n");
    command
}

/// The command that takes the image down.
pub fn remove_command() -> (command: &'static str)
    ensures
        command@ == "{\"action\": \"remove\", \"identifier\": \"cover\"}\n"@,
{
    "{\"action\": \"remove\", \"identifier\": \"cover\"}\n"
}

/// The image stays within its cells, with the space on its left and right equal and the space
/// above at most one cell more than the space below.
pub proof fn lemma_image_is_centred(image_px: Vec2, offset: Vec2, size: Vec2, cell_px: Vec2)
    requires
        placeable(image_px, offset, size, cell_px),
    ensures
        ({
            let columns = image_columns(image_px.x as int, size.x as int, cell_px.x as int);
            let rows = image_rows(image_px.y as int, size.y as int, cell_px.y as int);
            let left = (size.x - columns) / 2;
            let above = (size.y - rows) - (size.y - rows) / 2;
            &&& left + columns + left == size.x
            &&& above + rows <= size.y
            &&& 0 <= above - (size.y - rows - above) <= 1
        }),
{
    let columns = image_columns(image_px.x as int, size.x as int, cell_px.x as int);
    assert((size.x - columns) % 2 == 0) by {
        assert(columns % 2 == size.x as int % 2);
    }
}

/// The image gets as many whole columns as it fills, or one less where that leaves equal space on
/// either side. It gets at least the rows that it fills, as far as there are any.
pub proof fn lemma_image_fills_its_cells(image_px: Vec2, size: Vec2, cell_px: Vec2)
    requires
        cell_px.x > 0,
        cell_px.y > 0,
    ensures
        ({
            let columns = image_columns(image_px.x as int, size.x as int, cell_px.x as int);
            let rows = image_rows(image_px.y as int, size.y as int, cell_px.y as int);
            &&& (size.x - columns) % 2 == 0
            &&& columns * cell_px.x <= image_px.x < (columns + 2) * cell_px.x
            &&& rows <= size.y
            &&& rows == size.y || rows * cell_px.y > image_px.y
            &&& (rows - 1) * cell_px.y <= image_px.y || rows == 0
        }),
{
    let (w, c) = (image_px.x as int, cell_px.x as int);
    let (h, r) = (image_px.y as int, cell_px.y as int);
    let cells = w / c;
    let lines = h / r;
    assert(cells * c <= w < (cells + 1) * c && (cells - 1) * c <= w < (cells + 2) * c)
        by (nonlinear_arith)
        requires
            cells == w / c,
            c > 0,
            w >= 0,
    ;
    assert(lines * r <= h < (lines + 1) * r) by (nonlinear_arith)
        requires
            lines == h / r,
            r > 0,
    ;
    let rows = image_rows(h, size.y as int, r);
    assert((rows - 1) * r <= lines * r) by (nonlinear_arith)
        requires
            rows <= lines + 1,
            r > 0,
    ;
}

/// The command names the column, the row, the width and the height of the image, each by its name,
/// and the file.
pub proof fn lemma_command_names_the_place(placement: Placement, path: Seq<char>)
    ensures
        exists|start: Seq<char>|
            add_command_spec(placement, path) == #[trigger] (start + decimal(
                placement.offset.x as nat,
            )) + ",\"y\":"@ + decimal(placement.offset.y as nat) + ",\"width\":"@ + decimal(
                placement.size.x as nat,
            ) + ",\"height\":"@ + decimal(placement.size.y as nat) + ",\"path\":\""@ + path
                + "\"}\n"@,
{
    let start = "{\"action\":\"add\",\"scaler\":\"fit_contain\",\"identifier\":\"cover\",\"x\":"@;
    assert(add_command_spec(placement, path) == (start + decimal(placement.offset.x as nat))
        + ",\"y\":"@ + decimal(placement.offset.y as nat) + ",\"width\":"@ + decimal(
        placement.size.x as nat,
    ) + ",\"height\":"@ + decimal(placement.size.y as nat) + ",\"path\":\""@ + path + "\"}\n"@);
}

} // verus!
