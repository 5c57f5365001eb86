//! Where the rows and cells of tables stand.
use vstd::prelude::*;

use crate::command::CommandView;
use crate::frame::{
    cell_offset, fitting, row_commands, row_height, rows_commands, stacked, table_commands,
    table_fit, table_height, TableCell, TableFit, TableFlowable,
};
use crate::geometry::{pt, Pt};

verus! {

broadcast use vstd::string::group_string_axioms;

/// The first `n` cells together.
pub open spec fn widths(cells: Seq<TableCell>, n: int) -> int
    decreases n,
{
    if n <= 0 {
        0
    } else {
        widths(cells, n - 1) + cells[n - 1].width.milli
    }
}

/// The widths of all cells can be counted.
pub open spec fn are_countable(cells: Seq<TableCell>) -> bool {
    forall|n: int|
        0 <= n <= cells.len() ==> -0x2000_0000_0000_0000 <= #[trigger] widths(cells, n)
            <= 0x2000_0000_0000_0000
}

proof fn offset_is_width(cells: Seq<TableCell>, n: int)
    requires
        0 <= n <= cells.len(),
        are_countable(cells),
    ensures
        cell_offset(cells, n).milli == widths(cells, n),
    decreases n,
{
    assert(-0x2000_0000_0000_0000 <= widths(cells, n) <= 0x2000_0000_0000_0000);
    if n > 0 {
        offset_is_width(cells, n - 1);
    }
}

/// The cells of a row are drawn one after the other on one line, each with its own text and right of
/// all cells before it.
pub proof fn cells_stand_side_by_side(cells: Seq<TableCell>, x: Pt, y: Pt, n: int, i: int)
    requires
        0 <= i < n <= cells.len(),
        are_countable(cells),
        -0x2000_0000_0000_0000 <= x.milli <= 0x2000_0000_0000_0000,
    ensures
        row_commands(cells, x, y, n).len() == n,
        row_commands(cells, x, y, n)[i] matches CommandView::DrawString { x: at, y: line, text }
            && text == cells[i].text@ && line == y && at.milli == x.milli + widths(cells, i),
    decreases n,
{
    row_has_cells(cells, x, y, n - 1);
    if i < n - 1 {
        cells_stand_side_by_side(cells, x, y, n - 1, i);
    } else {
        offset_is_width(cells, i);
        assert(-0x2000_0000_0000_0000 <= widths(cells, i) <= 0x2000_0000_0000_0000);
    }
}

proof fn row_has_cells(cells: Seq<TableCell>, x: Pt, y: Pt, n: int)
    ensures
        n >= 0 ==> row_commands(cells, x, y, n).len() == n,
    decreases n,
{
    if n > 0 {
        row_has_cells(cells, x, y, n - 1);
    }
}

/// A row is as high as the highest of its cells.
pub proof fn rows_are_as_high_as_their_cells(cells: Seq<TableCell>, n: int)
    requires
        0 <= n <= cells.len(),
    ensures
        forall|i: int|
            0 <= i < n ==> (#[trigger] cells[i]).height.milli <= row_height(cells, n).milli,
        row_height(cells, n).milli == 0 || exists|i: int|
            0 <= i < n && (#[trigger] cells[i]).height == row_height(cells, n),
        row_height(cells, n).milli >= 0,
    decreases n,
{
    if n > 0 {
        rows_are_as_high_as_their_cells(cells, n - 1);
        assert(cells[n - 1].height.milli <= row_height(cells, n).milli);
    }
}

/// How many commands the first `n` rows take.
pub open spec fn cells_before(rows: Seq<Vec<TableCell>>, n: int) -> int
    decreases n,
{
    if n <= 0 {
        0
    } else {
        cells_before(rows, n - 1) + rows[n - 1]@.len()
    }
}

proof fn rows_have_cells(taken: Pt, rows: Seq<Vec<TableCell>>, x: Pt, y: Pt, n: int)
    requires
        0 <= n <= rows.len(),
    ensures
        rows_commands(taken, rows, x, y, n).len() == cells_before(rows, n),
    decreases n,
{
    if n > 0 {
        rows_have_cells(taken, rows, x, y, n - 1);
        row_has_cells(rows[n - 1]@, x, y.plus(stacked(taken, rows, n - 1)), rows[n - 1]@.len() as int);
    }
}

/// The rows of a table are drawn in their order, all cells of a row before those of the next, and
/// each row starts where the one before it ends.
pub proof fn rows_follow_each_other(
    taken: Pt,
    rows: Seq<Vec<TableCell>>,
    x: Pt,
    y: Pt,
    n: int,
    r: int,
    i: int,
)
    requires
        0 <= r < n <= rows.len(),
        0 <= i < rows[r]@.len(),
    ensures
        ({
            let all = rows_commands(taken, rows, x, y, n);
            let at = cells_before(rows, r) + i;
            &&& 0 <= at < all.len()
            &&& all[at] matches CommandView::DrawString { x: left, y: line, text } && text
                == rows[r]@[i].text@ && line == y.plus(stacked(taken, rows, r))
        }),
        stacked(taken, rows, r + 1) == stacked(taken, rows, r).plus(
            row_height(rows[r]@, rows[r]@.len() as int),
        ),
        stacked(taken, rows, 0) == taken,
    decreases n,
{
    rows_have_cells(taken, rows, x, y, n - 1);
    let line = y.plus(stacked(taken, rows, n - 1));
    let cells = rows[n - 1]@;
    row_has_cells(cells, x, line, cells.len() as int);
    if r < n - 1 {
        rows_follow_each_other(taken, rows, x, y, n - 1, r, i);
    } else {
        cell_is_drawn(cells, x, line, cells.len() as int, i);
    }
}

proof fn cell_is_drawn(cells: Seq<TableCell>, x: Pt, y: Pt, n: int, i: int)
    requires
        0 <= i < n <= cells.len(),
    ensures
        row_commands(cells, x, y, n).len() == n,
        row_commands(cells, x, y, n)[i] matches CommandView::DrawString { x: at, y: line, text }
            && text == cells[i].text@ && line == y,
    decreases n,
{
    row_has_cells(cells, x, y, n - 1);
    if i < n - 1 {
        cell_is_drawn(cells, x, y, n - 1, i);
    }
}

proof fn fitting_is_most(taken: Pt, rows: Seq<Vec<TableCell>>, room: Pt, i: int)
    requires
        0 <= i <= rows.len(),
    ensures
        0 <= fitting(taken, rows, room, i) <= rows.len() - i,
        forall|k: int|
            i < k <= i + fitting(taken, rows, room, i) ==> (#[trigger] stacked(
                taken,
                rows,
                k,
            )).milli <= room.milli,
        i + fitting(taken, rows, room, i) < rows.len() ==> stacked(
            taken,
            rows,
            i + fitting(taken, rows, room, i) + 1,
        ).milli > room.milli,
    decreases rows.len() - i,
{
    if i < rows.len() && stacked(taken, rows, i + 1).milli <= room.milli {
        fitting_is_most(taken, rows, room, i + 1);
    }
}

/// A table is split as late as possible: all rows that are drawn fit in the room there is, and the
/// next one does not. A table of which all rows fit is not split, and one of which no row fits below
/// its header is not begun.
pub proof fn tables_split_as_late_as_possible(t: TableFlowable, room: Pt)
    ensures
        ({
            let head = stacked(pt(0), t.shown_header(), t.shown_header().len() as int);
            let n = t.body@.len() as int;
            match table_fit(t, room) {
                TableFit::Whole => head.milli <= room.milli && forall|k: int|
                    0 < k <= n ==> (#[trigger] stacked(head, t.body@, k)).milli <= room.milli,
                TableFit::Part(k) => {
                    &&& 0 < k < n
                    &&& forall|j: int|
                        0 < j <= k ==> (#[trigger] stacked(head, t.body@, j)).milli <= room.milli
                    &&& stacked(head, t.body@, k + 1).milli > room.milli
                },
                TableFit::Nothing => head.milli > room.milli || n > 0 && stacked(
                    head,
                    t.body@,
                    1,
                ).milli > room.milli,
            }
        }),
{
    let head = stacked(pt(0), t.shown_header(), t.shown_header().len() as int);
    fitting_is_most(head, t.body@, room, 0);
}

/// The header of a table is drawn before its rows and above them: the first row starts where the
/// header ends.
pub proof fn headers_stand_above_their_rows(t: TableFlowable, x: Pt, y: Pt, k: int)
    requires
        0 <= k <= t.body@.len(),
    ensures
        ({
            let rows = t.shown_header();
            let m = rows.len() as int;
            let head = stacked(pt(0), rows, m);
            let all = table_commands(t, x, y, k);
            &&& rows_commands(pt(0), rows, x, y, m).is_prefix_of(all)
            &&& all.skip(cells_before(rows, m)) == rows_commands(head, t.body@, x, y, k)
            &&& table_height(t, 0) == head
        }),
{
    let rows = t.shown_header();
    let m = rows.len() as int;
    rows_have_cells(pt(0), rows, x, y, m);
    let all = table_commands(t, x, y, k);
    let head = stacked(pt(0), rows, m);
    assert(all.skip(cells_before(rows, m)) =~= rows_commands(head, t.body@, x, y, k));
    assert(rows_commands(pt(0), rows, x, y, m).is_prefix_of(all));
}

} // verus!
