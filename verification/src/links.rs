//! Links in a transcript, and which one a click finds.

use vstd::prelude::*;
use crate::geometry::Rect;
use crate::rows::{
    capped_rows, content_at, is_row_map, lemma_content_rows_are_exact, lemma_line_holding,
    visual_to_content,
};

verus! {

/// A clickable stretch of the transcript: the columns `col_start..col_end` of a
/// line, and where it leads.
#[derive(Debug)]
pub struct LinkRegion {
    pub content_row: usize,
    pub col_start: usize,
    pub col_end: usize,
    pub url: String,
}

impl LinkRegion {
    /// Whether the region covers column `col` of line `row`.
    pub open spec fn covers(self, row: int, col: int) -> bool {
        self.content_row == row && self.col_start <= col < self.col_end
    }
}

/// The line and the column of the transcript under the cell `(col, row)` of the
/// pane `inner` scrolled to `scroll_offset`. Inside a wrapped line the columns
/// above the row are taken as full rows of the pane.
pub open spec fn cell_target(
    col: int,
    row: int,
    inner: Rect,
    scroll_offset: int,
    prefix: Seq<usize>,
) -> Option<(int, int)> {
    if !inner.holds(col, row) {
        None
    } else {
        match content_at(prefix, capped_rows(scroll_offset, row - inner.y)) {
            Some(place) => Some((place.0, place.1 * inner.width + (col - inner.x))),
            None => None,
        }
    }
}

/// The url of the first region under the cell `(col, row)`, if any.
pub fn link_at<'a>(
    col: u16,
    row: u16,
    inner: Rect,
    scroll_offset: u32,
    row_prefix: &[usize],
    regions: &'a [LinkRegion],
) -> (url: Option<&'a str>)
    requires
        is_row_map(row_prefix@),
    ensures
        match cell_target(col as int, row as int, inner, scroll_offset as int, row_prefix@) {
            None => url is None,
            Some(target) => match url {
                Some(found) => exists|i: int|
                    #![trigger regions@[i]]
                    0 <= i < regions@.len() && regions@[i].covers(target.0, target.1)
                        && regions@[i].url@ == found@ && forall|j: int|
                        0 <= j < i ==> !(#[trigger] regions@[j]).covers(target.0, target.1),
                None => forall|i: int|
                    0 <= i < regions@.len() ==> !(#[trigger] regions@[i]).covers(
                        target.0,
                        target.1,
                    ),
            },
        },
{
    if !inner.contains(col, row) {
        return None;
    }
    let rel_col: usize = (col - inner.x) as usize;
    let rel_row: usize = (row - inner.y) as usize;
    let visual_row: usize = (scroll_offset as usize).saturating_add(rel_row);
    let place = match visual_to_content(row_prefix, visual_row) {
        Some(place) => place,
        None => {
            return None;
        },
    };
    let content_row: usize = place.0;
    let sub_row: usize = place.1;
    let whole_rows = sub_row.checked_mul(inner.width as usize);
    let content_col: usize = match whole_rows {
        Some(columns) => match columns.checked_add(rel_col) {
            Some(column) => column,
            None => {
                return None;
            },
        },
        None => {
            return None;
        },
    };
    let mut i: usize = 0;
    while i < regions.len()
        invariant
            i <= regions@.len(),
            cell_target(col as int, row as int, inner, scroll_offset as int, row_prefix@) == Some(
                (content_row as int, content_col as int),
            ),
            forall|j: int|
                0 <= j < i ==> !(#[trigger] regions@[j]).covers(
                    content_row as int,
                    content_col as int,
                ),
        decreases regions@.len() - i,
    {
        let region = &regions[i];
        if region.content_row == content_row && region.col_start <= content_col && content_col
            < region.col_end {
            proof {
                let target = cell_target(
                    col as int,
                    row as int,
                    inner,
                    scroll_offset as int,
                    row_prefix@,
                ).unwrap();
                assert(target == (content_row as int, content_col as int));
                assert(regions@[i as int].covers(target.0, target.1));
            }
            return Some(region.url.as_str());
        }
        i += 1;
    }
    None
}

/// A click on a line's first row, and on any row of a line that fits the pane,
/// finds the true column.
pub proof fn lemma_first_rows_resolve_exactly(
    col: int,
    row: int,
    inner: Rect,
    scroll_offset: int,
    prefix: Seq<usize>,
    line: int,
)
    requires
        is_row_map(prefix),
        0 <= line < prefix.len() - 1,
        prefix[line] < prefix[line + 1],
        inner.holds(col, row),
        0 <= scroll_offset,
        scroll_offset + (row - inner.y) == prefix[line],
    ensures
        cell_target(col, row, inner, scroll_offset, prefix) == Some((line, col - inner.x)),
{
    lemma_line_holding(prefix, prefix[line] as int, line);
    assert(0 * inner.width == 0);
}

/// A click finds a place exactly where the pane's cell shows a row of the content:
/// the line is the one whose rows include that row, whatever the column.
pub proof fn lemma_a_click_lands_on_the_row_it_shows(
    col: int,
    row: int,
    inner: Rect,
    scroll_offset: int,
    prefix: Seq<usize>,
)
    requires
        is_row_map(prefix),
        prefix.len() > 0,
        inner.holds(col, row),
        0 <= scroll_offset,
        scroll_offset + (row - inner.y) <= usize::MAX,
    ensures
        match cell_target(col, row, inner, scroll_offset, prefix) {
            Some((line, _)) => 0 <= line < prefix.len() - 1 && prefix[line] <= scroll_offset + (row
                - inner.y) < prefix[line + 1],
            None => scroll_offset + (row - inner.y) >= prefix.last(),
        },
{
    lemma_content_rows_are_exact(prefix, scroll_offset + (row - inner.y));
}

/// No click outside the pane finds anything.
pub proof fn lemma_a_click_outside_finds_nothing(
    col: int,
    row: int,
    inner: Rect,
    scroll_offset: int,
    prefix: Seq<usize>,
)
    requires
        col < inner.x || col >= inner.x + inner.width || row < inner.y || row >= inner.y
            + inner.height,
    ensures
        cell_target(col, row, inner, scroll_offset, prefix) is None,
{
}

/// Inside a line, a cell to the right is a column further, and a row down is a pane's
/// width further: with the column of a line's first row this fixes that of every
/// cell.
pub proof fn lemma_a_row_down_is_a_width_further(
    col: int,
    row: int,
    right: int,
    inner: Rect,
    scroll_offset: int,
    prefix: Seq<usize>,
    line: int,
)
    requires
        is_row_map(prefix),
        0 <= line < prefix.len() - 1,
        0 <= scroll_offset,
        inner.holds(col, row),
        prefix[line] <= scroll_offset + (row - inner.y) < prefix[line + 1],
    ensures
        cell_target(col, row, inner, scroll_offset, prefix) is Some,
        inner.holds(right, row) ==> match (
            cell_target(col, row, inner, scroll_offset, prefix),
            cell_target(right, row, inner, scroll_offset, prefix),
        ) {
            (Some((here, column)), Some((there, further))) => here == line && there == line
                && further - column == right - col,
            _ => false,
        },
        inner.holds(col, row + 1) && scroll_offset + (row + 1 - inner.y) < prefix[line + 1]
            ==> match (
            cell_target(col, row, inner, scroll_offset, prefix),
            cell_target(col, row + 1, inner, scroll_offset, prefix),
        ) {
            (Some((here, column)), Some((below, further))) => here == line && below == line
                && further == column + inner.width,
            _ => false,
        },
{
    let at = scroll_offset + (row - inner.y);
    lemma_line_holding(prefix, at, line);
    if at + 1 < prefix[line + 1] {
        lemma_line_holding(prefix, at + 1, line);
        let sub_row = at - prefix[line];
        let width = inner.width as int;
        assert((sub_row + 1) * width == sub_row * width + width) by (nonlinear_arith);
    }
}

/// Scrolling moves what a click finds with the content: a row further down at an
/// offset one less is the same place.
pub proof fn lemma_a_link_scrolls_with_its_row(
    col: int,
    row: int,
    inner: Rect,
    scroll_offset: int,
    prefix: Seq<usize>,
)
    requires
        inner.holds(col, row),
        inner.holds(col, row + 1),
        0 < scroll_offset,
    ensures
        cell_target(col, row, inner, scroll_offset, prefix) == cell_target(
            col,
            row + 1,
            inner,
            scroll_offset - 1,
            prefix,
        ),
{
}

/// A region covers its columns, the first of them and not the one behind the last,
/// and no column of another line. So two regions that meet share no cell.
pub proof fn lemma_a_region_covers_its_columns(region: LinkRegion, row: int, col: int)
    ensures
        region.covers(row, col) ==> row == region.content_row,
        region.col_start < region.col_end ==> region.covers(
            region.content_row as int,
            region.col_start as int,
        ) && region.covers(region.content_row as int, region.col_end - 1),
        !region.covers(row, region.col_end as int),
        !region.covers(row, region.col_start - 1),
        region.covers(row, col) && col + 1 < region.col_end ==> region.covers(row, col + 1),
        region.covers(row, col) && region.col_start < col ==> region.covers(row, col - 1),
{
}

} // verus!
