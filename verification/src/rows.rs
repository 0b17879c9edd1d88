//! Wrapped rows: how many a line takes, and which line holds a row.
//!
//! A transcript of logical lines wraps to more rows than it has lines. Its row
//! map says at which row each line starts: entry `n` is the number of rows above
//! line `n`, and the last entry is the number of rows in all.

use vstd::prelude::*;
use crate::geometry::{floored_difference, greatest, least};
use crate::highlight::clusters_of;
use crate::style::{line_views, span_texts, Line, LineView};

verus! {

/// The widest pane whose rows are counted. The wrapper adds widths up in `u16`;
/// up to here no such sum overflows, however wide a symbol is.
pub const MAX_PANE_WIDTH: u16 = 0x3fff;

/// How many rows one line takes in a pane of `width` columns, given the clusters of
/// its spans in a row: what `ratatui::widgets::Paragraph::line_count` counts for a
/// paragraph of that line alone, wrapped without trimming.
pub uninterp spec fn line_rows(clusters: Seq<Seq<char>>, width: int) -> nat;

/// How many rows the line takes in a pane of `width` columns.
#[verifier::opaque]
pub open spec fn line_height(line: LineView, width: int) -> nat {
    line_rows(clusters_of(span_texts(line.spans)), width)
}

/// How many rows the lines take, one below the other.
pub open spec fn rows_of(lines: Seq<LineView>, width: int) -> nat
    decreases lines.len(),
{
    if lines.len() == 0 {
        0
    } else {
        rows_of(lines.drop_last(), width) + line_height(lines.last(), width)
    }
}

/// `ratatui::widgets::Paragraph::line_count`, on an unboxed paragraph of `lines`
/// with `Wrap { trim: false }`. The wrapper reads each line as the clusters of its
/// spans, one span after the other, so the count depends on them and the width
/// alone. It breaks each line on its own, so the count is the sum over the lines. A line takes at least one row; a pane without columns shows
/// none.
#[verifier::external_body]
fn paragraph_line_count(lines: &[Line], width: u16) -> (rows: usize)
    requires
        width <= MAX_PANE_WIDTH,
    ensures
        rows == rows_of(line_views(lines@), width as int),
        lines@.len() == 1 ==> rows == line_rows(
            clusters_of(span_texts(lines@[0]@.spans)),
            width as int,
        ),
        width == 0 ==> rows == 0,
        width > 0 ==> rows >= lines@.len(),
{
    let text: Vec<ratatui::text::Line> = lines
        .iter()
        .map(|line| line.spans.iter().map(|span| ratatui::text::Span::raw(span.text.as_str())).collect())
        .collect();
    ratatui::widgets::Paragraph::new(text)
        .wrap(ratatui::widgets::Wrap { trim: false })
        .line_count(width)
}

/// The rows that `lines` take, wrapped to `inner_width` columns.
pub fn wrapped_text_rows(lines: &[Line], inner_width: u16) -> (rows: usize)
    requires
        inner_width <= MAX_PANE_WIDTH,
    ensures
        rows == rows_of(line_views(lines@), inner_width as int),
        inner_width == 0 ==> rows == 0,
        inner_width > 0 ==> rows >= lines@.len(),
{
    paragraph_line_count(lines, inner_width)
}

/// The row map of the lines: entry `n` is the number of rows of the first `n`,
/// held at the largest `usize`.
pub open spec fn row_map(lines: Seq<LineView>, width: int) -> Seq<usize> {
    Seq::new(
        lines.len() + 1,
        |n: int| least(rows_of(lines.take(n), width) as int, usize::MAX as int) as usize,
    )
}

/// Measure the row map of `lines` in a pane of `inner_width` columns.
pub fn wrapped_row_prefix(lines: &[Line], inner_width: u16) -> (prefix: Vec<usize>)
    requires
        inner_width <= MAX_PANE_WIDTH,
    ensures
        prefix@ == row_map(line_views(lines@), inner_width as int),
        is_row_map(prefix@),
        prefix@.len() == lines@.len() + 1,
        prefix@.last() == least(
            rows_of(line_views(lines@), inner_width as int) as int,
            usize::MAX as int,
        ),
        inner_width > 0 ==> forall|n: int|
            0 <= n < lines@.len() ==> prefix@[n] < #[trigger] prefix@[n + 1] || prefix@[n + 1]
                == usize::MAX,
{
    let ghost views = line_views(lines@);
    let ghost width = inner_width as int;
    let mut prefix: Vec<usize> = Vec::new();
    let mut rows: usize = 0;
    prefix.push(rows);
    assert(views.take(0) =~= seq![]);
    let mut i: usize = 0;
    while i < lines.len()
        invariant
            inner_width <= MAX_PANE_WIDTH,
            views == line_views(lines@),
            width == inner_width,
            i <= lines@.len(),
            prefix@.len() == i + 1,
            rows == prefix@[i as int],
            prefix@[0] == 0,
            forall|n: int|
                0 <= n <= i ==> prefix@[n] == least(
                    rows_of(#[trigger] views.take(n), width) as int,
                    usize::MAX as int,
                ),
            forall|a: int, b: int| 0 <= a <= b <= i ==> prefix@[a] <= prefix@[b],
            inner_width > 0 ==> forall|n: int|
                0 <= n < i ==> prefix@[n] < #[trigger] prefix@[n + 1] || prefix@[n + 1]
                    == usize::MAX,
        decreases lines@.len() - i,
    {
        let one = vstd::slice::slice_subrange(lines, i, i + 1);
        let height = wrapped_text_rows(one, inner_width);
        proof {
            let last = views[i as int];
            assert(line_views(one@) =~= seq![last]);
            assert(seq![last].drop_last() =~= seq![]);
            assert(rows_of(seq![last], width) == rows_of(seq![last].drop_last(), width)
                + line_height(last, width));
            assert(views.take(i + 1).drop_last() =~= views.take(i as int));
        }
        rows = rows.saturating_add(height);
        prefix.push(rows);
        i += 1;
    }
    assert(views.take(i as int) =~= views);
    assert(prefix@ =~= row_map(views, width));
    prefix
}

/// A row map: it starts at zero and never falls.
pub open spec fn is_row_map(prefix: Seq<usize>) -> bool {
    &&& prefix.len() > 0 ==> prefix[0] == 0
    &&& forall|a: int, b: int| 0 <= a <= b < prefix.len() ==> prefix[a] <= prefix[b]
}

/// Measuring lines together is measuring them in two parts and adding up.
pub proof fn lemma_rows_are_additive(a: Seq<LineView>, b: Seq<LineView>, width: int)
    ensures
        rows_of(a + b, width) == rows_of(a, width) + rows_of(b, width),
    decreases b.len(),
{
    if b.len() == 0 {
        assert(a + b =~= a);
    } else {
        lemma_rows_are_additive(a, b.drop_last(), width);
        assert((a + b).drop_last() =~= a + b.drop_last());
    }
}

/// Lines of the same clusters take the same rows, whatever their spans and styles
/// are.
pub proof fn lemma_rows_go_by_clusters(a: Seq<LineView>, b: Seq<LineView>, width: int)
    requires
        a.len() == b.len(),
        forall|i: int|
            0 <= i < a.len() ==> clusters_of(span_texts((#[trigger] a[i]).spans)) == clusters_of(
                span_texts(b[i].spans),
            ),
    ensures
        rows_of(a, width) == rows_of(b, width),
        row_map(a, width) == row_map(b, width),
    decreases a.len(),
{
    if a.len() > 0 {
        let n = a.len() - 1;
        reveal(line_height);
        lemma_rows_go_by_clusters(a.drop_last(), b.drop_last(), width);
        assert(clusters_of(span_texts(a[n].spans)) == clusters_of(span_texts(b[n].spans)));
        let fewer = row_map(a.drop_last(), width);
        assert forall|k: int| 0 <= k <= n implies row_map(a, width)[k] == #[trigger] row_map(
            b,
            width,
        )[k] by {
            assert(a.take(k) =~= a.drop_last().take(k));
            assert(b.take(k) =~= b.drop_last().take(k));
            assert(fewer[k] == row_map(b.drop_last(), width)[k]);
        }
        assert(a.take(n + 1) =~= a);
        assert(b.take(n + 1) =~= b);
    } else {
        assert(a =~= b);
    }
    assert(row_map(a, width) =~= row_map(b, width));
}

/// One past the last entry of `prefix` that is at most `row`.
pub open spec fn upto(prefix: Seq<usize>, row: int) -> nat
    decreases prefix.len(),
{
    if prefix.len() == 0 {
        0
    } else if prefix.last() <= row {
        prefix.len()
    } else {
        upto(prefix.drop_last(), row)
    }
}

/// The entries up to `upto` are at most `row`, and those from it on are above,
/// in a row map.
pub proof fn lemma_upto(prefix: Seq<usize>, row: int)
    requires
        is_row_map(prefix),
    ensures
        upto(prefix, row) <= prefix.len(),
        forall|i: int| 0 <= i < upto(prefix, row) ==> prefix[i] <= row,
        forall|i: int| upto(prefix, row) <= i < prefix.len() ==> prefix[i] > row,
        row >= 0 && prefix.len() > 0 ==> upto(prefix, row) > 0,
    decreases prefix.len(),
{
    if prefix.len() > 0 && prefix.last() > row {
        lemma_upto(prefix.drop_last(), row);
        assert forall|i: int| upto(prefix, row) <= i < prefix.len() implies prefix[i] > row by {
            if i < prefix.len() - 1 {
                assert(prefix.drop_last()[i] == prefix[i]);
            }
        }
        assert forall|i: int| 0 <= i < upto(prefix, row) implies prefix[i] <= row by {
            assert(prefix.drop_last()[i] == prefix[i]);
        }
    } else if prefix.len() > 0 {
        assert forall|i: int| 0 <= i < prefix.len() implies prefix[i] <= row by {
            assert(prefix[i] <= prefix[prefix.len() - 1]);
        }
    }
}

/// Count the entries of the row map that are at most `row`, by halving.
fn entries_upto(prefix: &[usize], row: usize) -> (n: usize)
    requires
        is_row_map(prefix@),
    ensures
        n == upto(prefix@, row as int),
{
    let mut lo: usize = 0;
    let mut hi: usize = prefix.len();
    while lo < hi
        invariant
            is_row_map(prefix@),
            lo <= hi <= prefix@.len(),
            forall|i: int| 0 <= i < lo ==> prefix@[i] <= row,
            forall|i: int| hi <= i < prefix@.len() ==> prefix@[i] > row,
        decreases hi - lo,
    {
        let mid: usize = lo + (hi - lo) / 2;
        if prefix[mid] <= row {
            lo = mid + 1;
        } else {
            hi = mid;
        }
    }
    proof {
        lemma_upto(prefix@, row as int);
        let n = upto(prefix@, row as int) as int;
        if n < lo {
            assert(prefix@[n] > row);
        } else if lo < n {
            assert(prefix@[lo as int] <= row);
        }
    }
    lo
}

/// The line that holds `row`: the last one that starts at it or above. A row
/// past the end is held by the position after the last line.
pub open spec fn line_holding(prefix: Seq<usize>, row: int) -> int {
    floored_difference(upto(prefix, row) as int, 1)
}

/// The line of the row map that holds `row`.
pub fn line_at_row(row_prefix: &[usize], row: usize) -> (line: usize)
    requires
        is_row_map(row_prefix@),
    ensures
        line == line_holding(row_prefix@, row as int),
        row_prefix@.len() == 0 ==> line == 0,
        row_prefix@.len() > 0 ==> line < row_prefix@.len() && row_prefix@[line as int] <= row
            && forall|i: int| line < i < row_prefix@.len() ==> row_prefix@[i] > row,
{
    proof {
        lemma_upto(row_prefix@, row as int);
    }
    let n = entries_upto(row_prefix, row);
    n.saturating_sub(1)
}

/// `a + b`, held at the largest `usize`.
pub open spec fn capped_rows(a: int, b: int) -> int {
    if a + b > usize::MAX {
        usize::MAX as int
    } else {
        a + b
    }
}

/// The lines that a viewport of `viewport_h` rows reaches from row `offset` on:
/// the first, one past the last, and the rows to skip inside the first.
pub open spec fn window_of(prefix: Seq<usize>, offset: int, viewport_h: int) -> (int, int, int) {
    let lines = floored_difference(prefix.len() as int, 1);
    let start = line_holding(prefix, offset);
    let above = if start < prefix.len() {
        prefix[start] as int
    } else {
        0
    };
    let end = greatest(
        least(upto(prefix, capped_rows(offset, viewport_h) - 1) as int, lines),
        start,
    );
    (start, end, floored_difference(offset, above))
}

/// The lines that a viewport of `viewport_h` rows reaches from row `offset` on,
/// and the rows to skip inside the first.
pub fn row_window(row_prefix: &[usize], offset: usize, viewport_h: u16) -> (window: (
    std::ops::Range<usize>,
    usize,
))
    requires
        is_row_map(row_prefix@),
    ensures
        (window.0.start as int, window.0.end as int, window.1 as int) == window_of(
            row_prefix@,
            offset as int,
            viewport_h as int,
        ),
        window.0.start <= window.0.end,
        row_prefix@.len() > 0 ==> window.0.end < row_prefix@.len(),
        row_prefix@.len() == 0 ==> window.0.end == 0,
{
    proof {
        lemma_upto(row_prefix@, offset as int);
        lemma_upto(row_prefix@, capped_rows(offset as int, viewport_h as int) - 1);
    }
    let lines: usize = row_prefix.len().saturating_sub(1);
    let start = line_at_row(row_prefix, offset);
    let above: usize = if start < row_prefix.len() {
        row_prefix[start]
    } else {
        0
    };
    let residual = offset.saturating_sub(above);
    let last_row = offset.saturating_add(viewport_h as usize);
    let reached: usize = if last_row == 0 {
        0
    } else {
        entries_upto(row_prefix, last_row - 1)
    };
    let inside: usize = if reached < lines {
        reached
    } else {
        lines
    };
    let end: usize = if inside > start {
        inside
    } else {
        start
    };
    (start..end, residual)
}

/// A window starts on the row it was asked for: for every offset inside the
/// content, its first line is a line, the rows above that line and the rows
/// skipped inside it make up the offset, and the skipped rows are fewer than the
/// line has.
pub proof fn lemma_window_starts_at_its_offset(prefix: Seq<usize>, offset: int, viewport_h: int)
    requires
        is_row_map(prefix),
        prefix.len() > 0,
        0 <= offset < prefix.last(),
        0 <= viewport_h,
    ensures
        ({
            let (start, end, residual) = window_of(prefix, offset, viewport_h);
            &&& 0 <= start < prefix.len() - 1
            &&& start <= end <= prefix.len() - 1
            &&& prefix[start] + residual == offset
            &&& 0 <= residual < prefix[start + 1] - prefix[start]
        }),
{
    lemma_upto(prefix, offset);
    lemma_upto(prefix, capped_rows(offset, viewport_h) - 1);
}

/// A window leaves nothing out: every row of the content that the viewport shows
/// is held by a line of the window.
pub proof fn lemma_window_covers_the_viewport(
    prefix: Seq<usize>,
    offset: int,
    viewport_h: int,
    row: int,
)
    requires
        is_row_map(prefix),
        prefix.len() > 0,
        0 <= offset <= row < prefix.last(),
        row < offset + viewport_h,
        offset + viewport_h <= usize::MAX,
    ensures
        ({
            let (start, end, residual) = window_of(prefix, offset, viewport_h);
            start <= line_holding(prefix, row) < end
        }),
{
    lemma_upto(prefix, offset);
    lemma_upto(prefix, row);
    lemma_upto(prefix, offset + viewport_h - 1);
    let n = upto(prefix, row) as int;
    if n < upto(prefix, offset) {
        assert(prefix[n] > row);
    }
    if upto(prefix, offset + viewport_h - 1) < n {
        assert(prefix[upto(prefix, offset + viewport_h - 1) as int] <= row);
    }
    assert(prefix[prefix.len() - 1] > row);
    if n == prefix.len() {
        assert(prefix[n - 1] <= row);
    }
}

/// Scrolled past the end, the window is empty.
pub proof fn lemma_window_past_the_end_is_empty(prefix: Seq<usize>, offset: int, viewport_h: int)
    requires
        is_row_map(prefix),
        prefix.len() > 0,
        prefix.last() <= offset,
    ensures
        ({
            let (start, end, residual) = window_of(prefix, offset, viewport_h);
            start == prefix.len() - 1 && end == start
        }),
{
    lemma_upto(prefix, capped_rows(offset, viewport_h) - 1);
}

/// The line that holds the row, and the row's place inside it.
pub open spec fn content_at(prefix: Seq<usize>, row: int) -> Option<(int, int)> {
    let line = line_holding(prefix, row);
    if line >= floored_difference(prefix.len() as int, 1) {
        None
    } else {
        Some((line, row - prefix[line]))
    }
}

/// The line and the row inside it that `visual_row` lands on, if any line holds
/// it.
pub fn visual_to_content(row_prefix: &[usize], visual_row: usize) -> (at: Option<(usize, usize)>)
    requires
        is_row_map(row_prefix@),
    ensures
        match at {
            Some(place) => content_at(row_prefix@, visual_row as int) == Some(
                (place.0 as int, place.1 as int),
            ) && place.0 + 1 < row_prefix@.len(),
            None => content_at(row_prefix@, visual_row as int) is None,
        },
{
    let lines: usize = row_prefix.len().saturating_sub(1);
    let content_row = line_at_row(row_prefix, visual_row);
    if content_row >= lines {
        return None;
    }
    let sub_row = visual_row.saturating_sub(row_prefix[content_row]);
    Some((content_row, sub_row))
}

/// A row maps to a line exactly where the content has it, and that line's rows
/// include it.
pub proof fn lemma_content_rows_are_exact(prefix: Seq<usize>, row: int)
    requires
        is_row_map(prefix),
        prefix.len() > 0,
        0 <= row,
    ensures
        content_at(prefix, row) is Some <==> row < prefix.last(),
        content_at(prefix, row) matches Some(place) ==> {
            let (line, sub_row) = place;
            &&& 0 <= line < prefix.len() - 1
            &&& prefix[line] <= row < prefix[line + 1]
            &&& sub_row == row - prefix[line]
        },
{
    lemma_upto(prefix, row);
}

/// The draw and the click agree: the line painted first when the pane is
/// scrolled to `offset` is the line that a click on that row finds, with the
/// same rows above it inside the line.
pub proof fn lemma_draw_and_click_agree(prefix: Seq<usize>, offset: int, viewport_h: int)
    requires
        is_row_map(prefix),
        prefix.len() > 0,
        0 <= offset < prefix.last(),
    ensures
        content_at(prefix, offset) == Some(
            (window_of(prefix, offset, viewport_h).0, window_of(prefix, offset, viewport_h).2),
        ),
{
    lemma_upto(prefix, offset);
}

/// Each entry of a row map is the number of rows above its line: where all the rows
/// can be counted, entry `n` is what the first `n` lines take.
pub proof fn lemma_an_entry_counts_the_rows_above(lines: Seq<LineView>, width: int, n: int)
    requires
        0 <= n <= lines.len(),
        rows_of(lines, width) <= usize::MAX,
    ensures
        row_map(lines, width)[n] == rows_of(lines.take(n), width),
        n < lines.len() ==> row_map(lines, width)[n] <= row_map(lines, width)[n + 1],
        row_map(lines, width)[0] == 0,
        row_map(lines, width).last() == rows_of(lines, width),
{
    lemma_row_map(lines, width);
    lemma_rows_are_additive(lines.take(n), lines.skip(n), width);
    assert(lines.take(n) + lines.skip(n) =~= lines);
}

/// The row map of lines is one.
pub proof fn lemma_row_map(lines: Seq<LineView>, width: int)
    ensures
        is_row_map(row_map(lines, width)),
        row_map(lines, width).len() == lines.len() + 1,
        row_map(lines, width).last() == least(rows_of(lines, width) as int, usize::MAX as int),
{
    let prefix = row_map(lines, width);
    assert(lines.take(0) =~= seq![]);
    assert(lines.take(lines.len() as int) =~= lines);
    assert forall|a: int, b: int| 0 <= a <= b < prefix.len() implies prefix[a] <= prefix[b] by {
        lemma_rows_are_additive(lines.take(a), lines.subrange(a, b), width);
        assert(lines.take(a) + lines.subrange(a, b) =~= lines.take(b));
    }
}

/// The line whose rows include `row` is the one that holds it.
pub proof fn lemma_line_holding(prefix: Seq<usize>, row: int, line: int)
    requires
        is_row_map(prefix),
        0 <= line < prefix.len() - 1,
        prefix[line] <= row < prefix[line + 1],
    ensures
        line_holding(prefix, row) == line,
        content_at(prefix, row) == Some((line, row - prefix[line])),
{
    lemma_upto(prefix, row);
    let n = upto(prefix, row) as int;
    if n <= line {
        assert(prefix[n] > row);
        assert(prefix[n] <= prefix[line]);
    } else if n > line + 1 {
        assert(prefix[line + 1] <= row);
    }
}

/// The rows before a line of the window are those before it in the whole, less
/// those above the window.
proof fn lemma_window_map(lines: Seq<LineView>, width: int, start: int, end: int, k: int)
    requires
        rows_of(lines, width) <= usize::MAX,
        0 <= start <= end <= lines.len(),
        0 <= k <= end - start,
    ensures
        row_map(lines.subrange(start, end), width)[k] == row_map(lines, width)[start + k]
            - row_map(lines, width)[start],
{
    let shown = lines.subrange(start, end);
    lemma_rows_are_additive(lines.take(start), lines.subrange(start, start + k), width);
    assert(lines.take(start) + lines.subrange(start, start + k) =~= lines.take(start + k));
    assert(shown.take(k) =~= lines.subrange(start, start + k));
    lemma_rows_are_additive(lines.take(start + k), lines.skip(start + k), width);
    assert(lines.take(start + k) + lines.skip(start + k) =~= lines);
}

/// Drawing a stretch of lines is drawing the whole: a row that one of the lines
/// holds is held by the same line, at the same row of it, where those lines are
/// drawn alone and the rows above them are left out.
pub proof fn lemma_a_stretch_paints_what_the_whole_paints(
    lines: Seq<LineView>,
    width: int,
    start: int,
    end: int,
    row: int,
)
    requires
        rows_of(lines, width) <= usize::MAX,
        0 <= row < rows_of(lines, width),
        0 <= start <= line_holding(row_map(lines, width), row) < end <= lines.len(),
    ensures
        ({
            let prefix = row_map(lines, width);
            let stretch = row_map(lines.subrange(start, end), width);
            match content_at(prefix, row) {
                Some((line, sub_row)) => content_at(stretch, row - prefix[start]) == Some(
                    (line - start, sub_row),
                ),
                None => false,
            }
        }),
{
    let prefix = row_map(lines, width);
    lemma_row_map(lines, width);
    lemma_content_rows_are_exact(prefix, row);
    let line = line_holding(prefix, row);
    let stretch = row_map(lines.subrange(start, end), width);
    lemma_row_map(lines.subrange(start, end), width);
    lemma_window_map(lines, width, start, end, line - start);
    lemma_window_map(lines, width, start, end, line - start + 1);
    lemma_line_holding(stretch, row - prefix[start], line - start);
}

/// Drawing the window is drawing the whole: at every row of the viewport, the
/// lines of the window alone, scrolled by the rows to skip, hold the same line at
/// the same row of it as the whole content scrolled to the offset.
pub proof fn lemma_a_window_paints_what_the_whole_paints(
    lines: Seq<LineView>,
    width: int,
    offset: int,
    viewport_h: int,
    row: int,
)
    requires
        rows_of(lines, width) <= usize::MAX,
        0 <= offset <= row < rows_of(lines, width),
        row < offset + viewport_h <= usize::MAX,
    ensures
        ({
            let prefix = row_map(lines, width);
            let (start, end, residual) = window_of(prefix, offset, viewport_h);
            let window = row_map(lines.subrange(start, end), width);
            match content_at(prefix, row) {
                Some((line, sub_row)) => content_at(window, row - offset + residual) == Some(
                    (line - start, sub_row),
                ),
                None => false,
            }
        }),
{
    let prefix = row_map(lines, width);
    lemma_row_map(lines, width);
    let (start, end, residual) = window_of(prefix, offset, viewport_h);
    lemma_window_starts_at_its_offset(prefix, offset, viewport_h);
    lemma_window_covers_the_viewport(prefix, offset, viewport_h, row);
    lemma_a_stretch_paints_what_the_whole_paints(lines, width, start, end, row);
}

/// The row map of two stretches of lines: that of the first, and then that of the
/// second, below it.
pub proof fn lemma_row_map_of_both(a: Seq<LineView>, b: Seq<LineView>, width: int)
    requires
        rows_of(a + b, width) <= usize::MAX,
    ensures
        rows_of(a + b, width) == rows_of(a, width) + rows_of(b, width),
        forall|i: int|
            0 <= i <= a.len() ==> #[trigger] row_map(a + b, width)[i] == row_map(a, width)[i],
        forall|k: int|
            #![trigger row_map(b, width)[k]]
            0 <= k <= b.len() ==> row_map(a + b, width)[a.len() + k] == rows_of(a, width)
                + row_map(b, width)[k],
{
    lemma_rows_are_additive(a, b, width);
    assert forall|i: int| 0 <= i <= a.len() implies #[trigger] row_map(a + b, width)[i] == row_map(
        a,
        width,
    )[i] by {
        assert((a + b).take(i) =~= a.take(i));
    }
    assert forall|k: int| 0 <= k <= b.len() implies row_map(a + b, width)[a.len() + k] == rows_of(
        a,
        width,
    ) + #[trigger] row_map(b, width)[k] by {
        assert((a + b).take(a.len() + k) =~= a + b.take(k));
        lemma_rows_are_additive(a, b.take(k), width);
        lemma_rows_are_additive(b.take(k), b.skip(k), width);
        assert(b.take(k) + b.skip(k) =~= b);
    }
}

/// A row of the first stretch is held by the line that holds it there.
pub proof fn lemma_row_falls_into_the_first(
    a: Seq<LineView>,
    b: Seq<LineView>,
    width: int,
    row: int,
)
    requires
        rows_of(a + b, width) <= usize::MAX,
        0 <= row < rows_of(a, width),
    ensures
        line_holding(row_map(a + b, width), row) == line_holding(row_map(a, width), row),
        0 <= line_holding(row_map(a, width), row) < a.len(),
{
    lemma_row_map(a, width);
    lemma_row_map(a + b, width);
    lemma_row_map_of_both(a, b, width);
    lemma_content_rows_are_exact(row_map(a, width), row);
    lemma_line_holding(row_map(a + b, width), row, line_holding(row_map(a, width), row));
}

/// A row below the first stretch is held by the line of the second that holds it
/// there.
pub proof fn lemma_row_falls_into_the_second(
    a: Seq<LineView>,
    b: Seq<LineView>,
    width: int,
    row: int,
)
    requires
        rows_of(a + b, width) <= usize::MAX,
        rows_of(a, width) <= row < rows_of(a + b, width),
    ensures
        line_holding(row_map(a + b, width), row) == a.len() + line_holding(
            row_map(b, width),
            row - rows_of(a, width),
        ),
{
    lemma_row_map(b, width);
    lemma_row_map(a + b, width);
    lemma_row_map_of_both(a, b, width);
    let below = row - rows_of(a, width);
    lemma_content_rows_are_exact(row_map(b, width), below);
    let line = line_holding(row_map(b, width), below);
    assert(row_map(b, width)[line] <= below < row_map(b, width)[line + 1]);
    lemma_line_holding(row_map(a + b, width), row, a.len() + line);
}

/// A later row is held by the same line or a later one.
pub proof fn lemma_lines_follow_rows(prefix: Seq<usize>, a: int, b: int)
    requires
        is_row_map(prefix),
        a <= b,
    ensures
        line_holding(prefix, a) <= line_holding(prefix, b),
{
    lemma_upto(prefix, a);
    lemma_upto(prefix, b);
    let n = upto(prefix, b) as int;
    if n < upto(prefix, a) {
        assert(prefix[n] > b);
    }
}

/// A viewport that reaches past the content ends its window with the last line.
pub proof fn lemma_last_window_reaches_the_end(prefix: Seq<usize>, offset: int, viewport_h: int)
    requires
        is_row_map(prefix),
        prefix.len() > 0,
        0 <= offset < prefix.last(),
        prefix.last() < offset + viewport_h <= usize::MAX,
    ensures
        window_of(prefix, offset, viewport_h).1 == prefix.len() - 1,
{
    lemma_upto(prefix, offset);
    lemma_upto(prefix, offset + viewport_h - 1);
}

/// Whether lines `a`, whose rows are those of `prefix`, and lines `b` show the same
/// at a row each: the same line, at the same row of it.
pub open spec fn shows_by(
    prefix: Seq<usize>,
    a: Seq<LineView>,
    a_row: int,
    b: Seq<LineView>,
    b_row: int,
    width: int,
) -> bool {
    match (content_at(prefix, a_row), content_at(row_map(b, width), b_row)) {
        (Some((a_line, a_sub)), Some((b_line, b_sub))) => {
            &&& 0 <= a_line < a.len()
            &&& 0 <= b_line < b.len()
            &&& a[a_line] == b[b_line]
            &&& a_sub == b_sub
        },
        _ => false,
    }
}

/// Whether two stretches of lines show the same at a row each.
pub open spec fn shows_the_same(
    a: Seq<LineView>,
    a_row: int,
    b: Seq<LineView>,
    b_row: int,
    width: int,
) -> bool {
    shows_by(row_map(a, width), a, a_row, b, b_row, width)
}

/// The lines of `a` and, below them, of `b` that a viewport reaches from the row
/// `offset` on, and the rows to skip inside the first. The lines of `b` are taken
/// as if the whole viewport were left for them.
pub open spec fn joint_window(
    a: Seq<LineView>,
    b: Seq<LineView>,
    width: int,
    offset: int,
    viewport_h: int,
) -> (Seq<LineView>, int) {
    let rows = row_map(a, width).last() as int;
    let (start, end, residual) = window_of(row_map(a, width), offset, viewport_h);
    let above = a.subrange(start, end);
    if capped_rows(offset, viewport_h) > rows {
        let (b_start, b_end, b_residual) = window_of(
            row_map(b, width),
            floored_difference(offset, rows),
            viewport_h,
        );
        (
            above + b.subrange(b_start, b_end),
            if above.len() == 0 {
                b_residual
            } else {
                residual
            },
        )
    } else {
        (above, residual)
    }
}

/// A window is a stretch of the lines.
pub proof fn lemma_window_is_in_range(prefix: Seq<usize>, offset: int, viewport_h: int)
    requires
        is_row_map(prefix),
        prefix.len() > 0,
        0 <= offset,
    ensures
        ({
            let (start, end, residual) = window_of(prefix, offset, viewport_h);
            0 <= start <= end <= prefix.len() - 1
        }),
{
    lemma_upto(prefix, offset);
    lemma_upto(prefix, capped_rows(offset, viewport_h) - 1);
}

/// A stretch that holds the row shows what the whole shows.
proof fn lemma_a_stretch_shows_the_same(
    lines: Seq<LineView>,
    width: int,
    start: int,
    end: int,
    row: int,
)
    requires
        rows_of(lines, width) <= usize::MAX,
        0 <= row < rows_of(lines, width),
        0 <= start <= line_holding(row_map(lines, width), row) < end <= lines.len(),
    ensures
        shows_the_same(
            lines,
            row,
            lines.subrange(start, end),
            row - row_map(lines, width)[start],
            width,
        ),
{
    lemma_a_stretch_paints_what_the_whole_paints(lines, width, start, end, row);
}

/// Where the first line takes a row, a window from the top starts with it.
proof fn lemma_first_window_starts_with_the_first_line(prefix: Seq<usize>, viewport_h: int)
    requires
        is_row_map(prefix),
        prefix.len() > 0,
        prefix.len() > 1 ==> prefix[1] > 0,
    ensures
        window_of(prefix, 0, viewport_h).0 == 0,
{
    lemma_upto(prefix, 0);
    let n = upto(prefix, 0) as int;
    if n > 1 {
        assert(prefix[1] <= 0);
    }
}

/// The line that holds a row of the viewport, where the offset falls into `a` and
/// the viewport into `b`, is one of the joint window.
proof fn lemma_joint_window_holds_its_rows(
    a: Seq<LineView>,
    b: Seq<LineView>,
    width: int,
    offset: int,
    viewport_h: int,
    row: int,
)
    requires
        rows_of(a + b, width) <= usize::MAX,
        0 <= offset <= row < rows_of(a + b, width),
        row < offset + viewport_h <= usize::MAX,
        offset < rows_of(a, width) < offset + viewport_h,
    ensures
        line_holding(row_map(a, width), offset) <= line_holding(row_map(a + b, width), row),
        line_holding(row_map(a + b, width), row) < a.len() + window_of(
            row_map(b, width),
            0,
            viewport_h,
        ).1,
{
    lemma_row_map(b, width);
    lemma_row_map(a + b, width);
    lemma_rows_are_additive(a, b, width);
    lemma_row_falls_into_the_first(a, b, width, offset);
    lemma_lines_follow_rows(row_map(a + b, width), offset, row);
    lemma_window_is_in_range(row_map(b, width), 0, viewport_h);
    if row < rows_of(a, width) {
        lemma_row_falls_into_the_first(a, b, width, row);
    } else {
        lemma_row_falls_into_the_second(a, b, width, row);
        lemma_window_covers_the_viewport(
            row_map(b, width),
            0,
            viewport_h,
            row - rows_of(a, width),
        );
    }
}

/// The joint window is a stretch of both, where the offset falls into `a` and the
/// viewport into `b`.
proof fn lemma_joint_window_is_a_stretch(
    a: Seq<LineView>,
    b: Seq<LineView>,
    width: int,
    offset: int,
    viewport_h: int,
)
    requires
        rows_of(a + b, width) <= usize::MAX,
        b.len() > 0 ==> row_map(b, width)[1] > 0,
        0 <= offset < rows_of(a, width) < offset + viewport_h <= usize::MAX,
    ensures
        ({
            let (start, end, residual) = window_of(row_map(a, width), offset, viewport_h);
            let b_end = window_of(row_map(b, width), 0, viewport_h).1;
            &&& 0 <= start
            &&& 0 <= b_end <= b.len()
            &&& joint_window(a, b, width, offset, viewport_h) == (
                (a + b).subrange(start, a.len() + b_end),
                residual,
            )
            &&& row_map(a + b, width)[start] + residual == offset
        }),
{
    let (start, end, residual) = window_of(row_map(a, width), offset, viewport_h);
    let b_end = window_of(row_map(b, width), 0, viewport_h).1;
    lemma_rows_are_additive(a, b, width);
    lemma_row_map(a, width);
    lemma_window_starts_at_its_offset(row_map(a, width), offset, viewport_h);
    assert(end == a.len()) by {
        lemma_last_window_reaches_the_end(row_map(a, width), offset, viewport_h);
    }
    assert(window_of(row_map(b, width), 0, viewport_h).0 == 0 && 0 <= b_end <= b.len()) by {
        lemma_row_map(b, width);
        lemma_first_window_starts_with_the_first_line(row_map(b, width), viewport_h);
        lemma_window_is_in_range(row_map(b, width), 0, viewport_h);
    }
    assert(a.subrange(start, end) + b.subrange(0, b_end) =~= (a + b).subrange(
        start,
        a.len() + b_end,
    ));
    assert(row_map(a + b, width)[start] == row_map(a, width)[start]) by {
        lemma_row_map_of_both(a, b, width);
    }
}

/// The joint window where the offset falls into `a` and the viewport into `b`.
proof fn lemma_joint_window_across(
    a: Seq<LineView>,
    b: Seq<LineView>,
    width: int,
    offset: int,
    viewport_h: int,
    row: int,
)
    requires
        rows_of(a + b, width) <= usize::MAX,
        b.len() > 0 ==> row_map(b, width)[1] > 0,
        0 <= offset <= row < rows_of(a + b, width),
        row < offset + viewport_h <= usize::MAX,
        offset < rows_of(a, width) < offset + viewport_h,
    ensures
        ({
            let (lines, residual) = joint_window(a, b, width, offset, viewport_h);
            shows_the_same(a + b, row, lines, row - offset + residual, width)
        }),
{
    let whole = a + b;
    let (start, end, residual) = window_of(row_map(a, width), offset, viewport_h);
    let b_end = window_of(row_map(b, width), 0, viewport_h).1;
    lemma_joint_window_is_a_stretch(a, b, width, offset, viewport_h);
    lemma_joint_window_holds_its_rows(a, b, width, offset, viewport_h, row);
    lemma_a_stretch_shows_the_same(whole, width, start, a.len() + b_end, row);
}

/// The joint window where the offset falls into `b`.
proof fn lemma_joint_window_below(
    a: Seq<LineView>,
    b: Seq<LineView>,
    width: int,
    offset: int,
    viewport_h: int,
    row: int,
)
    requires
        rows_of(a + b, width) <= usize::MAX,
        0 <= offset <= row < rows_of(a + b, width),
        row < offset + viewport_h <= usize::MAX,
        rows_of(a, width) <= offset,
    ensures
        ({
            let (lines, residual) = joint_window(a, b, width, offset, viewport_h);
            shows_the_same(a + b, row, lines, row - offset + residual, width)
        }),
{
    let whole = a + b;
    let rows = rows_of(a, width) as int;
    let (start, end, residual) = window_of(row_map(b, width), offset - rows, viewport_h);
    lemma_rows_are_additive(a, b, width);
    assert(0 <= start <= end <= b.len()) by {
        lemma_row_map(b, width);
        lemma_window_is_in_range(row_map(b, width), offset - rows, viewport_h);
    }
    assert(joint_window(a, b, width, offset, viewport_h) == (
        whole.subrange(a.len() + start, a.len() + end),
        residual,
    )) by {
        lemma_row_map(a, width);
        lemma_window_past_the_end_is_empty(row_map(a, width), offset, viewport_h);
        let (lines, skipped) = joint_window(a, b, width, offset, viewport_h);
        assert(lines =~= whole.subrange(a.len() + start, a.len() + end));
    }
    assert(row_map(whole, width)[a.len() + start] + residual == offset) by {
        lemma_row_map(b, width);
        lemma_row_map_of_both(a, b, width);
        lemma_window_starts_at_its_offset(row_map(b, width), offset - rows, viewport_h);
        assert(row_map(b, width)[start] + residual == offset - rows);
    }
    assert(a.len() + start <= line_holding(row_map(whole, width), row) < a.len() + end) by {
        lemma_row_map(b, width);
        lemma_row_falls_into_the_second(a, b, width, row);
        lemma_window_covers_the_viewport(row_map(b, width), offset - rows, viewport_h, row - rows);
    }
    lemma_a_stretch_shows_the_same(whole, width, a.len() + start, a.len() + end, row);
}

/// The joint window where the viewport falls into `a`.
proof fn lemma_joint_window_above(
    a: Seq<LineView>,
    b: Seq<LineView>,
    width: int,
    offset: int,
    viewport_h: int,
    row: int,
)
    requires
        rows_of(a + b, width) <= usize::MAX,
        0 <= offset <= row < offset + viewport_h <= rows_of(a, width),
    ensures
        ({
            let (lines, residual) = joint_window(a, b, width, offset, viewport_h);
            shows_the_same(a + b, row, lines, row - offset + residual, width)
        }),
{
    let whole = a + b;
    let (start, end, residual) = window_of(row_map(a, width), offset, viewport_h);
    lemma_rows_are_additive(a, b, width);
    assert(0 <= start <= end <= a.len()) by {
        lemma_row_map(a, width);
        lemma_window_is_in_range(row_map(a, width), offset, viewport_h);
    }
    assert(joint_window(a, b, width, offset, viewport_h) == (
        whole.subrange(start, end),
        residual,
    )) by {
        lemma_row_map(a, width);
        assert(a.subrange(start, end) =~= whole.subrange(start, end));
    }
    assert(row_map(whole, width)[start] + residual == offset) by {
        lemma_row_map(a, width);
        lemma_window_starts_at_its_offset(row_map(a, width), offset, viewport_h);
        lemma_row_map_of_both(a, b, width);
    }
    assert(start <= line_holding(row_map(whole, width), row) < end) by {
        lemma_row_map(a, width);
        lemma_row_falls_into_the_first(a, b, width, row);
        lemma_window_covers_the_viewport(row_map(a, width), offset, viewport_h, row);
    }
    lemma_a_stretch_shows_the_same(whole, width, start, end, row);
}

/// Two stretches drawn by their windows show what they show in full: at every row
/// of the viewport the same line, at the same row of it.
pub proof fn lemma_a_joint_window_paints_both(
    a: Seq<LineView>,
    b: Seq<LineView>,
    width: int,
    offset: int,
    viewport_h: int,
    row: int,
)
    requires
        rows_of(a + b, width) <= usize::MAX,
        b.len() > 0 ==> row_map(b, width)[1] > 0,
        0 <= offset <= row < rows_of(a + b, width),
        row < offset + viewport_h <= usize::MAX,
    ensures
        ({
            let (lines, residual) = joint_window(a, b, width, offset, viewport_h);
            shows_the_same(a + b, row, lines, row - offset + residual, width)
        }),
{
    lemma_rows_are_additive(a, b, width);
    if rows_of(a, width) <= offset {
        lemma_joint_window_below(a, b, width, offset, viewport_h, row);
    } else if rows_of(a, width) < offset + viewport_h {
        lemma_joint_window_across(a, b, width, offset, viewport_h, row);
    } else {
        lemma_joint_window_above(a, b, width, offset, viewport_h, row);
    }
}

/// A window takes in no line that the viewport does not reach: its last line starts
/// above the viewport's end, and the line before its first ends where it starts, at the
/// offset or above.
pub proof fn lemma_a_window_takes_no_line_too_many(
    prefix: Seq<usize>,
    offset: int,
    viewport_h: int,
)
    requires
        is_row_map(prefix),
        prefix.len() > 0,
        0 <= offset,
        0 <= viewport_h,
    ensures
        ({
            let (start, end, residual) = window_of(prefix, offset, viewport_h);
            &&& start < end ==> prefix[end - 1] < offset + viewport_h
            &&& prefix[start] <= offset
            &&& start + 1 < prefix.len() ==> offset < prefix[start + 1]
        }),
{
    lemma_upto(prefix, offset);
    lemma_upto(prefix, capped_rows(offset, viewport_h) - 1);
}

} // verus!
